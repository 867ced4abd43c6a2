use vstd::prelude::*;

use crate::command::{
    calls_since, commands_view, continues, Call, CommandError, CommandOutput, CommandRunner, CommandSpec,
    CommandSpecView, Session,
};
use crate::execution::execution_error::ExecutionError;

verus! {

/// How a reply of the runner is judged: a runner error or an exit status
/// other than `Some(0)` is a failure; otherwise the output is accepted.
pub open spec fn reply_outcome(reply: Result<CommandOutput, CommandError>) -> Result<CommandOutput, ExecutionError> {
    match reply {
        Err(e) => Err(ExecutionError::CommandError(e)),
        Ok(output) => if output.status == Some(0i32) {
            Ok(output)
        } else {
            Err(ExecutionError::CommandFailed { status: output.status, stderr: output.stderr })
        },
    }
}

/// `calls` is how running `script` in `directory` went: the calls hand
/// over the script's commands in order, all in `directory`, and they stop
/// exactly at the first failing reply or at the end of the script.
pub open spec fn follows_script(calls: Seq<Call>, script: Seq<CommandSpecView>, directory: Seq<char>) -> bool {
    &&& calls.len() <= script.len()
    &&& forall|i: int| 0 <= i < calls.len() ==> (#[trigger] calls[i]).command == script[i] && calls[i].directory == directory
    &&& forall|i: int| 0 <= i < calls.len() - 1 ==> reply_outcome((#[trigger] calls[i]).reply) is Ok
    &&& calls.len() < script.len() ==> calls.len() > 0 && reply_outcome(calls.last().reply) is Err
}

/// The accepted outputs of `calls`, in order.
pub open spec fn accepted_outputs(calls: Seq<Call>) -> Seq<CommandOutput> {
    calls.map_values(|c: Call| reply_outcome(c.reply)->Ok_0)
}

/// What running a script reports, given the calls it made: the error of the
/// last call when that call failed, else all outputs.
pub open spec fn script_outcome(calls: Seq<Call>) -> Result<Seq<CommandOutput>, ExecutionError> {
    if calls.len() > 0 && reply_outcome(calls.last().reply) is Err {
        Err(reply_outcome(calls.last().reply)->Err_0)
    } else {
        Ok(accepted_outputs(calls))
    }
}

/// The run of `script` in `directory` that made `calls` reports `result`.
pub open spec fn ran_script(
    calls: Seq<Call>,
    script: Seq<CommandSpecView>,
    directory: Seq<char>,
    result: Result<Seq<CommandOutput>, ExecutionError>,
) -> bool {
    &&& follows_script(calls, script, directory)
    &&& result == script_outcome(calls)
}

/// The model of what [`run_script`] returns.
pub open spec fn outputs_view(result: Result<Vec<CommandOutput>, ExecutionError>) -> Result<Seq<CommandOutput>, ExecutionError> {
    match result {
        Ok(outputs) => Ok(outputs@),
        Err(e) => Err(e),
    }
}

/// Judges one reply of the runner.
pub fn check_reply(reply: Result<CommandOutput, CommandError>) -> (result: Result<CommandOutput, ExecutionError>)
    ensures
        result == reply_outcome(reply),
{
    match reply {
        Err(e) => Err(ExecutionError::CommandError(e)),
        Ok(output) => match output.status {
            Some(0) => Ok(output),
            _ => Err(ExecutionError::CommandFailed { status: output.status, stderr: output.stderr }),
        },
    }
}

/// Runs the commands of `script` one after the other in `directory`, and
/// stops at the first one that fails. The calls made through `session` are
/// exactly those of the run.
pub fn run_script<'a, R: CommandRunner>(session: &mut Session<'a, R>, script: &Vec<CommandSpec>, directory: &str) -> (result: Result<Vec<CommandOutput>, ExecutionError>)
    ensures
        continues(*old(session), *final(session)),
        ran_script(calls_since(*old(session), *final(session)), commands_view(script@), directory@, outputs_view(result)),
{
    let ghost start = session.calls();
    let ghost mut calls: Seq<Call> = seq![];
    let mut outputs: Vec<CommandOutput> = Vec::new();
    let mut i: usize = 0;
    while i < script.len()
        invariant
            i <= script.len(),
            calls.len() == i,
            session.runner() == old(session).runner(),
            start == old(session).calls(),
            session.calls() == start + calls,
            forall|k: int|
                start.len() <= k < session.calls().len() ==> session.runner().answers(
                    (#[trigger] session.calls()[k]).command,
                    session.calls()[k].directory,
                    session.calls()[k].reply,
                ),
            forall|j: int| 0 <= j < i ==> (#[trigger] calls[j]).command == script@[j]@ && calls[j].directory == directory@,
            forall|j: int| 0 <= j < i ==> reply_outcome((#[trigger] calls[j]).reply) is Ok,
            outputs@ == accepted_outputs(calls),
        decreases script.len() - i,
    {
        let reply = session.run(&script[i], directory);
        proof {
            calls = calls.push(Call { command: script@[i as int]@, directory: directory@, reply });
            assert(session.calls() =~= start + calls);
            assert(session.calls()[session.calls().len() - 1] == calls.last());
        }
        match check_reply(reply) {
            Ok(output) => {
                outputs.push(output);
                assert(outputs@ =~= accepted_outputs(calls));
            },
            Err(e) => {
                let result: Result<Vec<CommandOutput>, ExecutionError> = Err(e);
                assert(calls_since(*old(session), *session) =~= calls);
                assert(session.calls().take(start.len() as int) =~= start);
                assert(ran_script(calls, commands_view(script@), directory@, outputs_view(result)));
                return result;
            },
        }
        i = i + 1;
    }
    let result: Result<Vec<CommandOutput>, ExecutionError> = Ok(outputs);
    assert(calls_since(*old(session), *session) =~= calls);
    assert(session.calls().take(start.len() as int) =~= start);
    assert(ran_script(calls, commands_view(script@), directory@, outputs_view(result)));
    result
}

/// A script stops only at a failing command. When its run reports success,
/// every command of the script ran and was accepted; when it reports an
/// error, that is the error of the last call, and every earlier call was
/// accepted.
pub proof fn lemma_script_stops_at_first_failure(calls: Seq<Call>, script: Seq<CommandSpecView>, directory: Seq<char>)
    requires
        follows_script(calls, script, directory),
    ensures
        script_outcome(calls) is Ok ==> {
            &&& calls.len() == script.len()
            &&& forall|i: int| 0 <= i < calls.len() ==> reply_outcome((#[trigger] calls[i]).reply) is Ok
        },
        script_outcome(calls) is Err ==> {
            &&& calls.len() > 0
            &&& forall|i: int| 0 <= i < calls.len() - 1 ==> reply_outcome((#[trigger] calls[i]).reply) is Ok
            &&& reply_outcome(calls.last().reply)->Err_0 == script_outcome(calls)->Err_0
        },
{
    if script_outcome(calls) is Ok && calls.len() > 0 {
        assert(reply_outcome(calls[calls.len() - 1].reply) is Ok);
    }
}

} // verus!
