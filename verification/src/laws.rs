//! What the library's operations are for, stated over their inputs and
//! results, independently of how the operations and their contracts are
//! written.
use vstd::prelude::*;

use crate::command::{calls_since, continues, Call, CommandError, CommandOutput, CommandRunner, CommandSpecView, Session};
use crate::execution::commit::{commit_id, is_blank, trim_end, trim_start};
use crate::execution::execution_error::ExecutionError;
use crate::execution::script::{follows_script, lemma_script_stops_at_first_failure, reply_outcome, script_outcome};
use crate::execution::{
    deploy_script_view, deployed, lemma_deploy_order, opened, pull_script_view, pulled, DeploymentPlan, Execution, NeedsPull,
    PullOutcome,
};
use crate::configuration::{describes, RepositoryConfiguration};
use crate::repository::{
    admits, failures_of, handled, lemma_no_failures_iff_all_succeeded, ran_all, Repository, RepositoryFailure, RepositoryTrace,
};

verus! {

/// The reply of a command that ran and exited with status 0.
pub open spec fn clean(reply: Result<CommandOutput, CommandError>) -> bool {
    reply matches Ok(output) && output.status == Some(0i32)
}

/// The error that a reply which is not clean is reported as: the runner's
/// own error, or the exit status and error output of the command.
pub open spec fn failure_of(reply: Result<CommandOutput, CommandError>) -> ExecutionError {
    match reply {
        Err(e) => ExecutionError::CommandError(e),
        Ok(output) => ExecutionError::CommandFailed { status: output.status, stderr: output.stderr },
    }
}

/// What the command of a call printed.
pub open spec fn printed(call: Call) -> Seq<char> {
    call.reply->Ok_0.stdout@
}

/// `git rev-parse HEAD`, `git pull`, `git rev-parse HEAD`: the `i`-th
/// command of a pull.
pub open spec fn pull_command(i: int) -> CommandSpecView {
    if i == 1 {
        CommandSpecView { program: "git"@, args: seq!["pull"@] }
    } else {
        CommandSpecView { program: "git"@, args: seq!["rev-parse"@, "HEAD"@] }
    }
}

/// The calls of a pull in `directory`: at most three, the `i`-th being the
/// `i`-th command of a pull, all in `directory`, and all but the last clean.
pub open spec fn pull_calls(calls: Seq<Call>, directory: Seq<char>) -> bool {
    &&& calls.len() <= 3
    &&& forall|i: int| 0 <= i < calls.len() ==> (#[trigger] calls[i]).command == pull_command(i) && calls[i].directory == directory
    &&& forall|i: int| 0 <= i < calls.len() - 1 ==> clean((#[trigger] calls[i]).reply)
}

/// All three commands of a pull ran and exited with status 0.
pub open spec fn pull_completed(calls: Seq<Call>) -> bool {
    calls.len() == 3 && clean(calls[0].reply) && clean(calls[1].reply) && clean(calls[2].reply)
}

/// A reply is accepted exactly when the command ran and exited with status
/// 0; an accepted reply gives the command's output unchanged, and any other
/// reply gives its failure.
pub proof fn law_reply_judgement(reply: Result<CommandOutput, CommandError>)
    ensures
        clean(reply) ==> reply_outcome(reply) == Ok::<CommandOutput, ExecutionError>(reply->Ok_0),
        !clean(reply) ==> reply_outcome(reply) == Err::<CommandOutput, ExecutionError>(failure_of(reply)),
{
}

/// A pull reads `HEAD`, runs `git pull` and reads `HEAD` again in the
/// repository's directory, stopping at the first call that is not clean.
/// It succeeds exactly when all three calls were clean, and then finds the
/// repository up to date exactly when both reads name the same commit;
/// otherwise it reports the failure of its last call.
pub proof fn law_pull(calls: Seq<Call>, directory: Seq<char>, result: Result<PullOutcome, ExecutionError>)
    requires
        pulled(calls, directory, result),
    ensures
        pull_calls(calls, directory),
        result is Ok <==> pull_completed(calls),
        result matches Err(e) ==> calls.len() > 0 && !clean(calls.last().reply) && e == failure_of(calls.last().reply),
        result matches Ok(outcome) ==> (outcome is UpToDate <==> commit_id(printed(calls[0])) == commit_id(printed(calls[2]))),
        result matches Ok(PullOutcome::Updated(ready)) ==> ready.directory@ == directory,
{
    lemma_script_stops_at_first_failure(calls, pull_script_view(), directory);
    assert forall|i: int| 0 <= i < calls.len() implies (#[trigger] calls[i]).command == pull_command(i) && calls[i].directory == directory by {
        assert(pull_script_view()[i] == pull_command(i));
    }
    if script_outcome(calls) is Ok {
        assert(reply_outcome(calls[0].reply) is Ok);
        assert(reply_outcome(calls[1].reply) is Ok);
        assert(reply_outcome(calls[2].reply) is Ok);
    }
}

/// `docker compose down`
pub open spec fn compose_down() -> CommandSpecView {
    CommandSpecView { program: "docker"@, args: seq!["compose"@, "down"@] }
}

/// `docker compose up -d --build`
pub open spec fn compose_up() -> CommandSpecView {
    CommandSpecView { program: "docker"@, args: seq!["compose"@, "up"@, "-d"@, "--build"@] }
}

/// How many commands a complete deployment by `plan` runs.
pub open spec fn deployment_length(plan: DeploymentPlan) -> int {
    plan.after_pull@.len() + (if plan.compose_down { 1int } else { 0int }) + plan.before_up@.len() + 1 + plan.after_up@.len()
}

/// The calls of a deployment by `plan` in `directory`: all in `directory`,
/// all but the last clean, and each command where the plan puts it: the
/// `after_pull` commands, `docker compose down` when the plan asks for it,
/// the `before_up` commands, `docker compose up -d --build`, and the
/// `after_up` commands.
pub open spec fn deployment_calls(calls: Seq<Call>, plan: DeploymentPlan, directory: Seq<char>) -> bool {
    let a = plan.after_pull@.len() as int;
    let d: int = if plan.compose_down { 1 } else { 0 };
    let b = plan.before_up@.len() as int;
    let c = plan.after_up@.len() as int;
    &&& calls.len() <= deployment_length(plan)
    &&& forall|i: int| 0 <= i < calls.len() ==> (#[trigger] calls[i]).directory == directory
    &&& forall|i: int| 0 <= i < calls.len() - 1 ==> clean((#[trigger] calls[i]).reply)
    &&& forall|i: int| 0 <= i < a && i < calls.len() ==> calls[i].command == (#[trigger] plan.after_pull@[i])@
    &&& plan.compose_down && a < calls.len() ==> calls[a].command == compose_down()
    &&& forall|i: int| 0 <= i < b && a + d + i < calls.len() ==> calls[a + d + i].command == (#[trigger] plan.before_up@[i])@
    &&& a + d + b < calls.len() ==> calls[a + d + b].command == compose_up()
    &&& forall|i: int| 0 <= i < c && a + d + b + 1 + i < calls.len() ==> calls[a + d + b + 1 + i].command == (#[trigger] plan.after_up@[i])@
}

/// Every command of the deployment by `plan` ran and exited with status 0.
pub open spec fn deployment_completed(calls: Seq<Call>, plan: DeploymentPlan) -> bool {
    &&& calls.len() == deployment_length(plan)
    &&& forall|i: int| 0 <= i < calls.len() ==> clean((#[trigger] calls[i]).reply)
}

/// A deployment runs the commands of its plan in order in the
/// repository's directory, stopping at the first call that is not clean.
/// It succeeds exactly when every command of the plan ran clean, and
/// otherwise reports the failure of its last call.
pub proof fn law_deploy(calls: Seq<Call>, plan: DeploymentPlan, directory: Seq<char>, result: Result<(), ExecutionError>)
    requires
        deployed(calls, plan, directory, result),
    ensures
        deployment_calls(calls, plan, directory),
        result is Ok <==> deployment_completed(calls, plan),
        result matches Err(e) ==> calls.len() > 0 && !clean(calls.last().reply) && e == failure_of(calls.last().reply),
{
    let script = deploy_script_view(plan);
    lemma_deploy_order(plan);
    lemma_script_stops_at_first_failure(calls, script, directory);
    let a = plan.after_pull@.len() as int;
    let d: int = if plan.compose_down { 1 } else { 0 };
    let b = plan.before_up@.len() as int;
    let c = plan.after_up@.len() as int;
    assert forall|i: int| 0 <= i < a && i < calls.len() implies calls[i].command == (#[trigger] plan.after_pull@[i])@ by {
        assert(calls[i].command == script[i]);
    }
    if plan.compose_down && a < calls.len() {
        assert(calls[a].command == script[a]);
    }
    assert forall|i: int| 0 <= i < b && a + d + i < calls.len() implies calls[a + d + i].command == (#[trigger] plan.before_up@[i])@ by {
        assert(calls[a + d + i].command == script[a + d + i]);
    }
    if a + d + b < calls.len() {
        assert(calls[a + d + b].command == script[a + d + b]);
    }
    assert forall|i: int| 0 <= i < c && a + d + b + 1 + i < calls.len() implies calls[a + d + b + 1 + i].command == (#[trigger] plan.after_up@[i])@ by {
        assert(calls[a + d + b + 1 + i].command == script[a + d + b + 1 + i]);
    }
    if script_outcome(calls) is Ok {
        assert forall|i: int| 0 <= i < calls.len() implies clean((#[trigger] calls[i]).reply) by {
            assert(reply_outcome(calls[i].reply) is Ok);
        }
    } else {
        assert(!clean(calls.last().reply));
    }
    if deployment_completed(calls, plan) {
        assert(clean(calls[calls.len() - 1].reply));
    }
}

/// How one repository is handled. A path that is no directory gets no
/// runner call and is reported as `InvalidDirectory`. Otherwise the
/// repository is pulled; a pull that does not complete ends the work with
/// its failure and nothing is deployed; a pull that finds `HEAD` unchanged
/// is a success without deployment; and a pull that finds `HEAD` moved is
/// followed by the deployment of the repository's own plan, whose result is
/// the repository's result.
pub proof fn law_repository(repository: Repository, trace: RepositoryTrace, outcome: Result<(), ExecutionError>)
    requires
        handled(repository, trace, outcome),
    ensures
        !trace.is_directory ==> {
            &&& trace.pull_calls.len() == 0
            &&& trace.deploy_calls.len() == 0
            &&& outcome matches Err(ExecutionError::InvalidDirectory(p)) && p@ == repository.directory@
        },
        trace.is_directory ==> pull_calls(trace.pull_calls, repository.directory@),
        trace.is_directory && !pull_completed(trace.pull_calls) ==> {
            &&& trace.pull_calls.len() > 0
            &&& trace.deploy_calls.len() == 0
            &&& outcome matches Err(e) && e == failure_of(trace.pull_calls.last().reply)
        },
        trace.is_directory && pull_completed(trace.pull_calls) && commit_id(printed(trace.pull_calls[0])) == commit_id(
            printed(trace.pull_calls[2]),
        ) ==> trace.deploy_calls.len() == 0 && outcome is Ok,
        trace.is_directory && pull_completed(trace.pull_calls) && commit_id(printed(trace.pull_calls[0])) != commit_id(
            printed(trace.pull_calls[2]),
        ) ==> {
            &&& deployment_calls(trace.deploy_calls, repository.deployment_plan, repository.directory@)
            &&& (outcome is Ok <==> deployment_completed(trace.deploy_calls, repository.deployment_plan))
            &&& (outcome matches Err(e) ==> trace.deploy_calls.len() > 0 && e == failure_of(trace.deploy_calls.last().reply))
        },
{
    let directory = repository.directory@;
    if trace.is_directory {
        let calls = trace.pull_calls;
        lemma_script_stops_at_first_failure(calls, pull_script_view(), directory);
        assert forall|i: int| 0 <= i < calls.len() implies (#[trigger] calls[i]).command == pull_command(i) && calls[i].directory == directory by {
            assert(pull_script_view()[i] == pull_command(i));
        }
        if script_outcome(calls) is Ok {
            assert(reply_outcome(calls[0].reply) is Ok);
            assert(reply_outcome(calls[1].reply) is Ok);
            assert(reply_outcome(calls[2].reply) is Ok);
            let outputs = script_outcome(calls)->Ok_0;
            assert(outputs[0] == calls[0].reply->Ok_0);
            assert(outputs[2] == calls[2].reply->Ok_0);
            if commit_id(outputs[0].stdout@) != commit_id(outputs[2].stdout@) {
                assert(deployed(trace.deploy_calls, repository.deployment_plan, directory, outcome));
                law_deploy(trace.deploy_calls, repository.deployment_plan, directory, outcome);
            }
        } else {
            assert(!clean(calls.last().reply));
        }
    }
}

/// The failures of a run: none before any repository is handled; a
/// repository that succeeds adds none; a repository that fails adds one
/// failure, after the earlier ones, with its directory and its error.
pub proof fn law_failures(
    repositories: Seq<Repository>,
    outcomes: Seq<Result<(), ExecutionError>>,
    outcome: Result<(), ExecutionError>,
)
    requires
        outcomes.len() < repositories.len(),
    ensures
        failures_of(repositories, Seq::empty()) == Seq::<RepositoryFailure>::empty(),
        outcome is Ok ==> failures_of(repositories, outcomes.push(outcome)) == failures_of(repositories, outcomes),
        outcome matches Err(e) ==> failures_of(repositories, outcomes.push(outcome)) == failures_of(repositories, outcomes).push(
            RepositoryFailure { directory: repositories[outcomes.len() as int].directory, error: e },
        ),
{
    assert(outcomes.push(outcome).drop_last() =~= outcomes);
}

/// The repository that a configuration entry describes has the entry's
/// directory and `compose_down` setting, and each of its hook lists holds
/// exactly the entry's commands of that list, in order.
pub proof fn law_configuration(configuration: RepositoryConfiguration, repository: Repository)
    requires
        describes(configuration, repository),
    ensures
        repository.directory == configuration.directory,
        repository.deployment_plan.compose_down == configuration.compose_down,
        repository.deployment_plan.after_pull@.len() == configuration.after_pull@.len(),
        forall|i: int| 0 <= i < configuration.after_pull@.len() ==> {
            &&& (#[trigger] repository.deployment_plan.after_pull@[i]).program@ == configuration.after_pull@[i].program@
            &&& repository.deployment_plan.after_pull@[i].args.deep_view() == configuration.after_pull@[i].args.deep_view()
        },
        repository.deployment_plan.before_up@.len() == configuration.before_up@.len(),
        forall|i: int| 0 <= i < configuration.before_up@.len() ==> {
            &&& (#[trigger] repository.deployment_plan.before_up@[i]).program@ == configuration.before_up@[i].program@
            &&& repository.deployment_plan.before_up@[i].args.deep_view() == configuration.before_up@[i].args.deep_view()
        },
        repository.deployment_plan.after_up@.len() == configuration.after_up@.len(),
        forall|i: int| 0 <= i < configuration.after_up@.len() ==> {
            &&& (#[trigger] repository.deployment_plan.after_up@[i]).program@ == configuration.after_up@[i].program@
            &&& repository.deployment_plan.after_up@[i].args.deep_view() == configuration.after_up@[i].args.deep_view()
        },
{
    let plan = repository.deployment_plan;
    assert(crate::command::commands_view(plan.after_pull@).len() == plan.after_pull@.len());
    assert(crate::configuration::configured_commands(configuration.after_pull@).len() == configuration.after_pull@.len());
    assert(crate::command::commands_view(plan.before_up@).len() == plan.before_up@.len());
    assert(crate::configuration::configured_commands(configuration.before_up@).len() == configuration.before_up@.len());
    assert(crate::command::commands_view(plan.after_up@).len() == plan.after_up@.len());
    assert(crate::configuration::configured_commands(configuration.after_up@).len() == configuration.after_up@.len());
    assert forall|i: int| 0 <= i < configuration.after_pull@.len() implies {
        &&& (#[trigger] plan.after_pull@[i]).program@ == configuration.after_pull@[i].program@
        &&& plan.after_pull@[i].args.deep_view() == configuration.after_pull@[i].args.deep_view()
    } by {
        assert(crate::command::commands_view(plan.after_pull@)[i] == crate::configuration::configured_commands(configuration.after_pull@)[i]);
    }
    assert forall|i: int| 0 <= i < configuration.before_up@.len() implies {
        &&& (#[trigger] plan.before_up@[i]).program@ == configuration.before_up@[i].program@
        &&& plan.before_up@[i].args.deep_view() == configuration.before_up@[i].args.deep_view()
    } by {
        assert(crate::command::commands_view(plan.before_up@)[i] == crate::configuration::configured_commands(configuration.before_up@)[i]);
    }
    assert forall|i: int| 0 <= i < configuration.after_up@.len() implies {
        &&& (#[trigger] plan.after_up@[i]).program@ == configuration.after_up@[i].program@
        &&& plan.after_up@[i].args.deep_view() == configuration.after_up@[i].args.deep_view()
    } by {
        assert(crate::command::commands_view(plan.after_up@)[i] == crate::configuration::configured_commands(configuration.after_up@)[i]);
    }
}

/// A space, tab, line feed or carriage return.
pub open spec fn blank_char(c: char) -> bool {
    c == ' ' || c == '\t' || c == '\n' || c == '\r'
}

proof fn leading_blanks(s: Seq<char>) -> (start: int)
    ensures
        0 <= start <= s.len(),
        forall|k: int| 0 <= k < start ==> blank_char(#[trigger] s[k]),
        start == s.len() || !blank_char(s[start]),
        trim_start(s) == s.subrange(start, s.len() as int),
    decreases s.len(),
{
    if s.len() > 0 && is_blank(s[0]) {
        let rest = s.drop_first();
        let j = leading_blanks(rest);
        assert forall|k: int| 0 <= k < j + 1 implies blank_char(#[trigger] s[k]) by {
            if k > 0 {
                assert(s[k] == rest[k - 1]);
            }
        }
        if j < rest.len() {
            assert(s[j + 1] == rest[j]);
        }
        assert(rest.subrange(j, rest.len() as int) =~= s.subrange(j + 1, s.len() as int));
        j + 1
    } else {
        assert(s.subrange(0, s.len() as int) =~= s);
        0
    }
}

proof fn trailing_blanks(s: Seq<char>) -> (end: int)
    ensures
        0 <= end <= s.len(),
        forall|k: int| end <= k < s.len() ==> blank_char(#[trigger] s[k]),
        end == 0 || !blank_char(s[end - 1]),
        trim_end(s) == s.subrange(0, end),
    decreases s.len(),
{
    if s.len() > 0 && is_blank(s.last()) {
        let rest = s.drop_last();
        let j = trailing_blanks(rest);
        assert forall|k: int| j <= k < s.len() implies blank_char(#[trigger] s[k]) by {
            if k < rest.len() {
                assert(s[k] == rest[k]);
            }
        }
        if j > 0 {
            assert(s[j - 1] == rest[j - 1]);
        }
        assert(rest.subrange(0, j) =~= s.subrange(0, j));
        j
    } else {
        assert(s.subrange(0, s.len() as int) =~= s);
        s.len() as int
    }
}

/// The commit id read from an output of `git rev-parse HEAD` is the output
/// without its leading and trailing blanks: a stretch of the output that
/// neither starts nor ends with a blank, with only blanks before and after.
pub proof fn law_commit_id(output: Seq<char>)
    ensures
        exists|start: int, end: int| {
            &&& 0 <= start <= end <= output.len()
            &&& #[trigger] output.subrange(start, end) == commit_id(output)
            &&& forall|k: int| 0 <= k < start ==> blank_char(#[trigger] output[k])
            &&& forall|k: int| end <= k < output.len() ==> blank_char(#[trigger] output[k])
            &&& start < end ==> !blank_char(output[start]) && !blank_char(output[end - 1])
        },
{
    let start = leading_blanks(output);
    let rest = output.subrange(start, output.len() as int);
    let j = trailing_blanks(rest);
    let end = start + j;
    assert(rest.subrange(0, j) =~= output.subrange(start, end));
    assert forall|k: int| end <= k < output.len() implies blank_char(#[trigger] output[k]) by {
        assert(output[k] == rest[k - start]);
    }
    if start < end {
        assert(output[start] == rest[0]);
        assert(output[end - 1] == rest[j - 1]);
    }
    assert(output.subrange(start, end) == commit_id(output));
}

/// Opening a repository path succeeds exactly when the path names a
/// directory; the execution keeps the path as given, and a refusal names
/// the path.
pub proof fn law_open(path: Seq<char>, is_directory: bool, result: Result<Execution<NeedsPull>, ExecutionError>)
    requires
        opened(path, is_directory, result),
    ensures
        result is Ok <==> is_directory,
        result matches Ok(execution) ==> execution.directory@ == path,
        result matches Err(e) ==> (e matches ExecutionError::InvalidDirectory(p) && p@ == path),
{
}

/// A run handles every repository, in order: its calls are the calls of the
/// repositories one after the other, each block of calls being those of
/// one handling of its repository (`admits`: some `trace` with
/// `handled(repository, trace, outcome)`, as `law_repository` describes); it succeeds exactly when every repository
/// succeeded, and otherwise reports the failures as `law_failures` builds
/// them.
pub proof fn law_run(
    repositories: Seq<Repository>,
    blocks: Seq<Seq<Call>>,
    outcomes: Seq<Result<(), ExecutionError>>,
    calls: Seq<Call>,
    result: Result<(), Vec<RepositoryFailure>>,
)
    requires
        ran_all(repositories, blocks, outcomes, calls, result),
    ensures
        outcomes.len() == repositories.len(),
        blocks.len() == repositories.len(),
        calls == blocks.flatten(),
        forall|i: int|
            0 <= i < repositories.len() ==> #[trigger] admits(repositories[i], blocks[i], outcomes[i]),
        result is Ok <==> forall|i: int| 0 <= i < outcomes.len() ==> (#[trigger] outcomes[i]) is Ok,
        result matches Err(failures) ==> failures@ == failures_of(repositories, outcomes),
{
    lemma_no_failures_iff_all_succeeded(repositories, outcomes);
}

/// The calls of a session after more calls are its earlier calls followed
/// by the new ones, made on the same runner.
pub proof fn law_session<'a, R: CommandRunner>(before: Session<'a, R>, after: Session<'a, R>)
    requires
        continues(before, after),
    ensures
        after.runner() == before.runner(),
        after.calls() == before.calls() + calls_since(before, after),
{
    assert(after.calls() =~= after.calls().take(before.calls().len() as int) + calls_since(before, after));
}

} // verus!
