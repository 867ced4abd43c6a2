use vstd::prelude::*;

pub mod commit;
pub mod execution_error;
pub mod script;

use std::marker::PhantomData;

use crate::command::{
    calls_since, command_of, commands_view, continues, Call, CommandOutput, CommandRunner, CommandSpec,
    CommandSpecView, Session,
};
use crate::execution::commit::{commit_id, head_moved};
use crate::execution::execution_error::ExecutionError;
use crate::execution::script::{
    follows_script, lemma_script_stops_at_first_failure, outputs_view, reply_outcome, run_script, script_outcome,
};

verus! {

/// Marks an [`Execution`] whose repository has not been pulled yet.
#[derive(Debug)]
pub struct NeedsPull;

/// Marks an [`Execution`] whose pull brought a new commit.
#[derive(Debug)]
pub struct NeedsDeploy;

/// Work on one repository directory; `State` says which step comes next.
#[derive(Debug)]
pub struct Execution<State> {
    pub state: PhantomData<State>,
    pub directory: String,
}

/// The commands that surround a deployment.
#[derive(Debug)]
pub struct DeploymentPlan {
    /// Whether `docker compose down` runs before the project is brought up.
    pub compose_down: bool,
    /// Run first, right after the pull.
    pub after_pull: Vec<CommandSpec>,
    /// Run after `docker compose down` and before `docker compose up`.
    pub before_up: Vec<CommandSpec>,
    /// Run last, after `docker compose up`.
    pub after_up: Vec<CommandSpec>,
}

impl Default for DeploymentPlan {
    fn default() -> (plan: Self)
        ensures
            !plan.compose_down,
            plan.after_pull@.len() == 0,
            plan.before_up@.len() == 0,
            plan.after_up@.len() == 0,
    {
        DeploymentPlan { compose_down: false, after_pull: Vec::new(), before_up: Vec::new(), after_up: Vec::new() }
    }
}

/// What a pull found.
#[derive(Debug)]
pub enum PullOutcome {
    /// `HEAD` names the same commit as before the pull.
    UpToDate,
    /// `HEAD` moved: the repository is ready to be deployed.
    Updated(Execution<NeedsDeploy>),
}

/// `git rev-parse HEAD`
pub open spec fn head_command() -> CommandSpecView {
    command_of("git"@, seq!["rev-parse"@, "HEAD"@])
}

/// `git pull`
pub open spec fn git_pull_command() -> CommandSpecView {
    command_of("git"@, seq!["pull"@])
}

/// `docker compose down`
pub open spec fn compose_down_command() -> CommandSpecView {
    command_of("docker"@, seq!["compose"@, "down"@])
}

/// `docker compose up -d --build`
pub open spec fn compose_up_command() -> CommandSpecView {
    command_of("docker"@, seq!["compose"@, "up"@, "-d"@, "--build"@])
}

/// A pull reads `HEAD`, pulls, and reads `HEAD` again.
pub open spec fn pull_script_view() -> Seq<CommandSpecView> {
    seq![head_command(), git_pull_command(), head_command()]
}

/// A deployment runs the `after_pull` commands, `docker compose down` when
/// the plan asks for it, the `before_up` commands, `docker compose up`, and
/// the `after_up` commands, in this order.
pub open spec fn deploy_script_view(plan: DeploymentPlan) -> Seq<CommandSpecView> {
    commands_view(plan.after_pull@)
        + (if plan.compose_down { seq![compose_down_command()] } else { Seq::empty() })
        + commands_view(plan.before_up@)
        + seq![compose_up_command()]
        + commands_view(plan.after_up@)
}

/// `outcome` is what a pull of `directory` finds when `HEAD` read `before`
/// and then `after`.
pub open spec fn decides(outcome: PullOutcome, directory: Seq<char>, before: Seq<char>, after: Seq<char>) -> bool {
    if commit_id(before) == commit_id(after) {
        outcome is UpToDate
    } else {
        outcome matches PullOutcome::Updated(ready) && ready.directory@ == directory
    }
}

/// The pull of `directory` that made `calls` returns `result`.
pub open spec fn pulled(calls: Seq<Call>, directory: Seq<char>, result: Result<PullOutcome, ExecutionError>) -> bool {
    &&& follows_script(calls, pull_script_view(), directory)
    &&& match script_outcome(calls) {
        Err(e) => result matches Err(r) && r == e,
        Ok(outputs) => result matches Ok(outcome) && decides(outcome, directory, outputs[0].stdout@, outputs[2].stdout@),
    }
}

/// The deployment of `directory` by `plan` that made `calls` returns
/// `result`.
pub open spec fn deployed(calls: Seq<Call>, plan: DeploymentPlan, directory: Seq<char>, result: Result<(), ExecutionError>) -> bool {
    &&& follows_script(calls, deploy_script_view(plan), directory)
    &&& match script_outcome(calls) {
        Err(e) => result matches Err(r) && r == e,
        Ok(_) => result is Ok,
    }
}

/// `result` is how opening `path` ends when the path is, or is not, a
/// directory.
pub open spec fn opened(path: Seq<char>, is_directory: bool, result: Result<Execution<NeedsPull>, ExecutionError>) -> bool {
    if is_directory {
        result matches Ok(execution) && execution.directory@ == path
    } else {
        result matches Err(ExecutionError::InvalidDirectory(p)) && p@ == path
    }
}

/// The file system, asked through `std::path::Path::is_dir` whether `path`
/// names a directory, answered `is_directory`. This only records that such
/// an answer was given: asked again, the file system may answer otherwise,
/// so nothing relates two answers for one path.
pub uninterp spec fn directory_query_answered(path: Seq<char>, is_directory: bool) -> bool;

/// Asks the file system whether `path` names a directory, through
/// `std::path::Path::is_dir`. The answer depends on the disk at the time of
/// the call; the contract only records which path was asked about and what
/// came back.
#[verifier::external_body]
fn path_is_directory(path: &str) -> (is_directory: bool)
    ensures
        directory_query_answered(path@, is_directory),
{
    std::path::Path::new(path).is_dir()
}

/// The commands of a pull.
pub fn pull_script() -> (script: Vec<CommandSpec>)
    ensures
        commands_view(script@) == pull_script_view(),
{
    let head = CommandSpec {
        program: String::from_str("git"),
        args: vec![String::from_str("rev-parse"), String::from_str("HEAD")],
    };
    let pull = CommandSpec { program: String::from_str("git"), args: vec![String::from_str("pull")] };
    assert(head.args.deep_view() =~= seq!["rev-parse"@, "HEAD"@]);
    assert(pull.args.deep_view() =~= seq!["pull"@]);
    let script = vec![head.copy(), pull, head];
    assert(commands_view(script@) =~= pull_script_view());
    script
}

/// Appends copies of `commands` to `script`.
fn append_commands(script: &mut Vec<CommandSpec>, commands: &Vec<CommandSpec>)
    ensures
        commands_view(final(script)@) == commands_view(old(script)@) + commands_view(commands@),
{
    let ghost start = script@;
    for i in 0..commands.len()
        invariant
            script@.len() == start.len() + i,
            forall|k: int| 0 <= k < start.len() ==> #[trigger] script@[k] == start[k],
            forall|k: int| 0 <= k < i ==> (#[trigger] script@[start.len() + k])@ == commands@[k]@,
    {
        script.push(commands[i].copy());
    }
    let ghost joined = commands_view(start) + commands_view(commands@);
    assert(script@.len() == start.len() + commands@.len());
    assert forall|k: int| 0 <= k < script@.len() implies #[trigger] commands_view(script@)[k] == joined[k] by {
        if k >= start.len() {
            let j = k - start.len();
            assert(script@[start.len() + j]@ == commands@[j]@);
        }
    }
    assert(commands_view(script@) =~= joined);
}

/// The commands of a deployment by `plan`.
pub fn deploy_script(plan: &DeploymentPlan) -> (script: Vec<CommandSpec>)
    ensures
        commands_view(script@) == deploy_script_view(*plan),
{
    let mut script: Vec<CommandSpec> = Vec::new();
    append_commands(&mut script, &plan.after_pull);
    if plan.compose_down {
        let down = CommandSpec {
            program: String::from_str("docker"),
            args: vec![String::from_str("compose"), String::from_str("down")],
        };
        assert(down.args.deep_view() =~= seq!["compose"@, "down"@]);
        script.push(down);
    }
    append_commands(&mut script, &plan.before_up);
    let up = CommandSpec {
        program: String::from_str("docker"),
        args: vec![
            String::from_str("compose"),
            String::from_str("up"),
            String::from_str("-d"),
            String::from_str("--build"),
        ],
    };
    assert(up.args.deep_view() =~= seq!["compose"@, "up"@, "-d"@, "--build"@]);
    let ghost before_up = script@;
    script.push(up);
    assert(commands_view(script@) =~= commands_view(before_up) + seq![compose_up_command()]);
    append_commands(&mut script, &plan.after_up);
    assert(commands_view(script@) =~= deploy_script_view(*plan));
    script
}

impl Execution<NeedsPull> {
    /// Starts work on the repository at `path`, which must be a directory.
    pub fn new(path: &str) -> (result: Result<Self, ExecutionError>)
        ensures
            directory_query_answered(path@, result is Ok),
            opened(path@, result is Ok, result),
    {
        let is_directory = path_is_directory(path);
        Self::for_directory(path, is_directory)
    }

    /// Starts work on the repository at `path`, given whether the path
    /// names a directory.
    pub fn for_directory(path: &str, is_directory: bool) -> (result: Result<Self, ExecutionError>)
        ensures
            opened(path@, is_directory, result),
    {
        if is_directory {
            Ok(Execution { state: PhantomData, directory: String::from_str(path) })
        } else {
            Err(ExecutionError::InvalidDirectory(String::from_str(path)))
        }
    }

    /// Decides the outcome of a pull from what `git rev-parse HEAD` printed
    /// before and after it.
    pub fn pull_outcome(&self, before: &CommandOutput, after: &CommandOutput) -> (outcome: PullOutcome)
        ensures
            decides(outcome, self.directory@, before.stdout@, after.stdout@),
    {
        if head_moved(before.stdout.as_str(), after.stdout.as_str()) {
            PullOutcome::Updated(Execution { state: PhantomData, directory: self.directory.clone() })
        } else {
            PullOutcome::UpToDate
        }
    }

    /// Pulls the repository through `session` and reports whether `HEAD`
    /// moved. The calls made through `session` are exactly those of the
    /// pull.
    pub fn pull<'a, R: CommandRunner>(&self, session: &mut Session<'a, R>) -> (result: Result<PullOutcome, ExecutionError>)
        ensures
            continues(*old(session), *final(session)),
            pulled(calls_since(*old(session), *final(session)), self.directory@, result),
    {
        let script = pull_script();
        let ran = run_script(session, &script, self.directory.as_str());
        match ran {
            Err(e) => Err(e),
            Ok(outputs) => {
                assert(outputs@.len() == 3);
                Ok(self.pull_outcome(&outputs[0], &outputs[2]))
            },
        }
    }
}

impl Execution<NeedsDeploy> {
    /// Deploys the repository through `session` as `plan` says. The calls
    /// made through `session` are exactly those of the deployment.
    pub fn deploy<'a, R: CommandRunner>(&self, session: &mut Session<'a, R>, plan: &DeploymentPlan) -> (result: Result<(), ExecutionError>)
        ensures
            continues(*old(session), *final(session)),
            deployed(calls_since(*old(session), *final(session)), *plan, self.directory@, result),
    {
        let script = deploy_script(plan);
        match run_script(session, &script, self.directory.as_str()) {
            Err(e) => Err(e),
            Ok(_) => Ok(()),
        }
    }
}

/// The order of a deployment: the `after_pull` commands come first, then
/// `docker compose down` exactly when the plan asks for it, then the
/// `before_up` commands, then `docker compose up -d --build`, which every
/// deployment runs, and the `after_up` commands last.
pub proof fn lemma_deploy_order(plan: DeploymentPlan)
    ensures
        ({
            let script = deploy_script_view(plan);
            let a = plan.after_pull@.len() as int;
            let d: int = if plan.compose_down { 1 } else { 0 };
            let b = plan.before_up@.len() as int;
            let c = plan.after_up@.len() as int;
            &&& script.len() == a + d + b + 1 + c
            &&& forall|i: int| 0 <= i < a ==> script[i] == (#[trigger] plan.after_pull@[i])@
            &&& plan.compose_down ==> script[a] == compose_down_command()
            &&& forall|i: int| 0 <= i < b ==> script[a + d + i] == (#[trigger] plan.before_up@[i])@
            &&& script[a + d + b] == compose_up_command()
            &&& forall|i: int| 0 <= i < c ==> script[a + d + b + 1 + i] == (#[trigger] plan.after_up@[i])@
        }),
{
}

/// A pull that succeeds reads `HEAD`, runs `git pull` and reads `HEAD`
/// again, in this order and in the repository's directory, and it finds
/// the repository up to date exactly when both reads name the same commit.
pub proof fn lemma_pull_compares_head(calls: Seq<Call>, directory: Seq<char>, result: Result<PullOutcome, ExecutionError>)
    requires
        pulled(calls, directory, result),
    ensures
        result is Ok ==> {
            let before = reply_outcome(calls[0].reply)->Ok_0.stdout@;
            let after = reply_outcome(calls[2].reply)->Ok_0.stdout@;
            &&& calls.len() == 3
            &&& calls[0].command == head_command() && calls[1].command == git_pull_command() && calls[2].command == head_command()
            &&& calls[0].directory == directory && calls[1].directory == directory && calls[2].directory == directory
            &&& (result->Ok_0 is UpToDate <==> commit_id(before) == commit_id(after))
            &&& (result->Ok_0 matches PullOutcome::Updated(ready) ==> ready.directory@ == directory)
        },
{
    lemma_script_stops_at_first_failure(calls, pull_script_view(), directory);
}

} // verus!
