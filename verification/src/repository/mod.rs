use vstd::prelude::*;

use crate::command::{calls_since, continues, lemma_calls_since_join, Call, CommandRunner, Session};
use crate::execution::commit::commit_id;
use crate::execution::execution_error::ExecutionError;
use crate::execution::script::{follows_script, lemma_script_stops_at_first_failure, script_outcome};
use crate::execution::{
    deploy_script_view, deployed, directory_query_answered, pull_script_view, pulled, DeploymentPlan, Execution,
    PullOutcome,
};

verus! {

/// A repository that the manager keeps deployed.
#[derive(Debug)]
pub struct Repository {
    pub directory: String,
    pub deployment_plan: DeploymentPlan,
}

/// A repository whose run failed, and why.
#[derive(Debug)]
pub struct RepositoryFailure {
    pub directory: String,
    pub error: ExecutionError,
}

/// Pulls and, where needed, redeploys repositories.
pub struct RepositoryManager<'a, R> {
    session: Session<'a, R>,
}

/// How handling one repository went: whether its path named a directory,
/// and the runner calls of its pull and of its deployment.
pub struct RepositoryTrace {
    pub is_directory: bool,
    pub pull_calls: Seq<Call>,
    pub deploy_calls: Seq<Call>,
}

/// Handling `repository` went as `trace` says and ended with `outcome`.
/// Whether the path names a directory is what the file system answered when
/// asked about this path. A repository whose path is not a directory is neither pulled nor
/// deployed; one whose pull fails or finds `HEAD` unchanged is not
/// deployed; one whose `HEAD` moved is deployed by its plan.
pub open spec fn handled(repository: Repository, trace: RepositoryTrace, outcome: Result<(), ExecutionError>) -> bool {
    let directory = repository.directory@;
    &&& directory_query_answered(directory, trace.is_directory)
    &&& if !trace.is_directory {
        &&& trace.pull_calls.len() == 0
        &&& trace.deploy_calls.len() == 0
        &&& outcome matches Err(ExecutionError::InvalidDirectory(p)) && p@ == directory
    } else {
        &&& follows_script(trace.pull_calls, pull_script_view(), directory)
        &&& match script_outcome(trace.pull_calls) {
            Err(e) => trace.deploy_calls.len() == 0 && (outcome matches Err(r) && r == e),
            Ok(outputs) => if commit_id(outputs[0].stdout@) == commit_id(outputs[2].stdout@) {
                trace.deploy_calls.len() == 0 && outcome is Ok
            } else {
                &&& follows_script(trace.deploy_calls, deploy_script_view(repository.deployment_plan), directory)
                &&& match script_outcome(trace.deploy_calls) {
                    Err(e) => outcome matches Err(r) && r == e,
                    Ok(_) => outcome is Ok,
                }
            },
        }
    }
}

/// Handling `repository` made the runner calls `calls` and ended with
/// `outcome`: the calls are those of its pull followed by those of its
/// deployment, and only whether the path named a directory is left open.
pub open spec fn admits(repository: Repository, calls: Seq<Call>, outcome: Result<(), ExecutionError>) -> bool {
    exists|trace: RepositoryTrace| #[trigger] handled(repository, trace, outcome) && calls == trace.pull_calls + trace.deploy_calls
}

/// The failures among `outcomes`, each with the directory of its
/// repository, in the order of the repositories.
pub open spec fn failures_of(repositories: Seq<Repository>, outcomes: Seq<Result<(), ExecutionError>>) -> Seq<RepositoryFailure>
    decreases outcomes.len(),
{
    if outcomes.len() == 0 {
        Seq::empty()
    } else {
        let earlier = failures_of(repositories, outcomes.drop_last());
        match outcomes.last() {
            Ok(_) => earlier,
            Err(e) => earlier.push(RepositoryFailure { directory: repositories[outcomes.len() - 1].directory, error: e }),
        }
    }
}

/// A run over `repositories` that made `calls` and ended the
/// repositories with `outcomes` reports `result`: the calls come in one
/// block per repository, in the order of the repositories.
pub open spec fn ran_all(
    repositories: Seq<Repository>,
    blocks: Seq<Seq<Call>>,
    outcomes: Seq<Result<(), ExecutionError>>,
    calls: Seq<Call>,
    result: Result<(), Vec<RepositoryFailure>>,
) -> bool {
    &&& outcomes.len() == repositories.len()
    &&& blocks.len() == repositories.len()
    &&& calls == blocks.flatten()
    &&& forall|i: int| 0 <= i < outcomes.len() ==> admits(repositories[i], #[trigger] blocks[i], outcomes[i])
    &&& match result {
        Ok(_) => failures_of(repositories, outcomes).len() == 0,
        Err(failures) => failures@ == failures_of(repositories, outcomes) && failures@.len() > 0,
    }
}

impl<'a, R> RepositoryManager<'a, R> {
    /// The session through which the manager's runner is called.
    pub closed spec fn session(&self) -> Session<'a, R> {
        self.session
    }
}

impl<'a, R: CommandRunner> RepositoryManager<'a, R> {
    /// A manager that calls `runner` and has made no call yet.
    pub fn new(runner: &'a R) -> (manager: Self)
        ensures
            manager.session().runner() == runner,
            manager.session().calls() == Seq::<Call>::empty(),
    {
        Self { session: Session::new(runner) }
    }

    /// Pulls `repository` and deploys it when its `HEAD` moved.
    pub fn process_repository(&mut self, repository: &Repository) -> (result: Result<(), ExecutionError>)
        ensures
            continues(old(self).session(), final(self).session()),
            admits(*repository, calls_since(old(self).session(), final(self).session()), result),
    {
        let ghost start = self.session;
        let opening = Execution::new(repository.directory.as_str());
        let execution = match opening {
            Err(e) => {
                let result: Result<(), ExecutionError> = Err(e);
                let ghost trace = RepositoryTrace { is_directory: false, pull_calls: seq![], deploy_calls: seq![] };
                assert(calls_since(start, self.session) =~= seq![]);
                assert(self.session.calls().take(start.calls().len() as int) =~= start.calls());
                assert(handled(*repository, trace, result));
                assert(calls_since(start, self.session) == trace.pull_calls + trace.deploy_calls);
                return result;
            },
            Ok(execution) => execution,
        };
        let pulling = execution.pull(&mut self.session);
        let ghost pulled_at = self.session;
        let ghost pull_calls = calls_since(start, pulled_at);
        match pulling {
            Err(e) => {
                let result: Result<(), ExecutionError> = Err(e);
                let ghost trace = RepositoryTrace { is_directory: true, pull_calls, deploy_calls: seq![] };
                assert(handled(*repository, trace, result));
                assert(pull_calls == trace.pull_calls + trace.deploy_calls);
                result
            },
            Ok(PullOutcome::UpToDate) => {
                let result: Result<(), ExecutionError> = Ok(());
                let ghost trace = RepositoryTrace { is_directory: true, pull_calls, deploy_calls: seq![] };
                assert(handled(*repository, trace, result));
                assert(pull_calls == trace.pull_calls + trace.deploy_calls);
                result
            },
            Ok(PullOutcome::Updated(ready)) => {
                let result = ready.deploy(&mut self.session, &repository.deployment_plan);
                let ghost deploy_calls = calls_since(pulled_at, self.session);
                proof {
                    lemma_calls_since_join(start, pulled_at, self.session);
                }
                let ghost trace = RepositoryTrace { is_directory: true, pull_calls, deploy_calls };
                assert(handled(*repository, trace, result));
                result
            },
        }
    }

    /// Handles every repository in turn, also after one of them failed, and
    /// reports the failures when there are any.
    pub fn run(&mut self, repositories: &[Repository]) -> (result: Result<(), Vec<RepositoryFailure>>)
        ensures
            continues(old(self).session(), final(self).session()),
            exists|blocks: Seq<Seq<Call>>, outcomes: Seq<Result<(), ExecutionError>>|
                #[trigger] ran_all(repositories@, blocks, outcomes, calls_since(old(self).session(), final(self).session()), result),
    {
        let ghost start = self.session;
        let mut failures: Vec<RepositoryFailure> = Vec::new();
        let ghost mut outcomes: Seq<Result<(), ExecutionError>> = seq![];
        let ghost mut blocks: Seq<Seq<Call>> = seq![];
        assert(start.calls().take(start.calls().len() as int) =~= start.calls());
        assert(calls_since(start, self.session) =~= blocks.flatten());
        for i in 0..repositories.len()
            invariant
                start == old(self).session(),
                continues(start, self.session),
                outcomes.len() == i,
                blocks.len() == i,
                calls_since(start, self.session) == blocks.flatten(),
                forall|j: int| 0 <= j < i ==> admits(repositories@[j], #[trigger] blocks[j], outcomes[j]),
                failures@ == failures_of(repositories@, outcomes),
        {
            let ghost before = self.session;
            let outcome = self.process_repository(&repositories[i]);
            let ghost earlier = outcomes;
            proof {
                lemma_calls_since_join(start, before, self.session);
                blocks.lemma_flatten_push(calls_since(before, self.session));
                blocks = blocks.push(calls_since(before, self.session));
                outcomes = outcomes.push(outcome);
                assert(outcomes.drop_last() =~= earlier);
                assert forall|j: int| 0 <= j < i + 1 implies admits(repositories@[j], #[trigger] blocks[j], outcomes[j]) by {
                }
            }
            match outcome {
                Ok(()) => {},
                Err(error) => {
                    failures.push(RepositoryFailure { directory: repositories[i].directory.clone(), error });
                },
            }
        }
        let result = if failures.len() == 0 {
            Ok(())
        } else {
            Err(failures)
        };
        assert(ran_all(repositories@, blocks, outcomes, calls_since(old(self).session(), self.session()), result));
        result
    }
}

/// A repository is deployed only after a pull that found `HEAD` moved, and
/// a repository whose pull found it unchanged counts as a success.
pub proof fn lemma_deploys_only_after_update(repository: Repository, trace: RepositoryTrace, outcome: Result<(), ExecutionError>)
    requires
        handled(repository, trace, outcome),
    ensures
        trace.deploy_calls.len() > 0 ==> {
            &&& trace.is_directory
            &&& script_outcome(trace.pull_calls) is Ok
            &&& commit_id(script_outcome(trace.pull_calls)->Ok_0[0].stdout@) != commit_id(
                script_outcome(trace.pull_calls)->Ok_0[2].stdout@,
            )
        },
        trace.is_directory && script_outcome(trace.pull_calls) is Ok && commit_id(
            script_outcome(trace.pull_calls)->Ok_0[0].stdout@,
        ) == commit_id(script_outcome(trace.pull_calls)->Ok_0[2].stdout@) ==> {
            &&& trace.deploy_calls.len() == 0
            &&& outcome is Ok
        },
{
}

/// A run reports no failure exactly when every repository was handled
/// successfully.
pub proof fn lemma_no_failures_iff_all_succeeded(repositories: Seq<Repository>, outcomes: Seq<Result<(), ExecutionError>>)
    ensures
        failures_of(repositories, outcomes).len() == 0 <==> forall|i: int| 0 <= i < outcomes.len() ==> (#[trigger] outcomes[i]) is Ok,
    decreases outcomes.len(),
{
    if outcomes.len() > 0 {
        let earlier = outcomes.drop_last();
        lemma_no_failures_iff_all_succeeded(repositories, earlier);
        if forall|i: int| 0 <= i < outcomes.len() ==> (#[trigger] outcomes[i]) is Ok {
            assert forall|i: int| 0 <= i < earlier.len() implies (#[trigger] earlier[i]) is Ok by {
                assert(earlier[i] == outcomes[i]);
            }
        } else {
            let j = choose|j: int| 0 <= j < outcomes.len() && !((#[trigger] outcomes[j]) is Ok);
            if j < earlier.len() {
                assert(earlier[j] == outcomes[j]);
            }
        }
    }
}

/// Every failure that a run reports belongs to a repository of the run,
/// carries its directory, and carries the error that handling it ended with;
/// the failures come in the order of the repositories, one per failed
/// repository.
pub proof fn lemma_failures_follow_repositories(repositories: Seq<Repository>, outcomes: Seq<Result<(), ExecutionError>>)
    requires
        outcomes.len() <= repositories.len(),
    ensures
        ({
            let failures = failures_of(repositories, outcomes);
            &&& failures.len() <= outcomes.len()
            &&& forall|k: int| 0 <= k < failures.len() ==> exists|i: int| {
                &&& 0 <= i < outcomes.len()
                &&& (#[trigger] failures[k]).directory == repositories[i].directory
                &&& outcomes[i] matches Err(e) && e == failures[k].error
            }
        }),
    decreases outcomes.len(),
{
    if outcomes.len() > 0 {
        let earlier = outcomes.drop_last();
        lemma_failures_follow_repositories(repositories, earlier);
        let failures = failures_of(repositories, outcomes);
        let before = failures_of(repositories, earlier);
        assert forall|k: int| 0 <= k < failures.len() implies exists|i: int| {
            &&& 0 <= i < outcomes.len()
            &&& (#[trigger] failures[k]).directory == repositories[i].directory
            &&& outcomes[i] matches Err(e) && e == failures[k].error
        } by {
            if k < before.len() {
                let i = choose|i: int| {
                    &&& 0 <= i < earlier.len()
                    &&& (#[trigger] before[k]).directory == repositories[i].directory
                    &&& earlier[i] matches Err(e) && e == before[k].error
                };
                assert(earlier[i] == outcomes[i]);
                assert(failures[k] == before[k]);
            } else {
                assert(outcomes[outcomes.len() - 1] == outcomes.last());
            }
        }
    }
}

/// A repository that is reported as no directory gets no runner call.
pub proof fn lemma_invalid_directory_runs_nothing(repository: Repository, calls: Seq<Call>, outcome: Result<(), ExecutionError>)
    requires
        admits(repository, calls, outcome),
        outcome matches Err(ExecutionError::InvalidDirectory(_)),
    ensures
        calls.len() == 0,
{
    let trace = choose|trace: RepositoryTrace| #[trigger] handled(repository, trace, outcome) && calls == trace.pull_calls
        + trace.deploy_calls;
    if trace.is_directory {
        lemma_script_stops_at_first_failure(trace.pull_calls, pull_script_view(), repository.directory@);
        if script_outcome(trace.pull_calls) is Ok {
            lemma_script_stops_at_first_failure(
                trace.deploy_calls,
                deploy_script_view(repository.deployment_plan),
                repository.directory@,
            );
        }
    }
}

/// A run over no repositories makes no runner call and succeeds.
pub proof fn lemma_empty_run_makes_no_call(
    blocks: Seq<Seq<Call>>,
    outcomes: Seq<Result<(), ExecutionError>>,
    calls: Seq<Call>,
    result: Result<(), Vec<RepositoryFailure>>,
)
    requires
        ran_all(Seq::empty(), blocks, outcomes, calls, result),
    ensures
        calls.len() == 0,
        result is Ok,
{
}

} // verus!
