use std::cell::RefCell;

use rs_repo_manager::command::{CommandError, CommandOutput, CommandRunner, CommandSpec};
use rs_repo_manager::execution::execution_error::ExecutionError;
use rs_repo_manager::execution::DeploymentPlan;
use rs_repo_manager::repository::{Repository, RepositoryManager};

/// A directory that exists wherever the tests run: their working directory.
struct TestDirectory;

impl TestDirectory {
    fn new(_name: &str) -> Self {
        TestDirectory
    }

    fn path(&self) -> &str {
        "."
    }
}

#[derive(Debug)]
struct RecordedCommand {
    program: String,
    args: Vec<String>,
    directory: String,
}

/// How a fake repository answers `git rev-parse HEAD` before and after
/// `git pull`.
struct FakeRepositoryState {
    directory: String,
    head_before: String,
    head_after: String,
    pulled: bool,
}

impl FakeRepositoryState {
    fn up_to_date(directory: &str) -> Self {
        Self {
            directory: directory.to_string(),
            head_before: "abc123\n".to_string(),
            head_after: "abc123\n".to_string(),
            pulled: false,
        }
    }

    fn updated(directory: &str) -> Self {
        Self {
            directory: directory.to_string(),
            head_before: "abc123\n".to_string(),
            head_after: "def456\n".to_string(),
            pulled: false,
        }
    }
}

struct FakeCommandRunner {
    commands: RefCell<Vec<RecordedCommand>>,
    repositories: RefCell<Vec<FakeRepositoryState>>,
    failing_program: Option<String>,
}

impl FakeCommandRunner {
    fn new<const N: usize>(repositories: [FakeRepositoryState; N]) -> Self {
        Self {
            commands: RefCell::new(Vec::new()),
            repositories: RefCell::new(repositories.into_iter().collect()),
            failing_program: None,
        }
    }

    fn failing_on(mut self, program: &str) -> Self {
        self.failing_program = Some(program.to_string());
        self
    }
}

impl CommandRunner for FakeCommandRunner {
    fn run(&self, command: &CommandSpec, directory: &str) -> Result<CommandOutput, CommandError> {
        self.commands.borrow_mut().push(RecordedCommand {
            program: command.program.clone(),
            args: command.args.clone(),
            directory: directory.to_string(),
        });

        if self.failing_program.as_deref() == Some(command.program.as_str()) {
            return Ok(CommandOutput {
                status: Some(2),
                stdout: String::new(),
                stderr: "failed".to_string(),
            });
        }

        let mut repositories = self.repositories.borrow_mut();
        let mut stdout = String::new();
        if let Some(state) = repositories.iter_mut().find(|state| state.directory == directory) {
            if command.program == "git" && command.args == vec!["pull"] {
                state.pulled = true;
            } else if command.program == "git" && command.args == vec!["rev-parse", "HEAD"] {
                stdout = if state.pulled {
                    state.head_after.clone()
                } else {
                    state.head_before.clone()
                };
            }
        }

        Ok(CommandOutput {
            status: Some(0),
            stdout,
            stderr: String::new(),
        })
    }
}

#[test]
fn manager_does_not_deploy_repository_when_pull_is_up_to_date() {
    let directory = TestDirectory::new("manager_up_to_date");

    let repository = Repository {
        directory: directory.path().to_string(),
        deployment_plan: DeploymentPlan::default(),
    };

    let runner = FakeCommandRunner::new([FakeRepositoryState::up_to_date(directory.path())]);
    let mut manager = RepositoryManager::new(&runner);

    manager.run(&[repository]).unwrap();

    let commands = runner.commands.borrow();

    assert!(
        commands
            .iter()
            .any(|command| { command.program == "git" && command.args == vec!["pull"] })
    );

    assert!(
        !commands
            .iter()
            .any(|command| { command.program == "docker" })
    );
}

#[test]
fn manager_deploys_repository_when_pull_detects_update() {
    let directory = TestDirectory::new("manager_updated");

    let repository = Repository {
        directory: directory.path().to_string(),
        deployment_plan: DeploymentPlan::default(),
    };

    let runner = FakeCommandRunner::new([FakeRepositoryState::updated(directory.path())]);
    let mut manager = RepositoryManager::new(&runner);

    manager.run(&[repository]).unwrap();

    let commands = runner.commands.borrow();

    assert!(commands.iter().any(|command| {
        command.program == "docker" && command.args == vec!["compose", "up", "-d", "--build"]
    }));
}

#[test]
fn manager_continues_after_a_missing_directory_and_reports_it() {
    let missing = "./rs_repo_manager_missing_repository".to_string();
    let repositories = [
        Repository {
            directory: missing.clone(),
            deployment_plan: DeploymentPlan::default(),
        },
        Repository {
            directory: ".".to_string(),
            deployment_plan: DeploymentPlan::default(),
        },
    ];

    let runner = FakeCommandRunner::new([FakeRepositoryState::updated(".")]);
    let mut manager = RepositoryManager::new(&runner);

    let failures = manager.run(&repositories).unwrap_err();

    assert_eq!(failures.len(), 1);
    assert_eq!(failures[0].directory, missing);
    assert!(matches!(failures[0].error, ExecutionError::InvalidDirectory(ref path) if *path == missing));

    let commands = runner.commands.borrow();
    assert!(commands.iter().all(|command| command.directory == "."));
    assert_eq!(commands.len(), 4);
    assert_eq!(commands[3].args, vec!["compose", "up", "-d", "--build"]);
}

#[test]
fn manager_reports_every_failed_repository_in_order() {
    let repositories = [
        Repository {
            directory: ".".to_string(),
            deployment_plan: DeploymentPlan::default(),
        },
        Repository {
            directory: "./rs_repo_manager_missing_repository".to_string(),
            deployment_plan: DeploymentPlan::default(),
        },
        Repository {
            directory: "./".to_string(),
            deployment_plan: DeploymentPlan::default(),
        },
    ];

    let runner = FakeCommandRunner::new([
        FakeRepositoryState::updated("."),
        FakeRepositoryState::updated("./"),
    ])
    .failing_on("docker");
    let mut manager = RepositoryManager::new(&runner);

    let failures = manager.run(&repositories).unwrap_err();

    assert_eq!(failures.len(), 3);
    assert_eq!(failures[0].directory, ".");
    assert!(matches!(
        failures[0].error,
        ExecutionError::CommandFailed { status: Some(2), ref stderr } if stderr == "failed"
    ));
    assert_eq!(failures[1].directory, "./rs_repo_manager_missing_repository");
    assert!(matches!(failures[1].error, ExecutionError::InvalidDirectory(_)));
    assert_eq!(failures[2].directory, "./");

    // Each deployment stops at the failing `docker compose up`.
    let commands = runner.commands.borrow();
    assert_eq!(commands.len(), 8);
}

#[test]
fn manager_succeeds_when_nothing_is_configured() {
    let runner = FakeCommandRunner::new([]);
    let mut manager = RepositoryManager::new(&runner);

    assert!(manager.run(&[]).is_ok());
    assert!(runner.commands.borrow().is_empty());
}

#[test]
fn manager_does_not_deploy_after_a_failed_pull() {
    let repository = Repository {
        directory: ".".to_string(),
        deployment_plan: DeploymentPlan::default(),
    };

    let runner = FakeCommandRunner::new([FakeRepositoryState::updated(".")]).failing_on("git");
    let mut manager = RepositoryManager::new(&runner);

    let failures = manager.run(&[repository]).unwrap_err();

    assert_eq!(failures.len(), 1);
    let commands = runner.commands.borrow();
    assert_eq!(commands.len(), 1);
    assert_eq!(commands[0].args, vec!["rev-parse", "HEAD"]);
}
