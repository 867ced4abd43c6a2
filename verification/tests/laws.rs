use std::marker::PhantomData;

use rs_repo_manager::command::{copy_strings, CommandError, CommandOutput, CommandSpec};
use rs_repo_manager::configuration::{CommandConfiguration, Configuration, RepositoryConfiguration};
use rs_repo_manager::execution::commit::head_moved;
use rs_repo_manager::execution::execution_error::ExecutionError;
use rs_repo_manager::execution::script::check_reply;
use rs_repo_manager::execution::{deploy_script, pull_script, DeploymentPlan, Execution, NeedsPull, PullOutcome};

fn output(status: Option<i32>, stdout: &str, stderr: &str) -> CommandOutput {
    CommandOutput { status, stdout: stdout.to_string(), stderr: stderr.to_string() }
}

fn shape(script: &[CommandSpec]) -> Vec<(String, Vec<String>)> {
    script.iter().map(|c| (c.program.clone(), c.args.clone())).collect()
}

fn command(program: &str, args: &[&str]) -> CommandSpec {
    CommandSpec { program: program.to_string(), args: args.iter().map(|a| a.to_string()).collect() }
}

#[test]
fn head_moved_ignores_surrounding_blanks() {
    assert!(!head_moved("abc123\n", "abc123"));
    assert!(!head_moved("  abc123\r\n", "\tabc123 "));
    assert!(!head_moved("", "\n"));
}

#[test]
fn head_moved_sees_a_different_commit() {
    assert!(head_moved("abc123\n", "def456\n"));
    assert!(head_moved("abc123\n", "abc1234\n"));
    assert!(head_moved("abc 123", "abc123"));
    assert!(head_moved("", "abc123"));
}

#[test]
fn check_reply_accepts_status_zero_only() {
    let accepted = check_reply(Ok(output(Some(0), "out", ""))).unwrap();
    assert_eq!(accepted.stdout, "out");

    assert!(matches!(
        check_reply(Ok(output(Some(1), "", "boom"))),
        Err(ExecutionError::CommandFailed { status: Some(1), ref stderr }) if stderr == "boom"
    ));
    assert!(matches!(
        check_reply(Ok(output(None, "", "killed"))),
        Err(ExecutionError::CommandFailed { status: None, .. })
    ));
    assert!(matches!(
        check_reply(Err(CommandError::IoError(std::io::Error::new(std::io::ErrorKind::Other, "no")))),
        Err(ExecutionError::CommandError(CommandError::IoError(_)))
    ));
}

#[test]
fn pull_script_reads_head_around_the_pull() {
    let script = pull_script();
    assert_eq!(
        shape(&script),
        shape(&[command("git", &["rev-parse", "HEAD"]), command("git", &["pull"]), command("git", &["rev-parse", "HEAD"])])
    );
}

#[test]
fn deploy_script_keeps_the_plan_order() {
    let plan = DeploymentPlan {
        compose_down: true,
        after_pull: vec![command("echo", &["a"]), command("echo", &["b"])],
        before_up: vec![command("echo", &["c"])],
        after_up: vec![command("echo", &["d"])],
    };
    assert_eq!(
        shape(&deploy_script(&plan)),
        shape(&[
            command("echo", &["a"]),
            command("echo", &["b"]),
            command("docker", &["compose", "down"]),
            command("echo", &["c"]),
            command("docker", &["compose", "up", "-d", "--build"]),
            command("echo", &["d"]),
        ])
    );
}

#[test]
fn default_plan_only_brings_the_project_up() {
    let plan = DeploymentPlan::default();
    assert!(!plan.compose_down);
    assert_eq!(shape(&deploy_script(&plan)), shape(&[command("docker", &["compose", "up", "-d", "--build"])]));
}

#[test]
fn for_directory_follows_the_directory_check() {
    let opened = Execution::<NeedsPull>::for_directory("/srv/app", true).unwrap();
    assert_eq!(opened.directory, "/srv/app");

    assert!(matches!(
        Execution::<NeedsPull>::for_directory("/srv/app", false),
        Err(ExecutionError::InvalidDirectory(ref path)) if path == "/srv/app"
    ));
}

#[test]
fn pull_outcome_compares_the_commits() {
    let execution = Execution::<NeedsPull> { state: PhantomData, directory: "/srv/app".to_string() };

    let same = execution.pull_outcome(&output(Some(0), "abc123\n", ""), &output(Some(0), "abc123\n", ""));
    assert!(matches!(same, PullOutcome::UpToDate));

    match execution.pull_outcome(&output(Some(0), "abc123\n", ""), &output(Some(0), "def456\n", "")) {
        PullOutcome::Updated(ready) => assert_eq!(ready.directory, "/srv/app"),
        PullOutcome::UpToDate => panic!("expected the repository to be updated"),
    }
}

#[test]
fn into_repositories_keeps_every_setting() {
    let configuration = Configuration {
        repositories: vec![
            RepositoryConfiguration {
                directory: "/srv/one".to_string(),
                compose_down: true,
                after_pull: vec![CommandConfiguration { program: "make".to_string(), args: vec!["build".to_string()] }],
                before_up: vec![],
                after_up: vec![CommandConfiguration { program: "curl".to_string(), args: vec![] }],
            },
            RepositoryConfiguration {
                directory: "/srv/two".to_string(),
                compose_down: false,
                after_pull: vec![],
                before_up: vec![CommandConfiguration { program: "true".to_string(), args: vec![] }],
                after_up: vec![],
            },
        ],
    };

    let repositories = configuration.into_repositories();

    assert_eq!(repositories.len(), 2);
    assert_eq!(repositories[0].directory, "/srv/one");
    assert!(repositories[0].deployment_plan.compose_down);
    assert_eq!(shape(&repositories[0].deployment_plan.after_pull), shape(&[command("make", &["build"])]));
    assert!(repositories[0].deployment_plan.before_up.is_empty());
    assert_eq!(shape(&repositories[0].deployment_plan.after_up), shape(&[command("curl", &[])]));
    assert_eq!(repositories[1].directory, "/srv/two");
    assert!(!repositories[1].deployment_plan.compose_down);
    assert_eq!(shape(&repositories[1].deployment_plan.before_up), shape(&[command("true", &[])]));
}

#[test]
fn execution_error_converts_from_its_causes() {
    let from_command: ExecutionError =
        CommandError::IoError(std::io::Error::new(std::io::ErrorKind::NotFound, "missing")).into();
    assert!(matches!(from_command, ExecutionError::CommandError(CommandError::IoError(_))));

    let from_io: ExecutionError = std::io::Error::new(std::io::ErrorKind::Other, "io").into();
    assert!(matches!(from_io, ExecutionError::Io(_)));
}

#[test]
fn copies_keep_their_contents() {
    let strings = vec!["a".to_string(), "b c".to_string()];
    assert_eq!(copy_strings(&strings), strings);

    let original = command("docker", &["compose", "up"]);
    let copy = original.copy();
    assert_eq!(copy.program, "docker");
    assert_eq!(copy.args, vec!["compose", "up"]);
}
