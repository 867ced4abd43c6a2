use vstd::prelude::*;

use crate::command::{commands_view, copy_strings, CommandSpec, CommandSpecView};
use crate::execution::DeploymentPlan;
use crate::repository::Repository;

verus! {

/// The contents of the configuration file.
#[derive(Debug)]
pub struct Configuration {
    pub repositories: Vec<RepositoryConfiguration>,
}

/// A configured hook command.
#[derive(Debug)]
pub struct CommandConfiguration {
    pub program: String,
    pub args: Vec<String>,
}

/// A configured repository; missing settings read as `false` and as no
/// commands.
#[derive(Debug)]
pub struct RepositoryConfiguration {
    pub directory: String,
    pub compose_down: bool,
    pub after_pull: Vec<CommandConfiguration>,
    pub before_up: Vec<CommandConfiguration>,
    pub after_up: Vec<CommandConfiguration>,
}

impl View for CommandConfiguration {
    type V = CommandSpecView;

    open spec fn view(&self) -> CommandSpecView {
        CommandSpecView { program: self.program@, args: self.args.deep_view() }
    }
}

/// The commands that a list of configured commands describes.
pub open spec fn configured_commands(commands: Seq<CommandConfiguration>) -> Seq<CommandSpecView> {
    commands.map_values(|c: CommandConfiguration| c@)
}

/// `repository` is the one that `configuration` describes.
pub open spec fn describes(configuration: RepositoryConfiguration, repository: Repository) -> bool {
    &&& repository.directory == configuration.directory
    &&& repository.deployment_plan.compose_down == configuration.compose_down
    &&& commands_view(repository.deployment_plan.after_pull@) == configured_commands(configuration.after_pull@)
    &&& commands_view(repository.deployment_plan.before_up@) == configured_commands(configuration.before_up@)
    &&& commands_view(repository.deployment_plan.after_up@) == configured_commands(configuration.after_up@)
}

impl CommandConfiguration {
    /// The command that this configuration describes.
    pub fn to_command(&self) -> (command: CommandSpec)
        ensures
            command@ == self@,
    {
        let args = copy_strings(&self.args);
        assert(args.deep_view() =~= self.args.deep_view());
        CommandSpec { program: self.program.clone(), args }
    }
}

/// The commands that `commands` describe, in order.
fn to_commands(commands: &Vec<CommandConfiguration>) -> (specs: Vec<CommandSpec>)
    ensures
        commands_view(specs@) == configured_commands(commands@),
{
    let mut specs: Vec<CommandSpec> = Vec::new();
    for i in 0..commands.len()
        invariant
            specs.len() == i,
            forall|k: int| 0 <= k < i ==> (#[trigger] specs@[k])@ == commands@[k]@,
    {
        specs.push(commands[i].to_command());
    }
    assert(commands_view(specs@) =~= configured_commands(commands@));
    specs
}

impl RepositoryConfiguration {
    /// The repository that this configuration describes.
    pub fn to_repository(&self) -> (repository: Repository)
        ensures
            describes(*self, repository),
    {
        Repository {
            directory: self.directory.clone(),
            deployment_plan: DeploymentPlan {
                compose_down: self.compose_down,
                after_pull: to_commands(&self.after_pull),
                before_up: to_commands(&self.before_up),
                after_up: to_commands(&self.after_up),
            },
        }
    }
}

impl Configuration {
    /// The configured repositories, in the order of the configuration.
    pub fn into_repositories(self) -> (repositories: Vec<Repository>)
        ensures
            repositories.len() == self.repositories.len(),
            forall|i: int| 0 <= i < repositories.len() ==> describes(self.repositories@[i], #[trigger] repositories@[i]),
    {
        let mut repositories: Vec<Repository> = Vec::new();
        for i in 0..self.repositories.len()
            invariant
                repositories.len() == i,
                forall|k: int| 0 <= k < i ==> describes(self.repositories@[k], #[trigger] repositories@[k]),
        {
            repositories.push(self.repositories[i].to_repository());
        }
        repositories
    }
}

} // verus!
