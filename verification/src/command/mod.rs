use vstd::prelude::*;

verus! {

/// Makes `std::io::Error` usable in the library's types; its contents stay
/// hidden from the verifier.
#[verifier::external_type_specification]
#[verifier::external_body]
pub struct ExIoError(std::io::Error);

/// A program and its arguments, to be started in some directory.
#[derive(Debug)]
pub struct CommandSpec {
    pub program: String,
    pub args: Vec<String>,
}

/// The mathematical model of a [`CommandSpec`].
pub struct CommandSpecView {
    pub program: Seq<char>,
    pub args: Seq<Seq<char>>,
}

impl View for CommandSpec {
    type V = CommandSpecView;

    open spec fn view(&self) -> CommandSpecView {
        CommandSpecView { program: self.program@, args: self.args.deep_view() }
    }
}

/// The models of a sequence of commands, in order.
pub open spec fn commands_view(commands: Seq<CommandSpec>) -> Seq<CommandSpecView> {
    commands.map_values(|c: CommandSpec| c@)
}

/// The model of the command that runs `program` with `args`.
pub open spec fn command_of(program: Seq<char>, args: Seq<Seq<char>>) -> CommandSpecView {
    CommandSpecView { program, args }
}

/// Copies a list of strings.
pub fn copy_strings(strings: &Vec<String>) -> (copy: Vec<String>)
    ensures
        copy@ == strings@,
{
    let mut copy: Vec<String> = Vec::new();
    for i in 0..strings.len()
        invariant
            copy@ == strings@.take(i as int),
    {
        copy.push(strings[i].clone());
        assert(copy@ =~= strings@.take(i + 1));
    }
    assert(strings@.take(strings.len() as int) =~= strings@);
    copy
}

impl CommandSpec {
    /// A copy of this command.
    pub fn copy(&self) -> (copy: CommandSpec)
        ensures
            copy@ == self@,
            copy.program == self.program,
            copy.args@ == self.args@,
    {
        CommandSpec { program: self.program.clone(), args: copy_strings(&self.args) }
    }
}

/// What a finished command reported.
#[derive(Debug)]
pub struct CommandOutput {
    /// The exit code; `None` when the process was ended by a signal.
    pub status: Option<i32>,
    pub stdout: String,
    pub stderr: String,
}

/// Why a command could not be started or waited for.
#[derive(Debug)]
pub enum CommandError {
    IoError(std::io::Error),
}

/// Starts commands on behalf of the library.
///
/// `answers` relates what a runner is handed to what it replies. An
/// implementation may describe its replies there; one that does not keeps
/// the default, which allows every reply. The library's proofs hold for
/// every runner, so they never rely on the default: what they gain from the
/// contract of `run` is that the reply belongs to the very command and
/// directory that were handed over.
pub trait CommandRunner {
    /// Whether this runner, handed `command` to run in `directory`, may
    /// reply `reply`.
    open spec fn answers(&self, command: CommandSpecView, directory: Seq<char>, reply: Result<CommandOutput, CommandError>) -> bool {
        true
    }

    /// Runs `command` with `directory` as its working directory and waits
    /// for it to finish.
    fn run(&self, command: &CommandSpec, directory: &str) -> (reply: Result<CommandOutput, CommandError>)
        ensures
            self.answers(command@, directory@, reply),
    ;
}

/// One call of a [`CommandRunner`]: the command handed to it, the working
/// directory handed to it, and what it answered.
pub struct Call {
    pub command: CommandSpecView,
    pub directory: Seq<char>,
    pub reply: Result<CommandOutput, CommandError>,
}

/// A runner together with the record of every call made through it.
///
/// The library reaches a runner only through a session. `Session::run`
/// records each call it hands over, and its contract ties the recorded reply
/// to the runner's `answers` for the recorded command and directory.
pub struct Session<'a, R> {
    runner: &'a R,
    calls: Ghost<Seq<Call>>,
}

impl<'a, R> Session<'a, R> {
    /// The runner that the calls go to.
    pub closed spec fn runner(&self) -> &'a R {
        self.runner
    }

    /// The calls made through this session, oldest first.
    pub closed spec fn calls(&self) -> Seq<Call> {
        self.calls@
    }
}

/// `after` is `before` after more calls: the same runner, the calls of
/// `before` followed by some more, and each new call answered by the runner
/// for the command and directory that the call records.
pub open spec fn continues<'a, R: CommandRunner>(before: Session<'a, R>, after: Session<'a, R>) -> bool {
    &&& after.runner() == before.runner()
    &&& before.calls().len() <= after.calls().len()
    &&& after.calls().take(before.calls().len() as int) == before.calls()
    &&& forall|k: int|
        before.calls().len() <= k < after.calls().len() ==> after.runner().answers(
            (#[trigger] after.calls()[k]).command,
            after.calls()[k].directory,
            after.calls()[k].reply,
        )
}

/// The calls made between `before` and `after`.
pub open spec fn calls_since<'a, R>(before: Session<'a, R>, after: Session<'a, R>) -> Seq<Call> {
    after.calls().skip(before.calls().len() as int)
}

/// Calls made in two stretches, one after the other, are the calls of the
/// first stretch followed by those of the second.
pub proof fn lemma_calls_since_join<'a, R: CommandRunner>(first: Session<'a, R>, second: Session<'a, R>, third: Session<'a, R>)
    requires
        continues(first, second),
        continues(second, third),
    ensures
        continues(first, third),
        calls_since(first, third) == calls_since(first, second) + calls_since(second, third),
{
    let a = first.calls().len() as int;
    let b = second.calls().len() as int;
    assert forall|k: int| 0 <= k < b implies #[trigger] third.calls()[k] == second.calls()[k] by {
        assert(third.calls().take(b)[k] == third.calls()[k]);
    }
    assert forall|k: int| 0 <= k < a implies #[trigger] third.calls()[k] == first.calls()[k] by {
        assert(third.calls()[k] == second.calls()[k]);
        assert(second.calls().take(a)[k] == second.calls()[k]);
    }
    assert(third.calls().take(a) =~= first.calls());
    assert(calls_since(first, third) =~= calls_since(first, second) + calls_since(second, third));
}

impl<'a, R: CommandRunner> Session<'a, R> {
    /// A session on `runner` that has made no call yet.
    pub fn new(runner: &'a R) -> (session: Self)
        ensures
            session.runner() == runner,
            session.calls() == Seq::<Call>::empty(),
    {
        Session { runner, calls: Ghost(Seq::empty()) }
    }

    /// Hands `command` and `directory` to the runner and records the call.
    pub fn run(&mut self, command: &CommandSpec, directory: &str) -> (reply: Result<CommandOutput, CommandError>)
        ensures
            final(self).runner() == old(self).runner(),
            old(self).runner().answers(command@, directory@, reply),
            final(self).calls() == old(self).calls().push(Call { command: command@, directory: directory@, reply }),
    {
        let reply = self.runner.run(command, directory);
        self.calls = Ghost(self.calls@.push(Call { command: command@, directory: directory@, reply }));
        reply
    }
}

} // verus!
