//! Running a command: what is handed to the operating system, and what the
//! way its child process ended means.

use vstd::prelude::*;
use crate::utils::parser::word_views;
use crate::utils::text::names;

verus! {

/// How a command reaches the operating system: started under its own name,
/// or handed to the command interpreter `cmd` where programs are found
/// through it. It is settled once, at startup.
#[derive(Clone, Copy, Debug, PartialEq, Eq)]
pub enum LaunchStrategy {
    Direct,
    Interpreter,
}

/// What is started: the program, its arguments, and the search path put into
/// the child's environment.
#[derive(Clone, Debug, PartialEq, Eq)]
pub struct Invocation {
    pub program: String,
    pub args: Vec<String>,
    pub search_path: String,
}

/// How the attempt to run a child process ended. `code` is the exit code, or
/// `None` where a signal ended the child; `status` is the operating system's
/// description of the exit status.
#[derive(Clone, Debug, PartialEq, Eq)]
pub enum ChildOutcome {
    SpawnFailed { cause: String },
    Finished { code: Option<i32>, status: String },
}

/// Why a command did not succeed.
#[derive(Clone, Debug, PartialEq, Eq)]
pub enum ExecutionError {
    /// The built-in `cd` was given no directory.
    Usage,
    /// The working directory could not be changed to `target`.
    ChangeDirectory { target: String, cause: String },
    /// The program could not be started.
    Spawn { command: String, cause: String },
    /// The program ran and did not exit with status zero.
    Status { command: String, code: Option<i32>, status: String },
}

/// The program started for `command` under `strategy`.
pub open spec fn program_of(strategy: LaunchStrategy, command: Seq<char>) -> Seq<char> {
    match strategy {
        LaunchStrategy::Direct => command,
        LaunchStrategy::Interpreter => "cmd"@,
    }
}

/// The arguments handed over for `command` with `args` under `strategy`: the
/// interpreter gets its flag `/C`, the command, and then the arguments.
pub open spec fn arguments_of(
    strategy: LaunchStrategy,
    command: Seq<char>,
    args: Seq<Seq<char>>,
) -> Seq<Seq<char>> {
    match strategy {
        LaunchStrategy::Direct => args,
        LaunchStrategy::Interpreter => seq!["/C"@, command] + args,
    }
}

/// The search path that the child gets: the shell's own, or the empty string
/// where the shell has none.
pub open spec fn forwarded_path(search_path: Option<Seq<char>>) -> Seq<char> {
    match search_path {
        Some(p) => p,
        None => Seq::empty(),
    }
}

/// The text of an error, as it is reported to the user.
pub open spec fn message_of(e: ExecutionError) -> Seq<char> {
    match e {
        ExecutionError::Usage => "'cd' requires a directory argument."@,
        ExecutionError::ChangeDirectory { target, cause } => "Failed to change directory to '"@
            + target@ + "': "@ + cause@,
        ExecutionError::Spawn { command, cause } => "Failed to execute '"@ + command@ + "': "@
            + cause@,
        ExecutionError::Status { command, code, status } => "Command '"@ + command@
            + "' exited with status: "@ + status@,
    }
}

/// The child ran to its end and exited with code zero. A child that could
/// not be started, that exited with another code, or that a signal ended
/// did not succeed.
pub open spec fn succeeded(outcome: ChildOutcome) -> bool {
    outcome matches ChildOutcome::Finished { code, .. } && code == Some(0i32)
}

/// Makes the invocation for `command` with `args`: under the interpreter
/// strategy the command becomes the interpreter's argument. `search_path` is
/// the shell's own search path, if it has one.
pub fn prepare_invocation(
    strategy: LaunchStrategy,
    command: &str,
    args: &Vec<&str>,
    search_path: Option<&str>,
) -> (r: Invocation)
    ensures
        r.program@ == program_of(strategy, command@),
        names(r.args@) == arguments_of(strategy, command@, word_views(args@)),
        r.search_path@ == forwarded_path(
            match search_path {
                Some(p) => Some(p@),
                None => None,
            },
        ),
{
    let mut out: Vec<String> = Vec::new();
    let program = match strategy {
        LaunchStrategy::Direct => command.to_owned(),
        LaunchStrategy::Interpreter => {
            out.push("/C".to_owned());
            out.push(command.to_owned());
            "cmd".to_owned()
        },
    };
    let ghost lead = names(out@);
    assert(lead =~= match strategy {
        LaunchStrategy::Direct => Seq::<Seq<char>>::empty(),
        LaunchStrategy::Interpreter => seq!["/C"@, command@],
    });
    let mut i: usize = 0;
    while i < args.len()
        invariant
            i <= args@.len(),
            names(out@) == lead + word_views(args@).take(i as int),
        decreases args@.len() - i,
    {
        let ghost before = names(out@);
        out.push(args[i].to_owned());
        assert(names(out@) =~= before.push(args@[i as int]@));
        assert(word_views(args@).take(i + 1) =~= word_views(args@).take(i as int).push(
            args@[i as int]@,
        ));
        assert(names(out@) =~= lead + word_views(args@).take(i + 1));
        i += 1;
    }
    assert(word_views(args@).take(i as int) =~= word_views(args@));
    assert(names(out@) =~= arguments_of(strategy, command@, word_views(args@)));
    let search_path = match search_path {
        Some(p) => p.to_owned(),
        None => String::new(),
    };
    Invocation { program, args: out, search_path }
}

/// Turns the way the child of `program` ended into the command's result:
/// success where it exited with code zero, else the error that tells a child
/// that could not be started from one that ended with another status.
pub fn execute_command(program: &str, outcome: ChildOutcome) -> (r: Result<(), ExecutionError>)
    ensures
        r is Ok <==> succeeded(outcome),
        outcome matches ChildOutcome::SpawnFailed { cause } ==> (r matches Err(
            ExecutionError::Spawn { command, cause: reported },
        ) && command@ == program@ && reported == cause),
        outcome matches ChildOutcome::Finished { code, status } ==> code != Some(0i32) ==> (
        r matches Err(ExecutionError::Status { command, code: c, status: s }) && command@
            == program@ && c == code && s == status),
{
    match outcome {
        ChildOutcome::SpawnFailed { cause } => Err(
            ExecutionError::Spawn { command: program.to_owned(), cause },
        ),
        ChildOutcome::Finished { code, status } => {
            match code {
                Some(0) => Ok(()),
                _ => Err(ExecutionError::Status { command: program.to_owned(), code, status }),
            }
        },
    }
}

/// The result of the built-in `cd` to `target`, given the error with which
/// the operating system refused the change, if it did.
pub fn change_directory(target: &str, refusal: Option<String>) -> (r: Result<(), ExecutionError>)
    ensures
        r is Ok <==> refusal is None,
        refusal matches Some(cause) ==> (r matches Err(
            ExecutionError::ChangeDirectory { target: t, cause: c },
        ) && t@ == target@ && c == cause),
{
    match refusal {
        None => Ok(()),
        Some(cause) => Err(ExecutionError::ChangeDirectory { target: target.to_owned(), cause }),
    }
}

impl ExecutionError {
    /// The text of this error, as it is reported to the user.
    pub fn message(&self) -> (r: String)
        ensures
            r@ == message_of(*self),
    {
        match self {
            ExecutionError::Usage => "'cd' requires a directory argument.".to_owned(),
            ExecutionError::ChangeDirectory { target, cause } => {
                let mut m = "Failed to change directory to '".to_owned();
                m.append(target.as_str());
                m.append("': ");
                m.append(cause.as_str());
                m
            },
            ExecutionError::Spawn { command, cause } => {
                let mut m = "Failed to execute '".to_owned();
                m.append(command.as_str());
                m.append("': ");
                m.append(cause.as_str());
                m
            },
            ExecutionError::Status { command, code, status } => {
                let mut m = "Command '".to_owned();
                m.append(command.as_str());
                m.append("' exited with status: ");
                m.append(status.as_str());
                m
            },
        }
    }
}

} // verus!
