//! Launching: which program to start, with which arguments.

use crate::desktop::{is_launchable, App, AppView, LaunchStrategy, StrategyView};
use crate::text::{copy_string, strings_view};
use vstd::prelude::*;

verus! {

/// Why an application cannot be launched.
#[derive(Debug, PartialEq, Eq, Clone, Copy)]
pub enum LaunchError {
    /// A direct strategy names no program.
    InvalidInput,
}

/// A process to start: the program, and the arguments handed to it as they are.
#[derive(Debug)]
pub struct Command {
    pub program: String,
    pub arguments: Vec<String>,
}

/// A process to start, as specifications see it.
pub struct CommandView {
    pub program: Seq<char>,
    pub arguments: Seq<Seq<char>>,
}

impl View for Command {
    type V = CommandView;

    open spec fn view(&self) -> CommandView {
        CommandView { program: self.program@, arguments: strings_view(self.arguments@) }
    }
}

/// A command or an error, as specifications see it.
pub open spec fn command_result_view(r: Result<Command, LaunchError>) -> Result<
    CommandView,
    LaunchError,
> {
    match r {
        Ok(command) => Ok(command@),
        Err(e) => Err(e),
    }
}

/// The process that launches `app`.
///
/// A direct strategy starts its program with its arguments, and no shell in
/// between; in a terminal, the terminal is the program, and `-e`, the
/// strategy's program and its arguments are the terminal's arguments. A direct
/// strategy without a program is an error. A shell line is handed to `sh`
/// after `-c`; in a terminal, the line handed over is the terminal, ` -e `
/// and the shell line.
pub open spec fn launch_command(app: AppView, terminal: Seq<char>) -> Result<
    CommandView,
    LaunchError,
> {
    match app.launch_strategy {
        StrategyView::Direct(argv) => {
            if argv.len() == 0 {
                Err(LaunchError::InvalidInput)
            } else if app.runs_in_terminal {
                Ok(CommandView { program: terminal, arguments: seq!["-e"@] + argv })
            } else {
                Ok(CommandView { program: argv[0], arguments: argv.skip(1) })
            }
        },
        StrategyView::ShellLine(line) => {
            if app.runs_in_terminal {
                Ok(CommandView { program: "sh"@, arguments: seq!["-c"@, terminal + " -e "@ + line] })
            } else {
                Ok(CommandView { program: "sh"@, arguments: seq!["-c"@, line] })
            }
        },
    }
}

/// An application that can be launched is launched without error, whatever
/// the terminal: `InvalidInput` is kept for applications that name no program.
pub proof fn lemma_launchable_launches(app: AppView, terminal: Seq<char>)
    ensures
        is_launchable(app) <==> launch_command(app, terminal) is Ok,
{
}

/// Decides which process launches `app`. `terminal` is the terminal emulator
/// to wrap the application in if it runs in a terminal.
pub fn launch_app(app: &App, terminal: &str) -> (r: Result<Command, LaunchError>)
    ensures
        command_result_view(r) == launch_command(app@, terminal@),
        (app@.launch_strategy matches StrategyView::Direct(argv) && argv.len() == 0) <==> r
            == Err::<Command, LaunchError>(LaunchError::InvalidInput),
{
    match &app.launch_strategy {
        LaunchStrategy::Direct(argv) => {
            if argv.len() == 0 {
                return Err(LaunchError::InvalidInput);
            }
            let mut arguments: Vec<String> = Vec::new();
            if app.runs_in_terminal {
                arguments.push("-e".to_owned());
                let mut i: usize = 0;
                while i < argv.len()
                    invariant
                        i <= argv.len(),
                        arguments.len() == i + 1,
                        arguments[0]@ == "-e"@,
                        forall|j: int| 0 <= j < i ==> arguments[j + 1]@ == argv[j]@,
                    decreases argv.len() - i,
                {
                    arguments.push(copy_string(&argv[i]));
                    i = i + 1;
                }
                assert(strings_view(arguments@) =~= seq!["-e"@] + strings_view(argv@));
                Ok(Command { program: terminal.to_owned(), arguments })
            } else {
                let mut i: usize = 1;
                while i < argv.len()
                    invariant
                        1 <= i <= argv.len(),
                        arguments.len() == i - 1,
                        forall|j: int| 1 <= j < i ==> arguments[j - 1]@ == argv[j]@,
                    decreases argv.len() - i,
                {
                    arguments.push(copy_string(&argv[i]));
                    i = i + 1;
                }
                assert(strings_view(arguments@) =~= strings_view(argv@).skip(1));
                Ok(Command { program: copy_string(&argv[0]), arguments })
            }
        },
        LaunchStrategy::ShellLine(line) => {
            let mut arguments: Vec<String> = Vec::new();
            arguments.push("-c".to_owned());
            if app.runs_in_terminal {
                let mut wrapped = terminal.to_owned();
                wrapped.append(" -e ");
                wrapped.append(line.as_str());
                arguments.push(wrapped);
                assert(strings_view(arguments@) =~= seq!["-c"@, terminal@ + " -e "@ + line@]);
            } else {
                arguments.push(copy_string(line));
                assert(strings_view(arguments@) =~= seq!["-c"@, line@]);
            }
            Ok(Command { program: "sh".to_owned(), arguments })
        },
    }
}

/// The name to record in the history after an attempt to start `app`: the
/// application's name if the process was started, nothing if it was not.
pub fn name_to_record(app: &App, spawned: bool) -> (name: Option<String>)
    ensures
        spawned ==> name is Some && name.unwrap()@ == app@.name,
        !spawned ==> name is None,
{
    if spawned {
        Some(copy_string(&app.name))
    } else {
        None
    }
}

} // verus!
