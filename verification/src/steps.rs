//! The steps of running one command: find it, open its redirections, run it.
use crate::builtins::{builtin_name, is_builtin, text_of};
use crate::messages::{command_not_found, execution_failed, redirect_failed};
use crate::shell::{Command, CommandView};
use vstd::prelude::*;
use vstd::string::*;

verus! {

/// Something that is done outside for a command.
#[derive(Clone, Copy)]
pub enum Phase {
    /// The program is looked for.
    Find,
    /// The file for standard output is opened.
    OpenStdout,
    /// The file for standard error is opened.
    OpenStderr,
    /// The shell runs the command itself.
    Run,
    /// The program is started.
    Launch,
}

/// What comes next for a command.
pub enum Step {
    /// Something is to be done outside.
    Do(Phase),
    /// A message goes to standard error, and the command is over.
    Complain(String),
    /// The command is over.
    Finished,
}

/// The content of a `Step`.
pub enum StepView {
    /// Something is to be done outside.
    Do(Phase),
    /// A message goes to standard error, and the command is over.
    Complain(Seq<char>),
    /// The command is over.
    Finished,
}

impl View for Step {
    type V = StepView;

    open spec fn view(&self) -> StepView {
        match *self {
            Step::Do(phase) => StepView::Do(phase),
            Step::Complain(text) => StepView::Complain(text@),
            Step::Finished => StepView::Finished,
        }
    }
}

/// The phase once standard output is taken care of.
pub open spec fn after_stdout(c: CommandView) -> Phase {
    if c.stderr is Some {
        Phase::OpenStderr
    } else {
        last_phase(c)
    }
}

/// The last phase: the shell runs a builtin itself, and starts a program.
pub open spec fn last_phase(c: CommandView) -> Phase {
    if builtin_name(c.words[0]) {
        Phase::Run
    } else {
        Phase::Launch
    }
}

/// The first phase of opening and running a command: its standard output is opened before its
/// standard error.
pub open spec fn opening(c: CommandView) -> Phase {
    if c.stdout is Some {
        Phase::OpenStdout
    } else {
        after_stdout(c)
    }
}

/// The first phase of a command: a program is looked for before any of its files is opened.
pub open spec fn first_phase(c: CommandView) -> Phase {
    if builtin_name(c.words[0]) {
        opening(c)
    } else {
        Phase::Find
    }
}

/// The phase can come up for the command.
pub open spec fn possible(c: CommandView, phase: Phase) -> bool {
    match phase {
        Phase::Find => !builtin_name(c.words[0]),
        Phase::OpenStdout => c.stdout is Some,
        Phase::OpenStderr => c.stderr is Some,
        Phase::Run => builtin_name(c.words[0]),
        Phase::Launch => !builtin_name(c.words[0]),
    }
}

/// What comes after a phase, given the reason where it failed: a failure ends the command with
/// a message.
pub open spec fn step_after(
    c: CommandView,
    phase: Phase,
    failure: Option<Seq<char>>,
) -> StepView {
    match (phase, failure) {
        (Phase::Find, None) => StepView::Do(opening(c)),
        (Phase::Find, Some(_)) => StepView::Complain(c.words[0] + ": command not found\n"@),
        (Phase::OpenStdout, None) => StepView::Do(after_stdout(c)),
        (Phase::OpenStdout, Some(reason)) => {
            StepView::Complain((c.stdout->0).path + ": "@ + reason + "\n"@)
        },
        (Phase::OpenStderr, None) => StepView::Do(last_phase(c)),
        (Phase::OpenStderr, Some(reason)) => {
            StepView::Complain((c.stderr->0).path + ": "@ + reason + "\n"@)
        },
        (Phase::Launch, Some(reason)) => {
            StepView::Complain(c.words[0] + ": failed to execute: "@ + reason + "\n"@)
        },
        (Phase::Launch, None) => StepView::Finished,
        (Phase::Run, _) => StepView::Finished,
    }
}

/// The phase once standard output is taken care of.
fn phase_after_stdout(c: &Command) -> (r: Phase)
    requires
        c.words@.len() > 0,
    ensures
        r == after_stdout(c@),
{
    if c.stderr.is_some() {
        Phase::OpenStderr
    } else {
        phase_last(c)
    }
}

/// The last phase.
fn phase_last(c: &Command) -> (r: Phase)
    requires
        c.words@.len() > 0,
    ensures
        r == last_phase(c@),
{
    assert(c@.words[0] == c.words@[0]@);
    if is_builtin(c.words[0].as_str()) {
        Phase::Run
    } else {
        Phase::Launch
    }
}

/// The first phase of opening and running a command.
fn phase_opening(c: &Command) -> (r: Phase)
    requires
        c.words@.len() > 0,
    ensures
        r == opening(c@),
{
    if c.stdout.is_some() {
        Phase::OpenStdout
    } else {
        phase_after_stdout(c)
    }
}

/// The first step of running a command.
pub fn first_step(c: &Command) -> (r: Step)
    requires
        c.words@.len() > 0,
    ensures
        r@ == StepView::Do(first_phase(c@)),
{
    assert(c@.words[0] == c.words@[0]@);
    if is_builtin(c.words[0].as_str()) {
        Step::Do(phase_opening(c))
    } else {
        Step::Do(Phase::Find)
    }
}

/// The step after a phase that was done, given the reason where it failed.
pub fn next_step(c: &Command, phase: Phase, failure: &Option<String>) -> (r: Step)
    requires
        c.words@.len() > 0,
        possible(c@, phase),
    ensures
        r@ == step_after(c@, phase, text_of(*failure)),
{
    let name = c.words[0].as_str();
    assert(c@.words[0] == name@);
    match phase {
        Phase::Find => match failure {
            None => Step::Do(phase_opening(c)),
            Some(_) => Step::Complain(command_not_found(name)),
        },
        Phase::OpenStdout => match failure {
            None => Step::Do(phase_after_stdout(c)),
            Some(reason) => match &c.stdout {
                Some(file) => {
                    Step::Complain(redirect_failed(file.path.as_str(), reason.as_str()))
                },
                None => Step::Finished,
            },
        },
        Phase::OpenStderr => match failure {
            None => Step::Do(phase_last(c)),
            Some(reason) => match &c.stderr {
                Some(file) => {
                    Step::Complain(redirect_failed(file.path.as_str(), reason.as_str()))
                },
                None => Step::Finished,
            },
        },
        Phase::Launch => match failure {
            None => Step::Finished,
            Some(reason) => Step::Complain(execution_failed(name, reason.as_str())),
        },
        Phase::Run => Step::Finished,
    }
}

/// How many phases can follow.
pub open spec fn rank(phase: Phase) -> int {
    match phase {
        Phase::Find => 3,
        Phase::OpenStdout => 2,
        Phase::OpenStderr => 1,
        Phase::Run => 0,
        Phase::Launch => 0,
    }
}

/// Each phase that follows another can come up for the command and stands later in the order
/// find, standard output, standard error, run: the command comes to an end, and nothing is
/// done twice.
pub proof fn law_phases_advance(c: CommandView, phase: Phase, failure: Option<Seq<char>>)
    requires
        possible(c, phase),
    ensures
        possible(c, first_phase(c)),
        step_after(c, phase, failure) matches StepView::Do(next) ==> possible(c, next) && rank(next)
            < rank(phase),
{
}

/// A command of which a phase failed is not run: the failure is the end of it.
pub proof fn law_failure_ends_the_command(c: CommandView, phase: Phase, reason: Seq<char>)
    requires
        possible(c, phase),
    ensures
        step_after(c, phase, Some(reason)) !is Do,
{
}

/// The phases of a command in which nothing fails: a program is found, the file for standard
/// output is opened where there is one, then the file for standard error, and the command runs.
pub open spec fn phases(c: CommandView) -> Seq<Phase> {
    let find = if builtin_name(c.words[0]) {
        seq![]
    } else {
        seq![Phase::Find]
    };
    let stdout = if c.stdout is Some {
        seq![Phase::OpenStdout]
    } else {
        seq![]
    };
    let stderr = if c.stderr is Some {
        seq![Phase::OpenStderr]
    } else {
        seq![]
    };
    let last = if builtin_name(c.words[0]) {
        Phase::Run
    } else {
        Phase::Launch
    };
    find + stdout + stderr + seq![last]
}

/// As long as nothing fails the steps go through all phases of the command, in their order.
pub proof fn law_steps_go_through_the_phases(c: CommandView)
    ensures
        phases(c)[0] == first_phase(c),
        forall|i: int|
            0 <= i < phases(c).len() - 1 ==> step_after(c, #[trigger] phases(c)[i], None)
                == StepView::Do(phases(c)[i + 1]),
        step_after(c, phases(c).last(), None) == StepView::Finished,
{
}

/// The message of a failure tells what failed: the program that was not found or could not be
/// started, or the file that could not be opened, with the reason for the latter two.
pub proof fn law_failures_are_told(c: CommandView, reason: Seq<char>)
    ensures
        step_after(c, Phase::Find, Some(reason)) == StepView::Complain(
            c.words[0] + ": command not found\n"@,
        ),
        c.stdout is Some ==> step_after(c, Phase::OpenStdout, Some(reason)) == StepView::Complain(
            (c.stdout->0).path + ": "@ + reason + "\n"@,
        ),
        c.stderr is Some ==> step_after(c, Phase::OpenStderr, Some(reason)) == StepView::Complain(
            (c.stderr->0).path + ": "@ + reason + "\n"@,
        ),
        step_after(c, Phase::Launch, Some(reason)) == StepView::Complain(
            c.words[0] + ": failed to execute: "@ + reason + "\n"@,
        ),
        step_after(c, Phase::Run, Some(reason)) == StepView::Finished,
{
}

/// A phase can come up exactly where it has something to do: a program is found and launched, a
/// builtin is run, and a file is opened for each output that is redirected.
pub proof fn law_possible_phases(c: CommandView)
    ensures
        possible(c, Phase::Find) <==> !builtin_name(c.words[0]),
        possible(c, Phase::Launch) <==> !builtin_name(c.words[0]),
        possible(c, Phase::Run) <==> builtin_name(c.words[0]),
        possible(c, Phase::OpenStdout) <==> c.stdout is Some,
        possible(c, Phase::OpenStderr) <==> c.stderr is Some,
{
}

} // verus!
