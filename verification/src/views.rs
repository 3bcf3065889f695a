//! What the views of the values show: their fields, as they are.
use crate::builtins::{text_of, Output};
use crate::completion::{candidate_views, Candidate};
use crate::jobs::{job_views, Job};
use crate::pipeline::{command_texts, stage_views, Stage};
use crate::redirect::{target, Redirect};
use crate::request::{Request, RequestView};
use crate::shell::{Action, ActionView, Command, Effect, EffectView};
use crate::steps::{Step, StepView};
use crate::text::texts;
use vstd::prelude::*;

verus! {

/// A redirection is seen as its file and whether it is added to.
pub proof fn law_redirect_view(r: Redirect)
    ensures
        r@.path == r.path@,
        r@.append == r.append,
        target(Some(r)) == Some(r@),
        target(None) is None,
{
}

/// A command is seen as its words, its redirections and whether it runs in the background.
pub proof fn law_command_view(c: Command)
    ensures
        c@.words == texts(c.words@),
        c@.background == c.background,
        c@.stdout == target(c.stdout),
        c@.stderr == target(c.stderr),
{
}

/// A command of a pipeline is seen as its words and how it is run and tied to others.
pub proof fn law_stage_view(s: Stage, v: Seq<Stage>)
    ensures
        s@.words == texts(s.words@),
        s@.builtin == s.builtin,
        s@.reads_pipe == s.reads_pipe,
        s@.writes_pipe == s.writes_pipe,
        stage_views(v).len() == v.len(),
        forall|i: int| 0 <= i < v.len() ==> #[trigger] stage_views(v)[i] == v[i]@,
{
}

/// Lists of words are seen as the lists of their texts.
pub proof fn law_command_texts(v: Seq<Vec<String>>)
    ensures
        command_texts(v).len() == v.len(),
        forall|i: int| 0 <= i < v.len() ==> #[trigger] command_texts(v)[i] == texts(v[i]@),
{
}

/// What is printed is seen as the texts for the two outputs.
pub proof fn law_output_view(o: Output, s: String)
    ensures
        o@.out == o.out@,
        o@.err == o.err@,
        text_of(Some(s)) == Some(s@),
        text_of(None) is None,
{
}

/// A candidate is seen as what is shown and what replaces the word.
pub proof fn law_candidate_view(c: Candidate, v: Seq<Candidate>)
    ensures
        c@.display == c.display@,
        c@.replacement == c.replacement@,
        candidate_views(v).len() == v.len(),
        forall|i: int| 0 <= i < v.len() ==> #[trigger] candidate_views(v)[i] == v[i]@,
{
}

/// A job is seen as its number, its command and its status.
pub proof fn law_job_view(j: Job, v: Seq<Job>)
    ensures
        j@.number == j.number,
        j@.command == j.command@,
        j@.status == j.status@,
        job_views(v).len() == v.len(),
        forall|i: int| 0 <= i < v.len() ==> #[trigger] job_views(v)[i] == v[i]@,
{
}

/// An action is seen as what it is, with what it holds.
pub proof fn law_action_view(a: Action)
    ensures
        match a {
            Action::Forget => a@ == ActionView::Forget,
            Action::Nothing => a@ == ActionView::Nothing,
            Action::Complain(text) => a@ == ActionView::Complain(text@),
            Action::Pipeline(v) => a@ == ActionView::Pipeline(stage_views(v@)),
            Action::Builtin(c) => a@ == ActionView::Builtin(c@),
            Action::Program(c) => a@ == ActionView::Program(c@),
        },
{
}

/// An effect is seen as what it is, with what it holds.
pub proof fn law_effect_view(e: Effect)
    ensures
        match e {
            Effect::Print(o) => e@ == EffectView::Print(o@),
            Effect::Exit { code, content } => {
                e@ == (EffectView::Exit { code: code as int, content: content@ })
            },
            Effect::PrintDirectory => e@ == EffectView::PrintDirectory,
            Effect::ChangeDirectory { arg, home } => {
                e@ == (EffectView::ChangeDirectory { arg: arg@, home })
            },
            Effect::ListJobs => e@ == EffectView::ListJobs,
            Effect::Locate { name } => e@ == (EffectView::Locate { name: name@ }),
            Effect::ReadHistory { path } => e@ == (EffectView::ReadHistory { path: path@ }),
            Effect::WriteHistory { path, content } => {
                e@ == (EffectView::WriteHistory { path: path@, content: content@ })
            },
            Effect::AppendHistory { path, content } => {
                e@ == (EffectView::AppendHistory { path: path@, content: content@ })
            },
        },
{
}

/// A step is seen as what it is, with what it holds.
pub proof fn law_step_view(s: Step)
    ensures
        match s {
            Step::Do(phase) => s@ == StepView::Do(phase),
            Step::Complain(text) => s@ == StepView::Complain(text@),
            Step::Finished => s@ == StepView::Finished,
        },
{
}

/// A request is seen as what it is, with what it holds.
pub proof fn law_request_view(r: Request)
    ensures
        match r {
            Request::Command { prefix } => r@ == (RequestView::Command { prefix: prefix@ }),
            Request::Script { script, command, word, previous, line, point } => {
                r@ == (RequestView::Script {
                    script: script@,
                    command: command@,
                    word: word@,
                    previous: previous@,
                    line: line@,
                    point: point@,
                })
            },
            Request::Filename { word } => r@ == (RequestView::Filename { word: word@ }),
        },
{
}

} // verus!
