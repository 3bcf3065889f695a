//! Pipelines: commands with a `|` between them.
use crate::text::{clone_strings, texts};
use vstd::prelude::*;
use vstd::string::*;

verus! {

/// One command of a pipeline.
pub struct Stage {
    /// The command and its arguments.
    pub words: Vec<String>,
    /// Whether the shell runs it itself.
    pub builtin: bool,
    /// Whether it reads what the command before it writes.
    pub reads_pipe: bool,
    /// Whether the command after it reads what it writes.
    pub writes_pipe: bool,
}

/// The content of a `Stage`.
pub struct StageView {
    /// The command and its arguments.
    pub words: Seq<Seq<char>>,
    /// Whether the shell runs it itself.
    pub builtin: bool,
    /// Whether it reads what the command before it writes.
    pub reads_pipe: bool,
    /// Whether the command after it reads what it writes.
    pub writes_pipe: bool,
}

impl View for Stage {
    type V = StageView;

    open spec fn view(&self) -> StageView {
        StageView {
            words: texts(self.words@),
            builtin: self.builtin,
            reads_pipe: self.reads_pipe,
            writes_pipe: self.writes_pipe,
        }
    }
}

/// The stages of a list, by their content.
pub open spec fn stage_views(v: Seq<Stage>) -> Seq<StageView> {
    v.map_values(|s: Stage| s@)
}

/// The builtins that can stand in a pipeline.
pub open spec fn runs_in_pipeline(name: Seq<char>) -> bool {
    name == "echo"@ || name == "pwd"@ || name == "type"@
}

/// Whether the shell runs the command itself where it stands in a pipeline.
pub fn pipeline_builtin(name: &str) -> (r: bool)
    ensures
        r == runs_in_pipeline(name@),
{
    str::eq(name, "echo") || str::eq(name, "pwd") || str::eq(name, "type")
}

/// The commands of a pipeline: the words between the `|`.
pub open spec fn segments(tokens: Seq<Seq<char>>) -> Seq<Seq<Seq<char>>>
    decreases tokens.len(),
{
    if tokens.len() == 0 {
        seq![seq![]]
    } else {
        let before = segments(tokens.drop_last());
        if tokens.last() == "|"@ {
            before.push(seq![])
        } else {
            before.drop_last().push(before.last().push(tokens.last()))
        }
    }
}

/// Every command of the pipeline has a word.
pub open spec fn well_formed(tokens: Seq<Seq<char>>) -> bool {
    forall|i: int| 0 <= i < segments(tokens).len() ==> (#[trigger] segments(tokens)[i]).len() > 0
}

/// The stage of the command at `i`: it is tied to its neighbours, and only to those.
pub open spec fn stage(segs: Seq<Seq<Seq<char>>>, i: int) -> StageView {
    StageView {
        words: segs[i],
        builtin: runs_in_pipeline(segs[i][0]),
        reads_pipe: i > 0,
        writes_pipe: i < segs.len() - 1,
    }
}

/// The stages of a pipeline.
pub open spec fn stages(tokens: Seq<Seq<char>>) -> Seq<StageView> {
    Seq::new(segments(tokens).len(), |i: int| stage(segments(tokens), i))
}

/// The texts of a list of commands.
pub open spec fn command_texts(v: Seq<Vec<String>>) -> Seq<Seq<Seq<char>>> {
    v.map_values(|c: Vec<String>| texts(c@))
}

/// Splits the words of a line at each `|`.
pub fn split_segments(tokens: &Vec<String>) -> (r: Vec<Vec<String>>)
    ensures
        command_texts(r@) == segments(texts(tokens@)),
{
    let ghost all = texts(tokens@);
    let mut done: Vec<Vec<String>> = Vec::new();
    let mut current: Vec<String> = Vec::new();
    let mut i: usize = 0;
    assert(texts(current@) =~= seq![]);
    assert(command_texts(done@).push(texts(current@)) =~= segments(all.take(0)));
    while i < tokens.len()
        invariant
            i <= tokens@.len(),
            all == texts(tokens@),
            command_texts(done@).push(texts(current@)) == segments(all.take(i as int)),
        decreases tokens@.len() - i,
    {
        let ghost before = segments(all.take(i as int));
        let ghost next = all.take(i + 1);
        assert(next.drop_last() =~= all.take(i as int));
        assert(next.last() == tokens@[i as int]@);
        assert(before.drop_last() =~= command_texts(done@));
        let ghost done_texts = command_texts(done@);
        let ghost current_texts = texts(current@);
        if str::eq(tokens[i].as_str(), "|") {
            done.push(current);
            current = Vec::new();
            assert(command_texts(done@) =~= done_texts.push(current_texts));
            assert(texts(current@) =~= seq![]);
        } else {
            current.push(tokens[i].clone());
            assert(texts(current@) =~= current_texts.push(next.last()));
        }
        assert(command_texts(done@).push(texts(current@)) =~= segments(next));
        i = i + 1;
    }
    assert(all.take(i as int) =~= all);
    let ghost done_texts = command_texts(done@);
    let ghost current_texts = texts(current@);
    done.push(current);
    assert(command_texts(done@) =~= done_texts.push(current_texts));
    done
}

/// The message for a pipeline in which a command is missing.
pub open spec fn syntax_error() -> Seq<char> {
    "syntax error near `|'\n"@
}

/// The stages of a pipeline, or the message where one of its commands has no word.
pub fn plan_pipeline(tokens: &Vec<String>) -> (r: Result<Vec<Stage>, String>)
    ensures
        r is Ok <==> well_formed(texts(tokens@)),
        r matches Ok(v) ==> stage_views(v@) == stages(texts(tokens@)),
        r matches Err(e) ==> e@ == syntax_error(),
{
    let segs = split_segments(tokens);
    let ghost goal = segments(texts(tokens@));
    let mut v: Vec<Stage> = Vec::new();
    let n: usize = segs.len();
    let mut i: usize = 0;
    while i < n
        invariant
            i <= n,
            n == segs@.len(),
            command_texts(segs@) == goal,
            goal == segments(texts(tokens@)),
            stage_views(v@) == Seq::new(i as nat, |j: int| stage(goal, j)),
            forall|j: int| 0 <= j < i ==> (#[trigger] goal[j]).len() > 0,
        decreases n - i,
    {
        assert(goal[i as int] == texts(segs@[i as int]@));
        if segs[i].len() == 0 {
            assert(goal[i as int].len() == 0);
            return Err("syntax error near `|'\n".to_owned());
        }
        assert(goal[i as int][0] == segs@[i as int]@[0]@);
        let words = clone_strings(&segs[i]);
        let builtin = pipeline_builtin(words[0].as_str());
        assert(texts(words@)[0] == words@[0]@);
        let ghost before = stage_views(v@);
        let s = Stage { words, builtin, reads_pipe: i > 0, writes_pipe: i < n - 1 };
        assert(s@ == stage(goal, i as int));
        v.push(s);
        assert(stage_views(v@) =~= before.push(stage(goal, i as int)));
        i = i + 1;
        assert(stage_views(v@) =~= Seq::new(i as nat, |j: int| stage(goal, j)));
    }
    assert(stage_views(v@) =~= stages(texts(tokens@)));
    Ok(v)
}

/// Commands with a `|` between each two.
pub open spec fn with_bars(segs: Seq<Seq<Seq<char>>>) -> Seq<Seq<char>>
    decreases segs.len(),
{
    if segs.len() == 0 {
        seq![]
    } else if segs.len() == 1 {
        segs[0]
    } else {
        with_bars(segs.drop_last()).push("|"@) + segs.last()
    }
}

/// Splitting a line at its bars loses nothing: with the bars put back the commands are the
/// line again, and no command holds a bar.
pub proof fn law_segments_rebuild_the_line(tokens: Seq<Seq<char>>)
    ensures
        segments(tokens).len() > 0,
        with_bars(segments(tokens)) == tokens,
        forall|i: int|
            0 <= i < segments(tokens).len() ==> !(#[trigger] segments(tokens)[i]).contains("|"@),
    decreases tokens.len(),
{
    let segs = segments(tokens);
    if tokens.len() == 0 {
        assert(segs[0] =~= tokens);
    } else {
        law_segments_rebuild_the_line(tokens.drop_last());
        let before = segments(tokens.drop_last());
        if tokens.last() == "|"@ {
            assert(segs.drop_last() =~= before);
            assert(with_bars(segs) =~= tokens);
            assert forall|i: int| 0 <= i < segs.len() implies !(#[trigger] segs[i]).contains(
                "|"@,
            ) by {
                if i < before.len() {
                    assert(segs[i] == before[i]);
                }
            }
        } else {
            assert(segs.drop_last() =~= before.drop_last());
            assert(segs.last() == before.last().push(tokens.last()));
            if before.len() == 1 {
                assert(with_bars(before) == before[0]);
            } else {
                assert(with_bars(before) == with_bars(before.drop_last()).push("|"@)
                    + before.last());
            }
            assert(with_bars(segs) =~= with_bars(before).push(tokens.last()));
            assert(with_bars(segs) =~= tokens);
            assert forall|i: int| 0 <= i < segs.len() implies !(#[trigger] segs[i]).contains(
                "|"@,
            ) by {
                assert(!before[i].contains("|"@));
                if i == segs.len() - 1 && segs[i].contains("|"@) {
                    let j = choose|j: int| 0 <= j < segs[i].len() && segs[i][j] == "|"@;
                    if j < before[i].len() {
                        assert(before[i][j] == "|"@);
                    }
                }
            }
        }
    }
}

/// The pipes of a pipeline join neighbours: a command reads from a pipe exactly where the
/// one before it writes to a pipe, the first reads from none and the last writes to none.
pub proof fn law_pipes_join_neighbours(tokens: Seq<Seq<char>>)
    ensures
        stages(tokens).len() > 0,
        !stages(tokens)[0].reads_pipe,
        !stages(tokens).last().writes_pipe,
        forall|i: int|
            0 <= i < stages(tokens).len() - 1 ==> stages(tokens)[i].writes_pipe
                && #[trigger] stages(tokens)[i + 1].reads_pipe,
{
    law_segments_rebuild_the_line(tokens);
}

/// The commands that the shell runs itself in a pipeline.
pub proof fn law_pipeline_builtins(name: Seq<char>)
    ensures
        runs_in_pipeline(name) <==> name == "echo"@ || name == "pwd"@ || name == "type"@,
{
}

/// A bar begins the line, or stands right after another.
pub open spec fn bar_after_nothing(tokens: Seq<Seq<char>>) -> bool {
    ||| tokens.len() > 0 && tokens[0] == "|"@
    ||| exists|i: int| 0 < i < tokens.len() && tokens[i - 1] == "|"@ && #[trigger] tokens[i] == "|"@
}

/// A command is missing exactly where a bar begins or ends the line or stands right after another.
pub proof fn law_missing_commands(tokens: Seq<Seq<char>>)
    requires
        tokens.len() > 0,
    ensures
        well_formed(tokens) <==> !bar_after_nothing(tokens) && tokens.last() != "|"@,
{
    lemma_missing(tokens);
    law_segments_rebuild_the_line(tokens);
    let segs = segments(tokens);
    let n = segs.len() - 1;
    if well_formed(tokens) {
        assert(segs[n].len() > 0);
        assert(inner_full(segs)) by {
            assert forall|i: int| 0 <= i < segs.len() - 1 implies (#[trigger] segs[i]).len() > 0 by {
            }
        }
    } else {
        let i = choose|i: int| 0 <= i < segs.len() && (#[trigger] segs[i]).len() == 0;
        assert(i == n || !inner_full(segs));
    }
}

/// Every command but the last has a word.
spec fn inner_full(segs: Seq<Seq<Seq<char>>>) -> bool {
    forall|i: int| 0 <= i < segs.len() - 1 ==> (#[trigger] segs[i]).len() > 0
}

proof fn lemma_missing(tokens: Seq<Seq<char>>)
    ensures
        inner_full(segments(tokens)) <==> !bar_after_nothing(tokens),
        segments(tokens).len() > 0,
        segments(tokens).last().len() == 0 <==> tokens.len() == 0 || tokens.last() == "|"@,
    decreases tokens.len(),
{
    if tokens.len() > 0 {
        let less = tokens.drop_last();
        let n = tokens.len() - 1;
        lemma_missing(less);
        let before = segments(less);
        let segs = segments(tokens);
        assert(bar_after_nothing(less) ==> bar_after_nothing(tokens)) by {
            if bar_after_nothing(less) {
                if !(less.len() > 0 && less[0] == "|"@) {
                    let i = choose|i: int|
                        0 < i < less.len() && less[i - 1] == "|"@ && #[trigger] less[i] == "|"@;
                    assert(tokens[i] == less[i] && tokens[i - 1] == less[i - 1]);
                }
            }
        }
        if tokens.last() == "|"@ {
            assert(segs =~= before.push(seq![]));
            assert(inner_full(segs) <==> inner_full(before) && before.last().len() > 0) by {
                if inner_full(segs) {
                    assert(segs[before.len() - 1].len() > 0);
                    assert forall|i: int| 0 <= i < before.len() - 1 implies (
                    #[trigger] before[i]).len() > 0 by {
                        assert(segs[i] == before[i]);
                    }
                } else {
                    let i = choose|i: int| 0 <= i < segs.len() - 1 && (#[trigger] segs[i]).len() == 0;
                    assert(before[i] == segs[i]);
                }
            }
            if bar_after_nothing(tokens) && !bar_after_nothing(less) {
                if tokens[0] == "|"@ {
                    assert(less.len() > 0 ==> less[0] == "|"@);
                } else {
                    let i = choose|i: int|
                        0 < i < tokens.len() && tokens[i - 1] == "|"@ && #[trigger] tokens[i]
                            == "|"@;
                    if i < n {
                        assert(less[i] == tokens[i] && less[i - 1] == tokens[i - 1]);
                    } else {
                        assert(less.last() == tokens[i - 1]);
                    }
                }
            }
            if !bar_after_nothing(tokens) {
                assert(less.len() > 0);
                assert(tokens[n] == "|"@);
                assert(less.last() == tokens[n - 1]);
            }
        } else {
            assert(segs =~= before.drop_last().push(before.last().push(tokens.last())));
            assert(inner_full(segs) <==> inner_full(before)) by {
                assert(forall|i: int| 0 <= i < segs.len() - 1 ==> segs[i] == before[i]);
            }
            if bar_after_nothing(tokens) && !bar_after_nothing(less) {
                if tokens[0] == "|"@ {
                    assert(less[0] == "|"@);
                } else {
                    let i = choose|i: int|
                        0 < i < tokens.len() && tokens[i - 1] == "|"@ && #[trigger] tokens[i]
                            == "|"@;
                    assert(less[i] == tokens[i] && less[i - 1] == tokens[i - 1]);
                }
            }
        }
    }
}

} // verus!
