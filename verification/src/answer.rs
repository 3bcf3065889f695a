//! The answer to what is to be completed.
use crate::completion::{
    candidate_views, command_candidates, complete_command, complete_filename, complete_from_output,
    filename_candidates, law_commands_extend_the_word, law_files_extend_the_word,
    law_words_extend_the_word, lossy_utf8, word_candidates, Candidate, CandidateView, DirEntry,
    ProgramEntry,
};
use crate::lines::lines;
use crate::merge::{is_first, is_merged, law_merged_list_extends_the_word, merge};
use crate::request::{Request, RequestView};
use crate::text::has_prefix;
use vstd::prelude::*;
use vstd::utf8::*;

verus! {

/// The word that a request is about.
pub open spec fn asked_word(request: RequestView) -> Seq<char> {
    match request {
        RequestView::Command { prefix } => prefix,
        RequestView::Script { word, .. } => word,
        RequestView::Filename { word } => word,
    }
}

/// The candidates for a request, in the order in which they are found: a command is one of the
/// builtins and programs, a file is in the directory of the word, and a script gives the lines
/// that it wrote.
pub open spec fn candidates_of(
    request: RequestView,
    programs: Seq<ProgramEntry>,
    files: Seq<DirEntry>,
    output: Seq<u8>,
) -> Seq<CandidateView> {
    match request {
        RequestView::Command { prefix } => command_candidates(prefix, programs),
        RequestView::Script { word, .. } => word_candidates(lines(lossy_utf8(output)), word),
        RequestView::Filename { word } => filename_candidates(word, files),
    }
}

/// The answer to a request, in order and without repetitions, given the entries of the
/// directories where programs are looked for, those of the directory of the word, and what the
/// script wrote: nothing where it could not be run. Only what the request is about is looked at.
pub fn answer(
    request: &Request,
    programs: &Vec<ProgramEntry>,
    files: &Vec<DirEntry>,
    output: &Vec<u8>,
) -> (r: Vec<Candidate>)
    ensures
        is_merged(
            candidates_of(request@, programs@, files@, output@),
            candidate_views(r@),
        ),
        request@ is Script && valid_utf8(output@) ==> is_merged(
            word_candidates(lines(decode_utf8(output@)), asked_word(request@)),
            candidate_views(r@),
        ),
        request@ is Script && output@.len() == 0 ==> r@.len() == 0,
{
    let found = match request {
        Request::Command { prefix } => complete_command(prefix.as_str(), programs),
        Request::Script { word, .. } => complete_from_output(output, word.as_str()),
        Request::Filename { word } => complete_filename(word.as_str(), files),
    };
    let ghost list = candidate_views(found@);
    let r = merge(found);
    proof {
        if request@ is Script && output@.len() == 0 {
            assert(lines(decode_utf8(output@)) =~= seq![]);
            assert(list =~= seq![]);
            if r@.len() > 0 {
                assert(is_first(list, candidate_views(r@)[0]));
            }
        }
    }
    r
}

/// Every candidate of an answer begins with the word that it replaces.
pub proof fn law_answers_extend_the_word(
    request: RequestView,
    programs: Seq<ProgramEntry>,
    files: Seq<DirEntry>,
    output: Seq<u8>,
    answer: Seq<CandidateView>,
)
    requires
        is_merged(candidates_of(request, programs, files, output), answer),
    ensures
        forall|i: int|
            0 <= i < answer.len() ==> has_prefix(
                (#[trigger] answer[i]).replacement,
                asked_word(request),
            ),
{
    let word = asked_word(request);
    law_commands_extend_the_word(word, programs);
    law_files_extend_the_word(word, files);
    law_words_extend_the_word(lines(lossy_utf8(output)), word);
    law_merged_list_extends_the_word(
        candidates_of(request, programs, files, output),
        answer,
        word,
    );
}

/// A command is answered with commands, a file with files, and a word for a script with the lines
/// that the script wrote.
pub proof fn law_requests_are_answered(
    word: Seq<char>,
    request: RequestView,
    programs: Seq<ProgramEntry>,
    files: Seq<DirEntry>,
    output: Seq<u8>,
)
    ensures
        candidates_of(RequestView::Command { prefix: word }, programs, files, output)
            == command_candidates(word, programs),
        candidates_of(RequestView::Filename { word }, programs, files, output)
            == filename_candidates(word, files),
        request is Script ==> candidates_of(request, programs, files, output) == word_candidates(
            lines(lossy_utf8(output)),
            request->Script_word,
        ),
{
}

} // verus!
