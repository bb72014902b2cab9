//! What a language model is asked for cloze deletions and clearer questions, and what is
//! made of its answers.

use crate::text::{
    chars_of, extend_chars, line_views, slice_chars, spec_lines, spec_trim, split_lines, string_of,
    string_views, trim_chars,
};
use vstd::prelude::*;

verus! {

/// The model that writes cloze deletions.
pub const CLOZE_MODEL: &'static str = "gpt-4o-mini";

/// The model that rephrases questions.
pub const REPHRASE_MODEL: &'static str = "gpt-5-nano";

/// What the model is told before it is asked for cloze deletions.
pub const CLOZE_SYSTEM_PROMPT: &'static str =
    "You rewrite study notes into Cloze deletions. Wrap the hidden facts in square brackets []. Return up to three options, one per line, and do not add commentary.";

/// What the model is told before it is asked to rephrase a question.
pub const REPHRASE_SYSTEM_PROMPT: &'static str =
    "\nYou rewrite flashcard questions to be clearer while keeping the same fact and difficulty.\nNever reveal the answer inside the question and keep the tone neutral.\n";

/// What the user is told about a cloze text without deletion before a model is asked.
pub open spec fn spec_cloze_prompt(text: Seq<char>) -> Seq<char> {
    "There is a Cloze text in your collection that doesn't have a valid cloze []:\n\n"@ + text
        + "\nIf you'd like to use an LLM to turn this into a Cloze, we can send your text to an LLM to generate a Cloze.\n\n"@
}

/// What the user is told about the cloze text `text`, which has no deletion.
pub fn get_cloze_prompt(text: &str) -> (prompt: String)
    ensures
        prompt@ == spec_cloze_prompt(text@),
{
    let mut out = chars_of(
        "There is a Cloze text in your collection that doesn't have a valid cloze []:\n\n",
    );
    extend_chars(&mut out, &chars_of(text));
    extend_chars(
        &mut out,
        &chars_of(
            "\nIf you'd like to use an LLM to turn this into a Cloze, we can send your text to an LLM to generate a Cloze.\n\n",
        ),
    );
    string_of(&out)
}

/// Whether a text is worth a request: it is not blank.
pub fn wants_cloze(text: &str) -> (r: bool)
    ensures
        r == (spec_trim(text@).len() > 0),
{
    trim_chars(&chars_of(text)).len() > 0
}

/// What the model is asked for the text `text`.
pub open spec fn spec_cloze_request(text: Seq<char>) -> Seq<char> {
    "Turn the following text into a Cloze card by inserting [] around the hidden portion:\n"@
        + text
}

/// The request for a cloze deletion in `text`.
pub fn cloze_request(text: &str) -> (request: String)
    ensures
        request@ == spec_cloze_request(text@),
{
    let mut out = chars_of(
        "Turn the following text into a Cloze card by inserting [] around the hidden portion:\n",
    );
    extend_chars(&mut out, &chars_of(text));
    string_of(&out)
}

/// `s` without the list marks, hyphens and asterisks, at its start.
pub open spec fn without_marks(s: Seq<char>) -> Seq<char>
    decreases s.len(),
{
    if s.len() > 0 && (s[0] == '-' || s[0] == '*') {
        without_marks(s.drop_first())
    } else {
        s
    }
}

/// The suggestion that a line of an answer holds: the line without the whitespace around
/// it, without list marks at its start, and without the whitespace that then is around
/// it.
pub open spec fn suggestion_of(line: Seq<char>) -> Seq<char> {
    spec_trim(without_marks(spec_trim(line)))
}

/// The suggestions of `lines` that are not empty, in order.
pub open spec fn suggestions_of(lines: Seq<Seq<char>>) -> Seq<Seq<char>>
    decreases lines.len(),
{
    if lines.len() == 0 {
        Seq::empty()
    } else if suggestion_of(lines.last()).len() == 0 {
        suggestions_of(lines.drop_last())
    } else {
        suggestions_of(lines.drop_last()).push(suggestion_of(lines.last()))
    }
}

/// The suggestions of all the answers of `contents`, answer after answer.
pub open spec fn spec_cloze_suggestions(contents: Seq<Seq<char>>) -> Seq<Seq<char>>
    decreases contents.len(),
{
    if contents.len() == 0 {
        Seq::empty()
    } else {
        spec_cloze_suggestions(contents.drop_last()) + suggestions_of(spec_lines(contents.last()))
    }
}

fn suggestion(line: &Vec<char>) -> (out: Vec<char>)
    ensures
        out@ == suggestion_of(line@),
{
    let trimmed = trim_chars(line);
    let mut lo: usize = 0;
    assert(trimmed@.subrange(0, trimmed.len() as int) == trimmed@);
    while lo < trimmed.len() && (trimmed[lo] == '-' || trimmed[lo] == '*')
        invariant
            lo <= trimmed.len(),
            without_marks(trimmed@) == without_marks(
                trimmed@.subrange(lo as int, trimmed.len() as int),
            ),
        decreases trimmed.len() - lo,
    {
        assert(trimmed@.subrange(lo as int, trimmed.len() as int).drop_first()
            == trimmed@.subrange(lo + 1, trimmed.len() as int));
        lo += 1;
    }
    trim_chars(&slice_chars(&trimmed, lo, trimmed.len()))
}

/// The suggestions that the answers `contents` of the model hold: of each line what is
/// left without whitespace and list marks, unless nothing is left.
pub fn cloze_suggestions(contents: &Vec<String>) -> (suggestions: Vec<String>)
    ensures
        string_views(suggestions@) == spec_cloze_suggestions(string_views(contents@)),
{
    let ghost all = string_views(contents@);
    let mut suggestions: Vec<String> = Vec::new();
    let mut i: usize = 0;
    assert(all.take(0).len() == 0);
    assert(string_views(suggestions@) =~= Seq::<Seq<char>>::empty());
    while i < contents.len()
        invariant
            i <= contents.len(),
            all == string_views(contents@),
            string_views(suggestions@) == spec_cloze_suggestions(all.take(i as int)),
        decreases contents.len() - i,
    {
        let lines = split_lines(&chars_of(contents[i].as_str()));
        let ghost views = line_views(lines@);
        let ghost before = string_views(suggestions@);
        proof {
            assert(all.take(i + 1).drop_last() == all.take(i as int));
            assert(all.take(i + 1).last() == contents[i as int]@);
            assert(views.take(0).len() == 0);
            assert(before + suggestions_of(views.take(0)) =~= before);
        }
        let mut j: usize = 0;
        while j < lines.len()
            invariant
                j <= lines.len(),
                views == line_views(lines@),
                string_views(suggestions@) == before + suggestions_of(views.take(j as int)),
            decreases lines.len() - j,
        {
            proof {
                assert(views.take(j + 1).drop_last() == views.take(j as int));
                assert(views.take(j + 1).last() == lines[j as int]@);
            }
            let candidate = suggestion(&lines[j]);
            if candidate.len() > 0 {
                let ghost so_far = string_views(suggestions@);
                suggestions.push(string_of(&candidate));
                assert(string_views(suggestions@) =~= so_far.push(candidate@));
                assert(so_far.push(candidate@) =~= before + suggestions_of(views.take(j + 1)));
            }
            j += 1;
        }
        assert(views.take(lines.len() as int) == views);
        i += 1;
    }
    assert(all.take(contents.len() as int) == all);
    suggestions
}

/// What the model is asked to rephrase the question `question`, whose answer is `answer`.
pub open spec fn spec_rephrase_request(question: Seq<char>, answer: Seq<char>) -> Seq<char> {
    "Rewrite the question below so it is clearer, but keep the meaning the same.\nReturn only the rewritten question.\n\nQuestion: "@
        + question + "\nAnswer (for context; do not reveal): "@ + answer
}

/// The request to rephrase `question`.
pub fn rephrase_request(question: &str, answer: &str) -> (request: String)
    ensures
        request@ == spec_rephrase_request(question@, answer@),
{
    let mut out = chars_of(
        "Rewrite the question below so it is clearer, but keep the meaning the same.\nReturn only the rewritten question.\n\nQuestion: ",
    );
    extend_chars(&mut out, &chars_of(question));
    extend_chars(&mut out, &chars_of("\nAnswer (for context; do not reveal): "));
    extend_chars(&mut out, &chars_of(answer));
    string_of(&out)
}

/// The first of `texts` that is not blank, trimmed.
pub open spec fn spec_first_text(texts: Seq<Seq<char>>) -> Option<Seq<char>>
    decreases texts.len(),
{
    if texts.len() == 0 {
        None
    } else if spec_first_text(texts.drop_last()) is Some {
        spec_first_text(texts.drop_last())
    } else if spec_trim(texts.last()).len() > 0 {
        Some(spec_trim(texts.last()))
    } else {
        None
    }
}

/// The question that the model wrote: the first of the texts of its answer that is not
/// blank, trimmed. None where all are blank.
pub fn first_text(texts: &Vec<String>) -> (r: Option<String>)
    ensures
        r is Some <==> spec_first_text(string_views(texts@)) is Some,
        r matches Some(text) ==> text@ == spec_first_text(string_views(texts@))->0,
{
    let ghost all = string_views(texts@);
    let mut i: usize = 0;
    assert(all.take(0).len() == 0);
    while i < texts.len()
        invariant
            i <= texts.len(),
            all == string_views(texts@),
            spec_first_text(all.take(i as int)) is None,
        decreases texts.len() - i,
    {
        proof {
            assert(all.take(i + 1).drop_last() == all.take(i as int));
            assert(all.take(i + 1).last() == texts[i as int]@);
        }
        let trimmed = trim_chars(&chars_of(texts[i].as_str()));
        if trimmed.len() > 0 {
            proof {
                lemma_first_text_stays(all, i + 1);
            }
            return Some(string_of(&trimmed));
        }
        i += 1;
    }
    assert(all.take(texts.len() as int) == all);
    None
}

/// Once a text is found, further texts do not change which is the first.
pub proof fn lemma_first_text_stays(texts: Seq<Seq<char>>, k: int)
    requires
        0 <= k <= texts.len(),
        spec_first_text(texts.take(k)) is Some,
    ensures
        spec_first_text(texts) == spec_first_text(texts.take(k)),
    decreases texts.len(),
{
    if k == texts.len() {
        assert(texts.take(k) == texts);
    } else {
        assert(texts.drop_last().take(k) == texts.take(k));
        lemma_first_text_stays(texts.drop_last(), k);
    }
}

} // verus!
