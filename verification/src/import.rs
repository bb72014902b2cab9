//! Cards from a package of another flashcard program: fields as plain text, notes as
//! card texts, and the files that the decks are written to.

use crate::cloze_utils::{span_chars, span_of};
use crate::hash::{fingerprint, has_identity};
use crate::text::{
    chars_of, extend_chars, line_views, replace_all, skip_leading, slice_chars, spec_replace,
    spec_skip_leading, spec_split, spec_trim, split_on, string_of, string_views, trim_chars,
    utf8_len,
};
use std::collections::HashMap;
use vstd::prelude::*;

verus! {

/// One match of a pattern in a text, in byte offsets: where it starts, where it ends, and
/// the same of its first group where the group took part.
pub type Found = (usize, usize, Option<(usize, usize)>);

/// The pattern of a markup tag: an opening angle bracket, what is no closing one, and a
/// closing one.
pub const TAG_PATTERN: &'static str = "(?is)<[^>]+>";

/// The pattern of a cloze deletion as the package writes it: its number, the hidden text
/// as the first group, and a hint that may follow.
pub const CLOZE_PATTERN: &'static str = "(?s)\\{\\{c\\d+::(.*?)(?:::(.*?))?\\}\\}";

/// The matches of the regular expression `pattern` in `text` from left to right, without
/// overlap; none where `pattern` is no regular expression.
pub uninterp spec fn spec_regex_matches(pattern: Seq<char>, text: Seq<char>) -> Option<Seq<Found>>;

/// `text` with its HTML entities decoded.
pub uninterp spec fn spec_decode_html_entities(text: Seq<char>) -> Seq<char>;

/// `regex::Regex::new` compiles the pattern or refuses it; `captures_iter` yields the
/// successive matches, of each of which the whole match and the first group are read.
/// Both depend on pattern and text alone.
#[verifier::external_body]
fn regex_matches(pattern: &str, text: &str) -> (r: Option<Vec<Found>>)
    ensures
        match r {
            Some(found) => spec_regex_matches(pattern@, text@) == Some(found@),
            None => spec_regex_matches(pattern@, text@) is None,
        },
{
    match regex::Regex::new(pattern) {
        Ok(re) => Some(
            re.captures_iter(text).map(
                |c| (c.get_match().start(), c.get_match().end(), c.get(1).map(|g| (g.start(), g.end()))),
            ).collect(),
        ),
        Err(_) => None,
    }
}

/// `html_escape::decode_html_entities` replaces named and numeric character references
/// that end in a semicolon and leaves the rest of the text; the result depends on the
/// text alone.
#[verifier::external_body]
fn decode_entities(text: &str) -> (out: String)
    ensures
        out@ == spec_decode_html_entities(text@),
{
    html_escape::decode_html_entities(text).into_owned()
}

/// What a rewriting has written, and the index of the first character of the text that
/// it has not read.
pub struct Rewrite {
    pub out: Seq<char>,
    pub pos: int,
}

/// The text of the first group of `found`; empty where the group took no part or does
/// not lie in `text`.
pub open spec fn group_text(text: Seq<char>, found: Found) -> Seq<char> {
    match found.2 {
        Some(group) => match span_chars(text, group.0, group.1) {
            Some(span) => text.subrange(span.0, span.1),
            None => Seq::empty(),
        },
        None => Seq::empty(),
    }
}

/// What stands in for a match: with `bracket`, its first group, trimmed, in square
/// brackets; else nothing.
pub open spec fn replacement(text: Seq<char>, found: Found, bracket: bool) -> Seq<char> {
    if bracket {
        seq!['['] + spec_trim(group_text(text, found)) + seq![']']
    } else {
        Seq::empty()
    }
}

/// One match rewritten: the text before it is copied, and the match replaced. A match
/// that does not lie in the text behind what was read, or that cuts a character, is
/// passed over.
pub open spec fn rewrite_one(text: Seq<char>, done: Rewrite, found: Found, bracket: bool) -> Rewrite {
    match span_chars(text, found.0, found.1) {
        Some(span) => if done.pos <= span.0 {
            Rewrite {
                out: done.out + text.subrange(done.pos, span.0) + replacement(text, found, bracket),
                pos: span.1,
            }
        } else {
            done
        },
        None => done,
    }
}

/// All of `matches` rewritten in turn.
pub open spec fn rewrite_all(text: Seq<char>, matches: Seq<Found>, bracket: bool) -> Rewrite
    decreases matches.len(),
{
    if matches.len() == 0 {
        Rewrite { out: Seq::empty(), pos: 0 }
    } else {
        rewrite_one(text, rewrite_all(text, matches.drop_last(), bracket), matches.last(), bracket)
    }
}

/// `text` with each of `matches` replaced, and the rest as it is.
pub open spec fn spec_rewrite(text: Seq<char>, matches: Seq<Found>, bracket: bool) -> Seq<char> {
    let done = rewrite_all(text, matches, bracket);
    done.out + text.skip(done.pos)
}

/// `text` with each of `matches` replaced: with `bracket` by its first group, trimmed, in
/// square brackets, else by nothing. The matches are taken in order; one that does not
/// lie behind the one before it, or that cuts a character, is passed over.
pub fn rewrite_matches(text: &str, matches: &Vec<Found>, bracket: bool) -> (out: String)
    ensures
        out@ == spec_rewrite(text@, matches@, bracket),
{
    let chars = chars_of(text);
    let mut out: Vec<char> = Vec::new();
    let mut pos: usize = 0;
    let mut i: usize = 0;
    assert(matches@.take(0).len() == 0);
    while i < matches.len()
        invariant
            i <= matches.len(),
            chars@ == text@,
            utf8_len(chars@) <= usize::MAX,
            pos <= chars.len(),
            rewrite_all(chars@, matches@.take(i as int), bracket) == (Rewrite {
                out: out@,
                pos: pos as int,
            }),
        decreases matches.len() - i,
    {
        let found = matches[i];
        proof {
            assert(matches@.take(i + 1).drop_last() == matches@.take(i as int));
            assert(matches@.take(i + 1).last() == found);
        }
        if let Some((from, to)) = span_of(&chars, found.0, found.1) {
            if pos <= from {
                let ghost before = out@;
                extend_chars(&mut out, &slice_chars(&chars, pos, from));
                if bracket {
                    let group = match found.2 {
                        Some((start, end)) => match span_of(&chars, start, end) {
                            Some((a, b)) => slice_chars(&chars, a, b),
                            None => Vec::new(),
                        },
                        None => Vec::new(),
                    };
                    assert(group@ =~= group_text(chars@, found));
                    out.push('[');
                    extend_chars(&mut out, &trim_chars(&group));
                    out.push(']');
                }
                assert(out@ =~= before + chars@.subrange(pos as int, from as int) + replacement(
                    chars@,
                    found,
                    bracket,
                ));
                pos = to;
            }
        }
        i += 1;
    }
    assert(matches@.take(matches.len() as int) == matches@);
    extend_chars(&mut out, &slice_chars(&chars, pos, chars.len()));
    string_of(&out)
}

/// `text` with the matches of `pattern` rewritten; as it is where `pattern` is no regular
/// expression.
pub open spec fn spec_rewrite_pattern(pattern: Seq<char>, text: Seq<char>, bracket: bool) -> Seq<
    char,
> {
    match spec_regex_matches(pattern, text) {
        Some(matches) => spec_rewrite(text, matches, bracket),
        None => text,
    }
}

fn rewrite_pattern(pattern: &str, text: &str, bracket: bool) -> (out: String)
    ensures
        out@ == spec_rewrite_pattern(pattern@, text@, bracket),
{
    match regex_matches(pattern, text) {
        Some(matches) => rewrite_matches(text, &matches, bracket),
        None => string_of(&chars_of(text)),
    }
}

/// `text` with every cloze deletion of the package's form written as its hidden text in
/// square brackets.
pub open spec fn spec_convert_cloze(text: Seq<char>) -> Seq<char> {
    spec_rewrite_pattern(CLOZE_PATTERN@, text, true)
}

/// Writes every cloze deletion of `text` as its hidden text in square brackets; number
/// and hint go.
pub fn convert_cloze(text: &str) -> (out: String)
    ensures
        out@ == spec_convert_cloze(text@),
{
    rewrite_pattern(CLOZE_PATTERN, text, true)
}

/// `text` with the line breaks and block tags of HTML written as line feeds, list items
/// as dashed lines, and carriage returns before line feeds gone.
pub open spec fn spec_tidy(text: Seq<char>) -> Seq<char> {
    let a = spec_replace(text, "\r\n"@, "\n"@);
    let b = spec_replace(a, "<br />"@, "\n"@);
    let c = spec_replace(b, "<br>"@, "\n"@);
    let d = spec_replace(c, "<div>"@, "\n"@);
    let e = spec_replace(d, "</div>"@, "\n"@);
    let f = spec_replace(e, "<p>"@, "\n"@);
    let g = spec_replace(f, "</p>"@, "\n"@);
    let h = spec_replace(g, "<li>"@, "\n- "@);
    spec_replace(h, "</li>"@, ""@)
}

/// A field of a note as plain text: tidied, without the tags that are left, trimmed, and
/// with its entities decoded.
pub open spec fn spec_clean_field(field: Seq<char>) -> Seq<char> {
    spec_decode_html_entities(spec_trim(spec_rewrite_pattern(TAG_PATTERN@, spec_tidy(field), false)))
}

fn replace_text(v: &Vec<char>, from: &str, to: &str) -> (out: Vec<char>)
    ensures
        out@ == spec_replace(v@, from@, to@),
{
    let pattern = chars_of(from);
    if pattern.len() == 0 {
        slice_chars(v, 0, v.len())
    } else {
        replace_all(v, &pattern, &chars_of(to))
    }
}

/// Turns a field of a note into plain text.
pub fn clean_field(field: &str) -> (out: String)
    ensures
        out@ == spec_clean_field(field@),
{
    let a = replace_text(&chars_of(field), "\r\n", "\n");
    let b = replace_text(&a, "<br />", "\n");
    let c = replace_text(&b, "<br>", "\n");
    let d = replace_text(&c, "<div>", "\n");
    let e = replace_text(&d, "</div>", "\n");
    let f = replace_text(&e, "<p>", "\n");
    let g = replace_text(&f, "</p>", "\n");
    let h = replace_text(&g, "<li>", "\n- ");
    let tidy = replace_text(&h, "</li>", "");
    let bare = rewrite_pattern(TAG_PATTERN, string_of(&tidy).as_str(), false);
    let trimmed = trim_chars(&chars_of(bare.as_str()));
    decode_entities(string_of(&trimmed).as_str())
}

/// The character that parts the fields of a note.
pub open spec fn field_separator() -> char {
    '\u{1f}'
}

/// Each of `parts` cleaned as a field.
pub open spec fn clean_each(parts: Seq<Seq<char>>) -> Seq<Seq<char>> {
    Seq::new(parts.len(), |i: int| spec_clean_field(parts[i]))
}

/// The fields of a note as plain texts.
pub open spec fn spec_split_fields(raw: Seq<char>) -> Seq<Seq<char>> {
    clean_each(spec_split(raw, seq![field_separator()]))
}

/// The fields of a note, which the package packs into one text, as plain texts.
pub fn split_fields(raw: &str) -> (fields: Vec<String>)
    ensures
        string_views(fields@) == spec_split_fields(raw@),
{
    let mut sep: Vec<char> = Vec::new();
    sep.push('\u{1f}');
    assert(sep@ =~= seq![field_separator()]);
    let parts = split_on(&chars_of(raw), &sep);
    let mut fields: Vec<String> = Vec::new();
    let mut i: usize = 0;
    while i < parts.len()
        invariant
            i <= parts.len(),
            fields.len() == i,
            forall|j: int| 0 <= j < i ==> fields[j]@ == spec_clean_field(#[trigger] parts[j]@),
        decreases parts.len() - i,
    {
        fields.push(clean_field(string_of(&parts[i]).as_str()));
        i += 1;
    }
    assert(string_views(fields@) =~= clean_each(line_views(parts@)));
    fields
}

/// Whether a character may not stand in a file name.
pub open spec fn is_reserved(c: char) -> bool {
    c == '/' || c == '\\' || c == ':' || c == '*' || c == '?' || c == '"' || c == '<' || c == '>'
        || c == '|'
}

/// `s` with a hyphen for each character that may not stand in a file name.
pub open spec fn hyphenated(s: Seq<char>) -> Seq<char> {
    Seq::new(s.len(), |i: int| if is_reserved(s[i]) { '-' } else { s[i] })
}

/// A part of a deck's name as the name of a file or directory: trimmed, without dots at
/// its start, with hyphens for what may not stand in a file name, and trimmed again.
pub open spec fn spec_sanitize_component(input: Seq<char>) -> Seq<char> {
    spec_trim(hyphenated(spec_skip_leading(spec_trim(input), '.')))
}

/// Makes a part of a deck's name fit to name a file or directory.
pub fn sanitize_component(input: &str) -> (out: String)
    ensures
        out@ == spec_sanitize_component(input@),
{
    string_of(&sanitize_chars(&chars_of(input)))
}

fn sanitize_chars(input: &Vec<char>) -> (out: Vec<char>)
    ensures
        out@ == spec_sanitize_component(input@),
{
    let trimmed = trim_chars(input);
    let lo = skip_leading(&trimmed, 0, trimmed.len(), '.');
    assert(trimmed@.subrange(0, trimmed.len() as int) == trimmed@);
    let mut out: Vec<char> = Vec::new();
    let mut i: usize = lo;
    let ghost kept = trimmed@.subrange(lo as int, trimmed.len() as int);
    while i < trimmed.len()
        invariant
            lo <= i <= trimmed.len(),
            kept == trimmed@.subrange(lo as int, trimmed.len() as int),
            out@ == hyphenated(kept).take(i - lo),
        decreases trimmed.len() - i,
    {
        let ch = trimmed[i];
        if ch == '/' || ch == '\\' || ch == ':' || ch == '*' || ch == '?' || ch == '"' || ch == '<'
            || ch == '>' || ch == '|' {
            out.push('-');
        } else {
            out.push(ch);
        }
        assert(out@ =~= hyphenated(kept).take(i + 1 - lo));
        i += 1;
    }
    assert(hyphenated(kept).take(trimmed.len() - lo) == hyphenated(kept));
    trim_chars(&out)
}

/// The parts of `parts` that are not empty once they are sanitized, sanitized.
pub open spec fn kept_components(parts: Seq<Seq<char>>) -> Seq<Seq<char>>
    decreases parts.len(),
{
    if parts.len() == 0 {
        Seq::empty()
    } else if spec_sanitize_component(parts.last()).len() == 0 {
        kept_components(parts.drop_last())
    } else {
        kept_components(parts.drop_last()).push(spec_sanitize_component(parts.last()))
    }
}

/// The directories and the file that a deck's name stands for: its parts between double
/// colons, sanitized, without the empty ones; `Deck` alone where none is left.
pub open spec fn spec_deck_components(name: Seq<char>) -> Seq<Seq<char>> {
    let kept = kept_components(spec_split(name, seq![':', ':']));
    if kept.len() == 0 {
        seq!["Deck"@]
    } else {
        kept
    }
}

/// The directories and the file that a deck's name stands for.
pub fn deck_components(name: &str) -> (parts: Vec<String>)
    ensures
        string_views(parts@) == spec_deck_components(name@),
{
    let mut sep: Vec<char> = Vec::new();
    sep.push(':');
    sep.push(':');
    assert(sep@ =~= seq![':', ':']);
    let pieces = split_on(&chars_of(name), &sep);
    let ghost all = line_views(pieces@);
    let mut parts: Vec<String> = Vec::new();
    let mut i: usize = 0;
    assert(all.take(0).len() == 0);
    assert(string_views(parts@) =~= Seq::<Seq<char>>::empty());
    while i < pieces.len()
        invariant
            i <= pieces.len(),
            all == line_views(pieces@),
            string_views(parts@) == kept_components(all.take(i as int)),
        decreases pieces.len() - i,
    {
        proof {
            assert(all.take(i + 1).drop_last() == all.take(i as int));
            assert(all.take(i + 1).last() == pieces[i as int]@);
        }
        let part = sanitize_chars(&pieces[i]);
        if part.len() > 0 {
            let ghost before = string_views(parts@);
            parts.push(string_of(&part));
            assert(string_views(parts@) =~= before.push(part@));
        }
        i += 1;
    }
    assert(all.take(pieces.len() as int) == all);
    if parts.len() == 0 {
        parts.push(string_of(&chars_of("Deck")));
        assert(string_views(parts@) =~= seq!["Deck"@]);
    }
    parts
}

/// A section of a card as it stands in a file: the label, a colon and a space, the value
/// trimmed, and a line feed. None for a blank value.
pub open spec fn spec_format_section(label: Seq<char>, value: Seq<char>) -> Option<Seq<char>> {
    if spec_trim(value).len() == 0 {
        None
    } else {
        Some(label + seq![':', ' '] + spec_trim(value) + seq!['\n'])
    }
}

fn section_chars(label: &str, value: &Vec<char>) -> (r: Option<Vec<char>>)
    ensures
        r is Some <==> spec_format_section(label@, value@) is Some,
        r matches Some(out) ==> out@ == spec_format_section(label@, value@)->0,
{
    let trimmed = trim_chars(value);
    if trimmed.len() == 0 {
        return None;
    }
    let mut out = chars_of(label);
    out.push(':');
    out.push(' ');
    extend_chars(&mut out, &trimmed);
    out.push('\n');
    assert(out@ =~= label@ + seq![':', ' '] + spec_trim(value@) + seq!['\n']);
    Some(out)
}

/// Writes a section of a card as it stands in a file.
pub fn format_section(label: &str, value: &str) -> (r: Option<String>)
    ensures
        r is Some <==> spec_format_section(label@, value@) is Some,
        r matches Some(out) ==> out@ == spec_format_section(label@, value@)->0,
{
    match section_chars(label, &chars_of(value)) {
        Some(out) => Some(string_of(&out)),
        None => None,
    }
}

/// A note of two fields as a basic card in a file: question, answer and a blank line. The
/// first field is the question on cards of even order, the second on cards of odd order.
/// None where a field is missing or blank.
pub open spec fn spec_basic_entry(fields: Seq<Seq<char>>, ord: i64) -> Option<Seq<char>> {
    if fields.len() < 2 {
        None
    } else {
        let question = if ord % 2 == 0 {
            fields[0]
        } else {
            fields[1]
        };
        let answer = if ord % 2 == 0 {
            fields[1]
        } else {
            fields[0]
        };
        match (spec_format_section(seq!['Q'], question), spec_format_section(seq!['A'], answer)) {
            (Some(q), Some(a)) => Some(q + a + seq!['\n']),
            _ => None,
        }
    }
}

/// Whether `n` is even.
fn is_even(n: i64) -> (r: bool)
    ensures
        r == (n % 2 == 0),
{
    if n >= 0 {
        n % 2 == 0
    } else if n == i64::MIN {
        true
    } else {
        (-n) % 2 == 0
    }
}

/// Writes a note of two fields as a basic card.
pub fn basic_entry(fields: &[String], ord: i64) -> (r: Option<String>)
    ensures
        r is Some <==> spec_basic_entry(string_views(fields@), ord) is Some,
        r matches Some(out) ==> out@ == spec_basic_entry(string_views(fields@), ord)->0,
{
    if fields.len() < 2 {
        return None;
    }
    let (question, answer) = if is_even(ord) {
        (&fields[0], &fields[1])
    } else {
        (&fields[1], &fields[0])
    };
    proof {
        reveal_strlit("Q");
        reveal_strlit("A");
        assert("Q"@ =~= seq!['Q']);
        assert("A"@ =~= seq!['A']);
    }
    let mut entry = match section_chars("Q", &chars_of(question.as_str())) {
        Some(q) => q,
        None => {
            return None;
        },
    };
    match section_chars("A", &chars_of(answer.as_str())) {
        Some(a) => {
            extend_chars(&mut entry, &a);
        },
        None => {
            return None;
        },
    }
    entry.push('\n');
    Some(string_of(&entry))
}

/// A cloze note as a cloze card in a file: its first field with the deletions in square
/// brackets, and a blank line. None where there is no field or it is blank.
pub open spec fn spec_cloze_entry(fields: Seq<Seq<char>>) -> Option<Seq<char>> {
    if fields.len() == 0 {
        None
    } else {
        match spec_format_section(seq!['C'], spec_trim(spec_convert_cloze(fields[0]))) {
            Some(c) => Some(c + seq!['\n']),
            None => None,
        }
    }
}

/// Writes a cloze note as a cloze card.
pub fn cloze_entry(fields: &[String]) -> (r: Option<String>)
    ensures
        r is Some <==> spec_cloze_entry(string_views(fields@)) is Some,
        r matches Some(out) ==> out@ == spec_cloze_entry(string_views(fields@))->0,
{
    if fields.len() == 0 {
        return None;
    }
    let converted = convert_cloze(fields[0].as_str());
    proof {
        reveal_strlit("C");
        assert("C"@ =~= seq!['C']);
    }
    match section_chars("C", &trim_chars(&chars_of(converted.as_str()))) {
        Some(mut entry) => {
            entry.push('\n');
            Some(string_of(&entry))
        },
        None => None,
    }
}

/// The kind of a note: what its fields mean.
#[derive(Clone, Copy, Debug, PartialEq, Eq, Structural)]
pub enum ModelKind {
    Basic,
    Cloze,
}

/// A card of the package: its deck, the kind of its note by the model's number, its
/// order among the cards of the note, and the note's fields.
#[derive(Debug)]
pub struct CardRecord {
    pub deck_id: i64,
    pub model_id: i64,
    pub card_order: i64,
    pub fields: Vec<String>,
}

/// The mathematical value of a `CardRecord`.
pub struct RecordView {
    pub deck_id: i64,
    pub model_id: i64,
    pub card_order: i64,
    pub fields: Seq<Seq<char>>,
}

impl View for CardRecord {
    type V = RecordView;

    open spec fn view(&self) -> RecordView {
        RecordView {
            deck_id: self.deck_id,
            model_id: self.model_id,
            card_order: self.card_order,
            fields: string_views(self.fields@),
        }
    }
}

/// The views of the records of `records`, in order.
pub open spec fn record_views(records: Seq<CardRecord>) -> Seq<RecordView> {
    Seq::new(records.len(), |i: int| records[i]@)
}

/// The cards that were written for one deck, in order.
#[derive(Debug)]
pub struct DeckCards {
    pub deck_id: i64,
    pub cards: Vec<String>,
}

/// What was made of the cards of a package.
#[derive(Debug)]
pub struct Exports {
    /// The cards of each deck, the decks in the order in which their first card came.
    pub per_deck: Vec<DeckCards>,
    /// How many cards were left out because a card of the same identity came before.
    pub duplicates: usize,
    /// The models that cards named and that are not known, one for each such card.
    pub unknown_models: Vec<i64>,
}

/// The mathematical value of an `Exports`; `seen` holds the identities of the cards that
/// were written.
pub struct ExportsView {
    pub per_deck: Seq<(i64, Seq<Seq<char>>)>,
    pub duplicates: nat,
    pub unknown_models: Seq<i64>,
    pub seen: Seq<Seq<char>>,
}

/// The decks and their cards as pairs.
pub open spec fn deck_views(per_deck: Seq<DeckCards>) -> Seq<(i64, Seq<Seq<char>>)> {
    Seq::new(per_deck.len(), |i: int| (per_deck[i].deck_id, string_views(per_deck[i].cards@)))
}

/// The index of the deck `deck_id` in `per_deck`, or the length of `per_deck`.
pub open spec fn deck_position(per_deck: Seq<(i64, Seq<Seq<char>>)>, deck_id: i64) -> nat
    decreases per_deck.len(),
{
    if per_deck.len() == 0 || per_deck[0].0 == deck_id {
        0
    } else {
        1 + deck_position(per_deck.drop_first(), deck_id)
    }
}

/// `per_deck` with `content` as the last card of the deck `deck_id`, which is added at
/// the end if it has no card yet.
pub open spec fn with_card(per_deck: Seq<(i64, Seq<Seq<char>>)>, deck_id: i64, content: Seq<char>) -> Seq<
    (i64, Seq<Seq<char>>),
> {
    let at = deck_position(per_deck, deck_id) as int;
    if at < per_deck.len() {
        per_deck.update(at, (deck_id, per_deck[at].1.push(content)))
    } else {
        per_deck.push((deck_id, seq![content]))
    }
}

/// The text of a card of the package as it stands in a file, by the kind of its note.
pub open spec fn entry_of(record: RecordView, kind: ModelKind) -> Option<Seq<char>> {
    match kind {
        ModelKind::Basic => spec_basic_entry(record.fields, record.card_order),
        ModelKind::Cloze => spec_cloze_entry(record.fields),
    }
}

/// One card added. A card of an unknown model is noted and left out. A card whose note
/// gives no text, or whose text has no identity, is left out. A card with the identity of
/// one that was written is counted as a duplicate. Any other card is written to its deck.
pub open spec fn export_one(done: ExportsView, record: RecordView, models: Map<i64, ModelKind>) -> ExportsView {
    if !models.contains_key(record.model_id) {
        ExportsView { unknown_models: done.unknown_models.push(record.model_id), ..done }
    } else {
        match entry_of(record, models[record.model_id]) {
            None => done,
            Some(content) => if !has_identity(content) {
                done
            } else if done.seen.contains(fingerprint(content)) {
                ExportsView { duplicates: done.duplicates + 1, ..done }
            } else {
                ExportsView {
                    per_deck: with_card(done.per_deck, record.deck_id, content),
                    seen: done.seen.push(fingerprint(content)),
                    ..done
                }
            },
        }
    }
}

/// All of `records` added in turn.
pub open spec fn export_all(records: Seq<RecordView>, models: Map<i64, ModelKind>) -> ExportsView
    decreases records.len(),
{
    if records.len() == 0 {
        ExportsView {
            per_deck: Seq::empty(),
            duplicates: 0,
            unknown_models: Seq::empty(),
            seen: Seq::empty(),
        }
    } else {
        export_one(export_all(records.drop_last(), models), records.last(), models)
    }
}

/// The index of the deck `deck_id` in `per_deck`.
fn find_deck(per_deck: &Vec<DeckCards>, deck_id: i64) -> (at: usize)
    ensures
        at == deck_position(deck_views(per_deck@), deck_id),
        at <= per_deck.len(),
        at < per_deck.len() ==> per_deck[at as int].deck_id == deck_id,
{
    let ghost all = deck_views(per_deck@);
    let mut at: usize = 0;
    assert(all.skip(0) == all);
    while at < per_deck.len() && per_deck[at].deck_id != deck_id
        invariant
            at <= per_deck.len(),
            all == deck_views(per_deck@),
            deck_position(all, deck_id) == at + deck_position(all.skip(at as int), deck_id),
        decreases per_deck.len() - at,
    {
        assert(all.skip(at as int)[0] == all[at as int]);
        assert(all.skip(at as int).drop_first() == all.skip(at + 1));
        at += 1;
    }
    proof {
        if at < per_deck.len() {
            assert(all.skip(at as int)[0] == all[at as int]);
        }
    }
    at
}

/// Whether `hash` is among `seen`.
fn was_seen(seen: &Vec<String>, hash: &String) -> (r: bool)
    ensures
        r == string_views(seen@).contains(hash@),
{
    let mut i: usize = 0;
    while i < seen.len()
        invariant
            i <= seen.len(),
            forall|j: int| 0 <= j < i ==> string_views(seen@)[j] != hash@,
        decreases seen.len() - i,
    {
        if seen[i] == *hash {
            assert(string_views(seen@)[i as int] == hash@);
            return true;
        }
        i += 1;
    }
    false
}

/// Writes `content` as the last card of the deck `deck_id`.
fn add_card_to_deck(per_deck: &mut Vec<DeckCards>, deck_id: i64, content: String)
    ensures
        deck_views(final(per_deck)@) == with_card(deck_views(old(per_deck)@), deck_id, content@),
{
    let ghost before = deck_views(per_deck@);
    let at = find_deck(per_deck, deck_id);
    if at < per_deck.len() {
        let mut deck = per_deck.remove(at);
        let ghost cards = string_views(deck.cards@);
        deck.cards.push(content);
        assert(string_views(deck.cards@) =~= cards.push(content@));
        per_deck.insert(at, deck);
        assert(deck_views(per_deck@) =~= before.update(
            at as int,
            (deck_id, before[at as int].1.push(content@)),
        ));
    } else {
        let mut cards: Vec<String> = Vec::new();
        cards.push(content);
        assert(string_views(cards@) =~= seq![content@]);
        per_deck.push(DeckCards { deck_id, cards });
        assert(deck_views(per_deck@) =~= before.push((deck_id, seq![content@])));
    }
}

/// The cards of a package as card texts, deck by deck. Each card is written by the kind
/// of its note; a card is left out where its model is unknown, where its note gives no
/// text, where the text has no identity, and where a card of the same identity was
/// written before.
pub fn build_exports(cards: Vec<CardRecord>, models: &HashMap<i64, ModelKind>) -> (exports: Exports)
    ensures
        deck_views(exports.per_deck@) == export_all(record_views(cards@), models@).per_deck,
        exports.duplicates == export_all(record_views(cards@), models@).duplicates,
        exports.unknown_models@ == export_all(record_views(cards@), models@).unknown_models,
{
    broadcast use vstd::std_specs::hash::group_hash_axioms;

    let ghost all = record_views(cards@);
    let mut per_deck: Vec<DeckCards> = Vec::new();
    let mut seen: Vec<String> = Vec::new();
    let mut duplicates: usize = 0;
    let mut unknown_models: Vec<i64> = Vec::new();
    let mut i: usize = 0;
    assert(all.take(0).len() == 0);
    assert(deck_views(per_deck@) =~= Seq::<(i64, Seq<Seq<char>>)>::empty());
    assert(string_views(seen@) =~= Seq::<Seq<char>>::empty());
    while i < cards.len()
        invariant
            i <= cards.len(),
            all == record_views(cards@),
            duplicates <= i,
            export_all(all.take(i as int), models@) == (ExportsView {
                per_deck: deck_views(per_deck@),
                duplicates: duplicates as nat,
                unknown_models: unknown_models@,
                seen: string_views(seen@),
            }),
        decreases cards.len() - i,
    {
        let card = &cards[i];
        proof {
            assert(all.take(i + 1).drop_last() == all.take(i as int));
            assert(all.take(i + 1).last() == card@);
        }
        match models.get(&card.model_id) {
            None => {
                unknown_models.push(card.model_id);
            },
            Some(kind) => {
                let entry = match kind {
                    ModelKind::Basic => basic_entry(card.fields.as_slice(), card.card_order),
                    ModelKind::Cloze => cloze_entry(card.fields.as_slice()),
                };
                if let Some(content) = entry {
                    if let Some(hash) = crate::hash::get_hash(content.as_str()) {
                        if was_seen(&seen, &hash) {
                            duplicates += 1;
                        } else {
                            let ghost before = string_views(seen@);
                            seen.push(hash);
                            assert(string_views(seen@) =~= before.push(fingerprint(content@)));
                            add_card_to_deck(&mut per_deck, card.deck_id, content);
                        }
                    }
                }
            },
        }
        i += 1;
    }
    assert(all.take(cards.len() as int) == all);
    Exports { per_deck, duplicates, unknown_models }
}

/// The kind of a note by the type that its model gives: 1 is cloze, anything else, or
/// nothing, is basic.
pub fn model_kind(kind: Option<i64>) -> (r: ModelKind)
    ensures
        r == (if kind == Some(1i64) {
            ModelKind::Cloze
        } else {
            ModelKind::Basic
        }),
{
    match kind {
        Some(1) => ModelKind::Cloze,
        _ => ModelKind::Basic,
    }
}

/// The kinds of the models of `raw`, each an id and a type as the package gives them. A
/// model without id is left out; of two with one id the later counts.
pub open spec fn spec_parse_models(raw: Seq<(Option<i64>, Option<i64>)>) -> Map<i64, ModelKind>
    decreases raw.len(),
{
    if raw.len() == 0 {
        Map::empty()
    } else {
        let before = spec_parse_models(raw.drop_last());
        match raw.last().0 {
            Some(id) => before.insert(
                id,
                if raw.last().1 == Some(1i64) {
                    ModelKind::Cloze
                } else {
                    ModelKind::Basic
                },
            ),
            None => before,
        }
    }
}

/// The kinds of the models of a package, by id.
pub fn parse_models(raw: &Vec<(Option<i64>, Option<i64>)>) -> (models: HashMap<i64, ModelKind>)
    ensures
        models@ == spec_parse_models(raw@),
{
    broadcast use vstd::std_specs::hash::group_hash_axioms;

    let mut models: HashMap<i64, ModelKind> = HashMap::new();
    let mut i: usize = 0;
    assert(raw@.take(0).len() == 0);
    while i < raw.len()
        invariant
            i <= raw.len(),
            models@ == spec_parse_models(raw@.take(i as int)),
        decreases raw.len() - i,
    {
        proof {
            assert(raw@.take(i + 1).drop_last() == raw@.take(i as int));
            assert(raw@.take(i + 1).last() == raw[i as int]);
        }
        if let Some(id) = raw[i].0 {
            models.insert(id, model_kind(raw[i].1));
        }
        i += 1;
    }
    assert(raw@.take(raw.len() as int) == raw@);
    models
}

/// A deck of the package: its name, and the directories and the file that the name
/// stands for.
#[derive(Debug)]
pub struct DeckInfo {
    pub name: String,
    pub components: Vec<String>,
}

/// The mathematical value of a `DeckInfo`.
pub struct DeckView {
    pub name: Seq<char>,
    pub components: Seq<Seq<char>>,
}

impl View for DeckInfo {
    type V = DeckView;

    open spec fn view(&self) -> DeckView {
        DeckView { name: self.name@, components: string_views(self.components@) }
    }
}

impl Clone for DeckInfo {
    fn clone(&self) -> (r: DeckInfo)
        ensures
            r@ == self@,
    {
        let mut components: Vec<String> = Vec::new();
        let mut i: usize = 0;
        while i < self.components.len()
            invariant
                i <= self.components.len(),
                components.len() == i,
                forall|j: int| 0 <= j < i ==> components[j]@ == self.components[j]@,
            decreases self.components.len() - i,
        {
            components.push(self.components[i].clone());
            i += 1;
        }
        assert(string_views(components@) =~= string_views(self.components@));
        DeckInfo { name: self.name.clone(), components }
    }
}

/// The decks of `decks` by their views.
pub open spec fn deck_infos(decks: Map<i64, DeckInfo>) -> Map<i64, DeckView> {
    Map::new(|id: i64| decks.contains_key(id), |id: i64| decks[id]@)
}

/// The deck that the name `name` gives; a deck without name is called `Deck`.
pub open spec fn spec_deck_info(name: Option<Seq<char>>) -> DeckView {
    let name = match name {
        Some(name) => name,
        None => "Deck"@,
    };
    DeckView { name, components: spec_deck_components(name) }
}

/// The deck that the name `name` gives.
pub fn deck_info(name: Option<&str>) -> (deck: DeckInfo)
    ensures
        deck@ == spec_deck_info(
            match name {
                Some(name) => Some(name@),
                None => None,
            },
        ),
{
    let name = match name {
        Some(name) => name,
        None => "Deck",
    };
    DeckInfo { name: string_of(&chars_of(name)), components: deck_components(name) }
}

/// The decks of `raw`, each an id and a name as the package gives them. A deck without
/// id is left out; of two with one id the later counts.
pub open spec fn spec_parse_decks(raw: Seq<(Option<i64>, Option<Seq<char>>)>) -> Map<i64, DeckView>
    decreases raw.len(),
{
    if raw.len() == 0 {
        Map::empty()
    } else {
        let before = spec_parse_decks(raw.drop_last());
        match raw.last().0 {
            Some(id) => before.insert(id, spec_deck_info(raw.last().1)),
            None => before,
        }
    }
}

/// The ids and names of `raw`, the names by their views.
pub open spec fn raw_deck_views(raw: Seq<(Option<i64>, Option<String>)>) -> Seq<
    (Option<i64>, Option<Seq<char>>),
> {
    Seq::new(
        raw.len(),
        |i: int|
            (
                raw[i].0,
                match raw[i].1 {
                    Some(name) => Some(name@),
                    None => None,
                },
            ),
    )
}

/// The decks of a package, by id.
pub fn parse_decks(raw: &Vec<(Option<i64>, Option<String>)>) -> (decks: HashMap<i64, DeckInfo>)
    ensures
        deck_infos(decks@) == spec_parse_decks(raw_deck_views(raw@)),
{
    broadcast use vstd::std_specs::hash::group_hash_axioms;

    let ghost all = raw_deck_views(raw@);
    let mut decks: HashMap<i64, DeckInfo> = HashMap::new();
    let mut i: usize = 0;
    assert(all.take(0).len() == 0);
    assert(deck_infos(decks@) =~= Map::<i64, DeckView>::empty());
    while i < raw.len()
        invariant
            i <= raw.len(),
            all == raw_deck_views(raw@),
            deck_infos(decks@) == spec_parse_decks(all.take(i as int)),
        decreases raw.len() - i,
    {
        proof {
            assert(all.take(i + 1).drop_last() == all.take(i as int));
            assert(all.take(i + 1).last() == all[i as int]);
        }
        if let Some(id) = raw[i].0 {
            let ghost before = deck_infos(decks@);
            let deck = match &raw[i].1 {
                Some(name) => deck_info(Some(name.as_str())),
                None => deck_info(None),
            };
            let ghost view = deck@;
            decks.insert(id, deck);
            assert(deck_infos(decks@) =~= before.insert(id, view));
        }
        i += 1;
    }
    assert(all.take(raw.len() as int) == all);
    decks
}

/// Whether `a` stands before `b`, or is `b`, in the order of texts: character by
/// character, by the numbers of the characters, a text before its continuations.
pub open spec fn text_le(a: Seq<char>, b: Seq<char>) -> bool
    decreases a.len(),
{
    if a.len() == 0 {
        true
    } else if b.len() == 0 {
        false
    } else if a[0] == b[0] {
        text_le(a.drop_first(), b.drop_first())
    } else {
        (a[0] as u32) < (b[0] as u32)
    }
}

/// Whether `a` stands before `b`, or is `b`, in the order of texts.
pub fn chars_le(a: &Vec<char>, b: &Vec<char>) -> (r: bool)
    ensures
        r == text_le(a@, b@),
{
    let mut i: usize = 0;
    assert(a@.skip(0) == a@);
    assert(b@.skip(0) == b@);
    while i < a.len() && i < b.len()
        invariant
            i <= a.len(),
            i <= b.len(),
            text_le(a@, b@) == text_le(a@.skip(i as int), b@.skip(i as int)),
        decreases a.len() - i,
    {
        assert(a@.skip(i as int)[0] == a[i as int]);
        assert(b@.skip(i as int)[0] == b[i as int]);
        if a[i] != b[i] {
            return (a[i] as u32) < (b[i] as u32);
        }
        assert(a@.skip(i as int).drop_first() == a@.skip(i + 1));
        assert(b@.skip(i as int).drop_first() == b@.skip(i + 1));
        i += 1;
    }
    i >= a.len()
}

/// The name under which the cards of the deck `deck_id` are sorted: the deck's name, or
/// nothing where the deck is not known.
pub open spec fn sort_name(decks: Map<i64, DeckInfo>, deck_id: i64) -> Seq<char> {
    if decks.contains_key(deck_id) {
        decks[deck_id].name@
    } else {
        Seq::empty()
    }
}

/// `sorted` with `item` put behind the last deck whose name does not stand behind its
/// own.
pub open spec fn insert_sorted(
    sorted: Seq<(i64, Seq<Seq<char>>)>,
    item: (i64, Seq<Seq<char>>),
    decks: Map<i64, DeckInfo>,
) -> Seq<(i64, Seq<Seq<char>>)>
    decreases sorted.len(),
{
    if sorted.len() == 0 || text_le(sort_name(decks, sorted.last().0), sort_name(decks, item.0)) {
        sorted.push(item)
    } else {
        insert_sorted(sorted.drop_last(), item, decks).push(sorted.last())
    }
}

/// The decks of `per_deck` that have cards, in the order of their names; decks of one
/// name stay in the order in which they came.
pub open spec fn sorted_decks(per_deck: Seq<(i64, Seq<Seq<char>>)>, decks: Map<i64, DeckInfo>) -> Seq<
    (i64, Seq<Seq<char>>),
>
    decreases per_deck.len(),
{
    if per_deck.len() == 0 {
        Seq::empty()
    } else if per_deck.last().1.len() == 0 {
        sorted_decks(per_deck.drop_last(), decks)
    } else {
        insert_sorted(sorted_decks(per_deck.drop_last(), decks), per_deck.last(), decks)
    }
}

/// A file of cards to write.
#[derive(Debug)]
pub struct ExportFile {
    pub deck_id: i64,
    /// The directories that lead to the file, the outermost first.
    pub directories: Vec<String>,
    pub file_name: String,
    pub content: String,
    /// The number of cards in the file.
    pub cards: usize,
}

/// The mathematical value of an `ExportFile`.
pub struct FileView {
    pub deck_id: i64,
    pub directories: Seq<Seq<char>>,
    pub file_name: Seq<char>,
    pub content: Seq<char>,
    pub cards: nat,
}

impl View for ExportFile {
    type V = FileView;

    open spec fn view(&self) -> FileView {
        FileView {
            deck_id: self.deck_id,
            directories: string_views(self.directories@),
            file_name: self.file_name@,
            content: self.content@,
            cards: self.cards as nat,
        }
    }
}

/// The views of `files`, in order.
pub open spec fn file_views(files: Seq<ExportFile>) -> Seq<FileView> {
    Seq::new(files.len(), |i: int| files[i]@)
}

/// The texts of `cards`, one behind the other.
pub open spec fn concat_all(cards: Seq<Seq<char>>) -> Seq<char>
    decreases cards.len(),
{
    if cards.len() == 0 {
        Seq::empty()
    } else {
        concat_all(cards.drop_last()) + cards.last()
    }
}

/// The file of a deck with the cards `cards`: all but the last component of the deck are
/// directories, the last names the file, which is called `Deck` where there is none.
pub open spec fn file_of(deck_id: i64, deck: DeckView, cards: Seq<Seq<char>>) -> FileView {
    FileView {
        deck_id,
        directories: if deck.components.len() > 1 {
            deck.components.drop_last()
        } else {
            Seq::empty()
        },
        file_name: (if deck.components.len() > 0 {
            deck.components.last()
        } else {
            "Deck"@
        }) + ".md"@,
        content: concat_all(cards),
        cards: cards.len(),
    }
}

/// The files to write, and the deck at which the writing stops because it is not known.
pub struct ExportPlan {
    pub files: Vec<ExportFile>,
    pub missing: Option<i64>,
}

/// The files for `entries`, in order, up to the first deck that is not known.
pub open spec fn planned_files(entries: Seq<(i64, Seq<Seq<char>>)>, decks: Map<i64, DeckInfo>) -> (
    Seq<FileView>,
    Option<i64>,
)
    decreases entries.len(),
{
    if entries.len() == 0 {
        (Seq::empty(), None)
    } else {
        let before = planned_files(entries.drop_last(), decks);
        if before.1 is Some {
            before
        } else if decks.contains_key(entries.last().0) {
            (
                before.0.push(
                    file_of(entries.last().0, decks[entries.last().0]@, entries.last().1),
                ),
                None,
            )
        } else {
            (before.0, Some(entries.last().0))
        }
    }
}

fn name_chars(decks: &HashMap<i64, DeckInfo>, deck_id: i64) -> (name: Vec<char>)
    ensures
        name@ == sort_name(decks@, deck_id),
{
    broadcast use vstd::std_specs::hash::group_hash_axioms;

    match decks.get(&deck_id) {
        Some(deck) => chars_of(deck.name.as_str()),
        None => Vec::new(),
    }
}

fn insert_deck(sorted: &mut Vec<DeckCards>, item: DeckCards, decks: &HashMap<i64, DeckInfo>)
    ensures
        deck_views(final(sorted)@) == insert_sorted(
            deck_views(old(sorted)@),
            (item.deck_id, string_views(item.cards@)),
            decks@,
        ),
{
    let ghost all = deck_views(sorted@);
    let ghost it = (item.deck_id, string_views(item.cards@));
    let name = name_chars(decks, item.deck_id);
    let mut pos: usize = sorted.len();
    assert(all.take(pos as int) == all);
    assert(insert_sorted(all, it, decks@) =~= insert_sorted(all.take(pos as int), it, decks@)
        + all.skip(pos as int));
    loop
        invariant_except_break
            insert_sorted(all, it, decks@) == insert_sorted(all.take(pos as int), it, decks@)
                + all.skip(pos as int),
        invariant
            pos <= sorted.len(),
            all == deck_views(sorted@),
            name@ == sort_name(decks@, it.0),
        ensures
            pos <= sorted.len(),
            insert_sorted(all, it, decks@) == all.take(pos as int).push(it) + all.skip(pos as int),
        decreases pos,
    {
        if pos == 0 {
            assert(all.take(0).len() == 0);
            break;
        }
        let ghost part = all.take(pos as int);
        assert(part.last() == all[pos - 1]);
        assert(part.drop_last() == all.take(pos - 1));
        if chars_le(&name_chars(decks, sorted[pos - 1].deck_id), &name) {
            break;
        }
        assert(insert_sorted(all.take(pos - 1), it, decks@).push(all[pos - 1]) + all.skip(
            pos as int,
        ) =~= insert_sorted(all.take(pos - 1), it, decks@) + all.skip(pos - 1));
        pos -= 1;
    }
    sorted.insert(pos, item);
    assert(deck_views(sorted@) =~= all.take(pos as int).push(it) + all.skip(pos as int));
}

fn file_for(deck_id: i64, deck: &DeckInfo, cards: &Vec<String>) -> (file: ExportFile)
    ensures
        file@ == file_of(deck_id, deck@, string_views(cards@)),
{
    let ghost parts = string_views(deck.components@);
    let mut directories: Vec<String> = Vec::new();
    let inner: usize = if deck.components.len() > 0 {
        deck.components.len() - 1
    } else {
        0
    };
    let mut i: usize = 0;
    while i < inner
        invariant
            i <= inner,
            inner == 0 || inner < deck.components.len(),
            directories.len() == i,
            forall|j: int| 0 <= j < i ==> directories[j]@ == deck.components[j]@,
        decreases inner - i,
    {
        directories.push(deck.components[i].clone());
        i += 1;
    }
    assert(string_views(directories@) =~= if parts.len() > 1 {
        parts.drop_last()
    } else {
        Seq::empty()
    });
    let mut file_name = if deck.components.len() > 0 {
        chars_of(deck.components[deck.components.len() - 1].as_str())
    } else {
        chars_of("Deck")
    };
    extend_chars(&mut file_name, &chars_of(".md"));
    let ghost texts = string_views(cards@);
    let mut content: Vec<char> = Vec::new();
    let mut k: usize = 0;
    assert(texts.take(0).len() == 0);
    while k < cards.len()
        invariant
            k <= cards.len(),
            texts == string_views(cards@),
            content@ == concat_all(texts.take(k as int)),
        decreases cards.len() - k,
    {
        assert(texts.take(k + 1).drop_last() == texts.take(k as int));
        extend_chars(&mut content, &chars_of(cards[k].as_str()));
        k += 1;
    }
    assert(texts.take(cards.len() as int) == texts);
    ExportFile {
        deck_id,
        directories,
        file_name: string_of(&file_name),
        content: string_of(&content),
        cards: cards.len(),
    }
}

/// Plans the files for the cards of a package: one file for each deck that has cards,
/// the decks in the order of their names. The plan stops at the first deck that is not
/// known, and names it.
pub fn plan_exports(decks: &HashMap<i64, DeckInfo>, exports: Vec<DeckCards>) -> (plan: ExportPlan)
    ensures
        (file_views(plan.files@), plan.missing) == planned_files(
            sorted_decks(deck_views(exports@), decks@),
            decks@,
        ),
{
    broadcast use vstd::std_specs::hash::group_hash_axioms;

    let ghost all = deck_views(exports@);
    let mut queue = exports;
    let mut sorted: Vec<DeckCards> = Vec::new();
    let mut taken: usize = 0;
    assert(all.len() == queue.len());
    assert(all.take(0).len() == 0);
    assert(all.skip(0) == all);
    assert(deck_views(sorted@) =~= Seq::<(i64, Seq<Seq<char>>)>::empty());
    while queue.len() > 0
        invariant
            all.len() <= usize::MAX,
            taken + queue.len() == all.len(),
            deck_views(queue@) == all.skip(taken as int),
            deck_views(sorted@) == sorted_decks(all.take(taken as int), decks@),
        decreases queue.len(),
    {
        let ghost rest = deck_views(queue@);
        let ghost held = queue@;
        assert(rest[0] == all[taken as int]);
        let item = queue.remove(0);
        proof {
            assert(all.take(taken + 1).drop_last() == all.take(taken as int));
            assert(all.take(taken + 1).last() == all[taken as int]);
            assert forall|j: int| 0 <= j < queue.len() implies deck_views(queue@)[j]
                == all.skip(taken + 1)[j] by {
                assert(queue@[j] == held[j + 1]);
                assert(rest[j + 1] == all.skip(taken as int)[j + 1]);
            }
            assert(deck_views(queue@) =~= all.skip(taken + 1));
        }
        if item.cards.len() > 0 {
            insert_deck(&mut sorted, item, decks);
        }
        taken += 1;
    }
    assert(all.take(all.len() as int) == all);
    let ghost entries = deck_views(sorted@);
    let mut files: Vec<ExportFile> = Vec::new();
    let mut i: usize = 0;
    assert(entries.take(0).len() == 0);
    assert(file_views(files@) =~= Seq::<FileView>::empty());
    while i < sorted.len()
        invariant
            i <= sorted.len(),
            entries == deck_views(sorted@),
            entries == sorted_decks(deck_views(exports@), decks@),
            planned_files(entries.take(i as int), decks@) == (file_views(files@), None::<i64>),
        decreases sorted.len() - i,
    {
        proof {
            assert(entries.take(i + 1).drop_last() == entries.take(i as int));
            assert(entries.take(i + 1).last() == entries[i as int]);
        }
        match decks.get(&sorted[i].deck_id) {
            Some(deck) => {
                let ghost before = file_views(files@);
                let file = file_for(sorted[i].deck_id, deck, &sorted[i].cards);
                files.push(file);
                assert(file_views(files@) =~= before.push(file@));
            },
            None => {
                proof {
                    assert(entries[i as int].0 == sorted[i as int].deck_id);
                    assert(!decks@.contains_key(entries[i as int].0));
                    assert(planned_files(entries.take(i + 1), decks@) == (
                        file_views(files@),
                        Some(entries[i as int].0),
                    ));
                    lemma_plan_stops(entries, decks@, i + 1);
                }
                return ExportPlan { files, missing: Some(sorted[i].deck_id) };
            },
        }
        i += 1;
    }
    assert(entries.take(sorted.len() as int) == entries);
    ExportPlan { files, missing: None }
}

/// Once a deck is not known, the plan does not grow.
pub proof fn lemma_plan_stops(entries: Seq<(i64, Seq<Seq<char>>)>, decks: Map<i64, DeckInfo>, k: int)
    requires
        0 <= k <= entries.len(),
        planned_files(entries.take(k), decks).1 is Some,
    ensures
        planned_files(entries, decks) == planned_files(entries.take(k), decks),
    decreases entries.len(),
{
    if k == entries.len() {
        assert(entries.take(k) == entries);
    } else {
        assert(entries.drop_last().take(k) == entries.take(k));
        lemma_plan_stops(entries.drop_last(), decks, k);
    }
}

/// Whether an extension marks a package: it is `apkg`.
pub fn is_package_extension(extension: Option<&str>) -> (r: bool)
    ensures
        r == (extension matches Some(e) && e@ == "apkg"@),
{
    match extension {
        Some(e) => crate::text::chars_eq_str(&chars_of(e), "apkg"),
        None => false,
    }
}

} // verus!
