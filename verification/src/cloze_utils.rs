//! Cloze texts: finding the bracketed deletions, hiding them, and the notice about
//! cloze cards that have none.

use crate::card::{card_views, Card, CardContent, CardView, ClozeRange, ContentView};
use crate::palette::{decimal, dim, paint, spec_decimal, spec_dim, spec_paint, INFO, WARNING};
use crate::text::{
    chars_of, extend_chars, lemma_utf8_len_step, skip_leading, skip_trailing,
    spec_skip_leading, spec_skip_trailing,
    lemma_utf8_len_take, slice_chars, string_of, utf8_len,
};
use vstd::prelude::*;

verus! {

/// What a scan for bracketed spans has found: the spans that are closed, and the byte
/// offset of the bracket that is open, if one is.
pub struct BracketScan {
    pub ranges: Seq<(usize, usize)>,
    pub open: Option<usize>,
}

/// One character read at byte offset `at`. An opening bracket opens a span unless one is
/// open; a closing bracket closes the open span, which ends `close` bytes after the
/// bracket's offset; nothing else counts.
pub open spec fn scan_char(scan: BracketScan, c: char, at: nat, close: nat) -> BracketScan {
    if c == '[' && scan.open is None {
        BracketScan { ranges: scan.ranges, open: Some(at as usize) }
    } else if c == ']' && scan.open is Some {
        BracketScan {
            ranges: scan.ranges.push((scan.open->0, (at + close) as usize)),
            open: None,
        }
    } else {
        scan
    }
}

/// All of `text` read.
pub open spec fn scan_text(text: Seq<char>, close: nat) -> BracketScan
    decreases text.len(),
{
    if text.len() == 0 {
        BracketScan { ranges: Seq::empty(), open: None }
    } else {
        scan_char(
            scan_text(text.drop_last(), close),
            text.last(),
            utf8_len(text.drop_last()),
            close,
        )
    }
}

/// The bracketed spans of `text`, in order, as byte offsets: each from its opening bracket
/// to just behind its closing one. Brackets do not nest: within a span further opening
/// brackets are text, and a closing bracket without an open span is text too.
pub open spec fn spec_cloze_ranges(text: Seq<char>) -> Seq<(usize, usize)> {
    scan_text(text, 1).ranges
}

/// The bracketed spans of `text`, each ending `close` bytes behind the offset of its
/// closing bracket, where `close` is 0 or 1.
pub(crate) fn scan_brackets(text: &str, close: usize) -> (ranges: Vec<(usize, usize)>)
    requires
        close <= 1,
    ensures
        ranges@ == scan_text(text@, close as nat).ranges,
{
    let chars = chars_of(text);
    let mut ranges: Vec<(usize, usize)> = Vec::new();
    let mut open: Option<usize> = None;
    let mut at: usize = 0;
    let mut k: usize = 0;
    assert(chars@.take(0).len() == 0);
    while k < chars.len()
        invariant
            k <= chars.len(),
            chars@ == text@,
            utf8_len(text@) <= usize::MAX,
            close <= 1,
            at == utf8_len(chars@.take(k as int)),
            scan_text(chars@.take(k as int), close as nat) == (BracketScan {
                ranges: ranges@,
                open,
            }),
        decreases chars.len() - k,
    {
        let c = chars[k];
        proof {
            lemma_utf8_len_step(chars@, k as int);
            assert(chars@.take(k + 1).drop_last() == chars@.take(k as int));
        }
        if c == '[' && open.is_none() {
            open = Some(at);
        } else if c == ']' && open.is_some() {
            let start = match open {
                Some(s) => s,
                None => at,
            };
            ranges.push((start, at + close));
            open = None;
        }
        at += c.len_utf8();
        k += 1;
    }
    assert(chars@.take(chars.len() as int) == chars@);
    ranges
}

/// The bracketed spans of `text`, in order, as byte offsets.
pub fn find_cloze_ranges(text: &str) -> (ranges: Vec<(usize, usize)>)
    ensures
        ranges@ == spec_cloze_ranges(text@),
{
    scan_brackets(text, 1)
}

/// The number of characters of `text` that lie wholly within its first `bytes` bytes.
pub open spec fn chars_within(text: Seq<char>, bytes: nat) -> nat
    decreases text.len(),
{
    if text.len() == 0 || utf8_len(text) <= bytes {
        text.len()
    } else {
        chars_within(text.drop_last(), bytes)
    }
}

/// Whether a character of `text` starts at byte offset `bytes`, or `text` ends there.
pub open spec fn is_boundary(text: Seq<char>, bytes: nat) -> bool {
    utf8_len(text.take(chars_within(text, bytes) as int)) == bytes
}

/// A count of characters that fit within `bytes` bytes, while one more would not, is the
/// count of those that lie within.
pub proof fn lemma_chars_within(text: Seq<char>, bytes: nat, k: int)
    requires
        0 <= k <= text.len(),
        utf8_len(text.take(k)) <= bytes,
        k < text.len() ==> utf8_len(text.take(k + 1)) > bytes,
    ensures
        chars_within(text, bytes) == k,
    decreases text.len(),
{
    if text.len() == 0 {
    } else if utf8_len(text) <= bytes {
        if k < text.len() {
            lemma_utf8_len_take(text, k + 1);
        }
    } else {
        assert(text.take(text.len() as int) == text);
        let shorter = text.drop_last();
        assert(shorter.take(k) == text.take(k));
        if k < shorter.len() {
            assert(shorter.take(k + 1) == text.take(k + 1));
        }
        lemma_chars_within(shorter, bytes, k);
    }
}

/// The number of characters of `chars` within its first `bytes` bytes, and whether a
/// character starts, or the text ends, at that offset.
fn locate(chars: &Vec<char>, bytes: usize) -> (r: (usize, bool))
    requires
        utf8_len(chars@) <= usize::MAX,
    ensures
        r.0 == chars_within(chars@, bytes as nat),
        r.0 <= chars.len(),
        r.1 == is_boundary(chars@, bytes as nat),
{
    let mut at: usize = 0;
    let mut k: usize = 0;
    assert(chars@.take(0).len() == 0);
    while k < chars.len()
        invariant
            k <= chars.len(),
            utf8_len(chars@) <= usize::MAX,
            at == utf8_len(chars@.take(k as int)),
            at <= bytes,
        decreases chars.len() - k,
    {
        proof {
            lemma_utf8_len_step(chars@, k as int);
        }
        let width = chars[k].len_utf8();
        if at + width > bytes {
            proof {
                lemma_chars_within(chars@, bytes as nat, k as int);
            }
            return (k, at == bytes);
        }
        at += width;
        k += 1;
    }
    proof {
        lemma_chars_within(chars@, bytes as nat, k as int);
    }
    (k, at == bytes)
}

/// The characters that the bytes from `start` up to `end` of `text` are: the index of the
/// first of them and the index behind the last. None where the bytes do not lie in `text`
/// in this order, or cut a character.
pub open spec fn span_chars(text: Seq<char>, start: usize, end: usize) -> Option<(int, int)> {
    if start <= end <= utf8_len(text) && is_boundary(text, start as nat) && is_boundary(
        text,
        end as nat,
    ) {
        Some((chars_within(text, start as nat) as int, chars_within(text, end as nat) as int))
    } else {
        None
    }
}

/// The characters that the bytes from `start` up to `end` of `chars` are.
pub fn span_of(chars: &Vec<char>, start: usize, end: usize) -> (r: Option<(usize, usize)>)
    requires
        utf8_len(chars@) <= usize::MAX,
    ensures
        r is Some <==> span_chars(chars@, start, end) is Some,
        r matches Some(span) ==> span.0 <= span.1 <= chars.len() && (span.0 as int, span.1 as int)
            == span_chars(chars@, start, end)->0,
{
    if start > end {
        return None;
    }
    let (from, from_exact) = locate(chars, start);
    let (to, to_exact) = locate(chars, end);
    if !from_exact || !to_exact {
        return None;
    }
    proof {
        lemma_utf8_len_take(chars@, to as int);
        if from > to {
            lemma_utf8_len_take(chars@.take(from as int), to as int);
            assert(chars@.take(from as int).take(to as int) == chars@.take(to as int));
        }
    }
    Some((from, to))
}

/// Bytes that lie in a text, of which the first stand before the last, are characters
/// of which the first stand before the last, and the last are not the end of the text
/// unless the bytes are.
pub proof fn lemma_span_apart(text: Seq<char>, start: usize, end: usize)
    requires
        span_chars(text, start, end) is Some,
    ensures
        ({
            let span = span_chars(text, start, end).unwrap();
            &&& 0 <= span.0 <= span.1 <= text.len()
            &&& start < end ==> span.0 < span.1
            &&& end < utf8_len(text) ==> span.1 < text.len()
        }),
{
    let from = chars_within(text, start as nat) as int;
    let to = chars_within(text, end as nat) as int;
    lemma_chars_within_fits(text, start as nat);
    lemma_chars_within_fits(text, end as nat);
    if from > to {
        lemma_utf8_len_take(text.take(from), to);
        assert(text.take(from).take(to) == text.take(to));
    }
    if to == text.len() {
        assert(text.take(to) == text);
    }
}

/// No more characters lie within some bytes of a text than the text has.
pub proof fn lemma_chars_within_fits(text: Seq<char>, bytes: nat)
    ensures
        chars_within(text, bytes) <= text.len(),
    decreases text.len(),
{
    if text.len() == 0 || utf8_len(text) <= bytes {
    } else {
        lemma_chars_within_fits(text.drop_last(), bytes);
    }
}

/// `n` underscores.
pub open spec fn underscores(n: nat) -> Seq<char> {
    Seq::new(n, |i: int| '_')
}

/// The placeholder for a hidden text of `n` characters: as many underscores, and at least
/// three.
pub open spec fn placeholder(n: nat) -> Seq<char> {
    underscores(if n < 3 { 3 } else { n })
}

/// `text` with the span from byte `start` up to byte `end` replaced by a bracketed
/// placeholder, which is as long as the span is without the brackets at its ends. A span
/// that does not lie in `text`, or that cuts a character, leaves `text` as it is.
pub open spec fn spec_mask_cloze_text(text: Seq<char>, start: usize, end: usize) -> Seq<char> {
    match span_chars(text, start, end) {
        Some((from, to)) => {
            let core = spec_skip_trailing(spec_skip_leading(text.subrange(from, to), '['), ']');
            text.take(from) + seq!['['] + placeholder(core.len()) + seq![']'] + text.skip(to)
        },
        None => text,
    }
}

/// Appends the placeholder for a hidden text of `n` characters.
pub(crate) fn push_placeholder(out: &mut Vec<char>, n: usize)
    ensures
        final(out)@ == old(out)@ + placeholder(n as nat),
{
    let width: usize = if n < 3 {
        3
    } else {
        n
    };
    let mut i: usize = 0;
    assert(old(out)@ + underscores(0) =~= old(out)@);
    while i < width
        invariant
            i <= width,
            out@ == old(out)@ + underscores(i as nat),
        decreases width - i,
    {
        out.push('_');
        i += 1;
        assert(out@ =~= old(out)@ + underscores(i as nat));
    }
}

/// `text` with the span `range` replaced by a bracketed placeholder of underscores, one
/// for each character of the span without the brackets at its ends, and at least three.
pub fn mask_cloze_text(text: &str, range: &ClozeRange) -> (masked: String)
    ensures
        masked@ == spec_mask_cloze_text(text@, range.start, range.end),
{
    let chars = chars_of(text);
    let (from, to) = match span_of(&chars, range.start, range.end) {
        Some(span) => span,
        None => {
            return string_of(&chars);
        },
    };
    let lo = skip_leading(&chars, from, to, '[');
    let hi = skip_trailing(&chars, lo, to, ']');
    let mut out = slice_chars(&chars, 0, from);
    out.push('[');
    push_placeholder(&mut out, hi - lo);
    out.push(']');
    let tail = slice_chars(&chars, to, chars.len());
    extend_chars(&mut out, &tail);
    proof {
        let core = spec_skip_trailing(
            spec_skip_leading(chars@.subrange(from as int, to as int), '['),
            ']',
        );
        assert(out@ =~= chars@.take(from as int) + seq!['['] + placeholder(core.len()) + seq![']']
            + chars@.skip(to as int));
    }
    string_of(&out)
}

/// The ending of a noun that counts `n` things.
pub open spec fn plural(n: nat) -> Seq<char> {
    if n == 1 {
        ""@
    } else {
        "s"@
    }
}

/// The mention of the other cards that lack a deletion, where there are any.
pub open spec fn others(additional: nat) -> Seq<char> {
    if additional > 0 {
        " along with "@ + spec_paint(WARNING@, spec_decimal(additional)) + " other card"@ + plural(
            additional,
        )
    } else {
        ""@
    }
}

/// The notice that `total_missing` cloze cards lack a deletion, with the text of one of
/// them, and the offer to have a deletion generated.
pub open spec fn spec_build_user_prompt(total_missing: nat, card_text: Seq<char>) -> Seq<char> {
    "\n"@ + spec_paint(INFO@, "repeater"@) + " found "@ + spec_paint(
        WARNING@,
        spec_decimal(total_missing),
    ) + " cloze card"@ + plural(total_missing) + " missing bracketed deletions."@ + "\n\n"@
        + spec_dim("Example needing a Cloze:"@) + "\n"@ + card_text + "\n"@ + "\n"@ + spec_paint(
        INFO@,
        "repeater"@,
    ) + " can send this text"@ + others(if total_missing >= 1 {
        (total_missing - 1) as nat
    } else {
        0
    }) + " to an LLM to generate a Cloze for you.\n"@
}

/// Appends the characters of `more`.
fn push_text(out: &mut Vec<char>, more: &str)
    ensures
        final(out)@ == old(out)@ + more@,
{
    extend_chars(out, &chars_of(more));
}

/// Appends the plural ending for `n` things.
fn push_plural(out: &mut Vec<char>, n: usize)
    ensures
        final(out)@ == old(out)@ + plural(n as nat),
{
    if n == 1 {
        push_text(out, "");
    } else {
        push_text(out, "s");
    }
}

/// The notice that `total_missing` cloze cards lack a deletion, with the text of one of
/// them, and the offer to have a deletion generated.
pub fn build_user_prompt(total_missing: usize, card_text: &str) -> (prompt: String)
    ensures
        prompt@ == spec_build_user_prompt(total_missing as nat, card_text@),
{
    let additional: usize = if total_missing >= 1 {
        total_missing - 1
    } else {
        0
    };
    let name = paint(INFO, &chars_of("repeater"));
    let mut out: Vec<char> = Vec::new();
    push_text(&mut out, "\n");
    extend_chars(&mut out, &name);
    push_text(&mut out, " found ");
    extend_chars(&mut out, &paint(WARNING, &decimal(total_missing)));
    push_text(&mut out, " cloze card");
    push_plural(&mut out, total_missing);
    push_text(&mut out, " missing bracketed deletions.");
    push_text(&mut out, "\n\n");
    extend_chars(&mut out, &dim(&chars_of("Example needing a Cloze:")));
    push_text(&mut out, "\n");
    push_text(&mut out, card_text);
    push_text(&mut out, "\n");
    push_text(&mut out, "\n");
    extend_chars(&mut out, &name);
    push_text(&mut out, " can send this text");
    let ghost before = out@;
    if additional > 0 {
        push_text(&mut out, " along with ");
        extend_chars(&mut out, &paint(WARNING, &decimal(additional)));
        push_text(&mut out, " other card");
        push_plural(&mut out, additional);
        assert(out@ =~= before + others(additional as nat));
    } else {
        push_text(&mut out, "");
    }
    assert(out@ == before + others(additional as nat));
    push_text(&mut out, " to an LLM to generate a Cloze for you.\n");
    assert(out@ =~= spec_build_user_prompt(total_missing as nat, card_text@));
    string_of(&out)
}

/// Whether a card is a cloze without a deletion: its span is empty.
pub open spec fn lacks_deletion(card: CardView) -> bool {
    match card.content {
        ContentView::Cloze { text, start, end } => start >= end,
        ContentView::Basic { .. } => false,
    }
}

/// The number of cards of `cards` that are clozes without a deletion.
pub open spec fn count_lacking(cards: Seq<CardView>) -> nat
    decreases cards.len(),
{
    if cards.len() == 0 {
        0
    } else {
        count_lacking(cards.drop_last()) + if lacks_deletion(cards.last()) {
            1nat
        } else {
            0nat
        }
    }
}

/// The text of the first card of `cards` that is a cloze without a deletion.
pub open spec fn first_lacking(cards: Seq<CardView>) -> Option<Seq<char>>
    decreases cards.len(),
{
    if cards.len() == 0 {
        None
    } else if first_lacking(cards.drop_last()) is Some {
        first_lacking(cards.drop_last())
    } else if lacks_deletion(cards.last()) {
        match cards.last().content {
            ContentView::Cloze { text, start, end } => Some(text),
            ContentView::Basic { .. } => None,
        }
    } else {
        None
    }
}

/// The notice about the cloze cards of `cards` that lack a deletion, with the text of the
/// first of them; nothing where no card lacks one.
pub open spec fn spec_cloze_user_prompt(cards: Seq<CardView>) -> Option<Seq<char>> {
    match first_lacking(cards) {
        Some(text) => Some(spec_build_user_prompt(count_lacking(cards), text)),
        None => None,
    }
}

/// The notice about the cloze cards of `cards` that lack a deletion, with the text of the
/// first of them; nothing where no card lacks one.
pub fn cloze_user_prompt(cards: &[Card]) -> (prompt: Option<String>)
    ensures
        prompt is Some <==> spec_cloze_user_prompt(card_views(cards@)) is Some,
        prompt matches Some(text) ==> text@ == spec_cloze_user_prompt(card_views(cards@))->0,
{
    let ghost all = card_views(cards@);
    let mut total_missing: usize = 0;
    let mut sample: Option<usize> = None;
    let mut i: usize = 0;
    assert(all.take(0).len() == 0);
    while i < cards.len()
        invariant
            i <= cards.len(),
            all == card_views(cards@),
            total_missing == count_lacking(all.take(i as int)),
            total_missing <= i,
            sample is Some <==> first_lacking(all.take(i as int)) is Some,
            sample matches Some(k) ==> k < i && lacks_deletion(all[k as int]) && (
            all[k as int].content matches ContentView::Cloze { text, .. } && Some(text)
                == first_lacking(all.take(i as int))),
        decreases cards.len() - i,
    {
        proof {
            assert(all.take(i + 1).drop_last() == all.take(i as int));
            assert(all.take(i + 1).last() == cards[i as int]@);
        }
        match &cards[i].content {
            CardContent::Cloze { text, start, end } => {
                if *start >= *end {
                    total_missing += 1;
                    if sample.is_none() {
                        sample = Some(i);
                    }
                }
            },
            CardContent::Basic { .. } => {},
        }
        i += 1;
    }
    assert(all.take(cards.len() as int) == all);
    match sample {
        Some(k) => match &cards[k].content {
            CardContent::Cloze { text, .. } => Some(build_user_prompt(total_missing, text.as_str())),
            CardContent::Basic { .. } => None,
        },
        None => None,
    }
}

} // verus!
