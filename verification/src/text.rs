//! Texts as sequences of characters: trimming, splitting, joining, replacing, and their
//! size in bytes.

use vstd::prelude::*;
use vstd::std_specs::iter::IteratorSpec;
use vstd::utf8::{encode_scalar, encode_utf8};

verus! {

/// Whether `c` has the Unicode property White_Space, as `char::is_whitespace` decides it.
pub uninterp spec fn spec_is_whitespace(c: char) -> bool;

/// Whether `c` is alphabetic or numeric in Unicode's sense, as `char::is_alphanumeric`
/// decides it.
pub uninterp spec fn spec_is_alphanumeric(c: char) -> bool;

/// The lowercase mapping of `c` as `char::to_lowercase` yields it: one character or more.
pub uninterp spec fn spec_lowercase(c: char) -> Seq<char>;

/// The number of bytes that `c` takes in UTF-8.
pub open spec fn spec_len_utf8(c: char) -> nat {
    if (c as u32) < 0x80 {
        1
    } else if (c as u32) < 0x800 {
        2
    } else if (c as u32) < 0x10000 {
        3
    } else {
        4
    }
}

/// `text` in lowercase, as `str::to_lowercase` gives it.
pub uninterp spec fn spec_to_lowercase(text: Seq<char>) -> Seq<char>;

/// `str::to_lowercase` gives the lowercase form of the text, which depends on the text
/// alone.
#[verifier::external_body]
pub(crate) fn to_lowercase(text: &str) -> (out: String)
    ensures
        out@ == spec_to_lowercase(text@),
{
    text.to_lowercase()
}

/// `String::push` appends one character to the string.
pub assume_specification[ String::push ](s: &mut String, ch: char)
    ensures
        final(s)@ == old(s)@.push(ch),
;

/// `char::is_whitespace` is a function of the character alone; its table is Unicode's and is
/// not restated here.
pub assume_specification[ char::is_whitespace ](c: char) -> (r: bool)
    ensures
        r == spec_is_whitespace(c),
;

/// `char::is_alphanumeric` is a function of the character alone; its table is Unicode's and
/// is not restated here.
pub assume_specification[ char::is_alphanumeric ](c: char) -> (r: bool)
    ensures
        r == spec_is_alphanumeric(c),
;

/// `char::len_utf8` is 1 below U+0080, 2 below U+0800, 3 below U+10000 and 4 from there on.
pub assume_specification[ char::len_utf8 ](c: char) -> (r: usize)
    ensures
        r == spec_len_utf8(c),
;

/// `char::to_lowercase` yields the characters of the lowercase mapping, which depend on
/// the character alone; they are collected in order.
#[verifier::external_body]
pub(crate) fn lowercase_of(c: char) -> (out: Vec<char>)
    ensures
        out@ == spec_lowercase(c),
{
    c.to_lowercase().collect()
}

/// The characters of `s`, in order. A string's bytes can be counted, so its characters
/// take no more bytes than a `usize` holds.
pub fn chars_of(s: &str) -> (out: Vec<char>)
    ensures
        out@ == s@,
        utf8_len(s@) <= usize::MAX,
{
    broadcast use vstd::string::group_string_axioms;

    let mut out: Vec<char> = Vec::with_capacity(s.as_bytes().len());
    proof {
        lemma_utf8_len_is_encoded_len(s@);
    }
    let mut it = s.chars();
    loop
        invariant
            it.obeys_prophetic_iter_laws(),
            it.decrease() is Some,
            out@ + it.remaining() == s@,
        ensures
            out@ == s@,
        decreases it.decrease()->0,
    {
        match it.next() {
            Some(c) => {
                out.push(c);
            },
            None => {
                assert(it.remaining().len() == 0);
                assert(out@ + it.remaining() =~= out@);
                break;
            },
        }
    }
    out
}

/// The string that holds exactly the characters of `v`.
pub fn string_of(v: &Vec<char>) -> (out: String)
    ensures
        out@ == v@,
{
    let mut out = String::new();
    let mut i: usize = 0;
    while i < v.len()
        invariant
            i <= v.len(),
            out@ == v@.subrange(0, i as int),
        decreases v.len() - i,
    {
        out.push(v[i]);
        i += 1;
    }
    out
}

/// `s` without its leading whitespace.
pub open spec fn spec_trim_start(s: Seq<char>) -> Seq<char>
    decreases s.len(),
{
    if s.len() > 0 && spec_is_whitespace(s[0]) {
        spec_trim_start(s.drop_first())
    } else {
        s
    }
}

/// `s` without its trailing whitespace.
pub open spec fn spec_trim_end(s: Seq<char>) -> Seq<char>
    decreases s.len(),
{
    if s.len() > 0 && spec_is_whitespace(s.last()) {
        spec_trim_end(s.drop_last())
    } else {
        s
    }
}

/// `s` without leading and trailing whitespace.
pub open spec fn spec_trim(s: Seq<char>) -> Seq<char> {
    spec_trim_end(spec_trim_start(s))
}

/// Whether `s` begins with `prefix`.
pub open spec fn spec_starts_with(s: Seq<char>, prefix: Seq<char>) -> bool {
    prefix.len() <= s.len() && s.subrange(0, prefix.len() as int) == prefix
}

/// The part of `v` from `from` up to `to`, as a new vector.
pub fn slice_chars(v: &Vec<char>, from: usize, to: usize) -> (out: Vec<char>)
    requires
        from <= to <= v.len(),
    ensures
        out@ == v@.subrange(from as int, to as int),
{
    let mut out: Vec<char> = Vec::new();
    let mut i: usize = from;
    while i < to
        invariant
            from <= i <= to <= v.len(),
            out@ == v@.subrange(from as int, i as int),
        decreases to - i,
    {
        out.push(v[i]);
        i += 1;
    }
    out
}

/// Appends the characters of `more` to `out`.
pub fn extend_chars(out: &mut Vec<char>, more: &Vec<char>)
    ensures
        final(out)@ == old(out)@ + more@,
{
    let mut i: usize = 0;
    while i < more.len()
        invariant
            i <= more.len(),
            out@ == old(out)@ + more@.subrange(0, i as int),
        decreases more.len() - i,
    {
        out.push(more[i]);
        i += 1;
    }
    assert(more@.subrange(0, more.len() as int) == more@);
}

/// The index of the first character of `v` that is no whitespace, or the length of `v`.
fn skip_whitespace(v: &Vec<char>) -> (lo: usize)
    ensures
        lo <= v.len(),
        spec_trim_start(v@) == v@.subrange(lo as int, v.len() as int),
{
    let mut lo: usize = 0;
    assert(v@.subrange(0, v.len() as int) == v@);
    while lo < v.len() && v[lo].is_whitespace()
        invariant
            lo <= v.len(),
            spec_trim_start(v@) == spec_trim_start(v@.subrange(lo as int, v.len() as int)),
        decreases v.len() - lo,
    {
        assert(v@.subrange(lo as int, v.len() as int).drop_first() == v@.subrange(
            lo + 1,
            v.len() as int,
        ));
        lo += 1;
    }
    lo
}

/// The end of the part of `v` from `lo` on that is left when trailing whitespace goes.
fn skip_whitespace_back(v: &Vec<char>, lo: usize) -> (hi: usize)
    requires
        lo <= v.len(),
    ensures
        lo <= hi <= v.len(),
        spec_trim_end(v@.subrange(lo as int, v.len() as int)) == v@.subrange(lo as int, hi as int),
{
    let mut hi: usize = v.len();
    while hi > lo && v[hi - 1].is_whitespace()
        invariant
            lo <= hi <= v.len(),
            spec_trim_end(v@.subrange(lo as int, v.len() as int)) == spec_trim_end(
                v@.subrange(lo as int, hi as int),
            ),
        decreases hi - lo,
    {
        assert(v@.subrange(lo as int, hi as int).drop_last() == v@.subrange(
            lo as int,
            hi - 1,
        ));
        hi -= 1;
    }
    hi
}

/// `v` without leading and trailing whitespace.
pub fn trim_chars(v: &Vec<char>) -> (out: Vec<char>)
    ensures
        out@ == spec_trim(v@),
{
    let lo = skip_whitespace(v);
    let hi = skip_whitespace_back(v, lo);
    slice_chars(v, lo, hi)
}

/// Whether `v` holds exactly the characters of `lit`.
pub fn chars_eq_str(v: &Vec<char>, lit: &str) -> (r: bool)
    ensures
        r == (v@ == lit@),
{
    let other = chars_of(lit);
    if other.len() != v.len() {
        return false;
    }
    let mut i: usize = 0;
    while i < v.len()
        invariant
            i <= v.len(),
            other.len() == v.len(),
            other@ == lit@,
            v@.subrange(0, i as int) == other@.subrange(0, i as int),
        decreases v.len() - i,
    {
        if v[i] != other[i] {
            return false;
        }
        assert(v@.subrange(0, i + 1) == v@.subrange(0, i as int).push(v@[i as int]));
        assert(other@.subrange(0, i + 1) == other@.subrange(0, i as int).push(other@[i as int]));
        i += 1;
    }
    assert(v@.subrange(0, v.len() as int) == v@);
    assert(other@.subrange(0, v.len() as int) == other@);
    true
}

/// Whether the part of `v` from `at` on begins with `prefix`.
pub fn starts_with_at(v: &Vec<char>, at: usize, prefix: &Vec<char>) -> (r: bool)
    requires
        at <= v.len(),
    ensures
        r == spec_starts_with(v@.subrange(at as int, v.len() as int), prefix@),
{
    if prefix.len() > v.len() - at {
        return false;
    }
    let ghost rest = v@.subrange(at as int, v.len() as int);
    let mut i: usize = 0;
    while i < prefix.len()
        invariant
            i <= prefix.len(),
            at + prefix.len() <= v.len(),
            rest == v@.subrange(at as int, v.len() as int),
            rest.subrange(0, i as int) == prefix@.subrange(0, i as int),
        decreases prefix.len() - i,
    {
        if v[at + i] != prefix[i] {
            assert(rest.subrange(0, prefix.len() as int)[i as int] != prefix@[i as int]);
            return false;
        }
        assert(rest.subrange(0, i + 1) == rest.subrange(0, i as int).push(rest[i as int]));
        assert(prefix@.subrange(0, i + 1) == prefix@.subrange(0, i as int).push(
            prefix@[i as int],
        ));
        i += 1;
    }
    assert(prefix@.subrange(0, prefix.len() as int) == prefix@);
    true
}

/// The number of bytes that `s` takes in UTF-8.
pub open spec fn utf8_len(s: Seq<char>) -> nat
    decreases s.len(),
{
    if s.len() == 0 {
        0
    } else {
        utf8_len(s.drop_last()) + spec_len_utf8(s.last())
    }
}

/// The encoding of a text in two parts is the encoding of the first part followed by that
/// of the second.
pub proof fn lemma_encode_concat(a: Seq<char>, b: Seq<char>)
    ensures
        encode_utf8(a + b) == encode_utf8(a) + encode_utf8(b),
    decreases a.len(),
{
    if a.len() == 0 {
        assert(a + b == b);
        assert(encode_utf8(a) + encode_utf8(b) =~= encode_utf8(b));
    } else {
        assert((a + b).drop_first() == a.drop_first() + b);
        lemma_encode_concat(a.drop_first(), b);
        assert(encode_utf8(a + b) =~= encode_utf8(a) + encode_utf8(b));
    }
}

/// `utf8_len` is the length of the UTF-8 encoding.
pub proof fn lemma_utf8_len_is_encoded_len(s: Seq<char>)
    ensures
        utf8_len(s) == encode_utf8(s).len(),
    decreases s.len(),
{
    if s.len() > 0 {
        let c = s.last();
        lemma_utf8_len_is_encoded_len(s.drop_last());
        lemma_encode_concat(s.drop_last(), seq![c]);
        assert(s == s.drop_last() + seq![c]);
        assert(seq![c].drop_first() == Seq::<char>::empty());
        assert(encode_utf8(Seq::<char>::empty()).len() == 0);
        assert(seq![c][0] == c);
        assert(encode_utf8(seq![c]) =~= encode_scalar(c as u32) + encode_utf8(
            Seq::<char>::empty(),
        ));
        vstd::utf8::char_is_scalar(c);
    }
}

/// A part of a text that starts at its beginning takes no more bytes than the text.
pub proof fn lemma_utf8_len_take(s: Seq<char>, k: int)
    requires
        0 <= k <= s.len(),
    ensures
        utf8_len(s.take(k)) <= utf8_len(s),
    decreases s.len(),
{
    if k == s.len() {
        assert(s.take(k) == s);
    } else {
        assert(s.drop_last().take(k) == s.take(k));
        lemma_utf8_len_take(s.drop_last(), k);
    }
}

/// One more character adds its width.
pub proof fn lemma_utf8_len_step(s: Seq<char>, k: int)
    requires
        0 <= k < s.len(),
    ensures
        utf8_len(s.take(k + 1)) == utf8_len(s.take(k)) + spec_len_utf8(s[k]),
        utf8_len(s.take(k + 1)) <= utf8_len(s),
{
    assert(s.take(k + 1).drop_last() == s.take(k));
    lemma_utf8_len_take(s, k + 1);
}

/// The number of bytes of `text`.
pub fn byte_len(text: &str) -> (n: usize)
    ensures
        n == utf8_len(text@),
{
    proof {
        lemma_utf8_len_is_encoded_len(text@);
    }
    text.as_bytes().len()
}

/// The index of the first `c` in `s`, or the length of `s` where there is none.
pub open spec fn spec_index_of(s: Seq<char>, c: char) -> nat
    decreases s.len(),
{
    if s.len() == 0 || s[0] == c {
        0
    } else {
        1 + spec_index_of(s.drop_first(), c)
    }
}

/// The index lies in the text or at its end; before it there is no `c`, and at it there
/// is one unless it is the end.
pub proof fn lemma_index_of(s: Seq<char>, c: char)
    ensures
        0 <= spec_index_of(s, c) <= s.len(),
        spec_index_of(s, c) < s.len() ==> s[spec_index_of(s, c) as int] == c,
        forall|j: int| 0 <= j < spec_index_of(s, c) ==> s[j] != c,
    decreases s.len(),
{
    if s.len() == 0 || s[0] == c {
    } else {
        lemma_index_of(s.drop_first(), c);
        assert forall|j: int| 0 <= j < spec_index_of(s, c) implies s[j] != c by {
            if j > 0 {
                assert(s.drop_first()[j - 1] == s[j]);
            }
        }
    }
}

/// An index with no `c` before it and a `c` at it, or the end, is the index of the first.
pub proof fn lemma_index_of_is(s: Seq<char>, c: char, at: int)
    requires
        0 <= at <= s.len(),
        forall|j: int| 0 <= j < at ==> s[j] != c,
        at < s.len() ==> s[at] == c,
    ensures
        spec_index_of(s, c) == at,
{
    lemma_index_of(s, c);
    let found = spec_index_of(s, c) as int;
    if found < at {
        assert(s[found] == c);
    }
}

/// The index in `v`, from `from` on, of the first `c`, or the length of `v`.
pub fn index_of_from(v: &Vec<char>, from: usize, c: char) -> (at: usize)
    requires
        from <= v.len(),
    ensures
        from <= at <= v.len(),
        at - from == spec_index_of(v@.skip(from as int), c),
{
    let mut at: usize = from;
    while at < v.len() && v[at] != c
        invariant
            from <= at <= v.len(),
            forall|j: int| from <= j < at ==> v@[j] != c,
        decreases v.len() - at,
    {
        at += 1;
    }
    proof {
        lemma_index_of_is(v@.skip(from as int), c, at - from);
    }
    at
}

/// A line without its line ending's carriage return, if it ends in one.
pub open spec fn strip_cr(line: Seq<char>) -> Seq<char> {
    if line.len() > 0 && line.last() == '\r' {
        line.drop_last()
    } else {
        line
    }
}

/// The lines of `s`. A line ends at a line feed, which is no part of it, nor is a carriage
/// return just before that line feed. What follows the last line feed is a line too,
/// unless it is empty.
pub open spec fn spec_lines(s: Seq<char>) -> Seq<Seq<char>>
    decreases s.len(),
{
    if s.len() == 0 {
        Seq::empty()
    } else {
        let n = spec_index_of(s, '\n') as int;
        if n >= s.len() {
            seq![s]
        } else {
            seq![strip_cr(s.take(n))] + spec_lines(s.skip(n + 1))
        }
    }
}

/// The texts that the vectors of `lines` hold, in order.
pub open spec fn line_views(lines: Seq<Vec<char>>) -> Seq<Seq<char>> {
    Seq::new(lines.len(), |i: int| lines[i]@)
}

/// The texts that the strings of `items` hold, in order.
pub open spec fn string_views(items: Seq<String>) -> Seq<Seq<char>> {
    Seq::new(items.len(), |i: int| items[i]@)
}

/// The lines of `v`.
pub fn split_lines(v: &Vec<char>) -> (lines: Vec<Vec<char>>)
    ensures
        line_views(lines@) == spec_lines(v@),
{
    let mut lines: Vec<Vec<char>> = Vec::new();
    let mut pos: usize = 0;
    assert(v@.skip(0) == v@);
    assert(line_views(lines@) + spec_lines(v@) =~= spec_lines(v@));
    while pos < v.len()
        invariant
            pos <= v.len(),
            line_views(lines@) + spec_lines(v@.skip(pos as int)) == spec_lines(v@),
        decreases v.len() - pos,
    {
        let ghost rest = v@.skip(pos as int);
        let ghost before = line_views(lines@);
        let end = index_of_from(v, pos, '\n');
        proof {
            lemma_index_of(rest, '\n');
        }
        if end >= v.len() {
            let line = slice_chars(v, pos, end);
            proof {
                assert(line@ == rest);
            }
            lines.push(line);
            proof {
                assert(line_views(lines@) =~= before.push(rest));
                assert(v@.skip(v.len() as int).len() == 0);
                assert(before.push(rest) + Seq::<Seq<char>>::empty() =~= before + seq![rest]);
            }
            pos = v.len();
        } else {
            let stop = if end > pos && v[end - 1] == '\r' {
                end - 1
            } else {
                end
            };
            let line = slice_chars(v, pos, stop);
            proof {
                let cut = rest.take(end - pos);
                assert(cut == v@.subrange(pos as int, end as int));
                assert(line@ == strip_cr(cut));
                assert(rest.skip(end - pos + 1) == v@.skip(end + 1));
            }
            lines.push(line);
            proof {
                assert(line_views(lines@) =~= before.push(line@));
                assert(before.push(line@) + spec_lines(v@.skip(end + 1)) =~= before + (seq![line@]
                    + spec_lines(v@.skip(end + 1))));
            }
            pos = end + 1;
        }
    }
    proof {
        assert(v@.skip(pos as int).len() == 0);
        assert(line_views(lines@) + Seq::<Seq<char>>::empty() =~= line_views(lines@));
    }
    lines
}

/// The lines of `lines` in one text, with a line feed between each two.
pub open spec fn spec_join(lines: Seq<Seq<char>>) -> Seq<char>
    decreases lines.len(),
{
    if lines.len() == 0 {
        Seq::empty()
    } else if lines.len() == 1 {
        lines[0]
    } else {
        spec_join(lines.drop_last()).push('\n') + lines.last()
    }
}

/// The lines of `lines` in one text, with a line feed between each two.
pub fn join_lines(lines: &Vec<Vec<char>>) -> (out: Vec<char>)
    ensures
        out@ == spec_join(line_views(lines@)),
{
    let ghost all = line_views(lines@);
    let mut out: Vec<char> = Vec::new();
    let mut i: usize = 0;
    assert(all.take(0).len() == 0);
    while i < lines.len()
        invariant
            i <= lines.len(),
            all == line_views(lines@),
            out@ == spec_join(all.take(i as int)),
        decreases lines.len() - i,
    {
        proof {
            assert(all.take(i + 1).drop_last() == all.take(i as int));
            assert(all.take(i + 1).last() == lines[i as int]@);
            if i == 0 {
                assert(all.take(1)[0] == lines[0]@);
                assert(out@ + lines[0]@ =~= lines[0]@);
            }
        }
        if i > 0 {
            out.push('\n');
        }
        extend_chars(&mut out, &lines[i]);
        i += 1;
    }
    assert(all.take(lines.len() as int) == all);
    out
}

/// `s` without the characters `c` at its start.
pub open spec fn spec_skip_leading(s: Seq<char>, c: char) -> Seq<char>
    decreases s.len(),
{
    if s.len() > 0 && s[0] == c {
        spec_skip_leading(s.drop_first(), c)
    } else {
        s
    }
}

/// `s` without the characters `c` at its end.
pub open spec fn spec_skip_trailing(s: Seq<char>, c: char) -> Seq<char>
    decreases s.len(),
{
    if s.len() > 0 && s.last() == c {
        spec_skip_trailing(s.drop_last(), c)
    } else {
        s
    }
}

/// The start of what is left of the part of `v` from `from` up to `to` when the
/// characters `c` at its start are taken away.
pub fn skip_leading(v: &Vec<char>, from: usize, to: usize, c: char) -> (lo: usize)
    requires
        from <= to <= v.len(),
    ensures
        from <= lo <= to,
        v@.subrange(lo as int, to as int) == spec_skip_leading(
            v@.subrange(from as int, to as int),
            c,
        ),
{
    let mut lo: usize = from;
    while lo < to && v[lo] == c
        invariant
            from <= lo <= to <= v.len(),
            spec_skip_leading(v@.subrange(from as int, to as int), c) == spec_skip_leading(
                v@.subrange(lo as int, to as int),
                c,
            ),
        decreases to - lo,
    {
        assert(v@.subrange(lo as int, to as int).drop_first() == v@.subrange(lo + 1, to as int));
        lo += 1;
    }
    lo
}

/// The end of what is left of the part of `v` from `from` up to `to` when the characters
/// `c` at its end are taken away.
pub fn skip_trailing(v: &Vec<char>, from: usize, to: usize, c: char) -> (hi: usize)
    requires
        from <= to <= v.len(),
    ensures
        from <= hi <= to,
        v@.subrange(from as int, hi as int) == spec_skip_trailing(
            v@.subrange(from as int, to as int),
            c,
        ),
{
    let mut hi: usize = to;
    while hi > from && v[hi - 1] == c
        invariant
            from <= hi <= to <= v.len(),
            spec_skip_trailing(v@.subrange(from as int, to as int), c) == spec_skip_trailing(
                v@.subrange(from as int, hi as int),
                c,
            ),
        decreases hi - from,
    {
        assert(v@.subrange(from as int, hi as int).drop_last() == v@.subrange(
            from as int,
            hi - 1,
        ));
        hi -= 1;
    }
    hi
}

/// The index at which `sep` first occurs in `s`, or the length of `s` where it does not.
pub open spec fn spec_find(s: Seq<char>, sep: Seq<char>) -> nat
    decreases s.len(),
{
    if s.len() == 0 || spec_starts_with(s, sep) {
        0
    } else {
        1 + spec_find(s.drop_first(), sep)
    }
}

/// The index at which `sep` first occurs in `v` from `from` on, or the length of `v`.
pub fn find_from(v: &Vec<char>, from: usize, sep: &Vec<char>) -> (at: usize)
    requires
        from <= v.len(),
    ensures
        from <= at <= v.len(),
        at - from == spec_find(v@.skip(from as int), sep@),
        at < v.len() ==> spec_starts_with(v@.skip(at as int), sep@),
{
    let mut at: usize = from;
    while at < v.len()
        invariant
            from <= at <= v.len(),
            spec_find(v@.skip(from as int), sep@) == (at - from) + spec_find(
                v@.skip(at as int),
                sep@,
            ),
        decreases v.len() - at,
    {
        assert(v@.skip(at as int) == v@.subrange(at as int, v.len() as int));
        if starts_with_at(v, at, sep) {
            return at;
        }
        assert(v@.skip(at as int).drop_first() == v@.skip(at + 1));
        at += 1;
    }
    at
}

/// The parts of `s` between the occurrences of `sep`, which is not empty: one part more
/// than there are occurrences, counted from the left without overlap.
pub open spec fn spec_split(s: Seq<char>, sep: Seq<char>) -> Seq<Seq<char>>
    recommends
        sep.len() > 0,
    decreases s.len(),
{
    let n = spec_find(s, sep) as int;
    if sep.len() == 0 || n + sep.len() > s.len() {
        seq![s]
    } else {
        seq![s.take(n)] + spec_split(s.skip(n + sep.len()), sep)
    }
}

/// Where `sep` is found in `s`, it lies within `s`.
pub proof fn lemma_find_fits(s: Seq<char>, sep: Seq<char>)
    requires
        sep.len() > 0,
    ensures
        spec_find(s, sep) <= s.len(),
        spec_find(s, sep) < s.len() ==> spec_find(s, sep) + sep.len() <= s.len(),
    decreases s.len(),
{
    if s.len() == 0 || spec_starts_with(s, sep) {
    } else {
        lemma_find_fits(s.drop_first(), sep);
    }
}

/// The parts of `v` between the occurrences of `sep`.
pub fn split_on(v: &Vec<char>, sep: &Vec<char>) -> (parts: Vec<Vec<char>>)
    requires
        sep.len() > 0,
    ensures
        line_views(parts@) == spec_split(v@, sep@),
        parts.len() >= 1,
{
    let mut parts: Vec<Vec<char>> = Vec::new();
    let mut pos: usize = 0;
    assert(v@.skip(0) == v@);
    assert(line_views(parts@) + spec_split(v@, sep@) =~= spec_split(v@, sep@));
    loop
        invariant_except_break
            line_views(parts@) + spec_split(v@.skip(pos as int), sep@) == spec_split(v@, sep@),
        invariant
            pos <= v.len(),
            sep.len() > 0,
        ensures
            line_views(parts@) == spec_split(v@, sep@),
            parts.len() >= 1,
        decreases v.len() - pos,
    {
        let ghost rest = v@.skip(pos as int);
        let ghost before = line_views(parts@);
        let at = find_from(v, pos, sep);
        proof {
            lemma_find_fits(rest, sep@);
        }
        if at >= v.len() {
            let part = slice_chars(v, pos, v.len());
            assert(part@ == rest);
            parts.push(part);
            assert(line_views(parts@) =~= before + seq![rest]);
            break;
        }
        let part = slice_chars(v, pos, at);
        proof {
            assert(part@ == rest.take(at - pos));
            assert(rest.skip(at - pos + sep.len()) == v@.skip(at + sep.len()));
        }
        parts.push(part);
        proof {
            assert(line_views(parts@) =~= before.push(part@));
            assert(before.push(part@) + spec_split(v@.skip(at + sep.len()), sep@) =~= before + (
            seq![part@] + spec_split(v@.skip(at + sep.len()), sep@)));
        }
        pos = at + sep.len();
    }
    parts
}

/// `s` with every occurrence of `from`, which is not empty, replaced by `to`: occurrences
/// are counted from the left without overlap.
pub open spec fn spec_replace(s: Seq<char>, from: Seq<char>, to: Seq<char>) -> Seq<char>
    recommends
        from.len() > 0,
    decreases s.len(),
{
    if s.len() == 0 || from.len() == 0 {
        s
    } else if spec_starts_with(s, from) {
        to + spec_replace(s.skip(from.len() as int), from, to)
    } else {
        seq![s[0]] + spec_replace(s.drop_first(), from, to)
    }
}

/// `v` with every occurrence of `from` replaced by `to`.
pub fn replace_all(v: &Vec<char>, from: &Vec<char>, to: &Vec<char>) -> (out: Vec<char>)
    requires
        from.len() > 0,
    ensures
        out@ == spec_replace(v@, from@, to@),
{
    let mut out: Vec<char> = Vec::new();
    let mut pos: usize = 0;
    assert(v@.skip(0) == v@);
    assert(out@ + spec_replace(v@, from@, to@) =~= spec_replace(v@, from@, to@));
    while pos < v.len()
        invariant
            pos <= v.len(),
            from.len() > 0,
            out@ + spec_replace(v@.skip(pos as int), from@, to@) == spec_replace(v@, from@, to@),
        decreases v.len() - pos,
    {
        let ghost rest = v@.skip(pos as int);
        let ghost before = out@;
        assert(rest == v@.subrange(pos as int, v.len() as int));
        if starts_with_at(v, pos, from) {
            extend_chars(&mut out, to);
            proof {
                assert(rest.skip(from.len() as int) == v@.skip(pos + from.len()));
                assert(before + to@ + spec_replace(v@.skip(pos + from.len()), from@, to@) =~= before
                    + (to@ + spec_replace(v@.skip(pos + from.len()), from@, to@)));
            }
            pos += from.len();
        } else {
            out.push(v[pos]);
            proof {
                assert(rest.drop_first() == v@.skip(pos + 1));
                assert(before.push(rest[0]) + spec_replace(v@.skip(pos + 1), from@, to@) =~= before
                    + (seq![rest[0]] + spec_replace(v@.skip(pos + 1), from@, to@)));
            }
            pos += 1;
        }
    }
    proof {
        assert(v@.skip(pos as int).len() == 0);
        assert(out@ + Seq::<char>::empty() =~= out@);
    }
    out
}

} // verus!
