//! The identity of a card: the digest of its normalized text.

use crate::text::{
    chars_eq_str, chars_of, extend_chars, lowercase_of, spec_is_alphanumeric, spec_lowercase,
    spec_trim, string_of, trim_chars,
};
use vstd::prelude::*;
use vstd::utf8::encode_utf8;

verus! {

/// The common function words that carry no identity: a token equal to one of them is
/// left out of the fingerprint.
pub open spec fn spec_is_stopword(w: Seq<char>) -> bool {
    ||| w == "i"@
    ||| w == "me"@
    ||| w == "my"@
    ||| w == "myself"@
    ||| w == "we"@
    ||| w == "our"@
    ||| w == "ours"@
    ||| w == "ourselves"@
    ||| w == "you"@
    ||| w == "your"@
    ||| w == "yours"@
    ||| w == "yourself"@
    ||| w == "yourselves"@
    ||| w == "he"@
    ||| w == "him"@
    ||| w == "his"@
    ||| w == "himself"@
    ||| w == "she"@
    ||| w == "her"@
    ||| w == "hers"@
    ||| w == "herself"@
    ||| w == "it"@
    ||| w == "its"@
    ||| w == "itself"@
    ||| w == "they"@
    ||| w == "them"@
    ||| w == "their"@
    ||| w == "theirs"@
    ||| w == "themselves"@
    ||| w == "what"@
    ||| w == "which"@
    ||| w == "who"@
    ||| w == "whom"@
    ||| w == "this"@
    ||| w == "that"@
    ||| w == "these"@
    ||| w == "those"@
    ||| w == "am"@
    ||| w == "is"@
    ||| w == "are"@
    ||| w == "was"@
    ||| w == "were"@
    ||| w == "be"@
    ||| w == "been"@
    ||| w == "being"@
    ||| w == "have"@
    ||| w == "has"@
    ||| w == "had"@
    ||| w == "having"@
    ||| w == "do"@
    ||| w == "does"@
    ||| w == "did"@
    ||| w == "doing"@
    ||| w == "a"@
    ||| w == "an"@
    ||| w == "the"@
    ||| w == "and"@
    ||| w == "but"@
    ||| w == "if"@
    ||| w == "or"@
    ||| w == "because"@
    ||| w == "as"@
    ||| w == "until"@
    ||| w == "while"@
    ||| w == "of"@
    ||| w == "at"@
    ||| w == "by"@
    ||| w == "for"@
    ||| w == "with"@
    ||| w == "about"@
    ||| w == "against"@
    ||| w == "between"@
    ||| w == "into"@
    ||| w == "through"@
    ||| w == "during"@
    ||| w == "before"@
    ||| w == "after"@
    ||| w == "above"@
    ||| w == "below"@
    ||| w == "to"@
    ||| w == "from"@
    ||| w == "up"@
    ||| w == "down"@
    ||| w == "in"@
    ||| w == "out"@
    ||| w == "on"@
    ||| w == "off"@
    ||| w == "over"@
    ||| w == "under"@
    ||| w == "again"@
    ||| w == "further"@
    ||| w == "then"@
    ||| w == "once"@
    ||| w == "here"@
    ||| w == "there"@
    ||| w == "when"@
    ||| w == "where"@
    ||| w == "why"@
    ||| w == "how"@
    ||| w == "all"@
    ||| w == "any"@
    ||| w == "both"@
    ||| w == "each"@
    ||| w == "few"@
    ||| w == "more"@
    ||| w == "most"@
    ||| w == "other"@
    ||| w == "some"@
    ||| w == "such"@
    ||| w == "no"@
    ||| w == "nor"@
    ||| w == "not"@
    ||| w == "only"@
    ||| w == "own"@
    ||| w == "same"@
    ||| w == "so"@
    ||| w == "than"@
    ||| w == "too"@
    ||| w == "very"@
    ||| w == "s"@
    ||| w == "t"@
    ||| w == "can"@
    ||| w == "will"@
    ||| w == "just"@
    ||| w == "don"@
    ||| w == "should"@
    ||| w == "now"@
}

/// Whether `word` is one of the stopwords.
pub fn is_stopword(word: &Vec<char>) -> (r: bool)
    ensures
        r == spec_is_stopword(word@),
{
    chars_eq_str(word, "i")
        || chars_eq_str(word, "me")
        || chars_eq_str(word, "my")
        || chars_eq_str(word, "myself")
        || chars_eq_str(word, "we")
        || chars_eq_str(word, "our")
        || chars_eq_str(word, "ours")
        || chars_eq_str(word, "ourselves")
        || chars_eq_str(word, "you")
        || chars_eq_str(word, "your")
        || chars_eq_str(word, "yours")
        || chars_eq_str(word, "yourself")
        || chars_eq_str(word, "yourselves")
        || chars_eq_str(word, "he")
        || chars_eq_str(word, "him")
        || chars_eq_str(word, "his")
        || chars_eq_str(word, "himself")
        || chars_eq_str(word, "she")
        || chars_eq_str(word, "her")
        || chars_eq_str(word, "hers")
        || chars_eq_str(word, "herself")
        || chars_eq_str(word, "it")
        || chars_eq_str(word, "its")
        || chars_eq_str(word, "itself")
        || chars_eq_str(word, "they")
        || chars_eq_str(word, "them")
        || chars_eq_str(word, "their")
        || chars_eq_str(word, "theirs")
        || chars_eq_str(word, "themselves")
        || chars_eq_str(word, "what")
        || chars_eq_str(word, "which")
        || chars_eq_str(word, "who")
        || chars_eq_str(word, "whom")
        || chars_eq_str(word, "this")
        || chars_eq_str(word, "that")
        || chars_eq_str(word, "these")
        || chars_eq_str(word, "those")
        || chars_eq_str(word, "am")
        || chars_eq_str(word, "is")
        || chars_eq_str(word, "are")
        || chars_eq_str(word, "was")
        || chars_eq_str(word, "were")
        || chars_eq_str(word, "be")
        || chars_eq_str(word, "been")
        || chars_eq_str(word, "being")
        || chars_eq_str(word, "have")
        || chars_eq_str(word, "has")
        || chars_eq_str(word, "had")
        || chars_eq_str(word, "having")
        || chars_eq_str(word, "do")
        || chars_eq_str(word, "does")
        || chars_eq_str(word, "did")
        || chars_eq_str(word, "doing")
        || chars_eq_str(word, "a")
        || chars_eq_str(word, "an")
        || chars_eq_str(word, "the")
        || chars_eq_str(word, "and")
        || chars_eq_str(word, "but")
        || chars_eq_str(word, "if")
        || chars_eq_str(word, "or")
        || chars_eq_str(word, "because")
        || chars_eq_str(word, "as")
        || chars_eq_str(word, "until")
        || chars_eq_str(word, "while")
        || chars_eq_str(word, "of")
        || chars_eq_str(word, "at")
        || chars_eq_str(word, "by")
        || chars_eq_str(word, "for")
        || chars_eq_str(word, "with")
        || chars_eq_str(word, "about")
        || chars_eq_str(word, "against")
        || chars_eq_str(word, "between")
        || chars_eq_str(word, "into")
        || chars_eq_str(word, "through")
        || chars_eq_str(word, "during")
        || chars_eq_str(word, "before")
        || chars_eq_str(word, "after")
        || chars_eq_str(word, "above")
        || chars_eq_str(word, "below")
        || chars_eq_str(word, "to")
        || chars_eq_str(word, "from")
        || chars_eq_str(word, "up")
        || chars_eq_str(word, "down")
        || chars_eq_str(word, "in")
        || chars_eq_str(word, "out")
        || chars_eq_str(word, "on")
        || chars_eq_str(word, "off")
        || chars_eq_str(word, "over")
        || chars_eq_str(word, "under")
        || chars_eq_str(word, "again")
        || chars_eq_str(word, "further")
        || chars_eq_str(word, "then")
        || chars_eq_str(word, "once")
        || chars_eq_str(word, "here")
        || chars_eq_str(word, "there")
        || chars_eq_str(word, "when")
        || chars_eq_str(word, "where")
        || chars_eq_str(word, "why")
        || chars_eq_str(word, "how")
        || chars_eq_str(word, "all")
        || chars_eq_str(word, "any")
        || chars_eq_str(word, "both")
        || chars_eq_str(word, "each")
        || chars_eq_str(word, "few")
        || chars_eq_str(word, "more")
        || chars_eq_str(word, "most")
        || chars_eq_str(word, "other")
        || chars_eq_str(word, "some")
        || chars_eq_str(word, "such")
        || chars_eq_str(word, "no")
        || chars_eq_str(word, "nor")
        || chars_eq_str(word, "not")
        || chars_eq_str(word, "only")
        || chars_eq_str(word, "own")
        || chars_eq_str(word, "same")
        || chars_eq_str(word, "so")
        || chars_eq_str(word, "than")
        || chars_eq_str(word, "too")
        || chars_eq_str(word, "very")
        || chars_eq_str(word, "s")
        || chars_eq_str(word, "t")
        || chars_eq_str(word, "can")
        || chars_eq_str(word, "will")
        || chars_eq_str(word, "just")
        || chars_eq_str(word, "don")
        || chars_eq_str(word, "should")
        || chars_eq_str(word, "now")
}

/// The apostrophe and its typographic relatives: they are deleted, so that the letters on
/// both sides stay one word.
pub open spec fn is_joiner(c: char) -> bool {
    c == '\'' || c == '\u{2019}' || c == '\u{02BC}' || c == '\u{02BB}' || c == '\u{201B}' || c
        == '\u{FF07}'
}

/// The two signs that are tokens of their own.
pub open spec fn is_sign(c: char) -> bool {
    c == '+' || c == '-'
}

/// What a finished word adds to the token stream: nothing if it is empty or a stopword,
/// else itself.
pub open spec fn emit_word(out: Seq<char>, word: Seq<char>) -> Seq<char> {
    if word.len() == 0 || spec_is_stopword(word) {
        out
    } else {
        out + word
    }
}

/// One character read: `st.0` is the token stream so far, `st.1` the word being read.
pub open spec fn read_char(st: (Seq<char>, Seq<char>), c: char) -> (Seq<char>, Seq<char>) {
    if is_joiner(c) {
        st
    } else if is_sign(c) {
        (emit_word(st.0, st.1).push(c), Seq::empty())
    } else if spec_is_alphanumeric(c) {
        (st.0, st.1 + spec_lowercase(c))
    } else {
        (emit_word(st.0, st.1), Seq::empty())
    }
}

/// The token stream and the unfinished word after all of `text` is read.
pub open spec fn read_text(text: Seq<char>) -> (Seq<char>, Seq<char>)
    decreases text.len(),
{
    if text.len() == 0 {
        (Seq::empty(), Seq::empty())
    } else {
        read_char(read_text(text.drop_last()), text.last())
    }
}

/// The normalized form of `text`: its lowercase words that are no stopwords and its signs,
/// in order, with nothing between them.
pub open spec fn normalized(text: Seq<char>) -> Seq<char> {
    emit_word(read_text(text).0, read_text(text).1)
}

/// Whether `text` has an identity: it is not blank, and something of it is left after
/// normalization.
pub open spec fn has_identity(text: Seq<char>) -> bool {
    spec_trim(text).len() > 0 && normalized(text).len() > 0
}

/// The BLAKE3 digest of `input`, written as lowercase hexadecimal.
pub uninterp spec fn blake3_hex(input: Seq<u8>) -> Seq<char>;

/// The fingerprint of a text that has an identity.
pub open spec fn fingerprint(text: Seq<char>) -> Seq<char> {
    blake3_hex(encode_utf8(normalized(text)))
}

/// `blake3::hash` digests the whole input at once; the digest's `Display` writes it as
/// hexadecimal. The result depends on the input bytes alone.
#[verifier::external_body]
pub(crate) fn digest_hex(input: &[u8]) -> (hex: String)
    ensures
        hex@ == blake3_hex(input@),
{
    blake3::hash(input).to_string()
}

fn is_joiner_char(c: char) -> (r: bool)
    ensures
        r == is_joiner(c),
{
    c == '\'' || c == '\u{2019}' || c == '\u{02BC}' || c == '\u{02BB}' || c == '\u{201B}' || c
        == '\u{FF07}'
}

/// Ends the word being read: it joins the token stream unless it is empty or a stopword.
fn flush_word(out: &mut Vec<char>, word: &mut Vec<char>)
    ensures
        final(out)@ == emit_word(old(out)@, old(word)@),
        final(word)@ == Seq::<char>::empty(),
{
    if word.len() > 0 && !is_stopword(word) {
        extend_chars(out, word);
    }
    word.clear();
}

/// The normalized form of `text`.
pub fn normalize(text: &Vec<char>) -> (out: Vec<char>)
    ensures
        out@ == normalized(text@),
{
    let mut out: Vec<char> = Vec::new();
    let mut word: Vec<char> = Vec::new();
    let mut i: usize = 0;
    while i < text.len()
        invariant
            i <= text.len(),
            (out@, word@) == read_text(text@.subrange(0, i as int)),
        decreases text.len() - i,
    {
        let c = text[i];
        proof {
            assert(text@.subrange(0, i + 1).drop_last() == text@.subrange(0, i as int));
        }
        if !is_joiner_char(c) {
            if c == '+' || c == '-' {
                flush_word(&mut out, &mut word);
                out.push(c);
            } else if c.is_alphanumeric() {
                let lower = lowercase_of(c);
                extend_chars(&mut word, &lower);
            } else {
                flush_word(&mut out, &mut word);
            }
        }
        i += 1;
    }
    proof {
        assert(text@.subrange(0, text.len() as int) == text@);
    }
    flush_word(&mut out, &mut word);
    out
}

/// The identity of a card's text: the digest of its normalized form. A text that is blank,
/// or of which nothing is left after normalization, has none.
pub fn get_hash(s: &str) -> (r: Option<String>)
    ensures
        r is Some <==> has_identity(s@),
        r matches Some(h) ==> h@ == fingerprint(s@),
{
    let text = chars_of(s);
    let trimmed = trim_chars(&text);
    if trimmed.len() == 0 {
        return None;
    }
    let tokens = normalize(&text);
    if tokens.len() == 0 {
        return None;
    }
    let fed = string_of(&tokens);
    Some(digest_hex(fed.as_str().as_bytes()))
}

/// The reading of `text` that starts in the state `st` and not at the beginning.
pub open spec fn read_on(st: (Seq<char>, Seq<char>), text: Seq<char>) -> (Seq<char>, Seq<char>)
    decreases text.len(),
{
    if text.len() == 0 {
        st
    } else {
        read_char(read_on(st, text.drop_last()), text.last())
    }
}

/// A character that parts words and is no token: neither a letter or digit, nor a
/// joiner, nor a sign.
pub open spec fn is_separator(c: char) -> bool {
    !is_joiner(c) && !is_sign(c) && !spec_is_alphanumeric(c)
}

/// Whether two characters are the same letter or digit up to case, or the same character.
pub open spec fn same_up_to_case(a: char, b: char) -> bool {
    a == b || (spec_is_alphanumeric(a) && spec_is_alphanumeric(b) && !is_joiner(a) && !is_joiner(
        b,
    ) && !is_sign(a) && !is_sign(b) && spec_lowercase(a) == spec_lowercase(b))
}

/// Whether `word` is read as one word: its characters are letters or digits, none a
/// joiner or a sign.
pub open spec fn is_word(word: Seq<char>) -> bool {
    forall|i: int|
        0 <= i < word.len() ==> spec_is_alphanumeric(#[trigger] word[i]) && !is_joiner(word[i])
            && !is_sign(word[i])
}

/// The lowercase form of a word: the lowercase mappings of its characters, in order.
pub open spec fn lowered(word: Seq<char>) -> Seq<char>
    decreases word.len(),
{
    if word.len() == 0 {
        Seq::empty()
    } else {
        lowered(word.drop_last()) + spec_lowercase(word.last())
    }
}

/// To read a text in two parts is to read the second part on from where the first ended.
pub proof fn lemma_read_on_concat(st: (Seq<char>, Seq<char>), a: Seq<char>, b: Seq<char>)
    ensures
        read_on(st, a + b) == read_on(read_on(st, a), b),
    decreases b.len(),
{
    if b.len() == 0 {
        assert(a + b == a);
    } else {
        assert((a + b).drop_last() == a + b.drop_last());
        lemma_read_on_concat(st, a, b.drop_last());
    }
}

/// To read a text is to read it on from the empty state.
pub proof fn lemma_read_text_is_read_on(text: Seq<char>)
    ensures
        read_text(text) == read_on((Seq::empty(), Seq::empty()), text),
    decreases text.len(),
{
    if text.len() > 0 {
        lemma_read_text_is_read_on(text.drop_last());
    }
}

/// A text that normalizes to nothing has no identity.
pub proof fn lemma_no_tokens_no_identity(text: Seq<char>)
    requires
        normalized(text).len() == 0,
    ensures
        !has_identity(text),
{
}

/// Two texts of the same normalized form have the same fingerprint; and if neither or
/// both are blank, both have an identity or neither has.
pub proof fn lemma_same_tokens_same_identity(a: Seq<char>, b: Seq<char>)
    requires
        normalized(a) == normalized(b),
    ensures
        fingerprint(a) == fingerprint(b),
        (spec_trim(a).len() > 0 <==> spec_trim(b).len() > 0) ==> (has_identity(a) <==> has_identity(b)),
{
}

/// An apostrophe of any kind, wherever it stands, changes nothing: the text reads as it
/// does without it. So two texts that differ in the kind of an apostrophe read alike.
pub proof fn lemma_joiner_is_ignored(before: Seq<char>, joiner: char, after: Seq<char>)
    requires
        is_joiner(joiner),
    ensures
        normalized(before + seq![joiner] + after) == normalized(before + after),
{
    let start = (Seq::<char>::empty(), Seq::<char>::empty());
    lemma_read_text_is_read_on(before + seq![joiner] + after);
    lemma_read_text_is_read_on(before + after);
    lemma_read_on_concat(start, before + seq![joiner], after);
    lemma_read_on_concat(start, before, seq![joiner]);
    lemma_read_on_concat(start, before, after);
    let st = read_on(start, before);
    assert(seq![joiner].drop_last() == Seq::<char>::empty());
    assert(read_on(st, seq![joiner].drop_last()) == st);
    assert(read_on(st, seq![joiner]) == st);
}

/// Reading separators ends the word under way, and nothing more.
pub proof fn lemma_separators_flush(st: (Seq<char>, Seq<char>), pad: Seq<char>)
    requires
        forall|i: int| 0 <= i < pad.len() ==> is_separator(#[trigger] pad[i]),
    ensures
        read_on(st, pad) == if pad.len() == 0 {
            st
        } else {
            (emit_word(st.0, st.1), Seq::<char>::empty())
        },
    decreases pad.len(),
{
    if pad.len() > 0 {
        assert forall|i: int| 0 <= i < pad.drop_last().len() implies is_separator(
            #[trigger] pad.drop_last()[i],
        ) by {
            assert(pad.drop_last()[i] == pad[i]);
        }
        lemma_separators_flush(st, pad.drop_last());
        assert(is_separator(pad[pad.len() - 1]));
    }
}

/// Separators around a text change nothing: so it is with whitespace before and behind,
/// as far as whitespace is neither letter, digit, apostrophe nor sign.
pub proof fn lemma_padding_is_ignored(lead: Seq<char>, text: Seq<char>, trail: Seq<char>)
    requires
        forall|i: int| 0 <= i < lead.len() ==> is_separator(#[trigger] lead[i]),
        forall|i: int| 0 <= i < trail.len() ==> is_separator(#[trigger] trail[i]),
    ensures
        normalized(lead + text + trail) == normalized(text),
{
    let start = (Seq::<char>::empty(), Seq::<char>::empty());
    lemma_read_text_is_read_on(lead + text + trail);
    lemma_read_text_is_read_on(text);
    lemma_read_on_concat(start, lead + text, trail);
    lemma_read_on_concat(start, lead, text);
    lemma_separators_flush(start, lead);
    lemma_separators_flush(read_on(start, text), trail);
}

/// More separators where there is one change nothing: a run of separators reads as one.
pub proof fn lemma_separator_runs_are_one(before: Seq<char>, gap: Seq<char>, more: Seq<char>, after: Seq<
    char,
>)
    requires
        gap.len() > 0,
        forall|i: int| 0 <= i < gap.len() ==> is_separator(#[trigger] gap[i]),
        forall|i: int| 0 <= i < more.len() ==> is_separator(#[trigger] more[i]),
    ensures
        normalized(before + gap + more + after) == normalized(before + gap + after),
{
    let start = (Seq::<char>::empty(), Seq::<char>::empty());
    lemma_read_text_is_read_on(before + gap + more + after);
    lemma_read_text_is_read_on(before + gap + after);
    lemma_read_on_concat(start, before + gap + more, after);
    lemma_read_on_concat(start, before + gap, more);
    lemma_read_on_concat(start, before + gap, after);
    lemma_read_on_concat(start, before, gap);
    let st = read_on(start, before);
    lemma_separators_flush(st, gap);
    lemma_separators_flush(read_on(st, gap), more);
}

/// Reading a word adds its lowercase form to the word under way.
pub proof fn lemma_word_is_lowered(st: (Seq<char>, Seq<char>), word: Seq<char>)
    requires
        is_word(word),
    ensures
        read_on(st, word) == (st.0, st.1 + lowered(word)),
    decreases word.len(),
{
    if word.len() == 0 {
        assert(st.1 + lowered(word) =~= st.1);
    } else {
        assert forall|i: int| 0 <= i < word.drop_last().len() implies spec_is_alphanumeric(
            #[trigger] word.drop_last()[i],
        ) && !is_joiner(word.drop_last()[i]) && !is_sign(word.drop_last()[i]) by {
            assert(word.drop_last()[i] == word[i]);
        }
        lemma_word_is_lowered(st, word.drop_last());
        assert(spec_is_alphanumeric(word[word.len() - 1]));
        assert(st.1 + lowered(word.drop_last()) + spec_lowercase(word.last()) =~= st.1 + lowered(
            word,
        ));
    }
}

/// A stopword between separators changes nothing: the text reads as it does with the
/// word and the separator behind it taken out.
pub proof fn lemma_stopword_is_ignored(
    before: Seq<char>,
    gap: char,
    word: Seq<char>,
    end: char,
    after: Seq<char>,
)
    requires
        is_separator(gap),
        is_separator(end),
        is_word(word),
        spec_is_stopword(lowered(word)),
    ensures
        normalized(before + seq![gap] + word + seq![end] + after) == normalized(
            before + seq![gap] + after,
        ),
{
    let start = (Seq::<char>::empty(), Seq::<char>::empty());
    let head = before + seq![gap];
    lemma_read_text_is_read_on(head + word + seq![end] + after);
    lemma_read_text_is_read_on(head + after);
    lemma_read_on_concat(start, head + word + seq![end], after);
    lemma_read_on_concat(start, head + word, seq![end]);
    lemma_read_on_concat(start, head, word);
    lemma_read_on_concat(start, head, after);
    lemma_read_on_concat(start, before, seq![gap]);
    let st = read_on(start, before);
    lemma_separators_flush(st, seq![gap]);
    let flushed = read_on(start, head);
    assert(flushed.1 == Seq::<char>::empty());
    lemma_word_is_lowered(flushed, word);
    assert(flushed.1 + lowered(word) =~= lowered(word));
    lemma_separators_flush(read_on(flushed, word), seq![end]);
}

/// A word between separators is one token: its lowercase form joins the token stream,
/// unless that is a stopword.
pub proof fn lemma_word_is_a_token(before: Seq<char>, gap: char, word: Seq<char>, end: char)
    requires
        is_separator(gap),
        is_separator(end),
        is_word(word),
        word.len() > 0,
    ensures
        normalized(before + seq![gap] + word + seq![end]) == if spec_is_stopword(lowered(word))
            || lowered(word).len() == 0 {
            normalized(before + seq![gap])
        } else {
            normalized(before + seq![gap]) + lowered(word)
        },
{
    let start = (Seq::<char>::empty(), Seq::<char>::empty());
    let head = before + seq![gap];
    lemma_read_text_is_read_on(head + word + seq![end]);
    lemma_read_text_is_read_on(head);
    lemma_read_on_concat(start, head + word, seq![end]);
    lemma_read_on_concat(start, head, word);
    lemma_read_on_concat(start, before, seq![gap]);
    lemma_separators_flush(read_on(start, before), seq![gap]);
    let flushed = read_on(start, head);
    lemma_word_is_lowered(flushed, word);
    assert(flushed.1 + lowered(word) =~= lowered(word));
    lemma_separators_flush(read_on(flushed, word), seq![end]);
}

/// A sign is a token of its own: it ends the word before it and joins the token stream
/// behind it.
pub proof fn lemma_sign_is_a_token(before: Seq<char>, sign: char)
    requires
        is_sign(sign),
    ensures
        normalized(before + seq![sign]) == normalized(before).push(sign),
{
    assert((before + seq![sign]).drop_last() == before);
}

/// Two texts that differ only in the case of their letters read alike.
pub proof fn lemma_case_is_ignored(a: Seq<char>, b: Seq<char>)
    requires
        a.len() == b.len(),
        forall|i: int| 0 <= i < a.len() ==> same_up_to_case(#[trigger] a[i], b[i]),
    ensures
        read_text(a) == read_text(b),
        normalized(a) == normalized(b),
    decreases a.len(),
{
    if a.len() > 0 {
        assert forall|i: int| 0 <= i < a.drop_last().len() implies same_up_to_case(
            #[trigger] a.drop_last()[i],
            b.drop_last()[i],
        ) by {
            assert(a.drop_last()[i] == a[i]);
            assert(b.drop_last()[i] == b[i]);
        }
        lemma_case_is_ignored(a.drop_last(), b.drop_last());
        assert(same_up_to_case(a[a.len() - 1], b[a.len() - 1]));
    }
}

} // verus!
