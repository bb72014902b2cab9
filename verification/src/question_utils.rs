//! The questions of basic cards that can be rephrased, and their replacement.

use crate::card::{card_views, Card, CardContent, CardView, ContentView};
use crate::cloze_utils::plural;
use crate::palette::{decimal, dim, paint, spec_decimal, spec_dim, spec_paint, INFO, WARNING};
use crate::text::{chars_of, extend_chars, string_of};
use vstd::prelude::*;

verus! {

/// How many questions are sent out to be rephrased at a time.
pub const MAX_CONCURRENT_LLM_REQUESTS: usize = 4;

/// The offer to rephrase `total` basic questions, with one of them as an example.
pub open spec fn spec_build_user_prompt(total: nat, sample_question: Seq<char>) -> Seq<char> {
    "\n"@ + spec_paint(INFO@, "repeater"@) + " can rephrase "@ + spec_paint(
        WARNING@,
        spec_decimal(total),
    ) + " basic question"@ + plural(total) + " before this drill session.\n\n"@ + spec_dim(
        "Example question:"@,
    ) + "\n"@ + sample_question + "\n"@
}

/// The offer to rephrase `total` basic questions, with `sample_question` as an example.
pub fn build_user_prompt(total: usize, sample_question: &str) -> (prompt: String)
    ensures
        prompt@ == spec_build_user_prompt(total as nat, sample_question@),
{
    let mut out = chars_of("\n");
    extend_chars(&mut out, &paint(INFO, &chars_of("repeater")));
    extend_chars(&mut out, &chars_of(" can rephrase "));
    extend_chars(&mut out, &paint(WARNING, &decimal(total)));
    extend_chars(&mut out, &chars_of(" basic question"));
    if total == 1 {
        extend_chars(&mut out, &chars_of(""));
    } else {
        extend_chars(&mut out, &chars_of("s"));
    }
    extend_chars(&mut out, &chars_of(" before this drill session.\n\n"));
    extend_chars(&mut out, &dim(&chars_of("Example question:")));
    extend_chars(&mut out, &chars_of("\n"));
    extend_chars(&mut out, &chars_of(sample_question));
    extend_chars(&mut out, &chars_of("\n"));
    assert(out@ =~= spec_build_user_prompt(total as nat, sample_question@));
    string_of(&out)
}

/// A question to rephrase: the identity of its card, the question and its answer.
pub struct Rephrase {
    pub card_hash: String,
    pub question: String,
    pub answer: String,
}

/// The mathematical value of a `Rephrase`.
pub struct RephraseView {
    pub card_hash: Seq<char>,
    pub question: Seq<char>,
    pub answer: Seq<char>,
}

impl View for Rephrase {
    type V = RephraseView;

    open spec fn view(&self) -> RephraseView {
        RephraseView { card_hash: self.card_hash@, question: self.question@, answer: self.answer@ }
    }
}

/// The views of `items`, in order.
pub open spec fn rephrase_views(items: Seq<Rephrase>) -> Seq<RephraseView> {
    Seq::new(items.len(), |i: int| items[i]@)
}

/// The questions of the basic cards of `cards`, in order.
pub open spec fn spec_basic_questions(cards: Seq<CardView>) -> Seq<RephraseView>
    decreases cards.len(),
{
    if cards.len() == 0 {
        Seq::empty()
    } else {
        match cards.last().content {
            ContentView::Basic { question, answer } => spec_basic_questions(cards.drop_last()).push(
                RephraseView { card_hash: cards.last().card_hash, question, answer },
            ),
            ContentView::Cloze { .. } => spec_basic_questions(cards.drop_last()),
        }
    }
}

/// The questions of the basic cards of `cards`, each with its card's identity and its
/// answer, in order.
pub fn basic_questions(cards: &[Card]) -> (questions: Vec<Rephrase>)
    ensures
        rephrase_views(questions@) == spec_basic_questions(card_views(cards@)),
{
    let ghost all = card_views(cards@);
    let mut questions: Vec<Rephrase> = Vec::new();
    let mut i: usize = 0;
    assert(all.take(0).len() == 0);
    assert(rephrase_views(questions@) =~= Seq::<RephraseView>::empty());
    while i < cards.len()
        invariant
            i <= cards.len(),
            all == card_views(cards@),
            rephrase_views(questions@) == spec_basic_questions(all.take(i as int)),
        decreases cards.len() - i,
    {
        proof {
            assert(all.take(i + 1).drop_last() == all.take(i as int));
            assert(all.take(i + 1).last() == cards[i as int]@);
        }
        match &cards[i].content {
            CardContent::Basic { question, answer } => {
                let ghost before = rephrase_views(questions@);
                let item = Rephrase {
                    card_hash: cards[i].card_hash.clone(),
                    question: question.clone(),
                    answer: answer.clone(),
                };
                questions.push(item);
                assert(rephrase_views(questions@) =~= before.push(
                    RephraseView {
                        card_hash: cards[i as int]@.card_hash,
                        question: question@,
                        answer: answer@,
                    },
                ));
            },
            CardContent::Cloze { .. } => {},
        }
        i += 1;
    }
    assert(all.take(cards.len() as int) == all);
    questions
}

/// The offer to rephrase `questions`, with the first of them as an example; none where
/// there is none.
pub fn rephrase_offer(questions: &Vec<Rephrase>) -> (offer: Option<String>)
    ensures
        offer is Some <==> questions.len() > 0,
        offer matches Some(text) ==> text@ == spec_build_user_prompt(
            questions.len() as nat,
            questions[0]@.question,
        ),
{
    if questions.len() == 0 {
        None
    } else {
        Some(build_user_prompt(questions.len(), questions[0].question.as_str()))
    }
}

/// The index of the last card of `cards` with identity `hash`.
pub open spec fn last_with(cards: Seq<CardView>, hash: Seq<char>) -> Option<int>
    decreases cards.len(),
{
    if cards.len() == 0 {
        None
    } else if cards.last().card_hash == hash {
        Some(cards.len() - 1)
    } else {
        last_with(cards.drop_last(), hash)
    }
}

/// `card` with the question `rewritten`, if it is a basic card; else as it is.
pub open spec fn with_question(card: CardView, rewritten: Seq<char>) -> CardView {
    match card.content {
        ContentView::Basic { question, answer } => CardView {
            content: ContentView::Basic { question: rewritten, answer },
            ..card
        },
        ContentView::Cloze { .. } => card,
    }
}

/// `cards` after the question of the card with identity `hash` was rewritten: of several
/// cards with this identity the last is meant; without such a card nothing changes.
pub open spec fn spec_replace_question(cards: Seq<CardView>, hash: Seq<char>, rewritten: Seq<char>) -> Seq<
    CardView,
> {
    match last_with(cards, hash) {
        Some(at) => cards.update(at, with_question(cards[at], rewritten)),
        None => cards,
    }
}

fn find_last(cards: &Vec<Card>, hash: &String) -> (r: Option<usize>)
    ensures
        match r {
            Some(at) => last_with(card_views(cards@), hash@) == Some(at as int) && at < cards.len(),
            None => last_with(card_views(cards@), hash@) is None,
        },
{
    let ghost all = card_views(cards@);
    let mut i: usize = cards.len();
    assert(all.take(all.len() as int) == all);
    while i > 0
        invariant
            i <= cards.len(),
            all == card_views(cards@),
            last_with(all, hash@) == last_with(all.take(i as int), hash@),
        decreases i,
    {
        assert(all.take(i as int).drop_last() == all.take(i - 1));
        assert(all.take(i as int).last() == cards[i - 1]@);
        if cards[i - 1].card_hash == *hash {
            return Some(i - 1);
        }
        i -= 1;
    }
    assert(all.take(0).len() == 0);
    None
}

/// Writes the rewritten question into the card with identity `hash`, if it is a basic
/// card.
pub fn replace_question(cards: &mut Vec<Card>, hash: &String, rewritten: String)
    ensures
        card_views(final(cards)@) == spec_replace_question(
            card_views(old(cards)@),
            hash@,
            rewritten@,
        ),
{
    let ghost before = card_views(cards@);
    let at = match find_last(cards, hash) {
        Some(at) => at,
        None => {
            return ;
        },
    };
    let card = cards.remove(at);
    let updated = match card.content {
        CardContent::Basic { question, answer } => Card {
            file_path: card.file_path,
            file_card_range: card.file_card_range,
            content: CardContent::Basic { question: rewritten, answer },
            card_hash: card.card_hash,
        },
        CardContent::Cloze { text, start, end } => Card {
            file_path: card.file_path,
            file_card_range: card.file_card_range,
            content: CardContent::Cloze { text, start, end },
            card_hash: card.card_hash,
        },
    };
    assert(updated@ == with_question(before[at as int], rewritten@));
    cards.insert(at, updated);
    assert(card_views(cards@) =~= before.update(at as int, with_question(before[at as int], rewritten@)));
}

} // verus!
