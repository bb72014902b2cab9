//! Cards, and the index of the cards that are loaded.

use vstd::prelude::*;

verus! {

/// What a card shows and hides.
#[derive(Debug)]
pub enum CardContent {
    /// A question and its answer.
    Basic { question: String, answer: String },
    /// A text with one bracketed deletion: `start` is the byte offset of the opening
    /// bracket, `end` that of the closing one.
    Cloze { text: String, start: usize, end: usize },
}

/// A card as it was read from a file.
#[derive(Debug)]
pub struct Card {
    /// The file the card came from.
    pub file_path: String,
    /// The lines of that file that hold the card: the first, and the one after the last.
    pub file_card_range: (usize, usize),
    pub content: CardContent,
    /// The card's identity: the fingerprint of its text.
    pub card_hash: String,
}

/// A span of bytes in a cloze text that covers the deletion and its brackets.
#[derive(Clone, Copy, Debug, PartialEq, Eq, Structural)]
pub struct ClozeRange {
    pub start: usize,
    pub end: usize,
}

/// The mathematical value of a `CardContent`.
pub enum ContentView {
    Basic { question: Seq<char>, answer: Seq<char> },
    Cloze { text: Seq<char>, start: usize, end: usize },
}

/// The mathematical value of a `Card`.
pub struct CardView {
    pub file_path: Seq<char>,
    pub file_card_range: (usize, usize),
    pub content: ContentView,
    pub card_hash: Seq<char>,
}

impl View for CardContent {
    type V = ContentView;

    open spec fn view(&self) -> ContentView {
        match *self {
            CardContent::Basic { question, answer } => ContentView::Basic {
                question: question@,
                answer: answer@,
            },
            CardContent::Cloze { text, start, end } => ContentView::Cloze {
                text: text@,
                start,
                end,
            },
        }
    }
}

impl View for Card {
    type V = CardView;

    open spec fn view(&self) -> CardView {
        CardView {
            file_path: self.file_path@,
            file_card_range: self.file_card_range,
            content: self.content@,
            card_hash: self.card_hash@,
        }
    }
}

impl Clone for CardContent {
    fn clone(&self) -> (r: CardContent)
        ensures
            r@ == self@,
    {
        match self {
            CardContent::Basic { question, answer } => CardContent::Basic {
                question: question.clone(),
                answer: answer.clone(),
            },
            CardContent::Cloze { text, start, end } => CardContent::Cloze {
                text: text.clone(),
                start: *start,
                end: *end,
            },
        }
    }
}

impl Clone for Card {
    fn clone(&self) -> (r: Card)
        ensures
            r@ == self@,
    {
        Card {
            file_path: self.file_path.clone(),
            file_card_range: self.file_card_range,
            content: self.content.clone(),
            card_hash: self.card_hash.clone(),
        }
    }
}

/// Why a cloze range was refused.
#[derive(Clone, Copy, Debug, PartialEq, Eq, Structural)]
pub enum RangeError {
    /// The range ends where it starts, or before.
    Empty,
}

impl ClozeRange {
    /// The range from `start` up to `end`, which must lie behind `start`.
    pub fn new(start: usize, end: usize) -> (r: Result<ClozeRange, RangeError>)
        ensures
            start < end ==> r == Ok::<ClozeRange, RangeError>(ClozeRange { start, end }),
            start >= end ==> r == Err::<ClozeRange, RangeError>(RangeError::Empty),
    {
        if start < end {
            Ok(ClozeRange { start, end })
        } else {
            Err(RangeError::Empty)
        }
    }
}

/// The views of the cards of `cards`, in order.
pub open spec fn card_views(cards: Seq<Card>) -> Seq<CardView> {
    Seq::new(cards.len(), |i: int| cards[i]@)
}

/// Whether a card with identity `hash` is among `cards`.
pub open spec fn has_card(cards: Seq<CardView>, hash: Seq<char>) -> bool {
    exists|i: int| 0 <= i < cards.len() && #[trigger] cards[i].card_hash == hash
}

/// Whether no two cards of `cards` share an identity.
pub open spec fn distinct_cards(cards: Seq<CardView>) -> bool {
    forall|i: int, j: int|
        0 <= i < j < cards.len() ==> #[trigger] cards[i].card_hash != #[trigger] cards[j].card_hash
}

/// The card of `cards` with identity `hash`: the first, if there are several.
pub open spec fn card_with(cards: Seq<CardView>, hash: Seq<char>) -> CardView
    recommends
        has_card(cards, hash),
{
    cards[first_with(cards, hash)]
}

/// The least index of a card of `cards` with identity `hash`.
pub open spec fn first_with(cards: Seq<CardView>, hash: Seq<char>) -> int {
    choose|i: int|
        0 <= i < cards.len() && #[trigger] cards[i].card_hash == hash && forall|j: int|
            0 <= j < i ==> #[trigger] cards[j].card_hash != hash
}

/// The first card with an identity is a card with that identity, and none stands before
/// it.
pub proof fn lemma_first_with(cards: Seq<CardView>, hash: Seq<char>)
    requires
        has_card(cards, hash),
    ensures
        0 <= first_with(cards, hash) < cards.len(),
        cards[first_with(cards, hash)].card_hash == hash,
        forall|j: int| 0 <= j < first_with(cards, hash) ==> #[trigger] cards[j].card_hash != hash,
{
    let some = choose|i: int| 0 <= i < cards.len() && #[trigger] cards[i].card_hash == hash;
    lemma_least_with(cards, hash, some);
}

/// Below any card with an identity there is a first one.
proof fn lemma_least_with(cards: Seq<CardView>, hash: Seq<char>, at: int)
    requires
        0 <= at < cards.len(),
        cards[at].card_hash == hash,
    ensures
        exists|i: int|
            0 <= i < cards.len() && #[trigger] cards[i].card_hash == hash && forall|j: int|
                0 <= j < i ==> #[trigger] cards[j].card_hash != hash,
    decreases at,
{
    if exists|j: int| 0 <= j < at && #[trigger] cards[j].card_hash == hash {
        let j = choose|j: int| 0 <= j < at && #[trigger] cards[j].card_hash == hash;
        lemma_least_with(cards, hash, j);
    } else {
        assert(forall|j: int| 0 <= j < at ==> #[trigger] cards[j].card_hash != hash);
    }
}

/// Of the cards of `cards`, those that no later card shares its identity with, in order.
pub open spec fn last_of_each(cards: Seq<CardView>) -> Seq<CardView>
    decreases cards.len(),
{
    if cards.len() == 0 {
        Seq::empty()
    } else if has_card(cards.drop_first(), cards[0].card_hash) {
        last_of_each(cards.drop_first())
    } else {
        seq![cards[0]] + last_of_each(cards.drop_first())
    }
}

/// A card is among `first` followed by `rest` exactly if it is `first` or among `rest`.
pub proof fn lemma_has_card_front(first: CardView, rest: Seq<CardView>, hash: Seq<char>)
    ensures
        has_card(seq![first] + rest, hash) <==> first.card_hash == hash || has_card(rest, hash),
{
    let all = seq![first] + rest;
    if has_card(all, hash) {
        let i = choose|i: int| 0 <= i < all.len() && #[trigger] all[i].card_hash == hash;
        if i > 0 {
            assert(rest[i - 1].card_hash == hash);
        }
    }
    if first.card_hash == hash {
        assert(all[0].card_hash == hash);
    }
    if has_card(rest, hash) {
        let i = choose|i: int| 0 <= i < rest.len() && #[trigger] rest[i].card_hash == hash;
        assert(all[i + 1].card_hash == hash);
    }
}

/// Keeping the last card of each identity loses no identity, adds none, and leaves no
/// identity twice.
pub proof fn lemma_last_of_each(cards: Seq<CardView>)
    ensures
        distinct_cards(last_of_each(cards)),
        forall|h: Seq<char>| has_card(last_of_each(cards), h) <==> has_card(cards, h),
    decreases cards.len(),
{
    if cards.len() > 0 {
        let rest = cards.drop_first();
        let kept = last_of_each(rest);
        lemma_last_of_each(rest);
        assert(cards == seq![cards[0]] + rest);
        assert forall|h: Seq<char>| has_card(last_of_each(cards), h) <==> has_card(cards, h) by {
            lemma_has_card_front(cards[0], rest, h);
            lemma_has_card_front(cards[0], kept, h);
        }
        if !has_card(rest, cards[0].card_hash) {
            let out = seq![cards[0]] + kept;
            assert forall|i: int, j: int| 0 <= i < j < out.len() implies #[trigger] out[i].card_hash
                != #[trigger] out[j].card_hash by {
                if i == 0 {
                    assert(kept[j - 1].card_hash == out[j].card_hash);
                    assert(!has_card(kept, cards[0].card_hash));
                } else {
                    assert(kept[i - 1].card_hash == out[i].card_hash);
                    assert(kept[j - 1].card_hash == out[j].card_hash);
                }
            }
        }
    }
}

/// The index of the first card of `cards` from `from` on with identity `hash`.
pub fn find_card(cards: &Vec<Card>, from: usize, hash: &String) -> (r: Option<usize>)
    requires
        from <= cards.len(),
    ensures
        match r {
            Some(i) => from <= i < cards.len() && cards[i as int].card_hash@ == hash@ && forall|
                j: int,
            |
                from <= j < i ==> #[trigger] cards[j].card_hash@ != hash@,
            None => forall|j: int|
                from <= j < cards.len() ==> #[trigger] cards[j].card_hash@ != hash@,
        },
{
    let mut i: usize = from;
    while i < cards.len()
        invariant
            from <= i <= cards.len(),
            forall|j: int| from <= j < i ==> #[trigger] cards[j].card_hash@ != hash@,
        decreases cards.len() - i,
    {
        if cards[i].card_hash == *hash {
            return Some(i);
        }
        i += 1;
    }
    None
}

/// The cards that are loaded, each identity once: the set that the store's answers are
/// held to.
pub struct CardIndex {
    cards: Vec<Card>,
}

impl View for CardIndex {
    type V = Seq<CardView>;

    closed spec fn view(&self) -> Seq<CardView> {
        card_views(self.cards@)
    }
}

impl CardIndex {
    /// No identity occurs twice.
    pub open spec fn well_formed(&self) -> bool {
        distinct_cards(self@)
    }

    /// The index of `cards`. Where several cards share an identity, the last one stands
    /// for it.
    pub fn from_cards(cards: Vec<Card>) -> (index: CardIndex)
        ensures
            index.well_formed(),
            index@ == last_of_each(card_views(cards@)),
            forall|h: Seq<char>| has_card(index@, h) <==> has_card(card_views(cards@), h),
    {
        let ghost all = card_views(cards@);
        let mut kept: Vec<Card> = Vec::new();
        let mut i: usize = 0;
        proof {
            lemma_last_of_each(all);
            assert(all.skip(0) == all);
            assert(card_views(kept@) + last_of_each(all) =~= last_of_each(all));
        }
        while i < cards.len()
            invariant
                i <= cards.len(),
                all == card_views(cards@),
                card_views(kept@) + last_of_each(all.skip(i as int)) == last_of_each(all),
            decreases cards.len() - i,
        {
            let ghost rest = all.skip(i as int);
            assert(rest.drop_first() == all.skip(i + 1));
            assert(rest[0] == cards[i as int]@);
            let later = find_card(&cards, i + 1, &cards[i].card_hash);
            proof {
                let tail = all.skip(i + 1);
                if later is Some {
                    let j = later->0 as int;
                    assert(tail[j - i - 1].card_hash == rest[0].card_hash);
                    assert(has_card(tail, rest[0].card_hash));
                } else {
                    assert forall|k: int| 0 <= k < tail.len() implies #[trigger] tail[k].card_hash
                        != rest[0].card_hash by {
                        assert(tail[k] == cards[k + i + 1]@);
                    }
                    assert(!has_card(tail, rest[0].card_hash));
                }
            }
            if later.is_none() {
                let ghost before = card_views(kept@);
                kept.push(cards[i].clone());
                proof {
                    assert(card_views(kept@) =~= before + seq![rest[0]]);
                    assert(before + seq![rest[0]] + last_of_each(all.skip(i + 1)) =~= before + (
                    seq![rest[0]] + last_of_each(all.skip(i + 1))));
                }
            }
            i += 1;
        }
        proof {
            assert(all.skip(cards.len() as int).len() == 0);
            assert(card_views(kept@) + Seq::<CardView>::empty() =~= card_views(kept@));
        }
        CardIndex { cards: kept }
    }

    /// The number of identities.
    pub fn len(&self) -> (n: usize)
        ensures
            n == self@.len(),
    {
        self.cards.len()
    }

    /// Whether no card is loaded.
    pub fn is_empty(&self) -> (r: bool)
        ensures
            r == (self@.len() == 0),
    {
        self.cards.len() == 0
    }

    /// The card with identity `hash`, if one is loaded.
    pub fn get(&self, hash: &String) -> (r: Option<&Card>)
        ensures
            r is Some <==> has_card(self@, hash@),
            r matches Some(card) ==> card@ == card_with(self@, hash@),
    {
        let found = find_card(&self.cards, 0, hash);
        match found {
            Some(i) => {
                proof {
                    let views = self@;
                    assert(views[i as int].card_hash == hash@);
                    assert forall|j: int| 0 <= j < i implies #[trigger] views[j].card_hash
                        != hash@ by {
                        assert(self.cards[j].card_hash@ != hash@);
                    }
                    let k = first_with(views, hash@);
                    assert(0 <= k < views.len() && views[k].card_hash == hash@ && forall|j: int|
                        0 <= j < k ==> #[trigger] views[j].card_hash != hash@);
                    assert(k == i);
                }
                Some(&self.cards[i])
            },
            None => {
                proof {
                    let views = self@;
                    assert forall|j: int| 0 <= j < views.len() implies #[trigger] views[j].card_hash
                        != hash@ by {
                        assert(self.cards[j].card_hash@ != hash@);
                    }
                }
                None
            },
        }
    }

    /// Whether a card with identity `hash` is loaded.
    pub fn contains_key(&self, hash: &String) -> (r: bool)
        ensures
            r == has_card(self@, hash@),
    {
        self.get(hash).is_some()
    }

    /// The loaded cards, each identity once.
    pub fn cards(&self) -> (cards: &Vec<Card>)
        ensures
            card_views(cards@) == self@,
    {
        &self.cards
    }
}

} // verus!
