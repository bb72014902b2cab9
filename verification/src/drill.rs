//! A sitting: the order in which cards are shown, failed cards that come again, the
//! recording of grades, and what is shown of a card.

use crate::card::{
    card_views, last_of_each, Card, CardContent, CardIndex, CardView, ContentView,
};
use crate::cloze_utils::{lemma_span_apart, placeholder, push_placeholder, span_chars, span_of};
use crate::crud::{insert_all, record_outcome, recorded, StoreError, DB};
use crate::fsrs::ReviewStatus;
use crate::palette::{decimal, spec_decimal};
use crate::text::{
    byte_len, chars_of, extend_chars, slice_chars, string_of, utf8_len,
};
use vstd::prelude::*;

verus! {

/// A sitting: the cards of the pass that is under way, the cards that failed in it and
/// come again in the next, and where the pass stands.
pub struct DrillState {
    cards: Vec<Card>,
    redo_cards: Vec<Card>,
    current_idx: usize,
    show_answer: bool,
    last_action: Option<ReviewStatus>,
}

/// The mathematical value of a `DrillState`.
pub struct DrillView {
    /// The cards of the pass under way.
    pub cards: Seq<CardView>,
    /// The cards that failed in this pass, in the order in which they failed.
    pub redo_cards: Seq<CardView>,
    /// How many cards of the pass were graded.
    pub current_idx: nat,
    /// Whether the answer of the card that is shown was revealed.
    pub show_answer: bool,
    /// The last grade given.
    pub last_action: Option<ReviewStatus>,
}

impl DrillView {
    /// Whether the sitting is over: the pass is through and no card failed in it.
    pub open spec fn is_complete(self) -> bool {
        self.current_idx >= self.cards.len() && self.redo_cards.len() == 0
    }

    /// Whether the pass is through and failed cards wait for the next.
    pub open spec fn pass_is_over(self) -> bool {
        self.current_idx >= self.cards.len() && self.redo_cards.len() > 0
    }

    /// The state with the next pass begun, where the pass is through and cards failed in
    /// it: they are the cards of the new pass. Any other state as it is.
    pub open spec fn settled(self) -> DrillView {
        if self.pass_is_over() {
            DrillView {
                cards: self.redo_cards,
                redo_cards: Seq::empty(),
                current_idx: 0,
                show_answer: self.show_answer,
                last_action: self.last_action,
            }
        } else {
            self
        }
    }

    /// The card that is shown, in a state that is settled and not complete.
    pub open spec fn shown(self) -> CardView
        recommends
            self.current_idx < self.cards.len(),
    {
        self.cards[self.current_idx as int]
    }

    /// The state after the shown card was graded `action`: a failed card joins those that
    /// come again, the pass moves on, and the next answer is hidden.
    pub open spec fn graded(self, action: ReviewStatus) -> DrillView
        recommends
            self.current_idx < self.cards.len(),
    {
        DrillView {
            cards: self.cards,
            redo_cards: if action == ReviewStatus::Fail {
                self.redo_cards.push(self.shown())
            } else {
                self.redo_cards
            },
            current_idx: self.current_idx + 1,
            show_answer: false,
            last_action: Some(action),
        }
    }
}

impl View for DrillState {
    type V = DrillView;

    closed spec fn view(&self) -> DrillView {
        DrillView {
            cards: card_views(self.cards@),
            redo_cards: card_views(self.redo_cards@),
            current_idx: self.current_idx as nat,
            show_answer: self.show_answer,
            last_action: self.last_action,
        }
    }
}

impl DrillState {
    /// The pass has not run past its cards, and no more cards failed than were graded.
    pub open spec fn well_formed(&self) -> bool {
        self@.redo_cards.len() <= self@.current_idx <= self@.cards.len()
    }

    /// A sitting over `cards`, before the first card is shown.
    pub fn new(cards: Vec<Card>) -> (state: DrillState)
        ensures
            state.well_formed(),
            state@ == (DrillView {
                cards: card_views(cards@),
                redo_cards: Seq::empty(),
                current_idx: 0,
                show_answer: false,
                last_action: None,
            }),
    {
        let state = DrillState {
            cards,
            redo_cards: Vec::new(),
            current_idx: 0,
            show_answer: false,
            last_action: None,
        };
        assert(state@.redo_cards =~= Seq::<CardView>::empty());
        state
    }

    /// Begins the next pass where the pass is through and cards failed in it.
    fn settle(&mut self)
        requires
            old(self).well_formed(),
        ensures
            final(self).well_formed(),
            final(self)@ == old(self)@.settled(),
    {
        if self.current_idx >= self.cards.len() && self.redo_cards.len() > 0 {
            let mut next: Vec<Card> = Vec::new();
            std::mem::swap(&mut next, &mut self.redo_cards);
            self.cards = next;
            self.current_idx = 0;
            assert(self@.redo_cards =~= Seq::<CardView>::empty());
        }
    }

    /// The card to show, or none where the sitting is over. Where the pass is through and
    /// cards failed in it, the next pass begins with them.
    pub fn current_card(&mut self) -> (card: Option<Card>)
        requires
            old(self).well_formed(),
        ensures
            final(self).well_formed(),
            final(self)@ == old(self)@.settled(),
            card is None <==> old(self)@.is_complete(),
            card matches Some(c) ==> c@ == old(self)@.settled().shown(),
    {
        self.settle();
        if self.current_idx < self.cards.len() {
            Some(self.cards[self.current_idx].clone())
        } else {
            None
        }
    }

    /// The card that is shown or is to be shown next, without beginning the next pass; none
    /// where the sitting is over.
    pub fn shown_card(&self) -> (card: Option<&Card>)
        requires
            self.well_formed(),
        ensures
            card is None <==> self@.is_complete(),
            card matches Some(c) ==> c@ == self@.settled().shown(),
    {
        if self.current_idx < self.cards.len() {
            Some(&self.cards[self.current_idx])
        } else if self.redo_cards.len() > 0 {
            Some(&self.redo_cards[0])
        } else {
            None
        }
    }

    /// Reveals the answer of the card that is shown; nothing changes where it was
    /// revealed already.
    pub fn reveal_answer(&mut self)
        ensures
            final(self)@ == (DrillView { show_answer: true, ..old(self)@ }),
            final(self).well_formed() == old(self).well_formed(),
    {
        self.show_answer = true;
    }

    /// Grades the card that is shown, whose answer was revealed: the grade is recorded in
    /// the store, a failed card is kept for the next pass, and the sitting moves to the
    /// next card with its answer hidden. Reports what the store reported: whether the
    /// card had a row to write. Where the store refuses the row as corrupt, the card
    /// stays the one that is shown.
    pub fn handle_review(&mut self, db: &mut DB, action: ReviewStatus, now: i64) -> (r: Result<
        bool,
        StoreError,
    >)
        requires
            old(self).well_formed(),
            old(db).well_formed(),
            old(self)@.show_answer,
            !old(self)@.is_complete(),
        ensures
            final(self).well_formed(),
            final(db).well_formed(),
            final(db)@ == recorded(old(db)@, old(self)@.settled().shown().card_hash, action, now),
            r == record_outcome(old(db)@, old(self)@.settled().shown().card_hash),
            r is Ok ==> final(self)@ == old(self)@.settled().graded(action),
            r is Err ==> final(self)@ == old(self)@.settled(),
    {
        self.settle();
        assert(self@.current_idx < self@.cards.len());
        assert(self@.cards.len() == self.cards.len());
        let current = self.cards[self.current_idx].clone();
        let written = db.update_card_performance(&current, action, now);
        match written {
            Err(e) => Err(e),
            Ok(found) => {
                let ghost before = self@;
                if action == ReviewStatus::Fail {
                    self.redo_cards.push(current);
                    assert(self@.redo_cards =~= before.redo_cards.push(before.shown()));
                }
                self.last_action = Some(action);
                self.current_idx += 1;
                self.show_answer = false;
                Ok(found)
            },
        }
    }

    /// Whether the sitting is over.
    pub fn is_complete(&self) -> (r: bool)
        ensures
            r == self@.is_complete(),
    {
        self.current_idx >= self.cards.len() && self.redo_cards.len() == 0
    }

    /// Whether the answer of the card that is shown was revealed.
    pub fn show_answer(&self) -> (r: bool)
        ensures
            r == self@.show_answer,
    {
        self.show_answer
    }

    /// The last grade given in this sitting.
    pub fn last_action(&self) -> (r: Option<ReviewStatus>)
        ensures
            r == self@.last_action,
    {
        self.last_action
    }

    /// How many cards of the pass under way were graded.
    pub fn current_idx(&self) -> (r: usize)
        ensures
            r == self@.current_idx,
    {
        self.current_idx
    }

    /// The cards of the pass under way.
    pub fn cards(&self) -> (r: &Vec<Card>)
        ensures
            card_views(r@) == self@.cards,
    {
        &self.cards
    }

    /// The cards that failed in the pass under way.
    pub fn redo_cards(&self) -> (r: &Vec<Card>)
        ensures
            card_views(r@) == self@.redo_cards,
    {
        &self.redo_cards
    }
}

/// The state after the cards that are shown in turn were graded `grades`, one after the
/// other, within one pass.
pub open spec fn after_grades(start: DrillView, grades: Seq<ReviewStatus>) -> DrillView
    decreases grades.len(),
{
    if grades.len() == 0 {
        start
    } else {
        after_grades(start, grades.drop_last()).graded(grades.last())
    }
}

/// The cards of `cards` whose grade among `grades` is a fail, in order.
pub open spec fn failed_cards(cards: Seq<CardView>, grades: Seq<ReviewStatus>) -> Seq<CardView>
    decreases grades.len(),
{
    if grades.len() == 0 {
        Seq::empty()
    } else if grades.last() == ReviewStatus::Fail {
        failed_cards(cards, grades.drop_last()).push(cards[grades.len() - 1])
    } else {
        failed_cards(cards, grades.drop_last())
    }
}

/// Within a pass every card is graded once, in order: after as many grades as were given
/// the pass stands behind as many cards, its cards are the same, and the cards that come
/// again are exactly those that failed.
pub proof fn lemma_pass_grades_each_card_once(start: DrillView, grades: Seq<ReviewStatus>)
    requires
        start.current_idx == 0,
        start.redo_cards.len() == 0,
        grades.len() <= start.cards.len(),
    ensures
        after_grades(start, grades).cards == start.cards,
        after_grades(start, grades).current_idx == grades.len(),
        after_grades(start, grades).redo_cards == failed_cards(start.cards, grades),
        after_grades(start, grades).redo_cards.len() <= grades.len(),
    decreases grades.len(),
{
    if grades.len() > 0 {
        lemma_pass_grades_each_card_once(start, grades.drop_last());
    } else {
        assert(start.redo_cards =~= Seq::<CardView>::empty());
    }
}

/// A pass through all cards ends the sitting exactly if no card failed; else the next
/// pass is over the cards that failed, from its first card on.
pub proof fn lemma_pass_ends_or_repeats(start: DrillView, grades: Seq<ReviewStatus>)
    requires
        start.current_idx == 0,
        start.redo_cards.len() == 0,
        grades.len() == start.cards.len(),
    ensures
        after_grades(start, grades).is_complete() <==> failed_cards(start.cards, grades).len() == 0,
        !after_grades(start, grades).is_complete() ==> {
            &&& after_grades(start, grades).settled().cards == failed_cards(start.cards, grades)
            &&& after_grades(start, grades).settled().current_idx == 0
            &&& after_grades(start, grades).settled().redo_cards.len() == 0
        },
{
    lemma_pass_grades_each_card_once(start, grades);
}

/// `text` with the deletion between the bracket at byte `start` and the bracket at byte
/// `end` hidden: the two characters at these offsets become square brackets, and what
/// stands between them a placeholder of its length. Offsets that do not lie in `text` in
/// this order, or that cut a character, leave `text` as it is.
pub open spec fn spec_mask_cloze_text(text: Seq<char>, start: usize, end: usize) -> Seq<char> {
    if start >= utf8_len(text) || end >= utf8_len(text) || start >= end {
        text
    } else {
        match span_chars(text, start, end) {
            Some(span) => text.take(span.0) + seq!['['] + placeholder((span.1 - span.0 - 1) as nat)
                + seq![']'] + text.skip(span.1 + 1),
            None => text,
        }
    }
}

fn mask_chars(chars: &Vec<char>, total: usize, start: usize, end: usize) -> (masked: Vec<char>)
    requires
        total == utf8_len(chars@),
    ensures
        masked@ == spec_mask_cloze_text(chars@, start, end),
{
    let whole = slice_chars(chars, 0, chars.len());
    assert(whole@ == chars@);
    if start >= total || end >= total || start >= end {
        return whole;
    }
    let (from, to) = match span_of(chars, start, end) {
        Some(span) => span,
        None => {
            return whole;
        },
    };
    proof {
        lemma_span_apart(chars@, start, end);
    }
    let mut out = slice_chars(chars, 0, from);
    out.push('[');
    push_placeholder(&mut out, to - from - 1);
    out.push(']');
    extend_chars(&mut out, &slice_chars(chars, to + 1, chars.len()));
    assert(out@ =~= chars@.take(from as int) + seq!['['] + placeholder((to - from - 1) as nat)
        + seq![']'] + chars@.skip(to + 1));
    out
}

/// Hides the deletion of a cloze text that lies between the brackets at the byte offsets
/// `start` and `end`.
pub fn mask_cloze_text(text: &str, start: usize, end: usize) -> (masked: String)
    ensures
        masked@ == spec_mask_cloze_text(text@, start, end),
{
    string_of(&mask_chars(&chars_of(text), byte_len(text), start, end))
}

/// What is shown of a card: of a basic card the question, and the answer once it is
/// revealed; of a cloze the text, with the deletion hidden until it is revealed.
pub open spec fn spec_format_card_text(card: CardView, show_answer: bool) -> Seq<char> {
    match card.content {
        ContentView::Basic { question, answer } => "Q:\n"@ + question + "\n\nA:\n"@ + if show_answer {
            answer
        } else {
            Seq::empty()
        },
        ContentView::Cloze { text, start, end } => "Cloze:\n"@ + if show_answer {
            text
        } else {
            spec_mask_cloze_text(text, start, end)
        },
    }
}

/// The text that shows `card`.
pub fn format_card_text(card: &Card, show_answer: bool) -> (shown: String)
    ensures
        shown@ == spec_format_card_text(card@, show_answer),
{
    match &card.content {
        CardContent::Basic { question, answer } => {
            let mut out = chars_of("Q:\n");
            extend_chars(&mut out, &chars_of(question.as_str()));
            extend_chars(&mut out, &chars_of("\n\nA:\n"));
            if show_answer {
                extend_chars(&mut out, &chars_of(answer.as_str()));
            }
            assert(out@ =~= spec_format_card_text(card@, show_answer));
            string_of(&out)
        },
        CardContent::Cloze { text, start, end } => {
            let mut out = chars_of("Cloze:\n");
            if show_answer {
                extend_chars(&mut out, &chars_of(text.as_str()));
            } else {
                let masked = mask_chars(
                    &chars_of(text.as_str()),
                    byte_len(text.as_str()),
                    *start,
                    *end,
                );
                extend_chars(&mut out, &masked);
            }
            string_of(&out)
        },
    }
}

/// The keys that the sitting offers, and the last grade where one was given.
pub open spec fn spec_instructions_text(show_answer: bool, last_action: Option<ReviewStatus>) -> Seq<
    char,
> {
    (if show_answer {
        "Fail: 1 \u{2022} Pass: 2 \u{2022} Quit: Q/Esc"@
    } else {
        "Show answer: Space/Enter \u{2022} Esc/Ctrl-C exit"@
    }) + match last_action {
        Some(ReviewStatus::Fail) => " | Last: "@ + "Fail"@,
        Some(ReviewStatus::Pass) => " | Last: "@ + "Pass"@,
        None => Seq::empty(),
    }
}

/// The line that says which keys do what in `state`.
pub fn instructions_text(state: &DrillState) -> (text: String)
    ensures
        text@ == spec_instructions_text(state@.show_answer, state@.last_action),
{
    let mut out = if state.show_answer {
        chars_of("Fail: 1 \u{2022} Pass: 2 \u{2022} Quit: Q/Esc")
    } else {
        chars_of("Show answer: Space/Enter \u{2022} Esc/Ctrl-C exit")
    };
    if let Some(action) = state.last_action {
        extend_chars(&mut out, &chars_of(" | Last: "));
        extend_chars(&mut out, &chars_of(action.label()));
        assert(out@ =~= spec_instructions_text(state@.show_answer, state@.last_action));
    } else {
        assert(out@ =~= spec_instructions_text(state@.show_answer, state@.last_action));
    }
    string_of(&out)
}

/// The title over a card: its number in the pass, the length of the pass, the number of
/// cards that come again, and the card's file.
pub open spec fn spec_header_text(number: nat, of: nat, redo: nat, file_path: Seq<char>) -> Seq<
    char,
> {
    " Card "@ + spec_decimal(number) + "/"@ + spec_decimal(of) + " \u{2022} "@ + spec_decimal(redo)
        + " to redo \u{2022} "@ + file_path + " "@
}

/// The title over `card` in `state`, of a pass that is not through.
pub fn header_text(state: &DrillState, card: &Card) -> (text: String)
    requires
        state@.current_idx < state@.cards.len(),
    ensures
        text@ == spec_header_text(
            state@.current_idx + 1,
            state@.cards.len(),
            state@.redo_cards.len(),
            card@.file_path,
        ),
{
    let mut out = chars_of(" Card ");
    assert(state@.cards.len() == state.cards.len());
    extend_chars(&mut out, &decimal(state.current_idx + 1));
    extend_chars(&mut out, &chars_of("/"));
    extend_chars(&mut out, &decimal(state.cards.len()));
    extend_chars(&mut out, &chars_of(" \u{2022} "));
    extend_chars(&mut out, &decimal(state.redo_cards.len()));
    extend_chars(&mut out, &chars_of(" to redo \u{2022} "));
    extend_chars(&mut out, &chars_of(card.file_path.as_str()));
    extend_chars(&mut out, &chars_of(" "));
    assert(out@ =~= spec_header_text(
        state@.current_idx + 1,
        state@.cards.len(),
        state@.redo_cards.len(),
        card@.file_path,
    ));
    string_of(&out)
}

/// A key as the sitting tells keys apart.
#[derive(Clone, Copy, Debug, PartialEq, Eq, Structural)]
pub enum DrillKey {
    Escape,
    Enter,
    /// A character, and whether the control key was held.
    Char(char, bool),
    Other,
}

/// What the sitting does on a key.
#[derive(Clone, Copy, Debug, PartialEq, Eq, Structural)]
pub enum DrillAction {
    /// Ends the sitting.
    Quit,
    /// Reveals the answer.
    Reveal,
    /// Grades the card.
    Grade(ReviewStatus),
    /// Nothing.
    Ignore,
}

/// What a key does. Escape and control-c end the sitting. Space and enter reveal the
/// answer while it is hidden. 1 and 2 grade the card fail and pass once the answer is
/// revealed. No other key does anything.
pub open spec fn spec_action_for(key: DrillKey, show_answer: bool) -> DrillAction {
    match key {
        DrillKey::Escape => DrillAction::Quit,
        DrillKey::Char(c, control) => if c == 'c' && control {
            DrillAction::Quit
        } else if c == ' ' && !show_answer {
            DrillAction::Reveal
        } else if c == '1' && show_answer {
            DrillAction::Grade(ReviewStatus::Fail)
        } else if c == '2' && show_answer {
            DrillAction::Grade(ReviewStatus::Pass)
        } else {
            DrillAction::Ignore
        },
        DrillKey::Enter => if show_answer {
            DrillAction::Ignore
        } else {
            DrillAction::Reveal
        },
        DrillKey::Other => DrillAction::Ignore,
    }
}

/// What the key `key` does while the answer is revealed or not.
pub fn action_for(key: DrillKey, show_answer: bool) -> (action: DrillAction)
    ensures
        action == spec_action_for(key, show_answer),
{
    match key {
        DrillKey::Escape => DrillAction::Quit,
        DrillKey::Char(c, control) => {
            if c == 'c' && control {
                DrillAction::Quit
            } else if c == ' ' && !show_answer {
                DrillAction::Reveal
            } else if c == '1' && show_answer {
                DrillAction::Grade(ReviewStatus::Fail)
            } else if c == '2' && show_answer {
                DrillAction::Grade(ReviewStatus::Pass)
            } else {
                DrillAction::Ignore
            }
        },
        DrillKey::Enter => {
            if show_answer {
                DrillAction::Ignore
            } else {
                DrillAction::Reveal
            }
        },
        DrillKey::Other => DrillAction::Ignore,
    }
}

/// Makes the cards that were read known to the store and indexes them: every card gets a
/// row unless it has one, and of cards that share an identity the last stands for it.
pub fn register_all_cards(db: &mut DB, all_cards: Vec<Card>, now: i64) -> (index: CardIndex)
    requires
        old(db).well_formed(),
    ensures
        final(db).well_formed(),
        final(db)@ == insert_all(old(db)@, card_views(all_cards@), now),
        index.well_formed(),
        index@ == last_of_each(card_views(all_cards@)),
{
    db.add_cards_batch(&all_cards, now);
    CardIndex::from_cards(all_cards)
}

} // verus!
