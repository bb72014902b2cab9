//! Reading cards from the text of markdown files.

use crate::card::{card_views, Card, CardContent, CardView, ContentView};
use crate::cloze_utils::{scan_brackets, scan_text};
use crate::hash::{blake3_hex, digest_hex, fingerprint, has_identity};
use crate::text::{
    chars_of, extend_chars, join_lines, line_views, slice_chars, spec_join, spec_lines,
    spec_starts_with, spec_trim, split_lines, string_of, trim_chars,
};
use vstd::prelude::*;
use vstd::utf8::encode_utf8;

verus! {

/// Why a text is no card.
#[derive(Clone, Copy, Debug, PartialEq, Eq, Structural)]
pub enum CardError {
    /// The text has no identity: it is blank, or nothing of it is left after
    /// normalization.
    Unhashable,
    /// The text is a cloze without a bracketed deletion, or with an empty one.
    MissingCloze,
    /// The text holds neither a question with its answer nor a cloze.
    Unrecognized,
}

impl CardError {
    /// What went wrong, in words.
    pub fn message(&self) -> (text: &'static str)
        ensures
            text@ == (match *self {
                CardError::Unhashable => "Unable to hash contents"@,
                CardError::MissingCloze => "Card is a cloze but can't find cloze text in []"@,
                CardError::Unrecognized => "Unable to create card"@,
            }),
    {
        match self {
            CardError::Unhashable => "Unable to hash contents",
            CardError::MissingCloze => "Card is a cloze but can't find cloze text in []",
            CardError::Unrecognized => "Unable to create card",
        }
    }
}

/// `line` without the whitespace around it, or nothing if that leaves nothing.
pub open spec fn spec_trim_line(line: Seq<char>) -> Option<Seq<char>> {
    if spec_trim(line).len() == 0 {
        None
    } else {
        Some(spec_trim(line))
    }
}

/// `line` without the whitespace around it, or nothing if that leaves nothing.
pub fn trim_line(line: &str) -> (r: Option<String>)
    ensures
        r is Some <==> spec_trim_line(line@) is Some,
        r matches Some(s) ==> s@ == spec_trim_line(line@)->0,
{
    let trimmed = trim_chars(&chars_of(line));
    if trimmed.len() == 0 {
        None
    } else {
        Some(string_of(&trimmed))
    }
}

/// The part of a card that a line belongs to.
#[derive(Clone, Copy, Debug, PartialEq, Eq, Structural)]
pub enum Section {
    Question,
    Answer,
    Cloze,
    /// Before the first marker.
    Outside,
}

/// The lines read so far, by section, and the section that the next line falls into.
pub struct Sections {
    pub section: Section,
    pub question: Seq<Seq<char>>,
    pub answer: Seq<Seq<char>>,
    pub cloze: Seq<Seq<char>>,
}

/// The marker that opens `section`.
pub open spec fn marker(section: Section) -> Seq<char> {
    match section {
        Section::Question => seq!['Q', ':'],
        Section::Answer => seq!['A', ':'],
        Section::Cloze => seq!['C', ':'],
        Section::Outside => Seq::empty(),
    }
}

/// The section that `line` opens, if it starts with a marker.
pub open spec fn opened_by(line: Seq<char>) -> Option<Section> {
    if spec_starts_with(line, marker(Section::Question)) {
        Some(Section::Question)
    } else if spec_starts_with(line, marker(Section::Answer)) {
        Some(Section::Answer)
    } else if spec_starts_with(line, marker(Section::Cloze)) {
        Some(Section::Cloze)
    } else {
        None
    }
}

/// `sections` with the lines of `section` replaced by `lines`.
pub open spec fn with_lines(sections: Sections, section: Section, lines: Seq<Seq<char>>) -> Sections {
    match section {
        Section::Question => Sections { question: lines, ..sections },
        Section::Answer => Sections { answer: lines, ..sections },
        Section::Cloze => Sections { cloze: lines, ..sections },
        Section::Outside => sections,
    }
}

/// The lines of `section` in `sections`.
pub open spec fn lines_of(sections: Sections, section: Section) -> Seq<Seq<char>> {
    match section {
        Section::Question => sections.question,
        Section::Answer => sections.answer,
        Section::Cloze => sections.cloze,
        Section::Outside => Seq::empty(),
    }
}

/// One line read. A blank line changes nothing. A line that starts with a marker opens
/// that section anew: what the section held is dropped, and what follows the marker on
/// the line is its first line, unless that is blank. Any other line joins the section
/// that is open, trimmed; outside all sections it is dropped.
pub open spec fn read_line(sections: Sections, raw: Seq<char>) -> Sections {
    let line = spec_trim(raw);
    if line.len() == 0 {
        sections
    } else {
        match opened_by(line) {
            Some(section) => {
                let rest = spec_trim(line.skip(2));
                let first = if rest.len() == 0 {
                    Seq::<Seq<char>>::empty()
                } else {
                    seq![rest]
                };
                Sections { section, ..with_lines(sections, section, first) }
            },
            None => with_lines(
                sections,
                sections.section,
                lines_of(sections, sections.section).push(line),
            ),
        }
    }
}

/// All of `lines` read in turn.
pub open spec fn read_lines(lines: Seq<Seq<char>>) -> Sections
    decreases lines.len(),
{
    if lines.len() == 0 {
        Sections {
            section: Section::Outside,
            question: Seq::empty(),
            answer: Seq::empty(),
            cloze: Seq::empty(),
        }
    } else {
        read_line(read_lines(lines.drop_last()), lines.last())
    }
}

/// The lines of a section as one text, or nothing where it has no line.
pub open spec fn joined(lines: Seq<Seq<char>>) -> Option<Seq<char>> {
    if lines.len() == 0 {
        None
    } else {
        Some(spec_join(lines))
    }
}

/// The question, the answer and the cloze text that `contents` holds.
pub open spec fn spec_parse_card_lines(contents: Seq<char>) -> (
    Option<Seq<char>>,
    Option<Seq<char>>,
    Option<Seq<char>>,
) {
    let sections = read_lines(spec_lines(contents));
    (joined(sections.question), joined(sections.answer), joined(sections.cloze))
}

/// The view of an optional string.
pub open spec fn text_of(s: Option<String>) -> Option<Seq<char>> {
    match s {
        Some(s) => Some(s@),
        None => None,
    }
}

fn join_nonempty(lines: &Vec<Vec<char>>) -> (r: Option<String>)
    ensures
        text_of(r) == joined(line_views(lines@)),
{
    if lines.len() == 0 {
        None
    } else {
        Some(string_of(&join_lines(lines)))
    }
}

/// Whether `line` starts with the two characters `first` and `second`.
fn has_marker(line: &Vec<char>, first: char, second: char) -> (r: bool)
    ensures
        r == spec_starts_with(line@, seq![first, second]),
{
    if line.len() >= 2 && line[0] == first && line[1] == second {
        assert(line@.subrange(0, 2) == seq![first, second]);
        true
    } else {
        if line.len() >= 2 {
            assert(line@.subrange(0, 2)[0] == line@[0]);
            assert(line@.subrange(0, 2)[1] == line@[1]);
            assert(seq![first, second][0] == first);
            assert(seq![first, second][1] == second);
        }
        false
    }
}

/// The lines with which a section starts when `line` opens it.
fn opening_lines(line: &Vec<char>) -> (first: Vec<Vec<char>>)
    requires
        line.len() >= 2,
    ensures
        line_views(first@) == if spec_trim(line@.skip(2)).len() == 0 {
            Seq::<Seq<char>>::empty()
        } else {
            seq![spec_trim(line@.skip(2))]
        },
{
    let rest = trim_chars(&slice_chars(line, 2, line.len()));
    let mut first: Vec<Vec<char>> = Vec::new();
    if rest.len() > 0 {
        first.push(rest);
    }
    assert(line_views(first@) =~= if spec_trim(line@.skip(2)).len() == 0 {
        Seq::<Seq<char>>::empty()
    } else {
        seq![spec_trim(line@.skip(2))]
    });
    first
}

/// Reads the question, the answer and the cloze text out of `contents`, line by line.
/// `Q:`, `A:` and `C:` at the start of a line open the three sections; each section is
/// the lines from its last marker on, trimmed, without blank lines, joined by line feeds.
pub fn parse_card_lines(contents: &str) -> (r: (Option<String>, Option<String>, Option<String>))
    ensures
        (text_of(r.0), text_of(r.1), text_of(r.2)) == spec_parse_card_lines(contents@),
{
    let lines = split_lines(&chars_of(contents));
    let ghost all = line_views(lines@);
    let mut question: Vec<Vec<char>> = Vec::new();
    let mut answer: Vec<Vec<char>> = Vec::new();
    let mut cloze: Vec<Vec<char>> = Vec::new();
    let mut section = Section::Outside;
    let mut i: usize = 0;
    assert(all.take(0).len() == 0);
    assert(line_views(question@) =~= Seq::<Seq<char>>::empty());
    while i < lines.len()
        invariant
            i <= lines.len(),
            all == line_views(lines@),
            read_lines(all.take(i as int)) == (Sections {
                section,
                question: line_views(question@),
                answer: line_views(answer@),
                cloze: line_views(cloze@),
            }),
        decreases lines.len() - i,
    {
        proof {
            assert(all.take(i + 1).drop_last() == all.take(i as int));
            assert(all.take(i + 1).last() == lines[i as int]@);
        }
        let line = trim_chars(&lines[i]);
        if line.len() > 0 {
            if has_marker(&line, 'Q', ':') {
                section = Section::Question;
                question = opening_lines(&line);
            } else if has_marker(&line, 'A', ':') {
                section = Section::Answer;
                answer = opening_lines(&line);
            } else if has_marker(&line, 'C', ':') {
                section = Section::Cloze;
                cloze = opening_lines(&line);
            } else {
                match section {
                    Section::Question => {
                        let ghost before = line_views(question@);
                        question.push(line);
                        assert(line_views(question@) =~= before.push(line@));
                    },
                    Section::Answer => {
                        let ghost before = line_views(answer@);
                        answer.push(line);
                        assert(line_views(answer@) =~= before.push(line@));
                    },
                    Section::Cloze => {
                        let ghost before = line_views(cloze@);
                        cloze.push(line);
                        assert(line_views(cloze@) =~= before.push(line@));
                    },
                    Section::Outside => {},
                }
            }
        }
        i += 1;
    }
    assert(all.take(lines.len() as int) == all);
    (join_nonempty(&question), join_nonempty(&answer), join_nonempty(&cloze))
}

/// The first bracketed span of a cloze text, from the byte offset of its opening bracket
/// to that of its closing one; none where no bracket is closed.
pub open spec fn first_deletion(text: Seq<char>) -> Option<(usize, usize)> {
    if scan_text(text, 0).ranges.len() == 0 {
        None
    } else {
        Some(scan_text(text, 0).ranges[0])
    }
}

/// The bracketed spans of `text`, each from the byte offset of its opening bracket to that
/// of its closing one.
fn find_cloze_ranges(text: &str) -> (ranges: Vec<(usize, usize)>)
    ensures
        ranges@ == scan_text(text@, 0).ranges,
{
    scan_brackets(text, 0)
}

/// The card that `contents` holds, or why it holds none.
///
/// A text without identity is refused first. A text with a question and an answer is a
/// basic card, whatever else it holds. Else a text with a cloze is a cloze card if its
/// first bracketed span has something between the brackets. The card's identity is the
/// fingerprint of the whole text; path and line range are carried along.
pub open spec fn spec_content_to_card(
    card_path: Seq<char>,
    contents: Seq<char>,
    file_start_idx: usize,
    file_end_idx: usize,
) -> Result<CardView, CardError> {
    let parsed = spec_parse_card_lines(contents);
    if !has_identity(contents) {
        Err(CardError::Unhashable)
    } else if parsed.0 is Some && parsed.1 is Some {
        Ok(
            CardView {
                file_path: card_path,
                file_card_range: (file_start_idx, file_end_idx),
                content: ContentView::Basic { question: parsed.0->0, answer: parsed.1->0 },
                card_hash: fingerprint(contents),
            },
        )
    } else if parsed.2 is Some {
        match first_deletion(parsed.2->0) {
            None => Err(CardError::MissingCloze),
            Some(span) => if span.1 <= span.0 + 1 {
                Err(CardError::MissingCloze)
            } else {
                Ok(
                    CardView {
                        file_path: card_path,
                        file_card_range: (file_start_idx, file_end_idx),
                        content: ContentView::Cloze { text: parsed.2->0, start: span.0, end: span.1 },
                        card_hash: fingerprint(contents),
                    },
                )
            },
        }
    } else {
        Err(CardError::Unrecognized)
    }
}

/// Whether `r` is the outcome `expected`, card by view.
pub open spec fn is_card_outcome(r: Result<Card, CardError>, expected: Result<CardView, CardError>) -> bool {
    match r {
        Ok(card) => expected == Ok::<CardView, CardError>(card@),
        Err(e) => expected == Err::<CardView, CardError>(e),
    }
}

/// Makes a card of the text `contents`, which stands in the file `card_path` from line
/// `file_start_idx` up to line `file_end_idx`.
pub fn content_to_card(card_path: &str, contents: &str, file_start_idx: usize, file_end_idx: usize) -> (r:
    Result<Card, CardError>)
    ensures
        is_card_outcome(
            r,
            spec_content_to_card(card_path@, contents@, file_start_idx, file_end_idx),
        ),
{
    let (question, answer, cloze) = parse_card_lines(contents);
    let card_hash = match crate::hash::get_hash(contents) {
        Some(hash) => hash,
        None => {
            return Err(CardError::Unhashable);
        },
    };
    let file_path = string_of(&chars_of(card_path));
    match (question, answer, cloze) {
        (Some(q), Some(a), _) => Ok(
            Card {
                file_path,
                file_card_range: (file_start_idx, file_end_idx),
                content: CardContent::Basic { question: q, answer: a },
                card_hash,
            },
        ),
        (_, _, Some(c)) => {
            let ranges = find_cloze_ranges(c.as_str());
            if ranges.len() == 0 {
                return Err(CardError::MissingCloze);
            }
            let (start, end) = ranges[0];
            if end <= start || end - start <= 1 {
                return Err(CardError::MissingCloze);
            }
            Ok(
                Card {
                    file_path,
                    file_card_range: (file_start_idx, file_end_idx),
                    content: CardContent::Cloze { text: c, start, end },
                    card_hash,
                },
            )
        },
        _ => Err(CardError::Unrecognized),
    }
}

/// The digest of `content` as it stands, trimmed: no word is dropped and no letter
/// changed. Nothing for a blank text.
pub fn get_hash(content: &str) -> (r: Option<String>)
    ensures
        r is Some <==> spec_trim(content@).len() > 0,
        r matches Some(h) ==> h@ == blake3_hex(encode_utf8(spec_trim(content@))),
{
    match trim_line(content) {
        Some(trimmed) => Some(digest_hex(trimmed.as_str().as_bytes())),
        None => None,
    }
}

/// A stretch of a file that holds one card: its text, its first line and the line after
/// its last.
pub struct Block {
    pub text: Seq<char>,
    pub start: usize,
    pub end: usize,
}

/// The blocks that are complete, the text of the block under way and its first line.
pub struct BlockScan {
    pub blocks: Seq<Block>,
    pub buffer: Seq<char>,
    pub start: usize,
}

/// Whether a line opens a card: it starts with the marker of a question or of a cloze.
pub open spec fn opens_card(line: Seq<char>) -> bool {
    spec_starts_with(line, marker(Section::Question)) || spec_starts_with(
        line,
        marker(Section::Cloze),
    )
}

/// Line `idx` read. A line that opens a card ends the block under way, if it holds
/// anything, and starts a new one; every line joins the block under way, with a line feed
/// behind it.
pub open spec fn scan_line(scan: BlockScan, line: Seq<char>, idx: usize) -> BlockScan {
    if opens_card(line) {
        BlockScan {
            blocks: if scan.buffer.len() > 0 {
                scan.blocks.push(Block { text: scan.buffer, start: scan.start, end: idx })
            } else {
                scan.blocks
            },
            buffer: line.push('\n'),
            start: idx,
        }
    } else {
        BlockScan { blocks: scan.blocks, buffer: scan.buffer + line.push('\n'), start: scan.start }
    }
}

/// All of `lines` read in turn.
pub open spec fn scan_lines(lines: Seq<Seq<char>>) -> BlockScan
    decreases lines.len(),
{
    if lines.len() == 0 {
        BlockScan { blocks: Seq::empty(), buffer: Seq::empty(), start: 0 }
    } else {
        scan_line(scan_lines(lines.drop_last()), lines.last(), (lines.len() - 1) as usize)
    }
}

/// The blocks of a file with the lines `lines`: the last one reaches to the end.
pub open spec fn spec_blocks(lines: Seq<Seq<char>>) -> Seq<Block> {
    let scan = scan_lines(lines);
    if scan.buffer.len() > 0 {
        scan.blocks.push(Block { text: scan.buffer, start: scan.start, end: lines.len() as usize })
    } else {
        scan.blocks
    }
}

/// The cards of `blocks`, in order, or the error of the first block that is no card.
pub open spec fn cards_of_blocks(card_path: Seq<char>, blocks: Seq<Block>) -> Result<
    Seq<CardView>,
    CardError,
>
    decreases blocks.len(),
{
    if blocks.len() == 0 {
        Ok(Seq::empty())
    } else {
        match cards_of_blocks(card_path, blocks.drop_last()) {
            Err(e) => Err(e),
            Ok(cards) => match spec_content_to_card(
                card_path,
                blocks.last().text,
                blocks.last().start,
                blocks.last().end,
            ) {
                Ok(card) => Ok(cards.push(card)),
                Err(e) => Err(e),
            },
        }
    }
}

/// The cards of a file at `card_path` with the text `contents`.
pub open spec fn spec_cards_from_md(card_path: Seq<char>, contents: Seq<char>) -> Result<
    Seq<CardView>,
    CardError,
> {
    cards_of_blocks(card_path, spec_blocks(spec_lines(contents)))
}

/// Whether `r` is the outcome `expected`, card by view.
pub open spec fn is_cards_outcome(r: Result<Vec<Card>, CardError>, expected: Result<
    Seq<CardView>,
    CardError,
>) -> bool {
    match r {
        Ok(cards) => expected == Ok::<Seq<CardView>, CardError>(card_views(cards@)),
        Err(e) => expected == Err::<Seq<CardView>, CardError>(e),
    }
}

/// Once a block is no card, no further block changes the outcome.
pub proof fn lemma_first_error_stays(card_path: Seq<char>, blocks: Seq<Block>, k: int)
    requires
        0 <= k <= blocks.len(),
        cards_of_blocks(card_path, blocks.take(k)) is Err,
    ensures
        cards_of_blocks(card_path, blocks) == cards_of_blocks(card_path, blocks.take(k)),
    decreases blocks.len(),
{
    if k == blocks.len() {
        assert(blocks.take(k) == blocks);
    } else {
        assert(blocks.drop_last().take(k) == blocks.take(k));
        lemma_first_error_stays(card_path, blocks.drop_last(), k);
    }
}

/// The complete blocks of the first lines are the first of the blocks of all lines.
pub proof fn lemma_blocks_grow(lines: Seq<Seq<char>>, i: int)
    requires
        0 <= i <= lines.len(),
    ensures
        scan_lines(lines.take(i)).blocks.len() <= spec_blocks(lines).len(),
        spec_blocks(lines).take(scan_lines(lines.take(i)).blocks.len() as int) == scan_lines(
            lines.take(i),
        ).blocks,
    decreases lines.len() - i,
{
    let part = scan_lines(lines.take(i)).blocks;
    if i == lines.len() {
        assert(lines.take(i) == lines);
        assert(spec_blocks(lines).take(part.len() as int) =~= part);
    } else {
        lemma_blocks_grow(lines, i + 1);
        assert(lines.take(i + 1).drop_last() == lines.take(i));
        let more = scan_lines(lines.take(i + 1)).blocks;
        assert(more.take(part.len() as int) =~= part);
        assert(spec_blocks(lines).take(part.len() as int) =~= spec_blocks(lines).take(
            more.len() as int,
        ).take(part.len() as int));
    }
}

/// What one more block adds to the cards.
pub proof fn lemma_cards_of_blocks_push(card_path: Seq<char>, blocks: Seq<Block>, block: Block)
    ensures
        cards_of_blocks(card_path, blocks.push(block)) == match cards_of_blocks(card_path, blocks) {
            Err(e) => Err::<Seq<CardView>, CardError>(e),
            Ok(cards) => match spec_content_to_card(card_path, block.text, block.start, block.end) {
                Ok(card) => Ok(cards.push(card)),
                Err(e) => Err(e),
            },
        },
{
    assert(blocks.push(block).drop_last() == blocks);
}

/// Ends the block under way: its card joins `cards`, or its error is handed back.
fn close_block(card_path: &str, buffer: &Vec<char>, start: usize, end: usize, cards: &mut Vec<
    Card,
>, Ghost(blocks): Ghost<Seq<Block>>) -> (r: Result<(), CardError>)
    requires
        cards_of_blocks(card_path@, blocks) == Ok::<Seq<CardView>, CardError>(
            card_views(old(cards)@),
        ),
    ensures
        match r {
            Ok(_) => cards_of_blocks(
                card_path@,
                blocks.push(Block { text: buffer@, start, end }),
            ) == Ok::<Seq<CardView>, CardError>(card_views(final(cards)@)),
            Err(e) => cards_of_blocks(
                card_path@,
                blocks.push(Block { text: buffer@, start, end }),
            ) == Err::<Seq<CardView>, CardError>(e) && final(cards)@ == old(cards)@,
        },
{
    proof {
        lemma_cards_of_blocks_push(card_path@, blocks, Block { text: buffer@, start, end });
    }
    let text = string_of(buffer);
    match content_to_card(card_path, text.as_str(), start, end) {
        Ok(card) => {
            let ghost before = card_views(cards@);
            cards.push(card);
            assert(card_views(cards@) =~= before.push(card@));
            Ok(())
        },
        Err(e) => Err(e),
    }
}

/// The cards of the file at `path`, whose text is `contents`. A card starts at each line
/// that begins with `Q:` or `C:` and reaches to the line before the next such line, or to
/// the end of the file. The first stretch that is no card is an error, and then no card
/// is handed back.
pub fn cards_from_md(path: &str, contents: &str) -> (r: Result<Vec<Card>, CardError>)
    ensures
        is_cards_outcome(r, spec_cards_from_md(path@, contents@)),
{
    let lines = split_lines(&chars_of(contents));
    let ghost all = line_views(lines@);
    let mut cards: Vec<Card> = Vec::new();
    let mut buffer: Vec<char> = Vec::new();
    let mut start_idx: usize = 0;
    let mut idx: usize = 0;
    assert(all.take(0).len() == 0);
    assert(card_views(cards@) =~= Seq::<CardView>::empty());
    while idx < lines.len()
        invariant
            idx <= lines.len(),
            all == line_views(lines@),
            all == spec_lines(contents@),
            scan_lines(all.take(idx as int)).buffer == buffer@,
            scan_lines(all.take(idx as int)).start == start_idx,
            cards_of_blocks(path@, scan_lines(all.take(idx as int)).blocks) == Ok::<
                Seq<CardView>,
                CardError,
            >(card_views(cards@)),
        decreases lines.len() - idx,
    {
        let line = &lines[idx];
        let ghost before = scan_lines(all.take(idx as int));
        proof {
            assert(all.take(idx + 1).drop_last() == all.take(idx as int));
            assert(all.take(idx + 1).last() == line@);
        }
        if has_marker(line, 'Q', ':') || has_marker(line, 'C', ':') {
            if buffer.len() > 0 {
                match close_block(path, &buffer, start_idx, idx, &mut cards, Ghost(before.blocks)) {
                    Ok(_) => {},
                    Err(e) => {
                        proof {
                            let after = scan_lines(all.take(idx + 1)).blocks;
                            lemma_blocks_grow(all, idx + 1);
                            lemma_first_error_stays(path@, spec_blocks(all), after.len() as int);
                        }
                        return Err(e);
                    },
                }
                buffer = Vec::new();
            }
            start_idx = idx;
        }
        extend_chars(&mut buffer, line);
        buffer.push('\n');
        proof {
            assert(buffer@ =~= scan_lines(all.take(idx + 1)).buffer);
        }
        idx += 1;
    }
    assert(all.take(lines.len() as int) == all);
    if buffer.len() > 0 {
        match close_block(
            path,
            &buffer,
            start_idx,
            lines.len(),
            &mut cards,
            Ghost(scan_lines(all).blocks),
        ) {
            Ok(_) => {},
            Err(e) => {
                return Err(e);
            },
        }
    }
    Ok(cards)
}

/// The paths and texts of `files`, in order.
pub open spec fn file_views(files: Seq<(String, String)>) -> Seq<(Seq<char>, Seq<char>)> {
    Seq::new(files.len(), |i: int| (files[i].0@, files[i].1@))
}

/// The cards of `files`, each a path and the text of the file there, file after file; or
/// the error of the first stretch of a file that is no card.
pub open spec fn spec_cards_from_files(files: Seq<(Seq<char>, Seq<char>)>) -> Result<
    Seq<CardView>,
    CardError,
>
    decreases files.len(),
{
    if files.len() == 0 {
        Ok(Seq::empty())
    } else {
        match spec_cards_from_files(files.drop_last()) {
            Err(e) => Err(e),
            Ok(cards) => match spec_cards_from_md(files.last().0, files.last().1) {
                Ok(more) => Ok(cards + more),
                Err(e) => Err(e),
            },
        }
    }
}

/// Once a file fails, no further file changes the outcome.
pub proof fn lemma_first_failing_file_stays(files: Seq<(Seq<char>, Seq<char>)>, k: int)
    requires
        0 <= k <= files.len(),
        spec_cards_from_files(files.take(k)) is Err,
    ensures
        spec_cards_from_files(files) == spec_cards_from_files(files.take(k)),
    decreases files.len(),
{
    if k == files.len() {
        assert(files.take(k) == files);
    } else {
        assert(files.drop_last().take(k) == files.take(k));
        lemma_first_failing_file_stays(files.drop_last(), k);
    }
}

/// The cards of `files`, each a path and the text of the file there, in the order of the
/// files. The first stretch of a file that is no card is an error, and then no card is
/// handed back.
pub fn cards_from_files(files: &Vec<(String, String)>) -> (r: Result<Vec<Card>, CardError>)
    ensures
        is_cards_outcome(r, spec_cards_from_files(file_views(files@))),
{
    let ghost all = file_views(files@);
    let mut cards: Vec<Card> = Vec::new();
    let mut i: usize = 0;
    assert(all.take(0).len() == 0);
    assert(card_views(cards@) =~= Seq::<CardView>::empty());
    while i < files.len()
        invariant
            i <= files.len(),
            all == file_views(files@),
            spec_cards_from_files(all.take(i as int)) == Ok::<Seq<CardView>, CardError>(
                card_views(cards@),
            ),
        decreases files.len() - i,
    {
        proof {
            assert(all.take(i + 1).drop_last() == all.take(i as int));
            assert(all.take(i + 1).last() == (files[i as int].0@, files[i as int].1@));
        }
        match cards_from_md(files[i].0.as_str(), files[i].1.as_str()) {
            Ok(mut more) => {
                let ghost before = card_views(cards@);
                let ghost added = card_views(more@);
                cards.append(&mut more);
                assert(card_views(cards@) =~= before + added);
            },
            Err(e) => {
                proof {
                    lemma_first_failing_file_stays(all, i + 1);
                }
                return Err(e);
            },
        }
        i += 1;
    }
    assert(all.take(files.len() as int) == all);
    Ok(cards)
}

/// Whether a file name's extension marks a markdown file: it is `md`, in capitals or not.
pub open spec fn is_md(extension: Seq<char>) -> bool {
    extension.len() == 2 && (extension[0] == 'm' || extension[0] == 'M') && (extension[1] == 'd'
        || extension[1] == 'D')
}

/// Whether `extension` marks a markdown file.
pub fn is_markdown_extension(extension: Option<&str>) -> (r: bool)
    ensures
        r == (extension matches Some(e) && is_md(e@)),
{
    match extension {
        None => false,
        Some(e) => {
            let chars = chars_of(e);
            chars.len() == 2 && (chars[0] == 'm' || chars[0] == 'M') && (chars[1] == 'd'
                || chars[1] == 'D')
        },
    }
}

/// Whether `path` holds a dot with `extension` directly behind it.
pub open spec fn holds_extension(path: Seq<char>, extension: Seq<char>) -> bool {
    exists|at: int|
        0 <= at && at + 1 + extension.len() <= path.len() && path[at] == '.' && #[trigger] path.subrange(
            at + 1,
            at + 1 + extension.len(),
        ) == extension
}

/// Whether `path` holds a dot with `md` directly behind it, in capitals or not.
pub open spec fn holds_md(path: Seq<char>) -> bool {
    exists|at: int|
        0 <= at && at + 2 < path.len() && #[trigger] path[at] == '.' && (path[at + 1] == 'm'
            || path[at + 1] == 'M') && (path[at + 2] == 'd' || path[at + 2] == 'D')
}

/// `Path::extension` gives what follows the last dot of the path's file name, if that
/// name has a dot elsewhere than at its start. The file name is a part of the path, so
/// the path holds that dot with the extension directly behind it. Which part of the path
/// is the file name depends on the platform's separators, so no more is stated.
#[verifier::external_body]
fn path_extension(path: &str) -> (extension: Option<String>)
    ensures
        extension matches Some(e) ==> holds_extension(path@, e@),
{
    match std::path::Path::new(path).extension() {
        Some(ext) => Some(ext.to_string_lossy().into_owned()),
        None => None,
    }
}

/// Whether `path` names a markdown file: its extension, as the platform reads paths, is
/// `md`, in capitals or not. Such a path holds a dot with `md` directly behind it; which
/// of the paths that do name a markdown file, the platform decides.
pub fn is_markdown(path: &str) -> (r: bool)
    ensures
        r ==> holds_md(path@),
{
    match path_extension(path) {
        Some(ext) => {
            let r = is_markdown_extension(Some(ext.as_str()));
            proof {
                if r {
                    let at = choose|at: int|
                        0 <= at && at + 1 + ext@.len() <= path@.len() && path@[at] == '.'
                            && #[trigger] path@.subrange(at + 1, at + 1 + ext@.len()) == ext@;
                    let part = path@.subrange(at + 1, at + 3);
                    assert(part[0] == path@[at + 1]);
                    assert(part[1] == path@[at + 2]);
                    assert(path@[at] == '.');
                }
            }
            r
        },
        None => is_markdown_extension(None),
    }
}

/// Why a path cannot hold cards.
#[derive(Clone, Copy, Debug, PartialEq, Eq, Structural)]
pub enum PathError {
    /// The path is blank.
    Empty,
    /// The path names a directory.
    Directory,
    /// The path does not name a markdown file.
    NotMarkdown,
}

impl PathError {
    /// What went wrong, in words.
    pub fn message(&self) -> (text: &'static str)
        ensures
            text@ == (match *self {
                PathError::Empty => "Card path cannot be empty"@,
                PathError::Directory => "Card path cannot be a directory"@,
                PathError::NotMarkdown => "Card path must be a markdown file"@,
            }),
    {
        match self {
            PathError::Empty => "Card path cannot be empty",
            PathError::Directory => "Card path cannot be a directory",
            PathError::NotMarkdown => "Card path must be a markdown file",
        }
    }
}

/// What `validate_file_can_be_card` answers once it is known whether the trimmed path
/// names a markdown file.
pub open spec fn spec_validate(path: Seq<char>, is_dir: bool, markdown: bool) -> Result<
    Seq<char>,
    PathError,
> {
    if spec_trim(path).len() == 0 {
        Err(PathError::Empty)
    } else if is_dir {
        Err(PathError::Directory)
    } else if !markdown {
        Err(PathError::NotMarkdown)
    } else {
        Ok(spec_trim(path))
    }
}

/// The path of a file that can hold cards: `path` without the whitespace around it. A
/// blank path is refused, then one that names a directory, which `is_dir` says of the
/// trimmed path, then one that does not name a markdown file.
pub fn validate_file_can_be_card(path: String, is_dir: bool) -> (r: Result<String, PathError>)
    ensures
        exists|markdown: bool|
            match r {
                Ok(p) => #[trigger] spec_validate(path@, is_dir, markdown) == Ok::<
                    Seq<char>,
                    PathError,
                >(p@),
                Err(e) => spec_validate(path@, is_dir, markdown) == Err::<Seq<char>, PathError>(e),
            },
{
    let card_path = match trim_line(path.as_str()) {
        Some(p) => p,
        None => {
            assert(spec_validate(path@, is_dir, true) == Err::<Seq<char>, PathError>(
                PathError::Empty,
            ));
            return Err(PathError::Empty);
        },
    };
    if is_dir {
        assert(spec_validate(path@, is_dir, true) == Err::<Seq<char>, PathError>(
            PathError::Directory,
        ));
        return Err(PathError::Directory);
    }
    let markdown = is_markdown(card_path.as_str());
    if !markdown {
        assert(spec_validate(path@, is_dir, false) == Err::<Seq<char>, PathError>(
            PathError::NotMarkdown,
        ));
        return Err(PathError::NotMarkdown);
    }
    assert(spec_validate(path@, is_dir, true) == Ok::<Seq<char>, PathError>(card_path@));
    Ok(card_path)
}

/// The files of `files` that `keep` marks, in order.
pub open spec fn chosen(files: Seq<(Seq<char>, Seq<char>)>, keep: Seq<bool>) -> Seq<
    (Seq<char>, Seq<char>),
>
    recommends
        keep.len() == files.len(),
    decreases files.len(),
{
    if files.len() == 0 || keep.len() != files.len() {
        Seq::empty()
    } else if keep.last() {
        chosen(files.drop_last(), keep.drop_last()).push(files.last())
    } else {
        chosen(files.drop_last(), keep.drop_last())
    }
}

/// The cards of the markdown files among `files`, each a path and the text of the file
/// there, in the order of the files: the cards of some of the files, which ones the
/// platform's reading of their paths decides.
pub fn cards_from_dir(files: &Vec<(String, String)>) -> (r: Result<Vec<Card>, CardError>)
    ensures
        exists|keep: Seq<bool>|
            keep.len() == files.len() && is_cards_outcome(
                r,
                spec_cards_from_files(#[trigger] chosen(file_views(files@), keep)),
            ),
{
    let ghost all = file_views(files@);
    let mut kept: Vec<(String, String)> = Vec::new();
    let ghost mut keep: Seq<bool> = Seq::empty();
    let mut i: usize = 0;
    assert(file_views(kept@) =~= chosen(all.take(0), keep));
    while i < files.len()
        invariant
            i <= files.len(),
            all == file_views(files@),
            keep.len() == i,
            file_views(kept@) == chosen(all.take(i as int), keep),
        decreases files.len() - i,
    {
        let ghost before = file_views(kept@);
        let markdown = is_markdown(files[i].0.as_str());
        if markdown {
            kept.push((files[i].0.clone(), files[i].1.clone()));
        }
        proof {
            let more = keep.push(markdown);
            assert(all.take(i + 1).drop_last() == all.take(i as int));
            assert(more.drop_last() == keep);
            assert(all.take(i + 1).last() == (files[i as int].0@, files[i as int].1@));
            if markdown {
                assert(file_views(kept@) =~= before.push((files[i as int].0@, files[i as int].1@)));
            }
            keep = more;
        }
        i += 1;
    }
    assert(all.take(files.len() as int) == all);
    cards_from_files(&kept)
}

} // verus!
