//! Writing new cards: the editor's state and what is added to a file of cards.

use crate::text::{
    chars_of, chars_eq_str, extend_chars, skip_trailing, slice_chars, spec_skip_trailing,
    spec_to_lowercase, spec_trim, string_of, to_lowercase, trim_chars,
};
use vstd::prelude::*;

verus! {

/// Whether an answer to a yes-or-no question says yes: trimmed and in lowercase it is `y`
/// or `yes`.
pub open spec fn spec_is_yes(answer: Seq<char>) -> bool {
    spec_to_lowercase(spec_trim(answer)) == "y"@ || spec_to_lowercase(spec_trim(answer)) == "yes"@
}

/// Whether `answer` says yes.
pub fn is_yes(answer: &str) -> (r: bool)
    ensures
        r == spec_is_yes(answer@),
{
    let trimmed = string_of(&trim_chars(&chars_of(answer)));
    let lowered = chars_of(to_lowercase(trimmed.as_str()).as_str());
    chars_eq_str(&lowered, "y") || chars_eq_str(&lowered, "yes")
}

/// What is written to a file of cards to add `contents`: `contents` without the line
/// feeds at its end and with one line feed instead, after a blank line where the file
/// holds something. Nothing where `contents` is nothing but line feeds.
pub open spec fn spec_text_to_append(contents: Seq<char>, has_existing_content: bool) -> Option<
    Seq<char>,
> {
    let trimmed = spec_skip_trailing(contents, '\n');
    if trimmed.len() == 0 {
        None
    } else if has_existing_content {
        Some(seq!['\n'] + trimmed + seq!['\n'])
    } else {
        Some(trimmed + seq!['\n'])
    }
}

/// What is to be written at the end of a file of cards to add `contents`.
pub fn text_to_append(contents: &str, has_existing_content: bool) -> (r: Option<String>)
    ensures
        r is Some <==> spec_text_to_append(contents@, has_existing_content) is Some,
        r matches Some(text) ==> text@ == spec_text_to_append(contents@, has_existing_content)->0,
{
    let chars = chars_of(contents);
    let hi = skip_trailing(&chars, 0, chars.len(), '\n');
    assert(chars@.subrange(0, chars.len() as int) == chars@);
    if hi == 0 {
        return None;
    }
    let mut out: Vec<char> = Vec::new();
    if has_existing_content {
        out.push('\n');
    }
    extend_chars(&mut out, &slice_chars(&chars, 0, hi));
    out.push('\n');
    assert(out@ =~= spec_text_to_append(contents@, has_existing_content)->0);
    Some(string_of(&out))
}

/// A key as the editor tells keys apart.
#[derive(Clone, Copy, Debug, PartialEq, Eq, Structural)]
pub enum EditorKey {
    Escape,
    Enter,
    Tab,
    Backspace,
    /// A character, and whether the control key was held.
    Char(char, bool),
    Other,
}

/// What the editor last did with a card.
#[derive(Clone, Copy, Debug, PartialEq, Eq, Structural)]
pub enum EditorStatus {
    /// The text was blank and was not saved.
    NotSaved,
    /// The text was handed out to be saved.
    Saved,
}

impl EditorStatus {
    /// The status in words.
    pub fn message(&self) -> (text: &'static str)
        ensures
            text@ == (match *self {
                EditorStatus::NotSaved => "Card not saved (empty)."@,
                EditorStatus::Saved => "Card saved."@,
            }),
    {
        match self {
            EditorStatus::NotSaved => "Card not saved (empty).",
            EditorStatus::Saved => "Card saved.",
        }
    }
}

/// What is to be done after a key.
#[derive(Debug)]
pub enum EditorAction {
    /// Leave the editor.
    Quit,
    /// Add this text to the file, then go on.
    Save(String),
    /// Go on.
    Continue,
}

/// The mathematical value of an `EditorAction`.
pub enum ActionView {
    Quit,
    Save(Seq<char>),
    Continue,
}

impl View for EditorAction {
    type V = ActionView;

    open spec fn view(&self) -> ActionView {
        match *self {
            EditorAction::Quit => ActionView::Quit,
            EditorAction::Save(text) => ActionView::Save(text@),
            EditorAction::Continue => ActionView::Continue,
        }
    }
}

/// The text that is being written, and what was last done with a card.
pub struct Editor {
    input: Vec<char>,
    status: Option<EditorStatus>,
}

/// The mathematical value of an `Editor`.
pub struct EditorView {
    pub input: Seq<char>,
    pub status: Option<EditorStatus>,
}

impl View for Editor {
    type V = EditorView;

    closed spec fn view(&self) -> EditorView {
        EditorView { input: self.input@, status: self.status }
    }
}

/// The editor after a key. Control-s ends the card: its text is cleared and, unless it is
/// blank, is to be saved. Enter and tab write a line feed and a tab, any character
/// without control writes itself, and backspace takes the last character away. Escape,
/// control-c and all other keys leave the editor as it is.
pub open spec fn spec_after_key(editor: EditorView, key: EditorKey) -> EditorView {
    match key {
        EditorKey::Char(c, control) => if control {
            if c == 's' {
                EditorView {
                    input: Seq::empty(),
                    status: Some(
                        if spec_trim(editor.input).len() == 0 {
                            EditorStatus::NotSaved
                        } else {
                            EditorStatus::Saved
                        },
                    ),
                }
            } else {
                editor
            }
        } else {
            EditorView { input: editor.input.push(c), ..editor }
        },
        EditorKey::Enter => EditorView { input: editor.input.push('\n'), ..editor },
        EditorKey::Tab => EditorView { input: editor.input.push('\t'), ..editor },
        EditorKey::Backspace => if editor.input.len() > 0 {
            EditorView { input: editor.input.drop_last(), ..editor }
        } else {
            editor
        },
        EditorKey::Escape => editor,
        EditorKey::Other => editor,
    }
}

/// What is to be done after a key: escape and control-c leave the editor, control-s on a
/// text that is not blank saves it, and after any other key the editor goes on.
pub open spec fn spec_action_for(editor: EditorView, key: EditorKey) -> ActionView {
    match key {
        EditorKey::Escape => ActionView::Quit,
        EditorKey::Char(c, control) => if control && c == 'c' {
            ActionView::Quit
        } else if control && c == 's' && spec_trim(editor.input).len() > 0 {
            ActionView::Save(editor.input)
        } else {
            ActionView::Continue
        },
        _ => ActionView::Continue,
    }
}

/// The number of line feeds in `text`.
pub open spec fn line_feeds(text: Seq<char>) -> nat
    decreases text.len(),
{
    if text.len() == 0 {
        0
    } else {
        line_feeds(text.drop_last()) + if text.last() == '\n' {
            1nat
        } else {
            0nat
        }
    }
}

/// The number of characters of `text` behind its last line feed.
pub open spec fn last_line_len(text: Seq<char>) -> nat
    decreases text.len(),
{
    if text.len() == 0 || text.last() == '\n' {
        0
    } else {
        last_line_len(text.drop_last()) + 1
    }
}

/// A place in a frame: `offset` cells from `origin`, within a border of one cell on each
/// side of a frame of `extent` cells, and no further than a `u16` reaches.
pub open spec fn place(origin: u16, extent: u16, offset: nat) -> int {
    let room: int = if extent >= 2 {
        extent - 2
    } else {
        0
    };
    let within: int = if (offset % 65536) < room {
        (offset % 65536) as int
    } else {
        room
    };
    if origin + 1 + within > u16::MAX {
        u16::MAX as int
    } else {
        origin + 1 + within
    }
}

fn place_in(origin: u16, extent: u16, offset: usize) -> (r: u16)
    ensures
        r == place(origin, extent, offset as nat),
{
    let room: u16 = if extent >= 2 {
        extent - 2
    } else {
        0
    };
    let wrapped: usize = offset % 65536;
    let within: u16 = if wrapped < room as usize {
        wrapped as u16
    } else {
        room
    };
    let sum: u32 = origin as u32 + 1 + within as u32;
    if sum > 65535 {
        65535
    } else {
        sum as u16
    }
}

impl Editor {
    /// An editor without text.
    pub fn new() -> (editor: Editor)
        ensures
            editor@ == (EditorView { input: Seq::empty(), status: None }),
    {
        Editor { input: Vec::new(), status: None }
    }

    /// The text that is being written.
    pub fn input(&self) -> (text: String)
        ensures
            text@ == self@.input,
    {
        string_of(&self.input)
    }

    /// What was last done with a card.
    pub fn status(&self) -> (status: Option<EditorStatus>)
        ensures
            status == self@.status,
    {
        self.status
    }

    /// Takes a key: the editor changes as `spec_after_key` says, and what is to be done
    /// next is handed back.
    pub fn handle_key(&mut self, key: EditorKey) -> (action: EditorAction)
        ensures
            final(self)@ == spec_after_key(old(self)@, key),
            action@ == spec_action_for(old(self)@, key),
    {
        match key {
            EditorKey::Escape => EditorAction::Quit,
            EditorKey::Char(c, control) => {
                if control {
                    if c == 'c' {
                        EditorAction::Quit
                    } else if c == 's' {
                        if trim_chars(&self.input).len() == 0 {
                            self.status = Some(EditorStatus::NotSaved);
                            self.input.clear();
                            EditorAction::Continue
                        } else {
                            let text = string_of(&self.input);
                            self.status = Some(EditorStatus::Saved);
                            self.input.clear();
                            EditorAction::Save(text)
                        }
                    } else {
                        EditorAction::Continue
                    }
                } else {
                    self.input.push(c);
                    EditorAction::Continue
                }
            },
            EditorKey::Enter => {
                self.input.push('\n');
                EditorAction::Continue
            },
            EditorKey::Tab => {
                self.input.push('\t');
                EditorAction::Continue
            },
            EditorKey::Backspace => {
                if self.input.len() > 0 {
                    self.input.pop();
                }
                EditorAction::Continue
            },
            EditorKey::Other => EditorAction::Continue,
        }
    }

    /// Where the cursor stands in a frame at column `x` and row `y` that is `width` cells
    /// wide and `height` cells high: behind the last character of the last line of the
    /// text, as far as the frame has room.
    pub fn cursor_position(&self, x: u16, y: u16, width: u16, height: u16) -> (at: (u16, u16))
        ensures
            at.0 == place(x, width, last_line_len(self@.input)),
            at.1 == place(y, height, line_feeds(self@.input)),
    {
        let mut lines: usize = 0;
        let mut column: usize = 0;
        let mut i: usize = 0;
        assert(self.input@.take(0).len() == 0);
        while i < self.input.len()
            invariant
                i <= self.input.len(),
                lines == line_feeds(self.input@.take(i as int)),
                column == last_line_len(self.input@.take(i as int)),
                lines <= i,
                column <= i,
            decreases self.input.len() - i,
        {
            assert(self.input@.take(i + 1).drop_last() == self.input@.take(i as int));
            if self.input[i] == '\n' {
                lines += 1;
                column = 0;
            } else {
                column += 1;
            }
            i += 1;
        }
        assert(self.input@.take(self.input.len() as int) == self.input@);
        (place_in(x, width, column), place_in(y, height, lines))
    }
}

} // verus!
