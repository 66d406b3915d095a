//! The caret: where a click, a motion or an edit leaves it, and what an edit
//! does to the buffer it is in.
//!
//! The buffer itself lives with the document store; an edit is described here
//! and performed there.

use crate::diff::{Blob, Row};
use crate::review_doc::{Caret, ReviewDoc, Tab};
use crate::text::same;
use crate::widgets::find::{replaced_ranges, replacements, seek, seek_target};
use crate::widgets::folding::{row_at, row_of};
use crate::widgets::review_list::ReviewList;
use vstd::prelude::*;
use vstd::utf8::{encode_utf8, is_char_boundary};

verus! {

/// One press of Tab. Spaces, not a tab character: the row renderer lays text
/// out by the font and has no tab stops to align one to.
pub open spec fn indent() -> Seq<char> {
    "    "@
}

/// The keys that the review list claims for the caret.
#[derive(Clone, Copy, Debug, PartialEq, Eq, Structural)]
pub enum KeyCode {
    Up,
    Down,
    Left,
    Right,
    Home,
    End,
    Return,
    Tab,
    Backspace,
    Delete,
    Escape,
    F,
    S,
    Z,
    Other,
}

/// A key press with its modifiers.
#[derive(Clone, Copy, Debug, PartialEq, Eq, Structural)]
pub struct KeyPress {
    pub code: KeyCode,
    pub shift: bool,
    pub logo: bool,
    pub control: bool,
}

impl KeyPress {
    /// Whether the platform's command modifier is held.
    pub open spec fn command(self) -> bool {
        self.logo || self.control
    }
}

// ---------------------------------------------------------------------------
// Character boundaries
// ---------------------------------------------------------------------------

/// Whether `r` is the first character boundary after `at`, if there is one.
pub open spec fn is_next(bytes: Seq<u8>, at: int, r: Option<int>) -> bool {
    match r {
        Some(i) => {
            &&& at < i <= bytes.len()
            &&& is_char_boundary(bytes, i)
            &&& forall|k: int| at < k < i ==> !#[trigger] is_char_boundary(bytes, k)
        },
        None => forall|k: int| at < k <= bytes.len() ==> !#[trigger] is_char_boundary(bytes, k),
    }
}

/// Whether `r` is the last character boundary before `at`, if there is one.
pub open spec fn is_previous(bytes: Seq<u8>, at: int, r: Option<int>) -> bool {
    match r {
        Some(i) => {
            &&& 0 <= i < at
            &&& is_char_boundary(bytes, i)
            &&& forall|k: int| i < k < at ==> !#[trigger] is_char_boundary(bytes, k)
        },
        None => forall|k: int| 0 <= k < at ==> !#[trigger] is_char_boundary(bytes, k),
    }
}

/// A spec number for an optional offset.
pub open spec fn offset(r: Option<usize>) -> Option<int> {
    match r {
        Some(i) => Some(i as int),
        None => None,
    }
}

/// The first character boundary after `at`.
pub fn next_boundary(text: &str, at: usize) -> (r: Option<usize>)
    ensures
        is_next(encode_utf8(text@), at as int, offset(r)),
{
    let len: usize = text.as_bytes().len();
    let mut i: usize = at;
    while i < len
        invariant
            at <= i,
            len == encode_utf8(text@).len(),
            forall|k: int|
                at < k <= i && k <= len ==> !#[trigger] is_char_boundary(encode_utf8(text@), k),
        decreases len - i,
    {
        i += 1;
        if text.is_char_boundary(i) {
            return Some(i);
        }
    }
    None
}

/// The last character boundary before `at`.
pub fn previous_boundary(text: &str, at: usize) -> (r: Option<usize>)
    ensures
        is_previous(encode_utf8(text@), at as int, offset(r)),
{
    let mut i: usize = at;
    while i > 0
        invariant
            i <= at,
            forall|k: int| i <= k < at ==> !#[trigger] is_char_boundary(encode_utf8(text@), k),
        decreases i,
    {
        i -= 1;
        if text.is_char_boundary(i) {
            return Some(i);
        }
    }
    None
}

/// Left of the first character there is nothing, and everywhere else there is
/// a character to step over.
pub proof fn only_the_front_has_no_previous(text: Seq<char>, at: int)
    requires
        0 <= at,
        is_previous(encode_utf8(text), at, None),
    ensures
        at == 0,
{
    vstd::utf8::encode_utf8_valid_utf8(text);
    vstd::utf8::is_char_boundary_start_end_of_seq(encode_utf8(text));
}

/// Right of the last character there is nothing, and everywhere else there is
/// a character to step over.
pub proof fn only_the_end_has_no_next(text: Seq<char>, at: int)
    requires
        is_next(encode_utf8(text), at, None),
    ensures
        at >= encode_utf8(text).len(),
{
    vstd::utf8::encode_utf8_valid_utf8(text);
    vstd::utf8::is_char_boundary_start_end_of_seq(encode_utf8(text));
}

// ---------------------------------------------------------------------------
// The caret in a document
// ---------------------------------------------------------------------------

/// Whether a place names a line that the document has, one that a caret's
/// offset can span.
pub open spec fn line_exists(doc: &ReviewDoc, blob: u32, line: u32) -> bool {
    &&& blob < doc.blobs@.len()
    &&& line < doc.blobs@[blob as int].lines@.len()
    &&& encode_utf8(doc.blobs@[blob as int].lines@[line as int]@).len() <= u32::MAX
}

/// The bytes of a line.
pub open spec fn line_bytes(doc: &ReviewDoc, blob: u32, line: u32) -> Seq<u8> {
    encode_utf8(doc.blobs@[blob as int].lines@[line as int]@)
}

/// Whether the caret, if there is one, is on a line that the document has.
pub open spec fn caret_exists(doc: &ReviewDoc) -> bool {
    doc.caret matches Some(c) ==> line_exists(doc, c.blob, c.line)
}

/// Whether every code row of a stream is a line that the document has.
pub open spec fn stream_exists(doc: &ReviewDoc, tab: Tab) -> bool {
    forall|r: int|
        0 <= r < doc.rows(tab).len() ==> (#[trigger] doc.rows(tab)[r] matches Row::Code {
            blob,
            line,
            ..
        } ==> line_exists(doc, blob, line))
}

/// A document with another caret and selection anchor, and all else as it was.
pub open spec fn only_caret_moved(before: ReviewDoc, after: ReviewDoc) -> bool {
    after == (ReviewDoc {
        caret: after.caret,
        selection_anchor: after.selection_anchor,
        ..before
    })
}

/// Where a position on a row lands, the byte held to the end of the line; a row
/// that is no code lands nowhere. A list reports one space for an empty line,
/// and a position must not follow it past the end of text that is not there.
pub open spec fn landing(doc: &ReviewDoc, tab: Tab, row: Option<usize>, byte: int) -> Option<Caret> {
    match row {
        Some(r) => if r < doc.rows(tab).len() {
            match doc.rows(tab)[r as int] {
                Row::Code { blob, line, .. } => {
                    let len = line_bytes(doc, blob, line).len();
                    Some(
                        Caret {
                            blob,
                            line,
                            byte: if byte < len {
                                byte as u32
                            } else {
                                len as u32
                            },
                        },
                    )
                },
                _ => None,
            }
        } else {
            None
        },
        None => None,
    }
}

/// Where a position on a row lands.
pub fn land_on(doc: &ReviewDoc, tab: Tab, row: Option<usize>, byte: usize) -> (caret: Option<
    Caret,
>)
    requires
        stream_exists(doc, tab),
    ensures
        caret == landing(doc, tab, row, byte as int),
{
    match row {
        Some(r) => match doc.row(tab, r) {
            Some(Row::Code { blob, line, .. }) => {
                let text = doc.blobs[*blob as usize].lines[*line as usize].as_str();
                let len: usize = text.as_bytes().len();
                let at: usize = if byte < len {
                    byte
                } else {
                    len
                };
                Some(Caret { blob: *blob, line: *line, byte: at as u32 })
            },
            _ => None,
        },
        None => None,
    }
}

/// Steps the caret onto a code row, keeping its column where the new line is
/// long enough. The row is the one above or below in the stream: a diff
/// interleaves two blobs' lines and puts prose between them, so that is a
/// property of the stream and not of the file.
pub fn step_caret(doc: &mut ReviewDoc, tab: Tab, caret: Caret, landed: Option<usize>) -> (took:
    bool)
    requires
        stream_exists(old(doc), tab),
    ensures
        took == (landing(old(doc), tab, landed, caret.byte as int) is Some),
        *final(doc) == (ReviewDoc {
            caret: (if took {
                landing(old(doc), tab, landed, caret.byte as int)
            } else {
                old(doc).caret
            }),
            ..*old(doc)
        }),
{
    match land_on(doc, tab, landed, caret.byte as usize) {
        Some(moved) => {
            doc.caret = Some(moved);
            true
        },
        None => false,
    }
}

/// Moves the caret to wherever the list's pointer gesture landed. A click (an
/// empty range) places the caret; a drag keeps both ends, the caret at the
/// moving one and the anchor at the fixed one. Says whether the list takes the
/// keyboard.
pub fn adopt_list_selection(
    list: &ReviewList,
    doc: &mut ReviewDoc,
    tab: Tab,
    start: (usize, usize),
    end: (usize, usize),
) -> (focus: bool)
    requires
        stream_exists(old(doc), tab),
    ensures
        ({
            let head = landing(old(doc), tab, row_of(list.visible@, end.0 as int), end.1 as int);
            let tail = if start == end {
                None
            } else {
                landing(old(doc), tab, row_of(list.visible@, start.0 as int), start.1 as int)
            };
            &&& focus == (head is Some)
            &&& *final(doc) == (ReviewDoc {
                caret: head,
                selection_anchor: tail,
                tab: if head is Some {
                    tab
                } else {
                    old(doc).tab
                },
                ..*old(doc)
            })
        }),
{
    let head = land_on(doc, tab, row_at(&list.visible, end.0), end.1);
    let tail = if start.0 == end.0 && start.1 == end.1 {
        None
    } else {
        land_on(doc, tab, row_at(&list.visible, start.0), start.1)
    };
    let focus = head.is_some();
    if focus {
        doc.tab = tab;
    }
    doc.selection_anchor = tail;
    doc.caret = head;
    focus
}

/// Whether a list is the one a keystroke should reach. Key focus alone cannot
/// decide it, because several lists answer for the same area: the caret
/// belongs to a stream, and the document names the stream that the current
/// gesture owns. A list that never drew holds no area and claims nothing.
pub fn caret_focused(list: &ReviewList, doc: &ReviewDoc, drawn: bool, key_focus: bool) -> (r: bool)
    ensures
        r == (drawn && key_focus && doc.caret is Some && list.drawn_tab == Some(doc.tab)),
{
    match list.drawn_tab {
        Some(tab) => drawn && key_focus && doc.caret.is_some() && doc.tab == tab,
        None => false,
    }
}

// ---------------------------------------------------------------------------
// Motions
// ---------------------------------------------------------------------------

/// What stays fixed while a motion extends a selection: with shift the anchor
/// there is, or the place the caret leaves; without it nothing.
pub open spec fn extended_anchor(
    anchor: Option<Caret>,
    caret: Caret,
    shift: bool,
) -> Option<Caret> {
    if !shift {
        None
    } else if anchor is Some {
        anchor
    } else {
        Some(caret)
    }
}

/// Whether a motion key takes the caret from `caret` to `to`; `None` is a key
/// that moves nothing. Off the front of a line it goes on to the row above, off
/// its end to the row below.
pub open spec fn moves_to(
    doc: &ReviewDoc,
    tab: Tab,
    caret: Caret,
    code: KeyCode,
    above: Option<usize>,
    below: Option<usize>,
    to: Option<Caret>,
) -> bool {
    let bytes = line_bytes(doc, caret.blob, caret.line);
    let up = landing(doc, tab, above, caret.byte as int);
    let down = landing(doc, tab, below, caret.byte as int);
    match code {
        KeyCode::Up => to == up,
        KeyCode::Down => to == down,
        KeyCode::Home => to == Some(Caret { byte: 0, ..caret }),
        KeyCode::End => to == Some(Caret { byte: bytes.len() as u32, ..caret }),
        KeyCode::Left => if caret.byte == 0 {
            to == up
        } else {
            to matches Some(c) && c == (Caret { byte: c.byte, ..caret }) && is_previous(
                bytes,
                caret.byte as int,
                Some(c.byte as int),
            )
        },
        KeyCode::Right => if caret.byte >= bytes.len() {
            to == down
        } else {
            to matches Some(c) && c == (Caret { byte: c.byte, ..caret }) && is_next(
                bytes,
                caret.byte as int,
                Some(c.byte as int),
            )
        },
        _ => to is None,
    }
}

/// Arrow keys, Home and End. Says whether the caret took the key. `above` and
/// `below` are the code rows that a step up or down lands on.
///
/// The anchor is settled before the motion and by one rule for every key, so a
/// key that is no motion settles it too.
pub fn caret_keys(
    doc: &mut ReviewDoc,
    tab: Tab,
    press: KeyPress,
    above: Option<usize>,
    below: Option<usize>,
) -> (took: bool)
    requires
        caret_exists(old(doc)),
        stream_exists(old(doc), tab),
    ensures
        only_caret_moved(*old(doc), *final(doc)),
        (match old(doc).caret {
            None => !took && *final(doc) == *old(doc),
            Some(caret) => {
                &&& final(doc).selection_anchor == extended_anchor(
                    old(doc).selection_anchor,
                    caret,
                    press.shift,
                )
                &&& if took {
                    final(doc).caret is Some && moves_to(
                        old(doc),
                        tab,
                        caret,
                        press.code,
                        above,
                        below,
                        final(doc).caret,
                    )
                } else {
                    final(doc).caret == old(doc).caret && moves_to(
                        old(doc),
                        tab,
                        caret,
                        press.code,
                        above,
                        below,
                        None,
                    )
                }
            },
        }),
{
    let caret = match doc.caret {
        Some(caret) => caret,
        None => {
            return false;
        },
    };
    let anchor: Option<Caret> = if press.shift {
        match doc.selection_anchor {
            Some(anchor) => Some(anchor),
            None => Some(caret),
        }
    } else {
        None
    };
    let text = doc.blobs[caret.blob as usize].lines[caret.line as usize].as_str();
    let len: usize = text.as_bytes().len();
    let at: usize = caret.byte as usize;
    let ghost bytes = encode_utf8(text@);
    let moved: Option<Caret> = match press.code {
        KeyCode::Up => land_on(doc, tab, above, at),
        KeyCode::Down => land_on(doc, tab, below, at),
        KeyCode::Home => Some(Caret { blob: caret.blob, line: caret.line, byte: 0 }),
        KeyCode::End => Some(Caret { blob: caret.blob, line: caret.line, byte: len as u32 }),
        KeyCode::Left => match previous_boundary(text, at) {
            Some(i) => Some(Caret { blob: caret.blob, line: caret.line, byte: i as u32 }),
            None => {
                proof {
                    only_the_front_has_no_previous(text@, at as int);
                }
                land_on(doc, tab, above, at)
            },
        },
        KeyCode::Right => match next_boundary(text, at) {
            Some(i) => Some(Caret { blob: caret.blob, line: caret.line, byte: i as u32 }),
            None => {
                proof {
                    only_the_end_has_no_next(text@, at as int);
                }
                land_on(doc, tab, below, at)
            },
        },
        _ => None,
    };
    doc.selection_anchor = anchor;
    match moved {
        Some(caret) => {
            doc.caret = Some(caret);
            true
        },
        None => false,
    }
}

// ---------------------------------------------------------------------------
// Edits
// ---------------------------------------------------------------------------

/// What an editing key asks of the buffer.
#[derive(Debug)]
pub enum Edit {
    /// Type this text at the caret, after taking `back` characters out.
    Type { text: String, back: usize },
    /// Take out the character in front of the caret.
    DeleteForward,
    /// Undo the last change, or redo it.
    Undo { redo: bool },
    /// Write the buffer back to its file.
    Save,
}

/// How many spaces and tabs a line begins with, among its first `end` bytes.
pub open spec fn blank_run(bytes: Seq<u8>, end: int) -> int
    decreases end,
{
    if end <= 0 || end > bytes.len() {
        0
    } else {
        let before = blank_run(bytes, end - 1);
        if before == end - 1 && (bytes[end - 1] == 32 || bytes[end - 1] == 9) {
            end
        } else {
            before
        }
    }
}

/// The indentation that a new line takes over: the white space that its line
/// begins with, up to the caret.
pub open spec fn indentation(bytes: Seq<u8>, at: int) -> Seq<char> {
    Seq::new(
        blank_run(
            bytes,
            if at < bytes.len() {
                at
            } else {
                bytes.len() as int
            },
        ) as nat,
        |i: int| bytes[i] as char,
    )
}

/// What an editing key asks for; `None` is a key that edits nothing.
pub open spec fn edit_of(doc: &ReviewDoc, press: KeyPress) -> Option<(Seq<char>, usize)> {
    match press.code {
        KeyCode::Return => Some(
            (
                "\n"@ + (match doc.caret {
                    Some(c) => indentation(line_bytes(doc, c.blob, c.line), c.byte as int),
                    None => Seq::empty(),
                }),
                0,
            ),
        ),
        KeyCode::Tab => Some((indent(), 0)),
        KeyCode::Backspace => Some((""@, 1)),
        _ => None,
    }
}

fn indentation_of(text: &str, at: usize) -> (s: String)
    ensures
        s@ == indentation(encode_utf8(text@), at as int),
{
    let bytes = text.as_bytes();
    let end: usize = if at < bytes.len() {
        at
    } else {
        bytes.len()
    };
    let mut s = String::new();
    let mut n: usize = 0;
    let mut open = true;
    while n < end
        invariant
            n <= end <= bytes@.len(),
            end <= bytes.len(),
            bytes@ == encode_utf8(text@),
            open == (blank_run(bytes@, n as int) == n),
            0 <= blank_run(bytes@, n as int) <= n,
            s@ =~= Seq::new(blank_run(bytes@, n as int) as nat, |i: int| bytes@[i] as char),
        decreases end - n,
    {
        let b: u8 = bytes[n];
        if open && (b == 32 || b == 9) {
            s.push(b as char);
        } else {
            open = false;
        }
        n += 1;
    }
    s
}

/// The keys that change text; `None` for any other key, which may still be a
/// motion. A new line starts where the one it came off starts.
pub fn caret_edit(doc: &ReviewDoc, press: KeyPress) -> (edit: Option<Edit>)
    requires
        caret_exists(doc),
    ensures
        (match edit {
            Some(Edit::Type { text, back }) => edit_of(doc, press) == Some((text@, back)),
            Some(Edit::DeleteForward) => press.code == KeyCode::Delete,
            Some(Edit::Undo { redo }) => press.code == KeyCode::Z && press.command() && redo
                == press.shift,
            Some(Edit::Save) => press.code == KeyCode::S && press.command(),
            None => {
                &&& edit_of(doc, press) is None
                &&& press.code != KeyCode::Delete
                &&& press.code == KeyCode::Z || press.code == KeyCode::S ==> !press.command()
            },
        }),
{
    match press.code {
        KeyCode::Return => {
            let lead = match doc.caret {
                Some(c) => indentation_of(
                    doc.blobs[c.blob as usize].lines[c.line as usize].as_str(),
                    c.byte as usize,
                ),
                None => String::new(),
            };
            let mut text = "\n".to_owned();
            text.append(lead.as_str());
            assert(text@ =~= (edit_of(doc, press)->0).0);
            Some(Edit::Type { text, back: 0 })
        },
        KeyCode::Tab => Some(Edit::Type { text: "    ".to_owned(), back: 0 }),
        KeyCode::Backspace => Some(Edit::Type { text: "".to_owned(), back: 1 }),
        KeyCode::Delete => Some(Edit::DeleteForward),
        KeyCode::Z => if press.logo || press.control {
            Some(Edit::Undo { redo: press.shift })
        } else {
            None
        },
        KeyCode::S => if press.logo || press.control {
            Some(Edit::Save)
        } else {
            None
        },
        _ => None,
    }
}

/// The delimiter that closes a lone opening one.
pub open spec fn closer_of(input: Seq<char>) -> Option<Seq<char>> {
    if input == "("@ {
        Some(")"@)
    } else if input == "["@ {
        Some("]"@)
    } else if input == "{"@ {
        Some("}"@)
    } else {
        None
    }
}

/// The delimiter that closes `input`, when it is a lone opening one.
pub fn closer_for(input: &str) -> (close: Option<&'static str>)
    ensures
        (match close {
            Some(c) => closer_of(input@) == Some(c@) && c@.len() == 1,
            None => closer_of(input@) is None,
        }),
{
    proof {
        reveal_strlit(")");
        reveal_strlit("]");
        reveal_strlit("}");
    }
    if same(input, "(") {
        Some(")")
    } else if same(input, "[") {
        Some("]")
    } else if same(input, "{") {
        Some("}")
    } else {
        None
    }
}

/// Whether the caret already sits in front of exactly this closing delimiter.
pub open spec fn sits_before(doc: &ReviewDoc, input: Seq<char>) -> bool {
    (input == ")"@ || input == "]"@ || input == "}"@) && (doc.caret matches Some(c) && c.byte
        < line_bytes(doc, c.blob, c.line).len() && line_bytes(doc, c.blob, c.line)[c.byte as int]
        == input[0] as u8)
}

/// Whether the caret already sits in front of exactly this closing delimiter,
/// in which case typing it should move past rather than write a second copy.
pub fn steps_over(doc: &ReviewDoc, input: &str) -> (r: bool)
    requires
        caret_exists(doc),
    ensures
        r == sits_before(doc, input@),
{
    proof {
        reveal_strlit(")");
        reveal_strlit("]");
        reveal_strlit("}");
    }
    let close: u8 = if same(input, ")") {
        41
    } else if same(input, "]") {
        93
    } else if same(input, "}") {
        125
    } else {
        return false;
    };
    assert(input@[0] as u8 == close);
    match doc.caret {
        Some(c) => {
            let bytes = doc.blobs[c.blob as usize].lines[c.line as usize].as_str().as_bytes();
            (c.byte as usize) < bytes.len() && bytes[c.byte as usize] == close
        },
        None => false,
    }
}

/// What typed text asks for.
#[derive(Debug)]
pub enum Typing {
    /// Type this text, then step the caret back this many bytes.
    Type { text: String, then_back: u32 },
    /// Step the caret over the delimiter it sits in front of.
    StepOver,
}

/// What typed text asks for: an opening delimiter is typed with its closer and
/// the caret sits between them; a closing one that is already there is stepped
/// over; anything else, a paste included, is typed as it is.
pub fn caret_text(doc: &ReviewDoc, input: &str) -> (typing: Typing)
    requires
        caret_exists(doc),
    ensures
        (match closer_of(input@) {
            Some(close) => typing matches Typing::Type { text, then_back } && text@ == input@
                + close && then_back == 1,
            None => if sits_before(doc, input@) {
                typing is StepOver
            } else {
                typing matches Typing::Type { text, then_back } && text@ == input@ && then_back
                    == 0
            },
        }),
{
    match closer_for(input) {
        Some(close) => {
            let mut text = input.to_owned();
            text.append(close);
            Typing::Type { text, then_back: 1 }
        },
        None => if steps_over(doc, input) {
            Typing::StepOver
        } else {
            Typing::Type { text: input.to_owned(), then_back: 0 }
        },
    }
}

/// Moves the caret past the delimiter it sits in front of.
pub fn step_over(doc: &mut ReviewDoc)
    requires
        caret_exists(old(doc)),
        old(doc).caret matches Some(c) && c.byte < line_bytes(old(doc), c.blob, c.line).len(),
    ensures
        *final(doc) == (ReviewDoc {
            caret: Some(Caret { byte: (old(doc).caret->0.byte + 1) as u32, ..old(doc).caret->0 }),
            ..*old(doc)
        }),
{
    if let Some(c) = doc.caret {
        doc.caret = Some(Caret { blob: c.blob, line: c.line, byte: c.byte + 1 });
    }
}

/// Moves the caret back between a pair that was just typed.
pub fn step_back(doc: &mut ReviewDoc, by: u32)
    requires
        old(doc).caret matches Some(c) ==> by <= c.byte,
    ensures
        *final(doc) == (ReviewDoc {
            caret: (match old(doc).caret {
                Some(c) => Some(Caret { byte: (c.byte - by) as u32, ..c }),
                None => None,
            }),
            ..*old(doc)
        }),
{
    if let Some(c) = doc.caret {
        doc.caret = Some(Caret { blob: c.blob, line: c.line, byte: c.byte - by });
    }
}

/// Whether the caret's blob is well formed and its offsets fit a machine word.
pub open spec fn caret_blob_wf(doc: &ReviewDoc) -> bool {
    doc.caret matches Some(c) ==> {
        let b = doc.blobs@[c.blob as int];
        &&& b.wf()
        &&& b.line_starts@[c.line as int] + c.byte + 1 <= usize::MAX
    }
}

/// The byte of the buffer that the caret is in front of.
pub open spec fn caret_offset(doc: &ReviewDoc, c: Caret) -> int {
    doc.blobs@[c.blob as int].line_starts@[c.line as int] + c.byte
}

/// What a forward delete takes out: the character in front of the caret. Off
/// the end of a line that is the newline, which joins the line below onto this
/// one. At the end of the text there is nothing to take, and a buffer that
/// cannot be edited keeps everything.
pub open spec fn takes_forward(doc: &ReviewDoc, c: Caret, taken: Option<(int, int)>) -> bool {
    let b = doc.blobs@[c.blob as int];
    let bytes = line_bytes(doc, c.blob, c.line);
    let start = caret_offset(doc, c);
    let len = encode_utf8(b.text@).len();
    match taken {
        Some(range) => {
            &&& b.editable
            &&& range.0 == start
            &&& range.1 <= len
            &&& if c.byte < bytes.len() {
                is_next(bytes, c.byte as int, Some(range.1 - start + c.byte))
            } else {
                range.1 == start + 1 && after_first_line(b, start + 1)
            }
        },
        None => {
            ||| !b.editable
            ||| c.byte >= bytes.len() && (start + 1 > len || !after_first_line(b, start + 1))
            ||| c.byte < bytes.len() && exists|i: int|
                #![trigger is_char_boundary(bytes, i)]
                is_next(bytes, c.byte as int, Some(i)) && start + i - c.byte > len
        },
    }
}

/// Whether a byte is on a line after the first one.
pub open spec fn after_first_line(b: Blob, at: int) -> bool {
    b.line_starts@.len() > 1 && b.line_starts@[1] <= at
}

/// What a forward delete takes out.
#[derive(Clone, Copy, Debug, PartialEq, Eq, Structural)]
pub enum Deletion {
    /// The selection, which is taken out already.
    Selection,
    /// These bytes of the caret's buffer.
    Bytes { start: usize, end: usize },
    Nothing,
}

/// What a forward delete takes out. Over a selection it takes that, like
/// backspace does: `selection_taken` says whether there was one to take.
pub fn delete_forward(doc: &ReviewDoc, selection_taken: bool) -> (taken: Deletion)
    requires
        caret_exists(doc),
        caret_blob_wf(doc),
    ensures
        selection_taken == (taken is Selection),
        !selection_taken ==> (match doc.caret {
            None => taken is Nothing,
            Some(c) => takes_forward(
                doc,
                c,
                match taken {
                    Deletion::Bytes { start, end } => Some((start as int, end as int)),
                    _ => None,
                },
            ),
        }),
{
    if selection_taken {
        return Deletion::Selection;
    }
    let c = match doc.caret {
        Some(c) => c,
        None => {
            return Deletion::Nothing;
        },
    };
    let blob = &doc.blobs[c.blob as usize];
    let line = blob.lines[c.line as usize].as_str();
    let at: usize = c.byte as usize;
    let start: usize = blob.line_starts[c.line as usize] + at;
    let width: usize = match next_boundary(line, at) {
        Some(next) => next - at,
        None => {
            proof {
                only_the_end_has_no_next(line@, at as int);
            }
            let below = blob.line_of(start + 1);
            if below > 0 {
                assert(blob.line_starts@[1] <= blob.line_starts@[below as int]);
                1
            } else {
                return Deletion::Nothing;
            }
        },
    };
    let len: usize = blob.text.as_str().as_bytes().len();
    if start > len || width > len - start {
        return Deletion::Nothing;
    }
    if !blob.editable {
        return Deletion::Nothing;
    }
    Deletion::Bytes { start, end: start + width }
}

/// Whether a caret is at a byte of a buffer.
pub open spec fn caret_at(b: Blob, blob: u32, at: int, c: Caret) -> bool {
    &&& c.blob == blob
    &&& c.line < b.line_starts@.len()
    &&& b.line_starts@[c.line as int] + c.byte == at
    &&& c.line + 1 < b.line_starts@.len() ==> at < b.line_starts@[c.line + 1]
}

/// The caret at a byte of a buffer.
fn place_at(blob: &Blob, id: u32, at: usize) -> (c: Caret)
    requires
        blob.wf(),
        at <= u32::MAX,
        blob.line_starts@.len() <= u32::MAX,
    ensures
        caret_at(*blob, id, at as int, c),
{
    let line = blob.line_of(at);
    Caret { blob: id, line: line as u32, byte: (at - blob.line_starts[line]) as u32 }
}

/// Whether a buffer's places fit a caret.
pub open spec fn fits_caret(b: Blob) -> bool {
    b.wf() && encode_utf8(b.text@).len() <= u32::MAX && b.line_starts@.len() <= u32::MAX
}

/// After an undo or a redo: the caret goes to where it took effect. Without an
/// effect, or without a caret, nothing changes.
pub fn undo_at(doc: &mut ReviewDoc, at: Option<usize>) -> (took: bool)
    requires
        caret_exists(old(doc)),
        old(doc).caret matches Some(c) ==> fits_caret(old(doc).blobs@[c.blob as int]),
        at matches Some(i) ==> i <= u32::MAX,
    ensures
        took == (old(doc).caret is Some && at is Some),
        *final(doc) == (ReviewDoc { caret: final(doc).caret, ..*old(doc) }),
        took ==> final(doc).caret is Some && caret_at(
            old(doc).blobs@[old(doc).caret->0.blob as int],
            old(doc).caret->0.blob,
            at->0 as int,
            final(doc).caret->0,
        ),
        !took ==> final(doc).caret == old(doc).caret,
{
    match (doc.caret, at) {
        (Some(c), Some(i)) => {
            let moved = place_at(&doc.blobs[c.blob as usize], c.blob, i);
            doc.caret = Some(moved);
            true
        },
        _ => false,
    }
}

/// Moves the caret to the next occurrence at or after it, wrapping at the end of
/// the file; or backwards to the last one before it, wrapping at the front. It
/// searches the buffer and not the rows: a hit on a line that the stream does
/// not show is still a hit.
pub fn seek_caret(doc: &mut ReviewDoc, query: &str, back: bool)
    requires
        caret_exists(old(doc)),
        caret_blob_wf(old(doc)),
        old(doc).caret matches Some(c) ==> fits_caret(old(doc).blobs@[c.blob as int]),
    ensures
        *final(doc) == (ReviewDoc { caret: final(doc).caret, ..*old(doc) }),
        (match old(doc).caret {
            None => final(doc).caret is None,
            Some(c) => {
                let b = old(doc).blobs@[c.blob as int];
                let target = seek_target(b.text@, query@, caret_offset(old(doc), c), back);
                if query@.len() > 0 && target is Some {
                    final(doc).caret is Some && caret_at(
                        b,
                        c.blob,
                        target->0,
                        final(doc).caret->0,
                    )
                } else {
                    final(doc).caret == old(doc).caret
                }
            },
        }),
{
    if let Some(c) = doc.caret {
        let blob = &doc.blobs[c.blob as usize];
        let at: usize = blob.line_starts[c.line as usize] + c.byte as usize;
        if let Some(found) = seek(blob.text.as_str(), query, at, back) {
            proof {
                lemma_seek_in_text(blob.text@, query@, at as int, back);
            }
            let moved = place_at(blob, c.blob, found);
            doc.caret = Some(moved);
        }
    }
}

/// A search stays inside the text.
proof fn lemma_seek_in_text(text: Seq<char>, query: Seq<char>, at: int, back: bool)
    requires
        0 <= at,
    ensures
        seek_target(text, query, at, back) matches Some(i) ==> 0 <= i <= encode_utf8(text).len(),
{
    let hay = crate::widgets::find::folded(text);
    let needle = crate::widgets::find::folded(query);
    if back {
        lemma_back_in_text(
            hay,
            needle,
            if at < hay.len() {
                at
            } else {
                hay.len() as int
            },
        );
        lemma_back_in_text(hay, needle, hay.len() as int);
    } else {
        crate::widgets::find::lemma_first_from(
            hay,
            needle,
            if at < hay.len() {
                at
            } else {
                hay.len() as int
            },
        );
        crate::widgets::find::lemma_first_from(hay, needle, 0);
    }
}

proof fn lemma_back_in_text(hay: Seq<u8>, needle: Seq<u8>, end: int)
    ensures
        crate::widgets::find::last_up_to(hay, needle, end) matches Some(i) ==> 0 <= i
            <= hay.len(),
    decreases end + 1,
{
    if needle.len() <= end <= hay.len() && end >= 0 && !crate::widgets::find::found_at(
        hay,
        needle,
        end - needle.len(),
    ) {
        lemma_back_in_text(hay, needle, end - 1);
    }
}

/// What a replacement takes out of the caret's buffer, the last range first:
/// every hit or the one the caret is in. Nothing without a query or a caret, or
/// in a buffer that cannot be edited.
pub fn replace(doc: &ReviewDoc, query: &str, all: bool) -> (ranges: Vec<(usize, usize)>)
    requires
        caret_exists(doc),
        caret_blob_wf(doc),
    ensures
        ranges@ == (match doc.caret {
            Some(c) => if query@.len() > 0 && doc.blobs@[c.blob as int].editable {
                replaced_ranges(
                    doc.blobs@[c.blob as int].text@,
                    query@,
                    caret_offset(doc, c),
                    all,
                )
            } else {
                Seq::empty()
            },
            None => Seq::empty(),
        }),
{
    if query.is_empty() {
        return Vec::new();
    }
    match doc.caret {
        Some(c) => {
            let blob = &doc.blobs[c.blob as usize];
            if !blob.editable {
                return Vec::new();
            }
            let at: usize = blob.line_starts[c.line as usize] + c.byte as usize;
            replacements(blob.text.as_str(), query, at, all)
        },
        None => Vec::new(),
    }
}

/// After a replacement: the caret goes to the front of the line it was on, or
/// of the last one when the text has become shorter than that. Read after the
/// edits, from the buffer as they left it.
pub fn after_replace(doc: &mut ReviewDoc)
    requires
        old(doc).caret matches Some(c) ==> c.blob < old(doc).blobs@.len() && fits_caret(
            old(doc).blobs@[c.blob as int],
        ),
    ensures
        *final(doc) == (ReviewDoc {
            caret: (match old(doc).caret {
                Some(c) => Some(
                    Caret {
                        blob: c.blob,
                        line: (if c.line < old(doc).blobs@[c.blob as int].line_starts@.len() {
                            c.line
                        } else {
                            (old(doc).blobs@[c.blob as int].line_starts@.len() - 1) as u32
                        }),
                        byte: 0,
                    },
                ),
                None => None,
            }),
            ..*old(doc)
        }),
{
    if let Some(c) = doc.caret {
        let count: usize = doc.blobs[c.blob as usize].line_starts.len();
        let line: u32 = if (c.line as usize) < count {
            c.line
        } else {
            (count - 1) as u32
        };
        doc.caret = Some(Caret { blob: c.blob, line, byte: 0 });
    }
}

// ---------------------------------------------------------------------------
// Laws
// ---------------------------------------------------------------------------

/// A position lands on the line that its row shows, at its own column, or at
/// the end of a line that is shorter; and only a row of code can be landed on.
pub proof fn a_landing_is_on_its_row(doc: &ReviewDoc, tab: Tab, row: usize, byte: int)
    requires
        0 <= byte,
        stream_exists(doc, tab),
    ensures
        landing(doc, tab, None, byte) is None,
        row >= doc.rows(tab).len() ==> landing(doc, tab, Some(row), byte) is None,
        row < doc.rows(tab).len() ==> match doc.rows(tab)[row as int] {
            Row::Code { blob, line, .. } => {
                let len = line_bytes(doc, blob, line).len();
                landing(doc, tab, Some(row), byte) matches Some(c) && c.blob == blob && c.line
                    == line && c.byte <= len && c.byte <= byte && (c.byte == byte || c.byte == len)
            },
            _ => landing(doc, tab, Some(row), byte) is None,
        },
{
    if row < doc.rows(tab).len() {
        assert(doc.rows(tab)[row as int] matches Row::Code { blob, line, .. } ==> line_exists(
            doc,
            blob,
            line,
        ));
    }
}

/// Within a line Left takes back what Right did, and Right what Left did.
pub proof fn left_and_right_are_inverse(
    doc: &ReviewDoc,
    tab: Tab,
    caret: Caret,
    above: Option<usize>,
    below: Option<usize>,
    to: Caret,
    back: Option<Caret>,
)
    requires
        is_char_boundary(line_bytes(doc, caret.blob, caret.line), caret.byte as int),
    ensures
        caret.byte < line_bytes(doc, caret.blob, caret.line).len() && moves_to(
            doc,
            tab,
            caret,
            KeyCode::Right,
            above,
            below,
            Some(to),
        ) && moves_to(doc, tab, to, KeyCode::Left, above, below, back) ==> back == Some(caret)
            && to.byte > caret.byte,
        caret.byte > 0 && caret.byte <= line_bytes(doc, caret.blob, caret.line).len() && moves_to(
            doc,
            tab,
            caret,
            KeyCode::Left,
            above,
            below,
            Some(to),
        ) && moves_to(doc, tab, to, KeyCode::Right, above, below, back) ==> back == Some(caret)
            && to.byte < caret.byte,
{
    let bytes = line_bytes(doc, caret.blob, caret.line);
    if caret.byte < bytes.len() && moves_to(doc, tab, caret, KeyCode::Right, above, below, Some(to))
        && moves_to(doc, tab, to, KeyCode::Left, above, below, back) {
        let c = back->0;
        if c.byte > caret.byte {
            assert(!is_char_boundary(bytes, c.byte as int));
        }
        if c.byte < caret.byte {
            assert(!is_char_boundary(bytes, caret.byte as int));
        }
    }
    if caret.byte > 0 && caret.byte <= bytes.len() && moves_to(
        doc,
        tab,
        caret,
        KeyCode::Left,
        above,
        below,
        Some(to),
    ) && moves_to(doc, tab, to, KeyCode::Right, above, below, back) {
        let c = back->0;
        if c.byte < caret.byte {
            assert(!is_char_boundary(bytes, c.byte as int));
        }
        if c.byte > caret.byte {
            assert(!is_char_boundary(bytes, caret.byte as int));
        }
    }
}

/// Home goes to the front of the line and End behind its last byte; Up goes to
/// the row above and Down to the row below; Left at the front goes up, and Right
/// at the end goes down.
pub proof fn motions_go_where_they_say(
    doc: &ReviewDoc,
    tab: Tab,
    caret: Caret,
    above: Option<usize>,
    below: Option<usize>,
    to: Option<Caret>,
)
    requires
        line_exists(doc, caret.blob, caret.line),
    ensures
        ({
            let len = line_bytes(doc, caret.blob, caret.line).len();
            let up = landing(doc, tab, above, caret.byte as int);
            let down = landing(doc, tab, below, caret.byte as int);
            &&& moves_to(doc, tab, caret, KeyCode::Home, above, below, to) ==> (
            to matches Some(c) && c.blob == caret.blob && c.line == caret.line && c.byte == 0)
            &&& moves_to(doc, tab, caret, KeyCode::End, above, below, to) ==> (to matches Some(c)
                && c.blob == caret.blob && c.line == caret.line && c.byte == len)
            &&& moves_to(doc, tab, caret, KeyCode::Up, above, below, to) ==> to == up
            &&& moves_to(doc, tab, caret, KeyCode::Down, above, below, to) ==> to == down
            &&& caret.byte == 0 && moves_to(doc, tab, caret, KeyCode::Left, above, below, to)
                ==> to == up
            &&& caret.byte >= len && moves_to(doc, tab, caret, KeyCode::Right, above, below, to)
                ==> to == down
        }),
{
}

/// With Shift a selection reaches from where it began, which is where the caret
/// was when there was none; without Shift there is no selection.
pub proof fn shift_keeps_where_it_began(anchor: Option<Caret>, caret: Caret)
    ensures
        extended_anchor(anchor, caret, false) is None,
        extended_anchor(None, caret, true) == Some(caret),
        anchor is Some ==> extended_anchor(anchor, caret, true) == anchor,
{
}

proof fn lemma_blank_run(bytes: Seq<u8>, end: int)
    requires
        0 <= end <= bytes.len(),
    ensures
        0 <= blank_run(bytes, end) <= end,
        forall|k: int|
            0 <= k < blank_run(bytes, end) ==> (#[trigger] bytes[k]) == 32 || bytes[k] == 9,
        blank_run(bytes, end) < end ==> bytes[blank_run(bytes, end)] != 32 && bytes[blank_run(
            bytes,
            end,
        )] != 9,
    decreases end,
{
    if end > 0 {
        lemma_blank_run(bytes, end - 1);
    }
}

/// Return begins a line with the white space that the line of the caret begins
/// with, all of it up to the caret and nothing else; Tab types spaces, and
/// Backspace takes one character out and types none.
pub proof fn return_keeps_the_indentation(doc: &ReviewDoc, press: KeyPress, c: Caret)
    requires
        doc.caret == Some(c),
    ensures
        ({
            let bytes = line_bytes(doc, c.blob, c.line);
            let end = if c.byte < bytes.len() {
                c.byte as int
            } else {
                bytes.len() as int
            };
            &&& press.code == KeyCode::Return ==> (edit_of(doc, press) matches Some((text, back))
                && {
                let lead = text.skip(1);
                &&& back == 0
                &&& text.len() >= 1 && text[0] == '\n'
                &&& lead.len() <= end
                &&& forall|k: int|
                    0 <= k < lead.len() ==> (#[trigger] lead[k]) == bytes[k] as char && (bytes[k]
                        == 32 || bytes[k] == 9)
                &&& lead.len() < end ==> bytes[lead.len() as int] != 32 && bytes[lead.len() as int]
                    != 9
            })
            &&& press.code == KeyCode::Tab ==> (edit_of(doc, press) matches Some((text, back))
                && back == 0 && text.len() == 4 && forall|k: int|
                0 <= k < 4 ==> text[k] == ' ')
            &&& press.code == KeyCode::Backspace ==> (edit_of(doc, press) matches Some((text, back))
                && back == 1 && text.len() == 0)
        }),
{
    let bytes = line_bytes(doc, c.blob, c.line);
    let end = if c.byte < bytes.len() {
        c.byte as int
    } else {
        bytes.len() as int
    };
    lemma_blank_run(bytes, end);
    reveal_strlit("\n");
    reveal_strlit("    ");
    reveal_strlit("");
    if press.code == KeyCode::Return {
        if let Some((text, _)) = edit_of(doc, press) {
            assert(text.skip(1) =~= indentation(bytes, c.byte as int));
        }
    }
}

/// An opening delimiter is closed by its own kind, and nothing else is closed.
pub proof fn delimiters_are_closed_in_kind(input: Seq<char>)
    ensures
        closer_of("("@) == Some(")"@),
        closer_of("["@) == Some("]"@),
        closer_of("{"@) == Some("}"@),
        closer_of(input) is Some ==> input == "("@ || input == "["@ || input == "{"@,
{
    reveal_strlit("(");
    reveal_strlit("[");
    reveal_strlit("{");
    assert("("@[0] == '(' && "["@[0] == '[' && "{"@[0] == '{');
}

/// There is one place for a caret at a byte of a buffer.
pub proof fn a_byte_has_one_caret(b: Blob, blob: u32, at: int, c: Caret, d: Caret)
    requires
        b.wf(),
        caret_at(b, blob, at, c),
        caret_at(b, blob, at, d),
    ensures
        c == d,
{
    if c.line < d.line {
        assert(c.line + 1 == d.line || b.line_starts@[c.line + 1] < b.line_starts@[d.line as int]);
    }
    if d.line < c.line {
        assert(d.line + 1 == c.line || b.line_starts@[d.line + 1] < b.line_starts@[c.line as int]);
    }
}

/// A forward delete takes out at least a byte, from the caret on, and never
/// reaches past the next character.
pub proof fn a_forward_delete_takes_one_character(doc: &ReviewDoc, c: Caret, from: int, to: int)
    requires
        takes_forward(doc, c, Some((from, to))),
    ensures
        from == caret_offset(doc, c),
        from < to <= encode_utf8(doc.blobs@[c.blob as int].text@).len(),
        doc.blobs@[c.blob as int].editable,
        forall|k: int|
            from < k < to ==> !#[trigger] is_char_boundary(
                line_bytes(doc, c.blob, c.line),
                k - from + c.byte,
            ),
{
}

} // verus!
