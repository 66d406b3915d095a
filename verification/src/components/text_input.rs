//! The box in which a prompt is written.

use crate::input::{KeyCode, KeyEvent};
use crate::text::{join, views};
use ratatui_textarea::{Input, Key, TextArea};
use vstd::prelude::*;

verus! {

/// A text box of `ratatui_textarea`, which holds lines of text and a cursor. The
/// box itself is at hand for drawing.
#[verifier::external_body]
pub struct TextInput {
    pub area: TextArea<'static>,
}

/// What a text box holds.
pub struct TextModel {
    pub lines: Seq<Seq<char>>,
    /// Where the cursor is: the line, and how many characters of it are before
    /// the cursor.
    pub row: int,
    pub col: int,
    /// Whether a selection was begun.
    pub selecting: bool,
}

/// What a text box holds.
pub uninterp spec fn box_of(t: TextInput) -> TextModel;

/// Whether the cursor is in the text.
pub open spec fn cursor_in(m: TextModel) -> bool {
    0 <= m.row < m.lines.len() && 0 <= m.col <= m.lines[m.row].len()
}

/// A box with nothing in it.
pub open spec fn empty_box() -> TextModel {
    TextModel { lines: seq![Seq::empty()], row: 0, col: 0, selecting: false }
}

/// A box with a character put in before the cursor.
pub open spec fn with_char(m: TextModel, c: char) -> TextModel {
    TextModel {
        lines: m.lines.update(m.row, m.lines[m.row].insert(m.col, c)),
        col: m.col + 1,
        ..m
    }
}

/// A box whose line is broken at the cursor, which goes to the new line.
pub open spec fn with_newline(m: TextModel) -> TextModel {
    let line = m.lines[m.row];
    TextModel {
        lines: m.lines.take(m.row) + seq![line.take(m.col), line.skip(m.col)] + m.lines.skip(
            m.row + 1,
        ),
        row: m.row + 1,
        col: 0,
        ..m
    }
}

/// A box without the character before the cursor: at the start of a line, that
/// line joins the one before it.
pub open spec fn without_char(m: TextModel) -> TextModel {
    if m.col > 0 {
        TextModel {
            lines: m.lines.update(m.row, m.lines[m.row].remove(m.col - 1)),
            col: m.col - 1,
            ..m
        }
    } else if m.row > 0 {
        let before = m.lines[m.row - 1];
        TextModel {
            lines: m.lines.take(m.row - 1) + seq![before + m.lines[m.row]] + m.lines.skip(
                m.row + 1,
            ),
            row: m.row - 1,
            col: before.len() as int,
            ..m
        }
    } else {
        m
    }
}

/// What a key makes of a box while nothing is selected, for the keys that write
/// a character or a line break, take a character back, or do nothing. Of the
/// other keys some move the cursor by what was drawn, and some go by what was
/// written or cut before.
pub open spec fn typed(m: TextModel, key: KeyEvent) -> Option<TextModel> {
    match key.code {
        KeyCode::Esc => Some(m),
        KeyCode::Function(_) => Some(m),
        KeyCode::Other => Some(m),
        KeyCode::Enter => if m.selecting {
            None
        } else {
            Some(with_newline(m))
        },
        KeyCode::Char(c) => if m.selecting || key.control || key.alt {
            None
        } else if c == '\n' || c == '\r' {
            Some(with_newline(m))
        } else {
            Some(with_char(m, c))
        },
        KeyCode::Backspace => if m.selecting || key.control || key.alt {
            None
        } else {
            Some(without_char(m))
        },
        _ => None,
    }
}

/// Whether a key moves the cursor and leaves the text as it is.
pub open spec fn only_moves(code: KeyCode) -> bool {
    match code {
        KeyCode::Left => true,
        KeyCode::Right => true,
        KeyCode::Up => true,
        KeyCode::Down => true,
        KeyCode::Home => true,
        KeyCode::End => true,
        KeyCode::PageUp => true,
        KeyCode::PageDown => true,
        _ => false,
    }
}

/// Whether a box is what a key made of another.
pub open spec fn is_typed(before: TextModel, after: TextModel, key: KeyEvent) -> bool {
    &&& cursor_in(after)
    &&& cursor_in(before) ==> (typed(before, key) matches Some(m) ==> after == m)
    &&& only_moves(key.code) ==> after.lines == before.lines
}

/// Whether a box is another with its line broken at the cursor, where nothing
/// was selected.
pub open spec fn is_broken(before: TextModel, after: TextModel) -> bool {
    &&& cursor_in(after)
    &&& cursor_in(before) && !before.selecting ==> after == with_newline(before)
}

/// `TextArea::default` of `ratatui_textarea`, with a text for when it is
/// empty and without a mark on its line: it holds one line with nothing on it,
/// and nothing is selected.
#[verifier::external_body]
pub(crate) fn new_textarea(placeholder: &str) -> (t: TextInput)
    ensures
        box_of(t) == empty_box(),
{
    let mut area = TextArea::default();
    area.set_placeholder_text(placeholder);
    area.set_cursor_line_style(ratatui::style::Style::default());
    TextInput { area }
}

/// `TextArea::lines` of `ratatui_textarea`: the lines that it holds.
#[verifier::external_body]
pub(crate) fn lines_in(t: &TextInput) -> (lines: Vec<String>)
    ensures
        views(lines@) == box_of(*t).lines,
{
    t.area.lines().to_vec()
}

/// `TextArea::insert_newline` of `ratatui_textarea`: it breaks the line at the
/// cursor. What it makes of a selection is left open.
#[verifier::external_body]
pub(crate) fn insert_newline(t: &mut TextInput)
    ensures
        is_broken(box_of(*old(t)), box_of(*final(t))),
{
    t.area.insert_newline();
}

/// `TextArea::input` of `ratatui_textarea`: a character is put in at the cursor,
/// Enter breaks the line there, Backspace takes the character before it; the
/// cursor stays in the text. What keys make of a selection, where they move the
/// cursor, and what its editing commands do is left open.
#[verifier::external_body]
pub(crate) fn type_key(t: &mut TextInput, event: KeyEvent)
    ensures
        is_typed(box_of(*old(t)), box_of(*final(t)), event),
{
    let key = match event.code {
        KeyCode::Backspace => Key::Backspace, KeyCode::Enter => Key::Enter,
        KeyCode::Left => Key::Left, KeyCode::Right => Key::Right,
        KeyCode::Up => Key::Up, KeyCode::Down => Key::Down,
        KeyCode::Home => Key::Home, KeyCode::End => Key::End,
        KeyCode::PageUp => Key::PageUp, KeyCode::PageDown => Key::PageDown,
        KeyCode::Tab => Key::Tab, KeyCode::Delete => Key::Delete,
        KeyCode::Function(n) => Key::F(n), KeyCode::Char(c) => Key::Char(c),
        KeyCode::Esc => Key::Esc, KeyCode::Other => Key::Null,
    };
    t.area.input(Input { key, ctrl: event.control, alt: event.alt, shift: event.shift });
}

/// Whether the cursor is at the end of the text and nothing is selected.
pub open spec fn at_end(m: TextModel) -> bool {
    m.lines.len() > 0 && m.row == m.lines.len() - 1 && m.col == m.lines.last().len()
        && !m.selecting
}

/// The key of a character.
pub open spec fn char_key(c: char) -> KeyEvent {
    KeyEvent { code: KeyCode::Char(c), control: false, alt: false, shift: false }
}

/// A box after the characters of a text were typed, one by one.
pub open spec fn all_typed(m: TextModel, text: Seq<char>) -> TextModel
    decreases text.len(),
{
    if text.len() == 0 {
        m
    } else {
        typed(all_typed(m, text.drop_last()), char_key(text.last()))->0
    }
}

proof fn lemma_break_last(lines: Seq<Seq<char>>, next: Seq<char>)
    requires
        lines.len() > 0,
    ensures
        join(lines.push(next), "\n"@) == join(lines, "\n"@) + "\n"@ + next,
{
    assert(lines.push(next).drop_last() =~= lines);
}

proof fn lemma_write_last(lines: Seq<Seq<char>>, c: char)
    requires
        lines.len() > 0,
    ensures
        join(lines.update(lines.len() - 1, lines.last().push(c)), "\n"@) == join(
            lines,
            "\n"@,
        ).push(c),
{
    let after = lines.update(lines.len() - 1, lines.last().push(c));
    assert(after.drop_last() =~= lines.drop_last());
    if lines.len() > 1 {
        let head = join(lines.drop_last(), "\n"@) + "\n"@;
        assert(head + lines.last().push(c) =~= (head + lines.last()).push(c));
    }
}

/// What is typed at the end of a text stands there: the characters one after
/// another, line breaks as line breaks.
pub proof fn what_is_typed_is_written(m: TextModel, text: Seq<char>)
    requires
        at_end(m),
        !text.contains('\r'),
    ensures
        at_end(all_typed(m, text)),
        join(all_typed(m, text).lines, "\n"@) == join(m.lines, "\n"@) + text,
    decreases text.len(),
{
    let was = join(m.lines, "\n"@);
    if text.len() == 0 {
        assert(was + text =~= was);
    } else {
        let c = text.last();
        assert forall|i: int| 0 <= i < text.drop_last().len() implies text.drop_last()[i]
            != '\r' by {
            assert(text.contains(text[i]));
        }
        what_is_typed_is_written(m, text.drop_last());
        assert(text.contains(text[text.len() - 1]));
        let b = all_typed(m, text.drop_last());
        let line = b.lines[b.row];
        if c == '\n' {
            reveal_strlit("\n");
            assert(line.take(b.col) =~= line);
            assert(line.skip(b.col) =~= Seq::empty());
            assert(with_newline(b).lines =~= b.lines.push(Seq::empty()));
            lemma_break_last(b.lines, Seq::empty());
            assert("\n"@ =~= seq!['\n']);
            assert(join(b.lines, "\n"@) + "\n"@ + Seq::empty() =~= was + text);
        } else {
            assert(line.insert(b.col, c) =~= line.push(c));
            lemma_write_last(b.lines, c);
            assert((was + text.drop_last()).push(c) =~= was + text);
        }
    }
}

/// Taking back the character that was just typed leaves the text as it was.
pub proof fn backspace_takes_back(m: TextModel, c: char)
    requires
        cursor_in(m),
    ensures
        without_char(with_char(m, c)) == m,
        without_char(with_newline(m)) == m,
{
    let line = m.lines[m.row];
    assert(line.insert(m.col, c).remove(m.col) =~= line);
    assert(with_char(m, c).lines.update(m.row, line) =~= m.lines);
    let n = with_newline(m);
    assert(n.lines[m.row] =~= line.take(m.col));
    assert(n.lines[m.row + 1] =~= line.skip(m.col));
    assert(line.take(m.col) + line.skip(m.col) =~= line);
    assert(without_char(n).lines =~= m.lines);
}

} // verus!
