//! One line of code as it is drawn: the coloured runs it is made of, where the
//! caret stands in it, and what it contributes to a selection.

use crate::diff::LineKind;
use crate::widgets::caret::{is_next, is_previous, next_boundary, previous_boundary};
use vstd::prelude::*;
use vstd::utf8::{
    encode_utf8, is_char_boundary, length_of_first_scalar, pop_first_scalar, valid_utf8,
};

verus! {

/// A coloured span of a line, in bytes. `hl` is the kind of token, or nothing
/// for plain text.
#[derive(Clone, Copy, Debug, PartialEq, Eq, Structural)]
pub struct Span {
    pub start: usize,
    pub end: usize,
    pub hl: Option<u32>,
}

/// A number held to an upper bound.
pub open spec fn at_most(x: int, bound: int) -> int {
    if x < bound {
        x
    } else {
        bound
    }
}

/// The runs that the spans cut the rest of a line into, from `at` on: each
/// span in its colour, and what lies before and between them plain. A span
/// reaches no further than the line.
pub open spec fn runs_from(spans: Seq<Span>, at: int, len: int) -> Seq<Span>
    decreases spans.len(),
{
    if spans.len() == 0 {
        if at < len {
            seq![Span { start: at as usize, end: len as usize, hl: None }]
        } else {
            Seq::empty()
        }
    } else {
        let start = at_most(spans[0].start as int, len);
        let end = at_most(spans[0].end as int, len);
        (if start > at {
            seq![Span { start: at as usize, end: start as usize, hl: None }]
        } else {
            Seq::empty()
        }) + (if end > start {
            seq![Span { start: start as usize, end: end as usize, hl: spans[0].hl }]
        } else {
            Seq::empty()
        }) + runs_from(
            spans.drop_first(),
            if at < end {
                end
            } else {
                at
            },
            len,
        )
    }
}

/// Whether spans stand one after another from `at` on.
pub open spec fn spans_in_order(spans: Seq<Span>, at: int) -> bool
    decreases spans.len(),
{
    spans.len() > 0 ==> {
        &&& at <= spans[0].start <= spans[0].end
        &&& spans_in_order(spans.drop_first(), spans[0].end as int)
    }
}

/// Whether runs cover a stretch of a line, one after another.
pub open spec fn tiles(runs: Seq<Span>, from: int, to: int) -> bool
    decreases runs.len(),
{
    if runs.len() == 0 {
        from >= to
    } else {
        &&& runs[0].start == from
        &&& runs[0].start < runs[0].end
        &&& tiles(runs.drop_first(), runs[0].end as int, to)
    }
}

/// Spans that stand one after another cut a line into runs that cover it: no
/// byte is drawn twice, and none is left out.
pub proof fn runs_cover_the_line(spans: Seq<Span>, at: int, len: int)
    requires
        spans_in_order(spans, at),
        0 <= at <= len <= usize::MAX,
    ensures
        tiles(runs_from(spans, at, len), at, len),
    decreases spans.len(),
{
    reveal_with_fuel(tiles, 3);
    if spans.len() == 0 {
        if at < len {
            let all = runs_from(spans, at, len);
            assert(all.drop_first() =~= Seq::empty());
        }
    } else {
        let start = at_most(spans[0].start as int, len);
        let end = at_most(spans[0].end as int, len);
        let next = if at < end {
            end
        } else {
            at
        };
        lemma_order_from(spans.drop_first(), spans[0].end as int, len);
        if spans[0].end <= len {
            runs_cover_the_line(spans.drop_first(), next, len);
        } else {
            lemma_nothing_past_the_end(spans.drop_first(), len);
        }
        let rest = runs_from(spans.drop_first(), next, len);
        assert(tiles(rest, next, len));
        let gap = Span { start: at as usize, end: start as usize, hl: None };
        let own = Span { start: start as usize, end: end as usize, hl: spans[0].hl };
        let all = runs_from(spans, at, len);
        if start > at && end > start {
            assert(all =~= seq![gap, own] + rest);
            assert(all.drop_first() =~= seq![own] + rest);
            assert(all.drop_first().drop_first() =~= rest);
        } else if start > at {
            assert(all =~= seq![gap] + rest);
            assert(all.drop_first() =~= rest);
        } else if end > start {
            assert(all =~= seq![own] + rest);
            assert(all.drop_first() =~= rest);
        } else {
            assert(all =~= rest);
        }
    }
}

proof fn lemma_order_from(spans: Seq<Span>, at: int, len: int)
    requires
        spans_in_order(spans, at),
    ensures
        forall|i: int| 0 <= i < spans.len() ==> at <= (#[trigger] spans[i]).start,
    decreases spans.len(),
{
    if spans.len() > 0 {
        lemma_order_from(spans.drop_first(), spans[0].end as int, len);
        assert forall|i: int| 0 <= i < spans.len() implies at <= (#[trigger] spans[i]).start by {
            if i > 0 {
                assert(spans[i] == spans.drop_first()[i - 1]);
            }
        }
    }
}

proof fn lemma_nothing_past_the_end(spans: Seq<Span>, len: int)
    requires
        0 <= len,
        forall|i: int| 0 <= i < spans.len() ==> len <= (#[trigger] spans[i]).start,
    ensures
        runs_from(spans, len, len).len() == 0,
    decreases spans.len(),
{
    if spans.len() > 0 {
        assert forall|i: int| 0 <= i < spans.drop_first().len() implies len <= (
        #[trigger] spans.drop_first()[i]).start by {
            assert(spans.drop_first()[i] == spans[i + 1]);
        }
        lemma_nothing_past_the_end(spans.drop_first(), len);
    }
}

/// The runs that are text: both ends stand between characters. A run that
/// would cut a character is left out.
pub open spec fn drawable(runs: Seq<Span>, bytes: Seq<u8>) -> Seq<Span>
    decreases runs.len(),
{
    if runs.len() == 0 {
        Seq::empty()
    } else {
        let before = drawable(runs.drop_last(), bytes);
        let run = runs.last();
        if is_char_boundary(bytes, run.start as int) && is_char_boundary(bytes, run.end as int) {
            before.push(run)
        } else {
            before
        }
    }
}

/// One line of code.
#[derive(Debug)]
pub struct DiffLine {
    pub kind: Option<LineKind>,
    pub text: String,
    pub spans: Vec<Span>,
    pub selected: bool,
    /// The list's selection over this row, as byte offsets.
    pub sel: Option<(usize, usize)>,
    pub caret: Option<usize>,
    pub hits: Vec<(usize, usize)>,
}

/// Where the caret is drawn: at the leading edge of the character it is in
/// front of, or at the trailing edge of the one before it.
#[derive(Clone, Copy, Debug, PartialEq, Eq, Structural)]
pub enum CaretEdge {
    Leading { from: usize, to: usize },
    Trailing { from: usize, to: usize },
}

impl DiffLine {
    /// What this row contributes to a selection: its text, or one space for an
    /// empty line.
    pub open spec fn shown(&self) -> Seq<char> {
        if self.text@.len() == 0 {
            " "@
        } else {
            self.text@
        }
    }

    /// A row that points at no line yet.
    pub fn new() -> (line: DiffLine)
        ensures
            line.kind is None,
            line.text@.len() == 0,
            line.spans@.len() == 0,
            !line.selected,
            line.sel is None,
            line.caret is None,
            line.hits@.len() == 0,
    {
        DiffLine {
            kind: None,
            text: String::new(),
            spans: Vec::new(),
            selected: false,
            sel: None,
            caret: None,
            hits: Vec::new(),
        }
    }

    /// Points this row at one diff line: its content, its tint and the caret.
    pub fn set_row(
        &mut self,
        kind: LineKind,
        text: &str,
        spans: &Vec<Span>,
        selected: bool,
        caret: Option<usize>,
    )
        ensures
            final(self).text@ == text@,
            final(self).spans@ == spans@,
            *final(self) == (DiffLine {
                kind: Some(kind),
                text: final(self).text,
                spans: final(self).spans,
                selected,
                caret,
                sel: old(self).sel,
                hits: old(self).hits,
            }),
    {
        self.kind = Some(kind);
        self.text = text.to_owned();
        let mut copy: Vec<Span> = Vec::new();
        let mut i: usize = 0;
        while i < spans.len()
            invariant
                i <= spans.len(),
                copy@ == spans@.take(i as int),
            decreases spans.len() - i,
        {
            copy.push(spans[i]);
            i += 1;
        }
        assert(copy@ =~= spans@);
        self.spans = copy;
        self.selected = selected;
        self.caret = caret;
    }

    /// Marks this row's find hits. What a row is and what a search found in it
    /// are two different things, and only the second changes as one types.
    pub fn set_hits(&mut self, hits: Vec<(usize, usize)>)
        ensures
            *final(self) == (DiffLine { hits, ..*old(self) }),
    {
        self.hits = hits;
    }

    /// What this row contributes to a selection. An empty line draws one space,
    /// and reporting it keeps blank lines in a copied range: the list joins two
    /// rows with a newline only when both carry text.
    pub fn sel_text(&self) -> (text: &str)
        ensures
            text@ == self.shown(),
            encode_utf8(text@).len() > 0,
    {
        proof {
            reveal_strlit(" ");
        }
        let text = if self.text.as_str().is_empty() {
            " "
        } else {
            self.text.as_str()
        };
        proof {
            lemma_text_has_bytes(text@);
        }
        text
    }

    /// The runs that the line is drawn in, in order. An empty line is drawn as
    /// one space and has no run.
    pub fn runs(&self) -> (runs: Vec<Span>)
        ensures
            runs@ == drawable(
                runs_from(self.spans@, 0, encode_utf8(self.text@).len() as int),
                encode_utf8(self.text@),
            ),
    {
        let text = self.text.as_str();
        let len: usize = text.as_bytes().len();
        let ghost bytes = encode_utf8(text@);
        let ghost all = runs_from(self.spans@, 0, len as int);
        let ghost mut seen: Seq<Span> = Seq::empty();
        let mut runs: Vec<Span> = Vec::new();
        let mut at: usize = 0;
        let mut i: usize = 0;
        assert(self.spans@.skip(0) =~= self.spans@);
        assert(seen + runs_from(self.spans@.skip(0), 0, len as int) =~= all);
        while i < self.spans.len()
            invariant
                i <= self.spans.len(),
                text@ == self.text@,
                bytes == encode_utf8(text@),
                len == bytes.len(),
                all == runs_from(self.spans@, 0, len as int),
                seen + runs_from(self.spans@.skip(i as int), at as int, len as int) == all,
                runs@ == drawable(seen, bytes),
            decreases self.spans.len() - i,
        {
            let sp = self.spans[i];
            let ghost rest = self.spans@.skip(i as int);
            assert(rest.drop_first() =~= self.spans@.skip(i + 1));
            assert(rest[0] == sp);
            let start: usize = if sp.start < len {
                sp.start
            } else {
                len
            };
            let end: usize = if sp.end < len {
                sp.end
            } else {
                len
            };
            let ghost before = seen;
            if start > at {
                let gap = Span { start: at, end: start, hl: None };
                proof {
                    lemma_drawable_push(seen, gap, bytes);
                    seen = seen.push(gap);
                }
                if text.is_char_boundary(at) && text.is_char_boundary(start) {
                    runs.push(gap);
                }
            }
            if end > start {
                let own = Span { start, end, hl: sp.hl };
                proof {
                    lemma_drawable_push(seen, own, bytes);
                    seen = seen.push(own);
                }
                if text.is_char_boundary(start) && text.is_char_boundary(end) {
                    runs.push(own);
                }
            }
            let ghost was = at;
            if at < end {
                at = end;
            }
            assert(seen + runs_from(self.spans@.skip(i + 1), at as int, len as int) =~= before
                + runs_from(rest, was as int, len as int));
            i += 1;
        }
        assert(self.spans@.skip(i as int) =~= Seq::empty());
        if at < len {
            let tail = Span { start: at, end: len, hl: None };
            proof {
                lemma_drawable_push(seen, tail, bytes);
                assert(all =~= seen.push(tail));
            }
            if text.is_char_boundary(at) && text.is_char_boundary(len) {
                runs.push(tail);
            }
        } else {
            assert(all =~= seen);
        }
        runs
    }

    /// Where the caret is drawn, from its byte offset. A zero-width query falls
    /// between runs, so one character is asked for: the one after the caret, or
    /// at the end of the line the one before it.
    pub fn caret_edge(&self, at: usize) -> (edge: CaretEdge)
        ensures
            ({
                let bytes = encode_utf8(self.shown());
                let held = at_most(at as int, bytes.len() as int);
                match edge {
                    CaretEdge::Leading { from, to } => held < bytes.len() && from == held
                        && is_next(bytes, held, Some(to as int)),
                    CaretEdge::Trailing { from, to } => held == bytes.len() && to == held
                        && is_previous(bytes, held, Some(from as int)),
                }
            }),
    {
        let text = self.sel_text();
        let len: usize = text.as_bytes().len();
        let at: usize = if at < len {
            at
        } else {
            len
        };
        match next_boundary(text, at) {
            Some(next) => CaretEdge::Leading { from: at, to: next },
            None => {
                proof {
                    crate::widgets::caret::only_the_end_has_no_next(text@, at as int);
                }
                match previous_boundary(text, at) {
                    Some(prev) => CaretEdge::Trailing { from: prev, to: at },
                    None => {
                        proof {
                            crate::widgets::caret::only_the_front_has_no_previous(text@, at as int);
                        }
                        CaretEdge::Trailing { from: 0, to: at }
                    },
                }
            },
        }
    }

    /// How many bytes this row contributes to a selection.
    pub fn selection_text_len(&self) -> (n: usize)
        ensures
            n == encode_utf8(self.shown()).len(),
    {
        self.sel_text().as_bytes().len()
    }

    /// The byte that a point is at: what the laid-out glyphs answer, or on the
    /// row past them its end or its front; `None` off the row.
    pub fn point_to_index(&self, on_glyph: Option<usize>, on_row: bool, past_text: bool) -> (at:
        Option<usize>)
        ensures
            at == (match on_glyph {
                Some(at) => Some(at),
                None => if !on_row {
                    None
                } else if past_text {
                    Some(encode_utf8(self.shown()).len() as usize)
                } else {
                    Some(0)
                },
            }),
    {
        match on_glyph {
            Some(at) => Some(at),
            None => if !on_row {
                None
            } else if past_text {
                Some(self.selection_text_len())
            } else {
                Some(0)
            },
        }
    }

    /// Selects a range of this row.
    pub fn selection_set(&mut self, anchor: usize, cursor: usize)
        ensures
            *final(self) == (DiffLine { sel: Some((anchor, cursor)), ..*old(self) }),
    {
        self.sel = Some((anchor, cursor));
    }

    /// Selects nothing of this row.
    pub fn selection_clear(&mut self)
        ensures
            *final(self) == (DiffLine { sel: None, ..*old(self) }),
    {
        self.sel = None;
    }

    /// Selects this row.
    pub fn selection_select_all(&mut self)
        ensures
            *final(self) == (DiffLine {
                sel: Some((0, encode_utf8(old(self).shown()).len() as usize)),
                ..*old(self)
            }),
    {
        let len = self.selection_text_len();
        self.sel = Some((0, len));
    }

    /// The selected bytes in order, the lower end first.
    pub fn selected_range(&self) -> (range: Option<(usize, usize)>)
        ensures
            range == (match self.sel {
                Some((a, b)) => if a < b {
                    Some((a, b))
                } else {
                    Some((b, a))
                },
                None => None,
            }),
    {
        match self.sel {
            Some((a, b)) => if a < b {
                Some((a, b))
            } else {
                Some((b, a))
            },
            None => None,
        }
    }

    /// The text of a range of this row, its ends held to the end of the row;
    /// nothing for a range that is backwards or cuts a character.
    pub fn selection_get_text_for_range(&self, start: usize, end: usize) -> (text: String)
        ensures
            ({
                let bytes = encode_utf8(self.shown());
                let from = at_most(start as int, bytes.len() as int);
                let to = at_most(end as int, bytes.len() as int);
                encode_utf8(text@) == (if from <= to && is_char_boundary(bytes, from)
                    && is_char_boundary(bytes, to) {
                    bytes.subrange(from, to)
                } else {
                    Seq::empty()
                })
            }),
    {
        let text = self.sel_text();
        let len: usize = text.as_bytes().len();
        let from: usize = if start < len {
            start
        } else {
            len
        };
        let to: usize = if end < len {
            end
        } else {
            len
        };
        if from > to || !text.is_char_boundary(from) {
            return String::new();
        }
        let ghost bytes = encode_utf8(text@);
        let (_, after) = text.split_at(from);
        proof {
            vstd::utf8::encode_utf8_valid_utf8(text@);
            lemma_boundary_after(bytes, from as int, to as int);
            assert(encode_utf8(after@) == bytes.subrange(from as int, len as int));
        }
        if !after.is_char_boundary(to - from) {
            return String::new();
        }
        let (range, _) = after.split_at(to - from);
        assert(encode_utf8(range@) =~= bytes.subrange(from as int, to as int));
        range.to_owned()
    }

    /// The text of this row.
    pub fn selection_get_full_text(&self) -> (text: String)
        ensures
            text@ == self.shown(),
    {
        self.sel_text().to_owned()
    }
}

proof fn lemma_drawable_push(runs: Seq<Span>, run: Span, bytes: Seq<u8>)
    ensures
        drawable(runs.push(run), bytes) == (if is_char_boundary(bytes, run.start as int)
            && is_char_boundary(bytes, run.end as int) {
            drawable(runs, bytes).push(run)
        } else {
            drawable(runs, bytes)
        }),
{
    assert(runs.push(run).drop_last() =~= runs);
}

/// A text that has characters has bytes.
proof fn lemma_text_has_bytes(s: Seq<char>)
    requires
        s.len() > 0,
    ensures
        encode_utf8(s).len() > 0,
{
    let bytes = encode_utf8(s);
    vstd::utf8::encode_utf8_decode_utf8(s);
    if bytes.len() == 0 {
        assert(bytes =~= Seq::empty());
        assert(vstd::utf8::decode_utf8(bytes).len() == 0);
    }
}

/// Past a character boundary, the boundaries of what is left are those of the
/// whole.
proof fn lemma_boundary_after(bytes: Seq<u8>, from: int, to: int)
    requires
        valid_utf8(bytes),
        0 <= from <= to <= bytes.len(),
        is_char_boundary(bytes, from),
    ensures
        valid_utf8(bytes.subrange(from, bytes.len() as int)),
        is_char_boundary(bytes.subrange(from, bytes.len() as int), to - from) == is_char_boundary(
            bytes,
            to,
        ),
    decreases bytes.len(),
{
    reveal_with_fuel(is_char_boundary, 2);
    if from == 0 {
        assert(bytes.subrange(0, bytes.len() as int) =~= bytes);
    } else {
        let first = length_of_first_scalar(bytes);
        let rest = pop_first_scalar(bytes);
        lemma_boundary_after(rest, from - first, to - first);
        assert(rest.subrange(from - first, rest.len() as int) =~= bytes.subrange(
            from,
            bytes.len() as int,
        ));
    }
}

/// Each span is drawn in its own highlight, as far as the line goes; and what is
/// drawn in a highlight is such a span.
pub proof fn highlights_stand_where_their_spans_do(spans: Seq<Span>, at: int, len: int, s: int)
    requires
        spans_in_order(spans, at),
        0 <= at <= len <= usize::MAX,
        0 <= s < spans.len(),
        spans[s].start < spans[s].end <= len,
    ensures
        runs_from(spans, at, len).contains(spans[s]),
    decreases spans.len(),
{
    let start = at_most(spans[0].start as int, len);
    let end = at_most(spans[0].end as int, len);
    let all = runs_from(spans, at, len);
    let next = if at < end {
        end
    } else {
        at
    };
    let rest = runs_from(spans.drop_first(), next, len);
    let gap: int = if start > at {
        1
    } else {
        0
    };
    if s == 0 {
        assert(all[gap] == spans[0]);
    } else {
        let tail = spans.drop_first();
        assert(tail[s - 1] == spans[s]);
        lemma_spans_after(tail, spans[0].end as int, s - 1);
        assert(spans[0].end <= len);
        assert(next == spans[0].end);
        highlights_stand_where_their_spans_do(tail, next, len, s - 1);
        let k = choose|k: int| 0 <= k < rest.len() && rest[k] == spans[s];
        let own: int = if end > start {
            1
        } else {
            0
        };
        assert(all[gap + own + k] == rest[k]);
    }
}

proof fn lemma_spans_after(spans: Seq<Span>, at: int, s: int)
    requires
        spans_in_order(spans, at),
        0 <= s < spans.len(),
    ensures
        at <= spans[s].start,
    decreases spans.len(),
{
    if s > 0 {
        lemma_spans_after(spans.drop_first(), spans[0].end as int, s - 1);
    }
}

/// A run is drawn exactly where it begins and ends between characters, in the
/// order of the runs.
pub proof fn whole_runs_are_drawn(runs: Seq<Span>, bytes: Seq<u8>, run: Span)
    ensures
        drawable(runs.push(run), bytes) == (if is_char_boundary(bytes, run.start as int)
            && is_char_boundary(bytes, run.end as int) {
            drawable(runs, bytes).push(run)
        } else {
            drawable(runs, bytes)
        }),
        drawable(Seq::empty(), bytes) == Seq::<Span>::empty(),
{
    assert(runs.push(run).drop_last() =~= runs);
}

} // verus!
