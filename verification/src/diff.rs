//! The shape of a lowered diff: its rows, the lines they name, and the sets
//! that review state is kept in.

use crate::text::{from_chars, same, to_chars};
use vstd::prelude::*;
use vstd::utf8::encode_utf8;

verus! {

/// Which side of a change a line is on.
#[derive(Clone, Copy, Debug, PartialEq, Eq, Structural)]
pub enum LineKind {
    Context,
    Add,
    Del,
}

/// A git object name: its 160 bits, the leading 128 and the trailing 32.
#[derive(Clone, Copy, Debug, PartialEq, Eq, Structural)]
pub struct Oid {
    pub hi: u128,
    pub lo: u32,
}

/// The character of a hexadecimal digit.
pub open spec fn hex_char(d: nat) -> char {
    if d < 10 {
        (d + 48) as char
    } else {
        (d + 87) as char
    }
}

/// The last `width` hexadecimal digits of a number.
pub open spec fn hex_digits(n: nat, width: nat) -> Seq<char>
    decreases width,
{
    if width == 0 {
        Seq::empty()
    } else {
        hex_digits(n / 16, (width - 1) as nat).push(hex_char(n % 16))
    }
}

fn hex_text(n: u128, width: u32) -> (s: String)
    ensures
        s@ == hex_digits(n as nat, width as nat),
    decreases width,
{
    if width == 0 {
        let s = String::new();
        assert(s@ =~= Seq::empty());
        return s;
    }
    let mut s = hex_text(n / 16, width - 1);
    let d: u8 = (n % 16) as u8;
    s.push(
        if d < 10 {
            (d + 48) as char
        } else {
            (d + 87) as char
        },
    );
    s
}

impl Oid {
    /// The name in hexadecimal.
    pub open spec fn text(self) -> Seq<char> {
        hex_digits(self.hi as nat, 32) + hex_digits(self.lo as nat, 8)
    }

    /// The name in hexadecimal, forty digits.
    pub fn hex(&self) -> (s: String)
        ensures
            s@ == self.text(),
            s@.len() == 40,
    {
        let mut s = hex_text(self.hi, 32);
        let low = hex_text(self.lo as u128, 8);
        s.append(low.as_str());
        proof {
            lemma_hex_len(self.hi as nat, 32);
            lemma_hex_len(self.lo as nat, 8);
        }
        s
    }

    /// The first `n` digits of the name.
    pub fn short(&self, n: usize) -> (s: String)
        requires
            n <= 40,
        ensures
            s@ == self.text().take(n as int),
    {
        let whole = self.hex();
        let chars = to_chars(whole.as_str());
        let s = from_chars(&chars, 0, n);
        assert(s@ =~= self.text().take(n as int));
        s
    }
}

/// A number has as many digits as it is written with.
pub proof fn lemma_hex_len(n: nat, width: nat)
    ensures
        hex_digits(n, width).len() == width,
    decreases width,
{
    if width > 0 {
        lemma_hex_len(n / 16, (width - 1) as nat);
    }
}

/// One line of one blob. Review state is keyed by content, so a mark on a line
/// shows wherever that line is drawn.
#[derive(Clone, Copy, Debug, PartialEq, Eq, Structural)]
pub struct LineKey {
    pub oid: Oid,
    pub line: u32,
}

impl LineKey {
    /// The order in which a [`KeySet`] keeps its keys.
    pub open spec fn before(self, other: LineKey) -> bool {
        ||| self.oid.hi < other.oid.hi
        ||| self.oid.hi == other.oid.hi && self.oid.lo < other.oid.lo
        ||| self.oid == other.oid && self.line < other.line
    }

    fn is_before(&self, other: &LineKey) -> (r: bool)
        ensures
            r == self.before(*other),
    {
        self.oid.hi < other.oid.hi || (self.oid.hi == other.oid.hi && (self.oid.lo < other.oid.lo
            || (self.oid.lo == other.oid.lo && self.line < other.line)))
    }
}

/// A set of lines, kept sorted so that membership is a binary search.
#[derive(Debug)]
pub struct KeySet {
    keys: Vec<LineKey>,
}

impl View for KeySet {
    type V = Set<LineKey>;

    closed spec fn view(&self) -> Set<LineKey> {
        self.keys@.to_set()
    }
}

impl KeySet {
    /// The keys stand in order, each once.
    #[verifier::type_invariant]
    spec fn wf(self) -> bool {
        forall|i: int, j: int|
            0 <= i < j < self.keys@.len() ==> (#[trigger] self.keys@[i]).before(
                #[trigger] self.keys@[j],
            )
    }

    /// The empty set.
    pub fn new() -> (s: KeySet)
        ensures
            s@ == Set::<LineKey>::empty(),
    {
        let s = KeySet { keys: Vec::new() };
        assert(s@ =~= Set::<LineKey>::empty());
        s
    }

    /// The set of the listed lines.
    pub fn from_keys(list: &Vec<LineKey>) -> (s: KeySet)
        ensures
            s@ == list@.to_set(),
    {
        let mut s = KeySet::new();
        let mut i: usize = 0;
        while i < list.len()
            invariant
                i <= list.len(),
                s@ =~= list@.take(i as int).to_set(),
            decreases list.len() - i,
        {
            let ghost was = s@;
            s.insert(list[i]);
            assert(list@.take(i + 1) =~= list@.take(i as int).push(list@[i as int]));
            assert forall|k: LineKey| s@.contains(k) <==> list@.take(i + 1).to_set().contains(
                k,
            ) by {
                let next = list@.take(i + 1);
                let cur = list@.take(i as int);
                if next.contains(k) {
                    let p = choose|p: int| 0 <= p < next.len() && next[p] == k;
                    if p < i {
                        assert(cur[p] == k);
                    }
                }
                if cur.contains(k) {
                    let p = choose|p: int| 0 <= p < cur.len() && cur[p] == k;
                    assert(next[p] == k);
                }
                assert(next[i as int] == list@[i as int]);
            }
            i += 1;
        }
        assert(list@.take(list@.len() as int) =~= list@);
        s
    }

    /// The first place whose key is not before `key`.
    fn place(&self, key: &LineKey) -> (at: usize)
        requires
            self.wf(),
        ensures
            at <= self.keys@.len(),
            forall|i: int| 0 <= i < at ==> (#[trigger] self.keys@[i]).before(*key),
            forall|i: int|
                at <= i < self.keys@.len() ==> !(#[trigger] self.keys@[i]).before(*key),
    {
        let mut lo: usize = 0;
        let mut hi: usize = self.keys.len();
        while lo < hi
            invariant
                self.wf(),
                lo <= hi <= self.keys@.len(),
                forall|i: int| 0 <= i < lo ==> (#[trigger] self.keys@[i]).before(*key),
                forall|i: int|
                    hi <= i < self.keys@.len() ==> !(#[trigger] self.keys@[i]).before(*key),
            decreases hi - lo,
        {
            let mid: usize = lo + (hi - lo) / 2;
            if self.keys[mid].is_before(key) {
                assert forall|i: int| 0 <= i < mid + 1 implies (#[trigger] self.keys@[i]).before(
                    *key,
                ) by {
                    if i < mid {
                        assert(self.keys@[i].before(self.keys@[mid as int]));
                    }
                }
                lo = mid + 1;
            } else {
                assert forall|i: int|
                    mid <= i < self.keys@.len() implies !(#[trigger] self.keys@[i]).before(
                    *key,
                ) by {
                    if i > mid {
                        assert(self.keys@[mid as int].before(self.keys@[i]));
                    }
                }
                hi = mid;
            }
        }
        lo
    }

    /// Adds a line.
    pub fn insert(&mut self, key: LineKey)
        ensures
            final(self)@ == old(self)@.insert(key),
    {
        proof {
            use_type_invariant(&*self);
        }
        let at = self.place(&key);
        let ghost was = self.keys@;
        if at < self.keys.len() && self.keys[at] == key {
            assert(was.contains(key));
            assert(self@ =~= old(self)@.insert(key));
            return;
        }
        let mut keys: Vec<LineKey> = Vec::new();
        std::mem::swap(&mut keys, &mut self.keys);
        keys.insert(at, key);
        assert(keys@ =~= was.insert(at as int, key));
        assert forall|i: int, j: int| 0 <= i < j < keys@.len() implies (
        #[trigger] keys@[i]).before(#[trigger] keys@[j]) by {
            let a = if i < at {
                i
            } else {
                i - 1
            };
            let b = if j < at {
                j
            } else {
                j - 1
            };
            if i != at && j != at {
                assert(was[a].before(was[b]));
            } else if i == at {
                assert(!was[b].before(key));
                assert(b >= at);
                if b > at {
                    assert(was[at as int].before(was[b]));
                }
            } else {
                assert(was[a].before(key));
            }
        }
        self.keys = keys;
        assert forall|k: LineKey| self@.contains(k) <==> old(self)@.insert(key).contains(k) by {
            if self.keys@.contains(k) {
                let p = choose|p: int| 0 <= p < self.keys@.len() && self.keys@[p] == k;
                if p < at {
                    assert(was[p] == k);
                } else if p > at {
                    assert(was[p - 1] == k);
                }
            }
            if was.contains(k) {
                let p = choose|p: int| 0 <= p < was.len() && was[p] == k;
                if p < at {
                    assert(self.keys@[p] == k);
                } else {
                    assert(self.keys@[p + 1] == k);
                }
            }
            assert(self.keys@[at as int] == key);
        }
        assert(self@ =~= old(self)@.insert(key));
    }

    /// Whether a line is in the set.
    pub fn contains(&self, key: &LineKey) -> (r: bool)
        ensures
            r == self@.contains(*key),
    {
        proof {
            use_type_invariant(self);
        }
        let at = self.place(key);
        let r = at < self.keys.len() && self.keys[at] == *key;
        proof {
            if self.keys@.contains(*key) {
                let p = choose|p: int| 0 <= p < self.keys@.len() && self.keys@[p] == *key;
                assert(!key.before(*key));
                if p > at {
                    assert(self.keys@[at as int].before(self.keys@[p]));
                }
                assert(p == at);
            }
        }
        r
    }
}

/// A set of paths.
#[derive(Debug)]
pub struct PathSet {
    paths: Vec<String>,
}

impl View for PathSet {
    type V = Set<Seq<char>>;

    closed spec fn view(&self) -> Set<Seq<char>> {
        paths_of(self.paths@)
    }
}

/// The set of the listed paths.
spec fn paths_of(paths: Seq<String>) -> Set<Seq<char>> {
    Set::new(|p: Seq<char>| exists|i: int| 0 <= i < paths.len() && #[trigger] paths[i]@ == p)
}

proof fn lemma_paths_push(paths: Seq<String>, one: String)
    ensures
        paths_of(paths.push(one)) == paths_of(paths).insert(one@),
{
    let next = paths.push(one);
    assert forall|p: Seq<char>| paths_of(next).contains(p) <==> paths_of(paths).insert(
        one@,
    ).contains(p) by {
        assert(next[paths.len() as int]@ == one@);
        if paths_of(paths).contains(p) {
            let i = choose|i: int| 0 <= i < paths.len() && #[trigger] paths[i]@ == p;
            assert(next[i]@ == p);
        }
        if paths_of(next).contains(p) {
            let i = choose|i: int| 0 <= i < next.len() && #[trigger] next[i]@ == p;
            if i < paths.len() {
                assert(paths[i]@ == p);
            }
        }
    }
    assert(paths_of(next) =~= paths_of(paths).insert(one@));
}

impl PathSet {
    /// The empty set.
    pub fn new() -> (s: PathSet)
        ensures
            s@ == Set::<Seq<char>>::empty(),
    {
        let s = PathSet { paths: Vec::new() };
        assert(s@ =~= Set::<Seq<char>>::empty());
        s
    }

    /// Whether no path is in the set.
    pub fn is_empty(&self) -> (r: bool)
        ensures
            r == (self@ == Set::<Seq<char>>::empty()),
    {
        let r = self.paths.len() == 0;
        if r {
            assert(self@ =~= Set::<Seq<char>>::empty());
        } else {
            assert(self@.contains(self.paths@[0]@));
        }
        r
    }

    /// Whether a path is in the set.
    pub fn contains(&self, path: &str) -> (r: bool)
        ensures
            r == self@.contains(path@),
    {
        let mut i: usize = 0;
        while i < self.paths.len()
            invariant
                i <= self.paths.len(),
                forall|k: int| 0 <= k < i ==> (#[trigger] self.paths@[k])@ != path@,
            decreases self.paths.len() - i,
        {
            if same(self.paths[i].as_str(), path) {
                return true;
            }
            i += 1;
        }
        false
    }

    /// Adds a path.
    pub fn insert(&mut self, path: &str)
        ensures
            final(self)@ == old(self)@.insert(path@),
    {
        let one = path.to_owned();
        proof {
            lemma_paths_push(self.paths@, one);
        }
        self.paths.push(one);
    }

    /// Takes a path out; says whether it was in.
    pub fn remove(&mut self, path: &str) -> (was_in: bool)
        ensures
            was_in == old(self)@.contains(path@),
            final(self)@ == old(self)@.remove(path@),
    {
        let mut kept: Vec<String> = Vec::new();
        let mut found = false;
        let ghost was = self.paths@;
        let mut i: usize = 0;
        assert(paths_of(kept@) =~= paths_of(was.take(0)).remove(path@));
        while i < self.paths.len()
            invariant
                i <= self.paths.len(),
                self.paths@ == was,
                found == paths_of(was.take(i as int)).contains(path@),
                paths_of(kept@) == paths_of(was.take(i as int)).remove(path@),
            decreases self.paths.len() - i,
        {
            let ghost next = was.take(i + 1);
            assert(next =~= was.take(i as int).push(was[i as int]));
            proof {
                lemma_paths_push(was.take(i as int), was[i as int]);
            }
            if same(self.paths[i].as_str(), path) {
                found = true;
                assert(paths_of(kept@) =~= paths_of(next).remove(path@));
            } else {
                let one = self.paths[i].clone();
                proof {
                    lemma_paths_push(kept@, one);
                }
                kept.push(one);
                assert(paths_of(kept@) =~= paths_of(next).remove(path@));
            }
            i += 1;
        }
        assert(was.take(was.len() as int) =~= was);
        self.paths = kept;
        found
    }

    /// Puts a path in, or takes it out if it is there.
    pub fn toggle(&mut self, path: &str)
        ensures
            final(self)@ == (if old(self)@.contains(path@) {
                old(self)@.remove(path@)
            } else {
                old(self)@.insert(path@)
            }),
    {
        if !self.remove(path) {
            assert(self@ =~= old(self)@);
            self.insert(path);
        }
    }

    /// Whether two sets hold the same paths.
    pub fn same_as(&self, other: &PathSet) -> (r: bool)
        ensures
            r == (self@ == other@),
    {
        let r = self.subset_of(other) && other.subset_of(self);
        if r {
            assert(self@ =~= other@);
        }
        r
    }

    fn subset_of(&self, other: &PathSet) -> (r: bool)
        ensures
            r == self@.subset_of(other@),
    {
        let mut i: usize = 0;
        while i < self.paths.len()
            invariant
                i <= self.paths.len(),
                forall|k: int| 0 <= k < i ==> other@.contains((#[trigger] self.paths@[k])@),
            decreases self.paths.len() - i,
        {
            if !other.contains(self.paths[i].as_str()) {
                assert(self@.contains(self.paths@[i as int]@));
                return false;
            }
            i += 1;
        }
        true
    }

    /// A copy of the set.
    pub fn copy(&self) -> (r: PathSet)
        ensures
            r@ == self@,
    {
        let mut paths: Vec<String> = Vec::new();
        let mut i: usize = 0;
        while i < self.paths.len()
            invariant
                i <= self.paths.len(),
                paths@ == self.paths@.take(i as int),
            decreases self.paths.len() - i,
        {
            paths.push(self.paths[i].clone());
            i += 1;
        }
        assert(paths@ =~= self.paths@);
        PathSet { paths }
    }
}

/// One row of a review stream.
#[derive(Debug)]
pub enum Row {
    /// The title of a guide section.
    Title { text: String },
    /// A paragraph of the guide.
    Prose { md: String },
    /// A reference that points at nothing.
    Warning { text: String },
    /// The top of a file card.
    FileHeader {
        path: String,
        adds: usize,
        dels: usize,
        from: Option<String>,
        similarity: Option<u8>,
    },
    /// Lines the range took out, `start..=end` of the old blob.
    Removed { start: u32, end: u32 },
    /// A collapsed run of unchanged lines.
    Collapsed,
    /// Air between a card's code and its chrome.
    Spacer,
    /// One line of code.
    Code { kind: LineKind, old_no: Option<u32>, new_no: Option<u32>, blob: u32, line: u32 },
    /// A hunk boundary, with the changed lines of its hunk.
    HunkBar { keys: Vec<LineKey> },
    /// A posted comment; a reply names the root of its thread.
    Comment { id: i64, parent: Option<i64>, body: String, meta: String },
    /// The bottom of a file card.
    CardEnd,
    /// The inline comment composer.
    Composer,
}

/// A row, with its texts and lists as the contracts speak of them.
pub enum RowView {
    Title { text: Seq<char> },
    Prose { md: Seq<char> },
    Warning { text: Seq<char> },
    FileHeader {
        path: Seq<char>,
        adds: usize,
        dels: usize,
        from: Option<Seq<char>>,
        similarity: Option<u8>,
    },
    Removed { start: u32, end: u32 },
    Collapsed,
    Spacer,
    Code { kind: LineKind, old_no: Option<u32>, new_no: Option<u32>, blob: u32, line: u32 },
    HunkBar { keys: Seq<LineKey> },
    Comment { id: i64, parent: Option<i64>, body: Seq<char>, meta: Seq<char> },
    CardEnd,
    Composer,
}

impl Row {
    /// The row, as the contracts speak of it.
    pub open spec fn view(&self) -> RowView {
        match *self {
            Row::Title { text } => RowView::Title { text: text@ },
            Row::Prose { md } => RowView::Prose { md: md@ },
            Row::Warning { text } => RowView::Warning { text: text@ },
            Row::FileHeader { path, adds, dels, from, similarity } => RowView::FileHeader {
                path: path@,
                adds,
                dels,
                from: opt_text(from),
                similarity,
            },
            Row::Removed { start, end } => RowView::Removed { start, end },
            Row::Collapsed => RowView::Collapsed,
            Row::Spacer => RowView::Spacer,
            Row::Code { kind, old_no, new_no, blob, line } => RowView::Code {
                kind,
                old_no,
                new_no,
                blob,
                line,
            },
            Row::HunkBar { keys } => RowView::HunkBar { keys: keys@ },
            Row::Comment { id, parent, body, meta } => RowView::Comment {
                id,
                parent,
                body: body@,
                meta: meta@,
            },
            Row::CardEnd => RowView::CardEnd,
            Row::Composer => RowView::Composer,
        }
    }

    /// A copy of the row.
    pub fn copy(&self) -> (row: Row)
        ensures
            row@ == self@,
    {
        match self {
            Row::Title { text } => Row::Title { text: text.clone() },
            Row::Prose { md } => Row::Prose { md: md.clone() },
            Row::Warning { text } => Row::Warning { text: text.clone() },
            Row::FileHeader { path, adds, dels, from, similarity } => Row::FileHeader {
                path: path.clone(),
                adds: *adds,
                dels: *dels,
                from: copy_opt(from),
                similarity: *similarity,
            },
            Row::Removed { start, end } => Row::Removed { start: *start, end: *end },
            Row::Collapsed => Row::Collapsed,
            Row::Spacer => Row::Spacer,
            Row::Code { kind, old_no, new_no, blob, line } => Row::Code {
                kind: *kind,
                old_no: *old_no,
                new_no: *new_no,
                blob: *blob,
                line: *line,
            },
            Row::HunkBar { keys } => {
                let mut copy: Vec<LineKey> = Vec::new();
                let mut i: usize = 0;
                while i < keys.len()
                    invariant
                        i <= keys.len(),
                        copy@ == keys@.take(i as int),
                    decreases keys.len() - i,
                {
                    copy.push(keys[i]);
                    i += 1;
                }
                assert(copy@ =~= keys@);
                Row::HunkBar { keys: copy }
            },
            Row::Comment { id, parent, body, meta } => Row::Comment {
                id: *id,
                parent: *parent,
                body: body.clone(),
                meta: meta.clone(),
            },
            Row::CardEnd => Row::CardEnd,
            Row::Composer => Row::Composer,
        }
    }
}

/// The text of an optional string.
pub open spec fn opt_text(s: Option<String>) -> Option<Seq<char>> {
    match s {
        Some(s) => Some(s@),
        None => None,
    }
}

/// A copy of an optional string.
pub fn copy_opt(s: &Option<String>) -> (r: Option<String>)
    ensures
        opt_text(r) == opt_text(*s),
        (r is Some) == (s is Some),
{
    match s {
        Some(s) => Some(s.clone()),
        None => None,
    }
}

/// The rows of a stream, as the contracts speak of them.
pub open spec fn row_views(rows: Seq<Row>) -> Seq<RowView> {
    Seq::new(rows.len(), |i: int| rows[i]@)
}

/// A copy of a stream.
pub fn copy_rows(rows: &Vec<Row>) -> (copy: Vec<Row>)
    ensures
        row_views(copy@) == row_views(rows@),
{
    let mut copy: Vec<Row> = Vec::new();
    let mut i: usize = 0;
    while i < rows.len()
        invariant
            i <= rows.len(),
            row_views(copy@) =~= row_views(rows@).take(i as int),
        decreases rows.len() - i,
    {
        let ghost was = row_views(copy@);
        copy.push(rows[i].copy());
        assert(row_views(copy@) =~= was.push(rows@[i as int]@));
        i += 1;
    }
    assert(row_views(rows@).take(rows@.len() as int) =~= row_views(rows@));
    copy
}

/// A copy of a list of strings.
pub fn copy_strings(list: &Vec<String>) -> (copy: Vec<String>)
    ensures
        copy@ == list@,
{
    let mut copy: Vec<String> = Vec::new();
    let mut i: usize = 0;
    while i < list.len()
        invariant
            i <= list.len(),
            copy@ == list@.take(i as int),
        decreases list.len() - i,
    {
        copy.push(list[i].clone());
        i += 1;
    }
    assert(copy@ =~= list@);
    copy
}

/// One side's text in a review, as the row stream reads it: its lines, where
/// each begins in the text, and whether it can be edited.
#[derive(Debug)]
pub struct Blob {
    pub oid: Oid,
    /// The path that the blob is shown under.
    pub label: String,
    pub edit_rev: u64,
    pub editable: bool,
    pub text: String,
    pub lines: Vec<String>,
    pub line_starts: Vec<usize>,
}

/// A blob, as the contracts speak of it.
pub struct BlobView {
    pub oid: Oid,
    pub label: Seq<char>,
    pub edit_rev: u64,
    pub editable: bool,
    pub text: Seq<char>,
    pub lines: Seq<String>,
    pub line_starts: Seq<usize>,
}

impl Blob {
    /// The blob, as the contracts speak of it.
    pub open spec fn view(&self) -> BlobView {
        BlobView {
            oid: self.oid,
            label: self.label@,
            edit_rev: self.edit_rev,
            editable: self.editable,
            text: self.text@,
            lines: self.lines@,
            line_starts: self.line_starts@,
        }
    }

    /// A copy of the blob.
    pub fn copy(&self) -> (blob: Blob)
        ensures
            blob@ == self@,
    {
        let mut line_starts: Vec<usize> = Vec::new();
        let mut i: usize = 0;
        while i < self.line_starts.len()
            invariant
                i <= self.line_starts.len(),
                line_starts@ == self.line_starts@.take(i as int),
            decreases self.line_starts.len() - i,
        {
            line_starts.push(self.line_starts[i]);
            i += 1;
        }
        assert(line_starts@ =~= self.line_starts@);
        Blob {
            oid: self.oid,
            label: self.label.clone(),
            edit_rev: self.edit_rev,
            editable: self.editable,
            text: self.text.clone(),
            lines: copy_strings(&self.lines),
            line_starts,
        }
    }

    /// Where a line has to end: before the next one begins, or with the text.
    pub open spec fn line_limit(&self, i: int) -> int {
        if i + 1 < self.line_starts@.len() {
            self.line_starts@[i + 1] as int
        } else {
            encode_utf8(self.text@).len() as int
        }
    }

    /// Whether a line is what the text holds where the line begins.
    pub open spec fn line_in_text(&self, i: int) -> bool {
        let start = self.line_starts@[i] as int;
        let bytes = encode_utf8(self.lines@[i]@);
        &&& start + bytes.len() <= self.line_limit(i)
        &&& start + bytes.len() <= encode_utf8(self.text@).len()
        &&& bytes == encode_utf8(self.text@).subrange(start, start + bytes.len())
    }

    /// Every line begins somewhere, the first at the beginning, each after the
    /// one before it, and is what the text holds there.
    pub open spec fn wf(&self) -> bool {
        &&& forall|i: int| 0 <= i < self.lines@.len() ==> #[trigger] self.line_in_text(i)
        &&& self.lines@.len() == self.line_starts@.len()
        &&& self.line_starts@.len() > 0
        &&& self.line_starts@[0] == 0
        &&& forall|i: int, j: int|
            0 <= i < j < self.line_starts@.len() ==> #[trigger] self.line_starts@[i]
                < #[trigger] self.line_starts@[j]
    }

    /// The line that the byte at `at` is on: the last one that begins at or
    /// before it.
    pub fn line_of(&self, at: usize) -> (line: usize)
        requires
            self.wf(),
        ensures
            line < self.line_starts@.len(),
            self.line_starts@[line as int] <= at,
            line + 1 < self.line_starts@.len() ==> at < self.line_starts@[line + 1],
    {
        let mut lo: usize = 0;
        let mut hi: usize = self.line_starts.len();
        while hi - lo > 1
            invariant
                self.wf(),
                lo < hi <= self.line_starts@.len(),
                self.line_starts@[lo as int] <= at,
                hi < self.line_starts@.len() ==> at < self.line_starts@[hi as int],
            decreases hi - lo,
        {
            let mid: usize = lo + (hi - lo) / 2;
            if self.line_starts[mid] <= at {
                lo = mid;
            } else {
                hi = mid;
            }
        }
        lo
    }
}

// ---------------------------------------------------------------------------
// Laws
// ---------------------------------------------------------------------------

/// How many numbers have at most so many hexadecimal digits.
spec fn hex_limit(width: nat) -> nat
    decreases width,
{
    if width == 0 {
        1
    } else {
        16 * hex_limit((width - 1) as nat)
    }
}

proof fn lemma_hex_char(a: nat, b: nat)
    requires
        a < 16,
        b < 16,
        hex_char(a) == hex_char(b),
    ensures
        a == b,
{
    assert(hex_char(a) as int == (if a < 10 {
        a + 48
    } else {
        a + 87
    }));
    assert(hex_char(b) as int == (if b < 10 {
        b + 48
    } else {
        b + 87
    }));
}

proof fn lemma_hex_digits(n: nat, m: nat, width: nat)
    requires
        n < hex_limit(width),
        m < hex_limit(width),
        hex_digits(n, width) == hex_digits(m, width),
    ensures
        n == m,
    decreases width,
{
    if width > 0 {
        let a = hex_digits(n / 16, (width - 1) as nat);
        let b = hex_digits(m / 16, (width - 1) as nat);
        assert(a.push(hex_char(n % 16)).last() == hex_char(n % 16));
        assert(b.push(hex_char(m % 16)).last() == hex_char(m % 16));
        lemma_hex_char(n % 16, m % 16);
        assert(a.push(hex_char(n % 16)).drop_last() =~= a);
        assert(b.push(hex_char(m % 16)).drop_last() =~= b);
        lemma_hex_digits(n / 16, m / 16, (width - 1) as nat);
    }
}

/// Different objects have different names, and every name has forty digits.
pub proof fn a_name_names_one_object(a: Oid, b: Oid)
    ensures
        a.text().len() == 40,
        a.text() == b.text() ==> a == b,
{
    lemma_hex_len(a.hi as nat, 32);
    lemma_hex_len(b.hi as nat, 32);
    lemma_hex_len(a.lo as nat, 8);
    lemma_hex_len(b.lo as nat, 8);
    if a.text() == b.text() {
        assert(a.text().take(32) =~= hex_digits(a.hi as nat, 32));
        assert(b.text().take(32) =~= hex_digits(b.hi as nat, 32));
        assert(a.text().skip(32) =~= hex_digits(a.lo as nat, 8));
        assert(b.text().skip(32) =~= hex_digits(b.lo as nat, 8));
        reveal_with_fuel(hex_limit, 33);
        lemma_hex_digits(a.hi as nat, b.hi as nat, 32);
        lemma_hex_digits(a.lo as nat, b.lo as nat, 8);
    }
}

} // verus!
