//! The file browser: the tree at the range's "to" position.
//!
//! A diff shows what a range changed; a review also needs the code around it.
//! So every blob of the head is listed, changed or not, with a dot for what the
//! range did to it. The tree is a function of the range, and is rebuilt only
//! when a load lands.

use crate::diff::{Oid, PathSet, Row};
use crate::review_doc::ReviewDoc;
use crate::live_id::{id_of, live_id};
use crate::order::{
    is_text_before, lemma_text_irreflexive, lemma_text_total, lemma_text_transitive, stable_order,
    text_before, SortKey,
};
use crate::text::{from_chars, lowercase, same, to_chars, to_lowercase, views};
use crate::widgets::review_pane::{recent_label, recent_name};
use std::collections::HashMap;
use vstd::prelude::*;

verus! {

broadcast use vstd::std_specs::hash::group_hash_axioms;

/// What the file browser asks the pane for.
#[derive(Debug)]
pub enum FileBrowserAction {
    OpenFile(String),
    Nothing,
}

// ---------------------------------------------------------------------------
// Status dots
// ---------------------------------------------------------------------------

/// What the range did to a file, or to what is under a folder.
#[derive(Clone, Copy, Debug, PartialEq, Eq, Structural)]
pub enum DotKind {
    Clean,
    New,
    Modified,
    /// Changes of several kinds; also a file that went, for which the tree has
    /// no dot of its own.
    Mixed,
}

/// Two different kinds under one folder: that is what mixed means.
pub open spec fn merged(a: DotKind, b: DotKind) -> DotKind {
    if a == b {
        a
    } else {
        DotKind::Mixed
    }
}

/// Two different kinds under one folder: that is what mixed means.
pub fn merge(a: DotKind, b: DotKind) -> (r: DotKind)
    ensures
        r == merged(a, b),
{
    if a == b {
        a
    } else {
        DotKind::Mixed
    }
}

/// Merging kinds does not depend on their order or grouping.
pub proof fn merging_is_order_free(a: DotKind, b: DotKind, c: DotKind)
    ensures
        merged(a, b) == merged(b, a),
        merged(merged(a, b), c) == merged(a, merged(b, c)),
        merged(a, a) == a,
{
}

/// The dot of one path.
#[derive(Debug)]
pub struct PathDot {
    pub path: String,
    pub kind: DotKind,
}

/// The dots of the paths that a range touched, one per path.
#[derive(Debug)]
pub struct DotMap {
    pub dots: Vec<PathDot>,
}

/// The dots listed, a later one for the same path in place of an earlier.
pub open spec fn dots_of(dots: Seq<PathDot>) -> Map<Seq<char>, DotKind>
    decreases dots.len(),
{
    if dots.len() == 0 {
        Map::empty()
    } else {
        dots_of(dots.drop_last()).insert(dots.last().path@, dots.last().kind)
    }
}

impl DotMap {
    /// The kind per path.
    pub open spec fn view(&self) -> Map<Seq<char>, DotKind> {
        dots_of(self.dots@)
    }

    /// No dots.
    pub fn new() -> (map: DotMap)
        ensures
            map@ == Map::<Seq<char>, DotKind>::empty(),
            map.dots@.len() == 0,
    {
        DotMap { dots: Vec::new() }
    }

    /// Sets the dot of a path.
    pub fn insert(&mut self, path: &str, kind: DotKind)
        ensures
            final(self)@ == old(self)@.insert(path@, kind),
            final(self).dots@.len() == old(self).dots@.len() + 1,
    {
        self.dots.push(PathDot { path: path.to_owned(), kind });
        assert(self.dots@.drop_last() =~= old(self).dots@);
    }

    /// The dot of a path.
    pub fn get(&self, path: &str) -> (kind: Option<DotKind>)
        ensures
            kind == (if self@.contains_key(path@) {
                Some(self@[path@])
            } else {
                None
            }),
    {
        let mut n: usize = self.dots.len();
        assert(self.dots@.take(self.dots@.len() as int) =~= self.dots@);
        while n > 0
            invariant
                n <= self.dots.len(),
                self@.contains_key(path@) == dots_of(self.dots@.take(n as int)).contains_key(path@),
                self@.contains_key(path@) ==> self@[path@] == dots_of(
                    self.dots@.take(n as int),
                )[path@],
            decreases n,
        {
            assert(self.dots@.take(n as int).drop_last() =~= self.dots@.take(n - 1));
            if same(self.dots[n - 1].path.as_str(), path) {
                return Some(self.dots[n - 1].kind);
            }
            n -= 1;
        }
        None
    }
}

/// What a range did to a path that it touched: gone from the head, new there,
/// or edited.
pub open spec fn dot_of(
    path: Seq<char>,
    added: Set<Seq<char>>,
    at_head: Set<Seq<char>>,
) -> DotKind {
    if !at_head.contains(path) {
        DotKind::Mixed
    } else if added.contains(path) {
        DotKind::New
    } else {
        DotKind::Modified
    }
}

/// Whether a range touched a path: it has a card.
pub open spec fn touched(rows: Seq<Row>, path: Seq<char>) -> bool {
    exists|i: int| 0 <= i < rows.len() && card_of(#[trigger] rows[i], path)
}

/// Whether a row is the header of this path's card.
pub open spec fn card_of(row: Row, path: Seq<char>) -> bool {
    row matches Row::FileHeader { path: p, .. } && p@ == path
}

/// What the range did to each path it touched, as a dot.
pub fn status_dots(rows: &Vec<Row>, added: &PathSet, at_head: &PathSet) -> (map: DotMap)
    ensures
        forall|p: Seq<char>| #[trigger] map@.contains_key(p) <==> touched(rows@, p),
        forall|p: Seq<char>|
            map@.contains_key(p) ==> #[trigger] map@[p] == dot_of(p, added@, at_head@),
{
    let mut map = DotMap::new();
    let mut i: usize = 0;
    while i < rows.len()
        invariant
            i <= rows.len(),
            forall|p: Seq<char>| #[trigger]
                map@.contains_key(p) <==> touched(rows@.take(i as int), p),
            forall|p: Seq<char>|
                map@.contains_key(p) ==> #[trigger] map@[p] == dot_of(p, added@, at_head@),
        decreases rows.len() - i,
    {
        let ghost before = rows@.take(i as int);
        let ghost next = rows@.take(i + 1);
        assert forall|p: Seq<char>| #[trigger] touched(next, p) <==> touched(before, p) || card_of(
            rows@[i as int],
            p,
        ) by {
            if touched(before, p) {
                let k = choose|k: int| 0 <= k < before.len() && card_of(#[trigger] before[k], p);
                assert(next[k] == before[k]);
            }
            if touched(next, p) {
                let k = choose|k: int| 0 <= k < next.len() && card_of(#[trigger] next[k], p);
                if k < i {
                    assert(before[k] == next[k]);
                }
            }
            assert(next[i as int] == rows@[i as int]);
        }
        if let Row::FileHeader { path, .. } = &rows[i] {
            let kind = if !at_head.contains(path.as_str()) {
                DotKind::Mixed
            } else if added.contains(path.as_str()) {
                DotKind::New
            } else {
                DotKind::Modified
            };
            map.insert(path.as_str(), kind);
        }
        i += 1;
    }
    assert(rows@.take(rows@.len() as int) =~= rows@);
    map
}

// ---------------------------------------------------------------------------
// The tree
// ---------------------------------------------------------------------------

/// A file or a folder. A folder has children, as places in the node list.
#[derive(Debug)]
pub struct Node {
    pub id: u64,
    pub path: String,
    pub name: String,
    pub children: Option<Vec<usize>>,
    pub status: DotKind,
}

/// A node, as the contracts speak of it.
pub struct NodeView {
    pub id: u64,
    pub path: Seq<char>,
    pub name: Seq<char>,
    pub children: Option<Seq<usize>>,
    pub status: DotKind,
}

impl Node {
    /// The node, as the contracts speak of it.
    pub open spec fn view(&self) -> NodeView {
        NodeView {
            id: self.id,
            path: self.path@,
            name: self.name@,
            children: match self.children {
                Some(children) => Some(children@),
                None => None,
            },
            status: self.status,
        }
    }
}

/// The nodes of a list.
pub open spec fn node_views(nodes: Seq<Node>) -> Seq<NodeView> {
    Seq::new(nodes.len(), |i: int| nodes[i]@)
}

/// A tree being built: its nodes in the order they were made, and the places
/// of those that hang off the repository itself.
pub struct Listing {
    pub nodes: Seq<NodeView>,
    pub roots: Seq<usize>,
}

/// Where the node with an id is, if there is one.
pub open spec fn place(nodes: Seq<NodeView>, id: u64) -> Option<int>
    decreases nodes.len(),
{
    if nodes.len() == 0 {
        None
    } else if nodes.last().id == id {
        Some(nodes.len() - 1)
    } else {
        place(nodes.drop_last(), id)
    }
}

/// Where the component of a path that begins at `at` ends: at the next
/// separator, or with the path.
pub open spec fn component_end(path: Seq<char>, at: int) -> int
    decreases path.len() - at,
{
    if at < 0 || at >= path.len() || path[at] == '/' {
        at
    } else {
        component_end(path, at + 1)
    }
}

/// A component begins where it begins and ends inside the path.
pub proof fn lemma_component_end(path: Seq<char>, at: int)
    requires
        0 <= at <= path.len(),
    ensures
        at <= component_end(path, at) <= path.len(),
        component_end(path, at) < path.len() ==> path[component_end(path, at)] == '/',
    decreases path.len() - at,
{
    if at < path.len() && path[at] != '/' {
        lemma_component_end(path, at + 1);
    }
}

/// A node with another status merged into its own.
pub open spec fn tinted(node: NodeView, status: DotKind) -> NodeView {
    NodeView { status: merged(node.status, status), ..node }
}

/// A folder with another child.
pub open spec fn with_child(node: NodeView, child: usize) -> NodeView {
    match node.children {
        Some(children) => NodeView { children: Some(children.push(child)), ..node },
        None => node,
    }
}

/// Whether a node is a folder.
pub open spec fn is_folder(nodes: Seq<NodeView>, at: Option<int>) -> bool {
    at matches Some(p) && 0 <= p < nodes.len() && nodes[p].children is Some
}

/// The node that a component of a path makes when there is none yet: a folder,
/// unless the path ends with it.
pub open spec fn fresh_node(path: Seq<char>, at: int, end: int, status: DotKind) -> NodeView {
    NodeView {
        id: live_id(path.take(end)),
        path: path.take(end),
        name: path.subrange(at, end),
        children: if end < path.len() {
            Some(Seq::empty())
        } else {
            None
        },
        status,
    }
}

/// A listing after one component of a path: the status is merged into the node
/// that is there, or a node is made under its parent.
pub open spec fn visited(
    t: Listing,
    parent: Option<int>,
    path: Seq<char>,
    at: int,
    end: int,
    status: DotKind,
) -> Listing {
    match place(t.nodes, live_id(path.take(end))) {
        Some(k) => Listing { nodes: t.nodes.update(k, tinted(t.nodes[k], status)), ..t },
        None => {
            let k = t.nodes.len() as usize;
            let grown = t.nodes.push(fresh_node(path, at, end, status));
            if is_folder(t.nodes, parent) {
                Listing {
                    nodes: grown.update(parent->0, with_child(t.nodes[parent->0], k)),
                    roots: t.roots,
                }
            } else {
                Listing { nodes: grown, roots: t.roots.push(k) }
            }
        },
    }
}

/// Where the node of a component is, before or after it was visited.
pub open spec fn visited_place(t: Listing, path: Seq<char>, end: int) -> int {
    match place(t.nodes, live_id(path.take(end))) {
        Some(k) => k,
        None => t.nodes.len() as int,
    }
}

/// A listing after the rest of a path, from the component that begins at `at`.
pub open spec fn inserted_from(
    t: Listing,
    parent: Option<int>,
    path: Seq<char>,
    at: int,
    status: DotKind,
) -> Listing
    decreases path.len() - at + 1,
{
    if at < 0 || at >= path.len() || !(at <= component_end(path, at) <= path.len()) {
        t
    } else {
        let end = component_end(path, at);
        inserted_from(
            visited(t, parent, path, at, end, status),
            Some(visited_place(t, path, end)),
            path,
            end + 1,
            status,
        )
    }
}

/// A listing with one more path and every folder above it.
pub open spec fn inserted(t: Listing, path: Seq<char>, status: DotKind) -> Listing {
    inserted_from(t, None, path, 0, status)
}

/// The nodes after the folders above a path took in a status, up to the
/// separator before `end`.
pub open spec fn tinted_above(
    nodes: Seq<NodeView>,
    path: Seq<char>,
    end: int,
    status: DotKind,
) -> Seq<NodeView>
    decreases end,
{
    if end <= 0 || end > path.len() {
        nodes
    } else {
        let before = tinted_above(nodes, path, end - 1, status);
        if path[end - 1] == '/' {
            match place(before, live_id(path.take(end - 1))) {
                Some(k) => before.update(k, tinted(before[k], status)),
                None => before,
            }
        } else {
            before
        }
    }
}

/// A tree under construction.
#[derive(Debug)]
struct Builder {
    nodes: Vec<Node>,
    index: HashMap<u64, usize>,
    roots: Vec<usize>,
}

/// Whether a list of places is in order and inside a list of `len`.
pub open spec fn ascends(len: int, list: Seq<usize>) -> bool {
    &&& forall|i: int| 0 <= i < list.len() ==> (#[trigger] list[i]) < len
    &&& forall|i: int, j: int|
        0 <= i < j < list.len() ==> (#[trigger] list[i]) < (#[trigger] list[j])
}

/// Whether every node is found by its id, and children come after their
/// folders, in the order they were made.
spec fn builder_wf(b: Builder) -> bool {
    &&& ascends(b.nodes@.len() as int, b.roots@)
    &&& forall|k: int|
        0 <= k < b.nodes@.len() ==> ((#[trigger] b.nodes@[k]).children matches Some(list)
            ==> ascends(b.nodes@.len() as int, list@) && forall|i: int|
            0 <= i < list@.len() ==> k < #[trigger] list@[i])
    &&& forall|id: u64| #[trigger]
        b.index@.contains_key(id) <==> place(node_views(b.nodes@), id) is Some
    &&& forall|id: u64|
        #[trigger] b.index@.contains_key(id) ==> place(node_views(b.nodes@), id) == Some(
            b.index@[id] as int,
        )
}

impl Builder {
    spec fn view(&self) -> Listing {
        Listing { nodes: node_views(self.nodes@), roots: self.roots@ }
    }
}

/// Changing a node but not its id moves no node.
proof fn lemma_place_update(nodes: Seq<NodeView>, k: int, node: NodeView, id: u64)
    requires
        0 <= k < nodes.len(),
        node.id == nodes[k].id,
    ensures
        place(nodes.update(k, node), id) == place(nodes, id),
    decreases nodes.len(),
{
    let after = nodes.update(k, node);
    if k == nodes.len() - 1 {
        assert(after.drop_last() =~= nodes.drop_last());
    } else {
        assert(after.drop_last() =~= nodes.drop_last().update(k, node));
        lemma_place_update(nodes.drop_last(), k, node, id);
    }
}

/// A node that is found is the one asked for.
pub proof fn lemma_place(nodes: Seq<NodeView>, id: u64)
    ensures
        place(nodes, id) matches Some(k) ==> 0 <= k < nodes.len() && nodes[k].id == id,
        place(nodes, id) is None ==> forall|k: int|
            0 <= k < nodes.len() ==> (#[trigger] nodes[k]).id != id,
    decreases nodes.len(),
{
    if nodes.len() > 0 {
        lemma_place(nodes.drop_last(), id);
        if place(nodes, id) is None {
            assert forall|k: int| 0 <= k < nodes.len() implies (#[trigger] nodes[k]).id != id by {
                if k < nodes.len() - 1 {
                    assert(nodes.drop_last()[k].id != id);
                }
            }
        }
    }
}

proof fn lemma_place_push(nodes: Seq<NodeView>, node: NodeView, id: u64)
    ensures
        place(nodes.push(node), id) == (if node.id == id {
            Some(nodes.len() as int)
        } else {
            place(nodes, id)
        }),
{
    assert(nodes.push(node).drop_last() =~= nodes);
}

impl Builder {
    fn find(&self, id: u64) -> (k: Option<usize>)
        requires
            builder_wf(*self),
        ensures
            (match k {
                Some(k) => place(self@.nodes, id) == Some(k as int) && k < self.nodes@.len(),
                None => place(self@.nodes, id) is None,
            }),
    {
        match self.index.get(&id) {
            Some(k) => {
                proof {
                    lemma_place(self@.nodes, id);
                }
                Some(*k)
            },
            None => None,
        }
    }

    /// Merges a status into a node.
    fn tint(&mut self, k: usize, status: DotKind)
        requires
            builder_wf(*old(self)),
            k < old(self).nodes@.len(),
        ensures
            builder_wf(*final(self)),
            final(self)@ == (Listing {
                nodes: old(self)@.nodes.update(k as int, tinted(old(self)@.nodes[k as int], status)),
                ..old(self)@
            }),
            final(self).nodes@.len() == old(self).nodes@.len(),
    {
        let kind = merge(self.nodes[k].status, status);
        self.nodes[k].status = kind;
        let ghost node = tinted(old(self)@.nodes[k as int], status);
        assert(self@.nodes =~= old(self)@.nodes.update(k as int, node));
        assert forall|id: u64| place(self@.nodes, id) == place(old(self)@.nodes, id) by {
            lemma_place_update(old(self)@.nodes, k as int, node, id);
        }
    }

    /// Takes in one component of a path; says where its node is.
    fn visit(
        &mut self,
        parent: Option<usize>,
        path: &Vec<char>,
        at: usize,
        end: usize,
        status: DotKind,
    ) -> (k: usize)
        requires
            builder_wf(*old(self)),
            at <= end <= path.len(),
            parent matches Some(p) ==> p < old(self).nodes@.len(),
        ensures
            builder_wf(*final(self)),
            final(self)@ == visited(
                old(self)@,
                match parent {
                    Some(p) => Some(p as int),
                    None => None,
                },
                path@,
                at as int,
                end as int,
                status,
            ),
            k == visited_place(old(self)@, path@, end as int),
            k < final(self).nodes@.len(),
    {
        let prefix = from_chars(path, 0, end);
        assert(prefix@ =~= path@.take(end as int));
        let id = id_of(prefix.as_str());
        match self.find(id) {
            Some(k) => {
                self.tint(k, status);
                k
            },
            None => {
                let k: usize = self.nodes.len();
                let name = from_chars(path, at, end);
                let children = if end < path.len() {
                    Some(Vec::new())
                } else {
                    None
                };
                let node = Node { id, path: prefix, name, children, status };
                let ghost fresh = fresh_node(path@, at as int, end as int, status);
                assert(node@.children =~= fresh.children);
                assert(node@ == fresh);
                self.nodes.push(node);
                self.index.insert(id, k);
                let ghost grown = old(self)@.nodes.push(fresh);
                assert(self@.nodes =~= grown);
                assert forall|i: u64| place(grown, i) == (if i == id {
                    Some(k as int)
                } else {
                    place(old(self)@.nodes, i)
                }) by {
                    lemma_place_push(old(self)@.nodes, fresh, i);
                }
                assert(builder_wf(*self));
                let folder = match parent {
                    Some(p) => self.nodes[p].children.is_some(),
                    None => false,
                };
                if folder {
                    if let Some(p) = parent {
                        let ghost before = self@.nodes;
                        let mut children: Option<Vec<usize>> = None;
                        std::mem::swap(&mut children, &mut self.nodes[p].children);
                        if let Some(mut list) = children {
                            list.push(k);
                            self.nodes[p].children = Some(list);
                        }
                        let ghost node = with_child(before[p as int], k);
                        assert(self@.nodes =~= before.update(p as int, node));
                        assert forall|i: u64| place(self@.nodes, i) == place(before, i) by {
                            lemma_place_update(before, p as int, node, i);
                        }
                    }
                } else {
                    self.roots.push(k);
                }
                k
            },
        }
    }

    /// Materializes a path and every folder above it, merging its status into
    /// each on the way down.
    fn insert(&mut self, path: &str, status: DotKind)
        requires
            builder_wf(*old(self)),
        ensures
            builder_wf(*final(self)),
            final(self)@ == inserted(old(self)@, path@, status),
    {
        let chars = to_chars(path);
        let mut parent: Option<usize> = None;
        let mut at: usize = 0;
        while at < chars.len()
            invariant
                builder_wf(*self),
                chars@ == path@,
                at <= chars@.len(),
                parent matches Some(p) ==> p < self.nodes@.len(),
                inserted(old(self)@, path@, status) == inserted_from(
                    self@,
                    match parent {
                        Some(p) => Some(p as int),
                        None => None,
                    },
                    path@,
                    at as int,
                    status,
                ),
            decreases chars.len() - at,
        {
            let mut end: usize = at;
            while end < chars.len() && chars[end] != '/'
                invariant
                    at <= end <= chars.len(),
                    component_end(chars@, at as int) == component_end(chars@, end as int),
                decreases chars.len() - end,
            {
                end += 1;
            }
            proof {
                lemma_component_end(path@, at as int);
            }
            let k = self.visit(parent, &chars, at, end, status);
            parent = Some(k);
            if end == chars.len() {
                assert(inserted_from(self@, Some(k as int), path@, end + 1, status) == self@);
                return;
            }
            at = end + 1;
        }
    }

    /// Merges a status into a path's surviving ancestors without listing the
    /// path itself: what a deletion leaves behind at the head.
    fn tint_ancestors(&mut self, path: &str, status: DotKind)
        requires
            builder_wf(*old(self)),
        ensures
            builder_wf(*final(self)),
            final(self)@ == (Listing {
                nodes: tinted_above(old(self)@.nodes, path@, path@.len() as int, status),
                ..old(self)@
            }),
            final(self).nodes@.len() == old(self).nodes@.len(),
    {
        let chars = to_chars(path);
        let mut at: usize = 0;
        while at < chars.len()
            invariant
                builder_wf(*self),
                chars@ == path@,
                at <= chars@.len(),
                self@ == (Listing {
                    nodes: tinted_above(old(self)@.nodes, path@, at as int, status),
                    ..old(self)@
                }),
                self.nodes@.len() == old(self).nodes@.len(),
            decreases chars.len() - at,
        {
            if chars[at] == '/' {
                let prefix = from_chars(&chars, 0, at);
                assert(prefix@ =~= path@.take(at as int));
                let id = id_of(prefix.as_str());
                if let Some(k) = self.find(id) {
                    self.tint(k, status);
                }
            }
            at += 1;
        }
    }
}

// ---------------------------------------------------------------------------
// Sorting
// ---------------------------------------------------------------------------

/// What siblings are sorted by: folders first, then by name, whatever its case.
struct NameKey {
    is_file: bool,
    name: String,
}

impl SortKey for NameKey {
    closed spec fn before(self, other: NameKey) -> bool {
        name_before(self.is_file, self.name@, other.is_file, other.name@)
    }

    proof fn order_law(a: NameKey, b: NameKey, c: NameKey) {
        lemma_text_irreflexive(a.name@);
        lemma_text_total(a.name@, b.name@);
        lemma_text_total(b.name@, c.name@);
        if text_before(a.name@, b.name@) && text_before(b.name@, a.name@) {
            lemma_text_transitive(a.name@, b.name@, a.name@);
        }
        if text_before(a.name@, b.name@) && text_before(b.name@, c.name@) {
            lemma_text_transitive(a.name@, b.name@, c.name@);
        }
        if text_before(c.name@, a.name@) && text_before(a.name@, b.name@) {
            lemma_text_transitive(c.name@, a.name@, b.name@);
        }
        if text_before(b.name@, c.name@) && text_before(c.name@, a.name@) {
            lemma_text_transitive(b.name@, c.name@, a.name@);
        }
    }

    fn is_before(&self, other: &NameKey) -> (r: bool) {
        if self.is_file == other.is_file {
            is_text_before(self.name.as_str(), other.name.as_str())
        } else {
            !self.is_file
        }
    }
}

/// The order of siblings: folders first, then by the name in lower case.
pub open spec fn name_before(
    a_file: bool,
    a_name: Seq<char>,
    b_file: bool,
    b_name: Seq<char>,
) -> bool {
    (!a_file && b_file) || (a_file == b_file && text_before(a_name, b_name))
}

/// Whether a node comes before a sibling: by kind and name, and of two that tie
/// the one that was made first.
pub open spec fn comes_first(nodes: Seq<NodeView>, a: usize, b: usize) -> bool {
    let x = nodes[a as int];
    let y = nodes[b as int];
    let (xf, xn) = (x.children is None, lowercase(x.name));
    let (yf, yn) = (y.children is None, lowercase(y.name));
    name_before(xf, xn, yf, yn) || (!name_before(yf, yn, xf, xn) && a < b)
}

/// Whether one list is the other in the order that siblings are drawn in.
pub open spec fn is_sorted(nodes: Seq<NodeView>, before: Seq<usize>, after: Seq<usize>) -> bool {
    &&& after.len() == before.len()
    &&& forall|x: usize| #[trigger] before.contains(x) <==> after.contains(x)
    &&& forall|i: int, j: int|
        0 <= i < j < after.len() ==> comes_first(nodes, #[trigger] after[i], #[trigger] after[j])
}

/// Sorts siblings.
fn sort_siblings(nodes: &Vec<Node>, list: &Vec<usize>) -> (sorted: Vec<usize>)
    requires
        ascends(nodes@.len() as int, list@),
    ensures
        is_sorted(node_views(nodes@), list@, sorted@),
        forall|i: int| 0 <= i < sorted@.len() ==> (#[trigger] sorted@[i]) < nodes@.len(),
{
    let ghost all = node_views(nodes@);
    let mut keys: Vec<NameKey> = Vec::new();
    let mut i: usize = 0;
    while i < list.len()
        invariant
            i <= list.len(),
            keys@.len() == i,
            all == node_views(nodes@),
            ascends(nodes@.len() as int, list@),
            forall|k: int|
                0 <= k < i ==> (#[trigger] keys@[k]).is_file == (all[list@[k] as int].children
                    is None) && keys@[k].name@ == lowercase(all[list@[k] as int].name),
        decreases list.len() - i,
    {
        let node = &nodes[list[i]];
        assert(all[list@[i as int] as int] == node@);
        keys.push(
            NameKey { is_file: node.children.is_none(), name: to_lowercase(node.name.as_str()) },
        );
        i += 1;
    }
    let order = stable_order(&keys);
    let mut sorted: Vec<usize> = Vec::new();
    let mut n: usize = 0;
    while n < order.len()
        invariant
            n <= order.len(),
            order@.len() == list@.len(),
            forall|k: int| 0 <= k < order@.len() ==> (#[trigger] order@[k]) < list@.len(),
            sorted@.len() == n,
            forall|k: int| 0 <= k < n ==> (#[trigger] sorted@[k]) == list@[order@[k] as int],
        decreases order.len() - n,
    {
        sorted.push(list[order[n]]);
        n += 1;
    }
    assert forall|a: int, b: int| 0 <= a < b < sorted@.len() implies comes_first(
        all,
        #[trigger] sorted@[a],
        #[trigger] sorted@[b],
    ) by {
        let x = order@[a] as int;
        let y = order@[b] as int;
        assert(crate::order::precedes(keys@, x, y));
        assert(sorted@[a] == list@[x]);
        assert(sorted@[b] == list@[y]);
    }
    assert forall|x: usize| #[trigger] list@.contains(x) <==> sorted@.contains(x) by {
        if list@.contains(x) {
            let k = choose|k: int| 0 <= k < list@.len() && list@[k] == x;
            crate::order::lemma_arrangement_covers(order@, keys@.len(), k as usize);
            let m = choose|m: int| 0 <= m < keys@.len() && order@[m] == k as usize;
            assert(sorted@[m] == x);
        }
        if sorted@.contains(x) {
            let m = choose|m: int| 0 <= m < sorted@.len() && sorted@[m] == x;
            assert(list@[order@[m] as int] == x);
        }
    }
    sorted
}

// ---------------------------------------------------------------------------
// Building
// ---------------------------------------------------------------------------

/// The dot of a listed path: what the range did to it, if anything.
pub open spec fn kind_of(dots: Map<Seq<char>, DotKind>, path: Seq<char>) -> DotKind {
    if dots.contains_key(path) {
        dots[path]
    } else {
        DotKind::Clean
    }
}

/// The listing of a list of paths, one after another.
pub open spec fn listing_of(paths: Seq<String>, dots: Map<Seq<char>, DotKind>) -> Listing
    decreases paths.len(),
{
    if paths.len() == 0 {
        Listing { nodes: Seq::empty(), roots: Seq::empty() }
    } else {
        inserted(
            listing_of(paths.drop_last(), dots),
            paths.last()@,
            kind_of(dots, paths.last()@),
        )
    }
}

/// The nodes after every touched path that is not listed has tinted the
/// folders above it.
pub open spec fn with_gone(
    nodes: Seq<NodeView>,
    gone: Seq<PathDot>,
    dots: Map<Seq<char>, DotKind>,
) -> Seq<NodeView>
    decreases gone.len(),
{
    if gone.len() == 0 {
        nodes
    } else {
        let before = with_gone(nodes, gone.drop_last(), dots);
        let path = gone.last().path@;
        if place(before, live_id(path)) is Some {
            before
        } else {
            tinted_above(before, path, path.len() as int, dots[path])
        }
    }
}

/// The kinds of the nodes at some places, merged; nothing to merge is clean.
pub open spec fn merged_kinds(nodes: Seq<NodeView>, list: Seq<usize>) -> DotKind
    decreases list.len(),
{
    if list.len() == 0 {
        DotKind::Clean
    } else if list.len() == 1 {
        nodes[list[0] as int].status
    } else {
        merged(merged_kinds(nodes, list.drop_last()), nodes[list.last() as int].status)
    }
}

/// Whether a node is another one with its children sorted.
pub open spec fn node_sorted(nodes: Seq<NodeView>, before: NodeView, after: NodeView) -> bool {
    &&& after == (NodeView { children: after.children, ..before })
    &&& match (before.children, after.children) {
        (Some(b), Some(a)) => is_sorted(nodes, b, a),
        (None, None) => true,
        _ => false,
    }
}

/// The head listing as drawable nodes, folders first at every level, all of it
/// under one row named for the repository.
#[derive(Debug)]
pub struct FileTree {
    pub nodes: Vec<Node>,
    pub index: HashMap<u64, usize>,
    pub roots: Vec<usize>,
    pub name: String,
    pub status: DotKind,
}

/// Whether a tree is the one of a listing: its nodes with their children
/// sorted, its roots sorted, and the repository row's dot merged from theirs.
pub open spec fn is_tree_of(t: Listing, tree: FileTree) -> bool {
    let nodes = node_views(tree.nodes@);
    &&& nodes.len() == t.nodes.len()
    &&& forall|k: int|
        0 <= k < nodes.len() ==> node_sorted(t.nodes, t.nodes[k], #[trigger] nodes[k])
    &&& is_sorted(t.nodes, t.roots, tree.roots@)
    &&& tree.status == merged_kinds(t.nodes, tree.roots@)
}

impl FileTree {
    /// Nodes are found by their ids, and children come after their folders.
    pub open spec fn wf(&self) -> bool {
        let nodes = node_views(self.nodes@);
        &&& forall|id: u64| #[trigger]
            self.index@.contains_key(id) <==> place(nodes, id) is Some
        &&& forall|id: u64| #[trigger]
            self.index@.contains_key(id) ==> place(nodes, id) == Some(self.index@[id] as int)
        &&& forall|i: int|
            0 <= i < self.roots@.len() ==> (#[trigger] self.roots@[i]) < nodes.len()
        &&& forall|k: int, i: int|
            0 <= k < nodes.len() && nodes[k].children is Some && 0 <= i < (
            nodes[k].children->0).len() ==> k < #[trigger] (nodes[k].children->0)[i] < nodes.len()
    }

    /// The node with an id.
    pub fn get(&self, id: u64) -> (node: Option<&Node>)
        requires
            self.wf(),
        ensures
            (match node {
                Some(node) => place(node_views(self.nodes@), id) matches Some(k) && 0 <= k
                    < self.nodes@.len() && self.nodes@[k] == *node,
                None => place(node_views(self.nodes@), id) is None,
            }),
    {
        match self.index.get(&id) {
            Some(k) => {
                proof {
                    lemma_place(node_views(self.nodes@), id);
                }
                Some(&self.nodes[*k])
            },
            None => None,
        }
    }

    /// The id of the repository row: that of the empty path, the prefix that
    /// every listed path shares.
    pub fn root_id(&self) -> (id: u64)
        ensures
            id == live_id(""@),
    {
        id_of("")
    }

    /// What a click on a file asks for: its path. A folder needs no handling,
    /// as the tree owns its own open and closed state.
    pub fn file_clicked(&self, id: u64) -> (action: FileBrowserAction)
        requires
            self.wf(),
        ensures
            (match place(node_views(self.nodes@), id) {
                Some(k) => action matches FileBrowserAction::OpenFile(path) && path@ == node_views(
                    self.nodes@,
                )[k].path,
                None => action is Nothing,
            }),
    {
        match self.get(id) {
            Some(node) => FileBrowserAction::OpenFile(node.path.clone()),
            None => FileBrowserAction::Nothing,
        }
    }
}

/// Sorting the children of a node does not change how siblings compare.
proof fn lemma_sorted_same(
    a: Seq<NodeView>,
    b: Seq<NodeView>,
    before: Seq<usize>,
    after: Seq<usize>,
)
    requires
        a.len() == b.len(),
        forall|k: int|
            0 <= k < a.len() ==> (#[trigger] a[k]).name == b[k].name && (a[k].children is Some)
                == (b[k].children is Some),
        is_sorted(a, before, after),
        forall|i: int| 0 <= i < after.len() ==> (#[trigger] after[i]) < a.len(),
    ensures
        is_sorted(b, before, after),
{
    assert forall|i: int, j: int| 0 <= i < j < after.len() implies comes_first(
        b,
        #[trigger] after[i],
        #[trigger] after[j],
    ) by {
        assert(comes_first(a, after[i], after[j]));
        assert(a[after[i] as int].name == b[after[i] as int].name);
        assert(a[after[j] as int].name == b[after[j] as int].name);
    }
}

/// The file tree of a range: the head listing, each folder dotted with what the
/// range did under it. `dots` covers every path that the range touched, also
/// those that are not listed: a folder whose only change is a deletion still
/// shows a dot.
pub fn build(paths: &Vec<String>, dots: &DotMap, repo: &str) -> (tree: FileTree)
    ensures
        tree.wf(),
        tree.name@ == repo@,
        ({
            let t = listing_of(paths@, dots@);
            is_tree_of(
                Listing { nodes: with_gone(t.nodes, dots.dots@, dots@), roots: t.roots },
                tree,
            )
        }),
{
    let mut b = Builder { nodes: Vec::new(), index: HashMap::new(), roots: Vec::new() };
    assert(b@.nodes =~= Seq::empty());
    assert(b@.roots =~= Seq::empty());
    let mut i: usize = 0;
    while i < paths.len()
        invariant
            i <= paths.len(),
            builder_wf(b),
            b@ == listing_of(paths@.take(i as int), dots@),
        decreases paths.len() - i,
    {
        assert(paths@.take(i + 1).drop_last() =~= paths@.take(i as int));
        let kind = match dots.get(paths[i].as_str()) {
            Some(kind) => kind,
            None => DotKind::Clean,
        };
        b.insert(paths[i].as_str(), kind);
        i += 1;
    }
    assert(paths@.take(paths@.len() as int) =~= paths@);
    let ghost t = listing_of(paths@, dots@);
    let mut g: usize = 0;
    while g < dots.dots.len()
        invariant
            g <= dots.dots.len(),
            builder_wf(b),
            b@ == (Listing {
                nodes: with_gone(t.nodes, dots.dots@.take(g as int), dots@),
                roots: t.roots,
            }),
        decreases dots.dots.len() - g,
    {
        let ghost so_far = dots.dots@.take(g + 1);
        assert(so_far.drop_last() =~= dots.dots@.take(g as int));
        let path = dots.dots[g].path.as_str();
        proof {
            lemma_dots_listed(dots.dots@, g as int);
        }
        let id = id_of(path);
        if b.find(id).is_none() {
            if let Some(kind) = dots.get(path) {
                b.tint_ancestors(path, kind);
            }
        }
        g += 1;
    }
    assert(dots.dots@.take(dots.dots@.len() as int) =~= dots.dots@);
    let ghost done = b@;
    let roots = sort_siblings(&b.nodes, &b.roots);
    let Builder { nodes: made, index, roots: _ } = b;
    let mut nodes = made;
    let mut k: usize = 0;
    while k < nodes.len()
        invariant
            k <= nodes.len(),
            node_views(nodes@).len() == done.nodes.len(),
            forall|m: int|
                0 <= m < k ==> node_sorted(
                    done.nodes,
                    done.nodes[m],
                    #[trigger] node_views(nodes@)[m],
                ),
            forall|m: int|
                k <= m < nodes@.len() ==> done.nodes[m] == #[trigger] node_views(nodes@)[m],
            forall|m: int|
                0 <= m < nodes@.len() ==> ((#[trigger] nodes@[m]).children matches Some(list)
                    ==> forall|i: int|
                    0 <= i < list@.len() ==> m < #[trigger] list@[i] < nodes@.len()),
            forall|m: int|
                k <= m < nodes@.len() ==> ((#[trigger] nodes@[m]).children matches Some(list)
                    ==> ascends(nodes@.len() as int, list@)),
        decreases nodes.len() - k,
    {
        let ghost was = nodes@;
        let ghost views_was = node_views(nodes@);
        if let Some(list) = &nodes[k].children {
            let sorted = sort_siblings(&nodes, list);
            proof {
                assert(views_was[k as int] == done.nodes[k as int]);
                assert forall|m: int| 0 <= m < views_was.len() implies (
                #[trigger] views_was[m]).name == done.nodes[m].name && (
                views_was[m].children is Some) == (done.nodes[m].children is Some) by {
                    if m < k {
                        assert(node_sorted(done.nodes, done.nodes[m], views_was[m]));
                    } else {
                        assert(done.nodes[m] == views_was[m]);
                    }
                }
                lemma_sorted_same(views_was, done.nodes, list@, sorted@);
                assert forall|i: int| 0 <= i < sorted@.len() implies k < #[trigger] sorted@[i]
                    < nodes@.len() by {
                    assert(sorted@.contains(sorted@[i]));
                    assert(list@.contains(sorted@[i]));
                    let j = choose|j: int| 0 <= j < list@.len() && list@[j] == sorted@[i];
                    assert(was[k as int].children matches Some(l) && k < l@[j]);
                }
            }
            nodes[k].children = Some(sorted);
        }
        assert forall|m: int| 0 <= m < nodes@.len() && m != k implies #[trigger] node_views(
            nodes@,
        )[m] == views_was[m] by {
            assert(nodes@[m] == was[m]);
        }
        k += 1;
    }
    let ghost after = node_views(nodes@);
    assert forall|m: int| 0 <= m < after.len() implies (#[trigger] after[m]).id
        == done.nodes[m].id by {
        assert(node_sorted(done.nodes, done.nodes[m], after[m]));
    }
    assert forall|id: u64| place(after, id) == place(done.nodes, id) by {
        lemma_place_ids(after, done.nodes, id);
    }
    let status = reduce_status(&nodes, &roots);
    proof {
        lemma_merged_kinds(after, done.nodes, roots@);
    }
    FileTree { nodes, index, roots, name: repo.to_owned(), status }
}

/// A dot that is listed is in the map.
proof fn lemma_dots_listed(dots: Seq<PathDot>, g: int)
    requires
        0 <= g < dots.len(),
    ensures
        dots_of(dots).contains_key(dots[g].path@),
    decreases dots.len(),
{
    if g < dots.len() - 1 {
        lemma_dots_listed(dots.drop_last(), g);
    }
}

/// Where a node is depends on the ids alone.
proof fn lemma_place_ids(a: Seq<NodeView>, b: Seq<NodeView>, id: u64)
    requires
        a.len() == b.len(),
        forall|k: int| 0 <= k < a.len() ==> (#[trigger] a[k]).id == b[k].id,
    ensures
        place(a, id) == place(b, id),
    decreases a.len(),
{
    if a.len() > 0 {
        assert(a.last().id == b.last().id);
        assert forall|k: int| 0 <= k < a.len() - 1 implies (#[trigger] a.drop_last()[k]).id
            == b.drop_last()[k].id by {
            assert(a[k].id == b[k].id);
        }
        lemma_place_ids(a.drop_last(), b.drop_last(), id);
    }
}

/// Merged kinds depend on the statuses alone.
proof fn lemma_merged_kinds(a: Seq<NodeView>, b: Seq<NodeView>, list: Seq<usize>)
    requires
        a.len() == b.len(),
        forall|k: int| 0 <= k < a.len() ==> node_sorted(b, b[k], #[trigger] a[k]),
        forall|i: int| 0 <= i < list.len() ==> (#[trigger] list[i]) < a.len(),
    ensures
        merged_kinds(a, list) == merged_kinds(b, list),
    decreases list.len(),
{
    if list.len() > 0 {
        assert(node_sorted(b, b[list.last() as int], a[list.last() as int]));
        assert(node_sorted(b, b[list[0] as int], a[list[0] as int]));
        if list.len() > 1 {
            lemma_merged_kinds(a, b, list.drop_last());
        }
    }
}

fn reduce_status(nodes: &Vec<Node>, list: &Vec<usize>) -> (kind: DotKind)
    requires
        forall|i: int| 0 <= i < list@.len() ==> (#[trigger] list@[i]) < nodes@.len(),
    ensures
        kind == merged_kinds(node_views(nodes@), list@),
{
    if list.len() == 0 {
        return DotKind::Clean;
    }
    let ghost all = node_views(nodes@);
    let mut kind = nodes[list[0]].status;
    let mut i: usize = 1;
    assert(list@.take(1).len() == 1 && list@.take(1)[0] == list@[0]);
    while i < list.len()
        invariant
            1 <= i <= list.len(),
            all == node_views(nodes@),
            forall|k: int| 0 <= k < list@.len() ==> (#[trigger] list@[k]) < nodes@.len(),
            kind == merged_kinds(all, list@.take(i as int)),
        decreases list.len() - i,
    {
        assert(list@.take(i + 1).drop_last() =~= list@.take(i as int));
        assert(all[list@[i as int] as int].status == nodes@[list@[i as int] as int].status);
        kind = merge(kind, nodes[list[i]].status);
        i += 1;
    }
    assert(list@.take(list@.len() as int) =~= list@);
    kind
}

// ---------------------------------------------------------------------------
// What the tree says
// ---------------------------------------------------------------------------

/// Whether a component of a path ends at `e`: before a separator, or with a
/// path that does not end in one.
pub open spec fn ends_component(path: Seq<char>, e: int) -> bool {
    ||| 0 <= e < path.len() && path[e] == '/'
    ||| e == path.len() && e > 0 && path.last() != '/'
}

/// Whether a path is another one or a folder above it.
pub open spec fn at_or_above(q: Seq<char>, path: Seq<char>) -> bool {
    q.len() <= path.len() && q == path.take(q.len() as int) && ends_component(
        path,
        q.len() as int,
    )
}

/// Whether a path is a folder above another one.
pub open spec fn above(q: Seq<char>, path: Seq<char>) -> bool {
    q.len() < path.len() && q == path.take(q.len() as int) && path[q.len() as int] == '/'
}

/// Whether no folder above a path, nor the path itself, has the id of another
/// path `q`.
pub open spec fn apart(q: Seq<char>, path: Seq<char>) -> bool {
    forall|e: int|
        0 <= e <= path.len() && live_id(#[trigger] path.take(e)) == live_id(q) ==> path.take(e)
            == q
}

/// Whether none of these paths, and no folder above one, has the id of another
/// path `q`.
pub open spec fn apart_from_all(q: Seq<char>, paths: Seq<String>) -> bool {
    forall|i: int| 0 <= i < paths.len() ==> apart(q, (#[trigger] paths[i])@)
}

/// The dot of the node of a path, if there is one.
pub open spec fn dot_at(nodes: Seq<NodeView>, q: Seq<char>) -> Option<DotKind> {
    match place(nodes, live_id(q)) {
        Some(k) => Some(nodes[k].status),
        None => None,
    }
}

/// A dot with another kind merged in; where there is none yet, that kind.
pub open spec fn folded_in(dot: Option<DotKind>, kind: DotKind) -> Option<DotKind> {
    match dot {
        Some(d) => Some(merged(d, kind)),
        None => Some(kind),
    }
}

/// The kinds of the listed paths at or under a path, merged; `None` when there
/// are none.
pub open spec fn kinds_under(
    paths: Seq<String>,
    dots: Map<Seq<char>, DotKind>,
    q: Seq<char>,
) -> Option<DotKind>
    decreases paths.len(),
{
    if paths.len() == 0 {
        None
    } else {
        let before = kinds_under(paths.drop_last(), dots, q);
        let path = paths.last()@;
        if at_or_above(q, path) {
            folded_in(before, kind_of(dots, path))
        } else {
            before
        }
    }
}

proof fn lemma_component_inside(path: Seq<char>, at: int, e: int)
    requires
        0 <= at <= e < component_end(path, at),
        at <= path.len(),
    ensures
        e < path.len(),
        path[e] != '/',
    decreases e - at,
{
    lemma_component_end(path, at);
    if e > at {
        lemma_component_inside(path, at + 1, e);
    }
}

/// What one visit does to the dots: that of the visited prefix takes the
/// status in, and no other changes.
proof fn lemma_visited_dot(
    t: Listing,
    parent: Option<int>,
    path: Seq<char>,
    at: int,
    end: int,
    status: DotKind,
    q: Seq<char>,
)
    requires
        apart(q, path),
        0 <= at <= end <= path.len(),
    ensures
        dot_at(visited(t, parent, path, at, end, status).nodes, q) == (if q == path.take(end) {
            folded_in(dot_at(t.nodes, q), status)
        } else {
            dot_at(t.nodes, q)
        }),
{
    let prefix = path.take(end);
    let id = live_id(prefix);
    lemma_place(t.nodes, id);
    lemma_place(t.nodes, live_id(q));
    match place(t.nodes, id) {
        Some(k) => {
            lemma_place_update(t.nodes, k, tinted(t.nodes[k], status), live_id(q));
        },
        None => {
            let fresh = fresh_node(path, at, end, status);
            let grown = t.nodes.push(fresh);
            lemma_place_push(t.nodes, fresh, live_id(q));
            if is_folder(t.nodes, parent) {
                let p = parent->0;
                let k = t.nodes.len() as usize;
                assert(grown[p] == t.nodes[p]);
                lemma_place_update(grown, p, with_child(t.nodes[p], k), live_id(q));
            }
        },
    }
}

proof fn lemma_inserted_dot(
    t: Listing,
    parent: Option<int>,
    path: Seq<char>,
    at: int,
    status: DotKind,
    q: Seq<char>,
)
    requires
        apart(q, path),
        0 <= at <= path.len(),
        at > 0 ==> path[at - 1] == '/',
    ensures
        dot_at(inserted_from(t, parent, path, at, status).nodes, q) == (if q.len() >= at
            && at_or_above(q, path) {
            folded_in(dot_at(t.nodes, q), status)
        } else {
            dot_at(t.nodes, q)
        }),
    decreases path.len() - at,
{
    if at < path.len() {
        lemma_component_end(path, at);
        let end = component_end(path, at);
        let next = visited(t, parent, path, at, end, status);
        lemma_visited_dot(t, parent, path, at, end, status, q);
        if end < path.len() {
            lemma_inserted_dot(
                next,
                Some(visited_place(t, path, end)),
                path,
                end + 1,
                status,
                q,
            );
        }
        let n = q.len() as int;
        if at <= n < end {
            lemma_component_inside(path, at, n);
        }
        if end == path.len() && at < end {
            lemma_component_inside(path, at, end - 1);
        }
        if n == end {
            assert(q == path.take(end) ==> at_or_above(q, path));
        }
    }
}

/// Every listed path and every folder above one has a node, and its dot is
/// merged from the listed paths at or under it. Other paths have none. Two paths
/// that share an id share a node, so this is said of a path that shares none.
pub proof fn a_folder_shows_what_is_under_it(
    paths: Seq<String>,
    dots: Map<Seq<char>, DotKind>,
    q: Seq<char>,
)
    ensures
        apart_from_all(q, paths) ==> dot_at(listing_of(paths, dots).nodes, q) == kinds_under(
            paths,
            dots,
            q,
        ),
    decreases paths.len(),
{
    if apart_from_all(q, paths) && paths.len() > 0 {
        assert forall|i: int| 0 <= i < paths.drop_last().len() implies apart(
            q,
            (#[trigger] paths.drop_last()[i])@,
        ) by {
            assert(paths.drop_last()[i] == paths[i]);
        }
        assert(apart(q, paths[paths.len() - 1]@));
        a_folder_shows_what_is_under_it(paths.drop_last(), dots, q);
        let path = paths.last()@;
        lemma_inserted_dot(
            listing_of(paths.drop_last(), dots),
            None,
            path,
            0,
            kind_of(dots, path),
            q,
        );
    }
}

proof fn lemma_tinted_dot(
    nodes: Seq<NodeView>,
    path: Seq<char>,
    end: int,
    status: DotKind,
    q: Seq<char>,
)
    requires
        apart(q, path),
        0 <= end <= path.len(),
    ensures
        dot_at(tinted_above(nodes, path, end, status), q) == (if q.len() < end && above(q, path)
            && dot_at(nodes, q) is Some {
            folded_in(dot_at(nodes, q), status)
        } else {
            dot_at(nodes, q)
        }),
    decreases end,
{
    if end > 0 {
        lemma_tinted_dot(nodes, path, end - 1, status, q);
        let before = tinted_above(nodes, path, end - 1, status);
        let prefix = path.take(end - 1);
        lemma_place(before, live_id(prefix));
        lemma_place(before, live_id(q));
        if path[end - 1] == '/' {
            if let Some(k) = place(before, live_id(prefix)) {
                lemma_place_update(before, k, tinted(before[k], status), live_id(q));
            }
        }
    }
}

/// A path that went tints the folders above it that are still there, and lists
/// nothing: no node appears, and no other dot changes.
pub proof fn a_deleted_path_tints_its_folders(
    nodes: Seq<NodeView>,
    path: Seq<char>,
    status: DotKind,
    q: Seq<char>,
)
    ensures
        apart(q, path) ==> dot_at(tinted_above(nodes, path, path.len() as int, status), q) == (
        if above(q, path) && dot_at(nodes, q) is Some {
            folded_in(dot_at(nodes, q), status)
        } else {
            dot_at(nodes, q)
        }),
{
    if apart(q, path) {
        lemma_tinted_dot(nodes, path, path.len() as int, status, q);
    }
}

/// What hangs under the node at `p`, or under the repository row for -1.
pub open spec fn hung_under(t: Listing, p: int) -> Seq<usize> {
    if p == -1 {
        t.roots
    } else if 0 <= p < t.nodes.len() && t.nodes[p].children is Some {
        t.nodes[p].children->0
    } else {
        Seq::empty()
    }
}

/// Whether the node at `k` is the `i`th that hangs under `p`.
pub open spec fn hangs(t: Listing, p: int, i: int, k: int) -> bool {
    0 <= i < hung_under(t, p).len() && hung_under(t, p)[i] == k
}

/// Whether the node at `k` hangs somewhere.
pub open spec fn has_place(t: Listing, k: int) -> bool {
    exists|p: int, i: int| #[trigger] hangs(t, p, i, k)
}

/// Whether every node hangs somewhere, and nowhere else: it is in the children
/// of one folder or among the roots, once.
pub open spec fn hang_once(t: Listing) -> bool {
    &&& forall|p: int, i: int, k: int| #[trigger] hangs(t, p, i, k) ==> 0 <= k < t.nodes.len()
    &&& forall|k: int| 0 <= k < t.nodes.len() ==> #[trigger] has_place(t, k)
    &&& forall|p: int, i: int, q: int, j: int, k: int| #[trigger]
        hangs(t, p, i, k) && #[trigger] hangs(t, q, j, k) ==> p == q && i == j
}

/// Nodes that hang where they hung still hang once.
proof fn lemma_hang_same(a: Listing, b: Listing)
    requires
        hang_once(a),
        a.nodes.len() == b.nodes.len(),
        forall|p: int| #[trigger] hung_under(b, p) == hung_under(a, p),
    ensures
        hang_once(b),
{
    assert forall|p: int, i: int, k: int| #[trigger] hangs(b, p, i, k) == hangs(a, p, i, k) by {
        assert(hung_under(b, p) == hung_under(a, p));
    }
    assert forall|k: int| 0 <= k < b.nodes.len() implies #[trigger] has_place(b, k) by {
        assert(has_place(a, k));
        let (p, i) = choose|p: int, i: int| #[trigger] hangs(a, p, i, k);
        assert(hangs(b, p, i, k));
    }
}

/// A node that was made hangs under its parent, and the others where they hung.
proof fn lemma_hang_grown(a: Listing, b: Listing, parent: int)
    requires
        hang_once(a),
        a.nodes.len() < usize::MAX,
        b.nodes.len() == a.nodes.len() + 1,
        parent == -1 || 0 <= parent < a.nodes.len(),
        hung_under(b, parent) == hung_under(a, parent).push(a.nodes.len() as usize),
        forall|p: int| p != parent ==> #[trigger] hung_under(b, p) == hung_under(a, p),
    ensures
        hang_once(b),
{
    let n = a.nodes.len() as int;
    let last = hung_under(a, parent).len() as int;
    assert forall|p: int, i: int, k: int| #[trigger] hangs(b, p, i, k) == (hangs(a, p, i, k) || (p
        == parent && i == last && k == n)) by {
        if p != parent {
            assert(hung_under(b, p) == hung_under(a, p));
        }
    }
    assert forall|p: int, i: int| !hangs(a, p, i, n) by {
        if hangs(a, p, i, n) {
            assert(n < a.nodes.len());
        }
    }
    assert forall|k: int| 0 <= k < b.nodes.len() implies #[trigger] has_place(b, k) by {
        if k == n {
            assert(hangs(b, parent, last, n));
        } else {
            assert(has_place(a, k));
            let (p, i) = choose|p: int, i: int| #[trigger] hangs(a, p, i, k);
            assert(hangs(b, p, i, k));
        }
    }
    assert forall|p: int, i: int, q: int, j: int, k: int| #[trigger]
        hangs(b, p, i, k) && #[trigger] hangs(b, q, j, k) implies p == q && i == j by {
        if k != n {
            assert(hangs(a, p, i, k) && hangs(a, q, j, k));
        } else {
            assert(!hangs(a, p, i, n) && !hangs(a, q, j, n));
        }
    }
}

proof fn lemma_visited_hang(
    t: Listing,
    parent: Option<int>,
    path: Seq<char>,
    at: int,
    end: int,
    status: DotKind,
)
    requires
        hang_once(t),
        visited(t, parent, path, at, end, status).nodes.len() <= usize::MAX,
    ensures
        hang_once(visited(t, parent, path, at, end, status)),
        t.nodes.len() <= visited(t, parent, path, at, end, status).nodes.len(),
{
    let after = visited(t, parent, path, at, end, status);
    lemma_place(t.nodes, live_id(path.take(end)));
    match place(t.nodes, live_id(path.take(end))) {
        Some(k) => {
            assert forall|p: int| #[trigger] hung_under(after, p) == hung_under(t, p) by {}
            lemma_hang_same(t, after);
        },
        None => {
            let fresh = fresh_node(path, at, end, status);
            let under = if is_folder(t.nodes, parent) {
                parent->0
            } else {
                -1
            };
            let n = t.nodes.len() as usize;
            assert(t.nodes.push(fresh).len() == t.nodes.len() + 1);
            assert(hung_under(after, under) == hung_under(t, under).push(n));
            assert forall|p: int| p != under implies #[trigger] hung_under(after, p) == hung_under(
                t,
                p,
            ) by {
                if p == t.nodes.len() {
                    assert(hung_under(after, p) =~= Seq::empty());
                }
            }
            lemma_hang_grown(t, after, under);
        },
    }
}

proof fn lemma_inserted_grows(
    t: Listing,
    parent: Option<int>,
    path: Seq<char>,
    at: int,
    status: DotKind,
)
    ensures
        t.nodes.len() <= inserted_from(t, parent, path, at, status).nodes.len(),
    decreases path.len() - at + 1,
{
    if !(at < 0 || at >= path.len() || !(at <= component_end(path, at) <= path.len())) {
        let end = component_end(path, at);
        lemma_place(t.nodes, live_id(path.take(end)));
        lemma_inserted_grows(
            visited(t, parent, path, at, end, status),
            Some(visited_place(t, path, end)),
            path,
            end + 1,
            status,
        );
    }
}

proof fn lemma_inserted_hang(
    t: Listing,
    parent: Option<int>,
    path: Seq<char>,
    at: int,
    status: DotKind,
)
    requires
        hang_once(t),
        inserted_from(t, parent, path, at, status).nodes.len() <= usize::MAX,
    ensures
        hang_once(inserted_from(t, parent, path, at, status)),
    decreases path.len() - at + 1,
{
    if !(at < 0 || at >= path.len() || !(at <= component_end(path, at) <= path.len())) {
        let end = component_end(path, at);
        let next = visited(t, parent, path, at, end, status);
        let place = Some(visited_place(t, path, end));
        lemma_inserted_grows(next, place, path, end + 1, status);
        lemma_visited_hang(t, parent, path, at, end, status);
        lemma_inserted_hang(next, place, path, end + 1, status);
    }
}

proof fn lemma_listing_hang(paths: Seq<String>, dots: Map<Seq<char>, DotKind>)
    requires
        listing_of(paths, dots).nodes.len() <= usize::MAX,
    ensures
        hang_once(listing_of(paths, dots)),
    decreases paths.len(),
{
    if paths.len() > 0 {
        let before = listing_of(paths.drop_last(), dots);
        let path = paths.last()@;
        lemma_inserted_grows(before, None, path, 0, kind_of(dots, path));
        lemma_listing_hang(paths.drop_last(), dots);
        lemma_inserted_hang(before, None, path, 0, kind_of(dots, path));
    }
}

proof fn lemma_tinted_same(nodes: Seq<NodeView>, path: Seq<char>, end: int, status: DotKind)
    ensures
        tinted_above(nodes, path, end, status).len() == nodes.len(),
        forall|k: int|
            0 <= k < nodes.len() ==> (#[trigger] tinted_above(
                nodes,
                path,
                end,
                status,
            )[k]).children == nodes[k].children,
    decreases end,
{
    if 0 < end <= path.len() {
        lemma_tinted_same(nodes, path, end - 1, status);
        let before = tinted_above(nodes, path, end - 1, status);
        lemma_place(before, live_id(path.take(end - 1)));
    }
}

proof fn lemma_gone_same(
    nodes: Seq<NodeView>,
    gone: Seq<PathDot>,
    dots: Map<Seq<char>, DotKind>,
)
    ensures
        with_gone(nodes, gone, dots).len() == nodes.len(),
        forall|k: int|
            0 <= k < nodes.len() ==> (#[trigger] with_gone(nodes, gone, dots)[k]).children
                == nodes[k].children,
    decreases gone.len(),
{
    if gone.len() > 0 {
        lemma_gone_same(nodes, gone.drop_last(), dots);
        let before = with_gone(nodes, gone.drop_last(), dots);
        let path = gone.last().path@;
        lemma_tinted_same(before, path, path.len() as int, dots[path]);
    }
}

/// In the order that siblings are drawn in, none occurs twice.
proof fn lemma_sorted_distinct(nodes: Seq<NodeView>, before: Seq<usize>, after: Seq<usize>)
    requires
        is_sorted(nodes, before, after),
    ensures
        forall|i: int, j: int|
            0 <= i < after.len() && 0 <= j < after.len() && #[trigger] after[i]
                == #[trigger] after[j] ==> i == j,
{
    assert forall|i: int, j: int|
        0 <= i < j < after.len() implies #[trigger] after[i] != #[trigger] after[j] by {
        assert(comes_first(nodes, after[i], after[j]));
        lemma_text_irreflexive(lowercase(nodes[after[i] as int].name));
    }
}

/// A tree as the rows that hang in it.
pub open spec fn rows_of(tree: FileTree) -> Listing {
    Listing { nodes: node_views(tree.nodes@), roots: tree.roots@ }
}

/// Every node of a file tree has one parent: it is in the children of one
/// folder, or directly under the repository row, and there once. No row is
/// drawn twice, and none is out of reach.
pub proof fn every_node_has_one_parent(
    paths: Seq<String>,
    gone: Seq<PathDot>,
    dots: Map<Seq<char>, DotKind>,
    tree: FileTree,
)
    requires
        is_tree_of(
            (Listing {
                nodes: with_gone(listing_of(paths, dots).nodes, gone, dots),
                roots: listing_of(paths, dots).roots,
            }),
            tree,
        ),
    ensures
        hang_once(rows_of(tree)),
{
    let made = listing_of(paths, dots);
    let a = Listing { nodes: with_gone(made.nodes, gone, dots), roots: made.roots };
    let b = rows_of(tree);
    lemma_gone_same(made.nodes, gone, dots);
    assert(tree.nodes.len() == tree.nodes@.len());
    lemma_listing_hang(paths, dots);
    assert forall|p: int| #[trigger] hung_under(a, p) == hung_under(made, p) by {
        if 0 <= p < made.nodes.len() {
            assert(a.nodes[p].children == made.nodes[p].children);
        }
    }
    lemma_hang_same(made, a);
    assert forall|p: int| is_sorted(a.nodes, hung_under(a, p), #[trigger] hung_under(b, p)) by {
        if 0 <= p < a.nodes.len() {
            assert(node_sorted(a.nodes, a.nodes[p], b.nodes[p]));
        }
    }
    assert forall|p: int, i: int, k: int| #[trigger] hangs(b, p, i, k) implies exists|m: int|
        #[trigger] hangs(a, p, m, k) by {
        assert(is_sorted(a.nodes, hung_under(a, p), hung_under(b, p)));
        assert(hung_under(b, p).contains(k as usize));
        assert(hung_under(a, p).contains(k as usize));
        let m = choose|m: int|
            0 <= m < hung_under(a, p).len() && hung_under(a, p)[m] == k as usize;
        assert(hangs(a, p, m, k));
    }
    assert forall|k: int| 0 <= k < b.nodes.len() implies #[trigger] has_place(b, k) by {
        assert(has_place(a, k));
        let (p, m) = choose|p: int, m: int| #[trigger] hangs(a, p, m, k);
        assert(is_sorted(a.nodes, hung_under(a, p), hung_under(b, p)));
        assert(hung_under(a, p).contains(k as usize));
        assert(hung_under(b, p).contains(k as usize));
        let i = choose|i: int|
            0 <= i < hung_under(b, p).len() && hung_under(b, p)[i] == k as usize;
        assert(hangs(b, p, i, k));
    }
    assert forall|p: int, i: int, q: int, j: int, k: int| #[trigger]
        hangs(b, p, i, k) && #[trigger] hangs(b, q, j, k) implies p == q && i == j by {
        let m = choose|m: int| #[trigger] hangs(a, p, m, k);
        let n = choose|n: int| #[trigger] hangs(a, q, n, k);
        assert(hangs(a, p, m, k) && hangs(a, q, n, k));
        assert(is_sorted(a.nodes, hung_under(a, p), hung_under(b, p)));
        lemma_sorted_distinct(a.nodes, hung_under(a, p), hung_under(b, p));
    }
}

// ---------------------------------------------------------------------------
// Drawing
// ---------------------------------------------------------------------------

/// One step of drawing the tree.
#[derive(Clone, Copy, Debug, PartialEq, Eq, Structural)]
pub enum DrawStep {
    /// An open folder's row; what it holds follows, up to its end.
    Open(usize),
    /// A shut folder's row.
    Shut(usize),
    /// A file's row.
    File(usize),
    End,
}

/// How the node at `k` is drawn: a file as one row; a folder as its row and,
/// while it is open, what it holds in order.
pub open spec fn drawn(nodes: Seq<NodeView>, k: int, open: Set<u64>) -> Seq<DrawStep>
    decreases nodes.len() - k, 1int, 0int,
{
    if k < 0 || k >= nodes.len() {
        Seq::empty()
    } else {
        match nodes[k].children {
            None => seq![DrawStep::File(k as usize)],
            Some(children) => if open.contains(nodes[k].id) {
                seq![DrawStep::Open(k as usize)] + drawn_list(nodes, k, children, open).push(
                    DrawStep::End,
                )
            } else {
                seq![DrawStep::Shut(k as usize)]
            },
        }
    }
}

/// How several nodes after `k` are drawn, one after another.
pub open spec fn drawn_list(
    nodes: Seq<NodeView>,
    k: int,
    list: Seq<usize>,
    open: Set<u64>,
) -> Seq<DrawStep>
    decreases nodes.len() - k, 0int, list.len(),
{
    if list.len() == 0 {
        Seq::empty()
    } else {
        drawn_list(nodes, k, list.drop_last(), open) + (if k < list.last() < nodes.len() {
            drawn(nodes, list.last() as int, open)
        } else {
            Seq::empty()
        })
    }
}

impl FileTree {
    fn is_open(open: &Vec<u64>, id: u64) -> (r: bool)
        ensures
            r == open@.to_set().contains(id),
    {
        let mut i: usize = 0;
        while i < open.len()
            invariant
                i <= open.len(),
                forall|k: int| 0 <= k < i ==> open@[k] != id,
            decreases open.len() - i,
        {
            if open[i] == id {
                assert(open@.contains(id));
                return true;
            }
            i += 1;
        }
        false
    }

    fn draw_node(&self, k: usize, open: &Vec<u64>, steps: &mut Vec<DrawStep>)
        requires
            self.wf(),
            k < self.nodes@.len(),
        ensures
            final(steps)@ == old(steps)@ + drawn(
                node_views(self.nodes@),
                k as int,
                open@.to_set(),
            ),
        decreases self.nodes@.len() - k,
    {
        let ghost nodes = node_views(self.nodes@);
        let ghost shown = open@.to_set();
        assert(nodes[k as int] == self.nodes@[k as int]@);
        match &self.nodes[k].children {
            None => {
                steps.push(DrawStep::File(k));
                assert(steps@ =~= old(steps)@ + drawn(nodes, k as int, shown));
            },
            Some(children) => {
                if !Self::is_open(open, self.nodes[k].id) {
                    steps.push(DrawStep::Shut(k));
                    assert(steps@ =~= old(steps)@ + drawn(nodes, k as int, shown));
                    return;
                }
                steps.push(DrawStep::Open(k));
                let ghost before = steps@;
                let mut i: usize = 0;
                assert(before + drawn_list(nodes, k as int, children@.take(0), shown) =~= before);
                while i < children.len()
                    invariant
                        self.wf(),
                        i <= children@.len(),
                        k < self.nodes@.len(),
                        nodes == node_views(self.nodes@),
                        shown == open@.to_set(),
                        self.nodes@[k as int].children == Some(*children),
                        steps@ == before + drawn_list(
                            nodes,
                            k as int,
                            children@.take(i as int),
                            shown,
                        ),
                    decreases children.len() - i,
                {
                    assert(children@.take(i + 1).drop_last() =~= children@.take(i as int));
                    assert(nodes[k as int].children == Some(children@));
                    let c: usize = children[i];
                    assert(k < (nodes[k as int].children->0)[i as int] < nodes.len());
                    let ghost was = steps@;
                    self.draw_node(c, open, steps);
                    assert(steps@ =~= before + drawn_list(
                        nodes,
                        k as int,
                        children@.take(i + 1),
                        shown,
                    ));
                    i += 1;
                }
                assert(children@.take(children@.len() as int) =~= children@);
                steps.push(DrawStep::End);
                assert(steps@ =~= old(steps)@ + drawn(nodes, k as int, shown));
            },
        }
    }

    /// How the tree is drawn below its repository row, given which folders are
    /// open; nothing while the repository row itself is shut.
    pub fn draw(&self, open: &Vec<u64>) -> (steps: Vec<DrawStep>)
        requires
            self.wf(),
        ensures
            steps@ == (if open@.to_set().contains(live_id(""@)) {
                drawn_list(node_views(self.nodes@), -1, self.roots@, open@.to_set())
            } else {
                Seq::empty()
            }),
    {
        let mut steps: Vec<DrawStep> = Vec::new();
        if !Self::is_open(open, id_of("")) {
            return steps;
        }
        let ghost nodes = node_views(self.nodes@);
        let ghost shown = open@.to_set();
        let mut i: usize = 0;
        while i < self.roots.len()
            invariant
                self.wf(),
                i <= self.roots@.len(),
                nodes == node_views(self.nodes@),
                shown == open@.to_set(),
                steps@ == drawn_list(nodes, -1, self.roots@.take(i as int), shown),
            decreases self.roots.len() - i,
        {
            assert(self.roots@.take(i + 1).drop_last() =~= self.roots@.take(i as int));
            let k: usize = self.roots[i];
            self.draw_node(k, open, &mut steps);
            assert(steps@ =~= drawn_list(nodes, -1, self.roots@.take(i + 1), shown));
            i += 1;
        }
        assert(self.roots@.take(self.roots@.len() as int) =~= self.roots@);
        steps
    }
}

// ---------------------------------------------------------------------------
// The browser
// ---------------------------------------------------------------------------

/// The file browser: the tree, and the generation it was built for.
#[derive(Debug)]
pub struct FileBrowser {
    pub tree: FileTree,
    pub built: u64,
}

/// Which revision everything is at: the head as a ref and, when it is known,
/// as a commit. A branch name moves, and a review that outlives a push should
/// still say which commit it read.
pub fn rev_chip(head: &str, oid: Option<Oid>) -> (text: String)
    ensures
        text@ == (match oid {
            Some(oid) => head@ + " · "@ + oid.text().take(7),
            None => head@,
        }),
{
    match oid {
        Some(oid) => {
            let short = oid.short(7);
            let mut text = head.to_owned();
            text.append(" · ");
            text.append(short.as_str());
            text
        },
        None => head.to_owned(),
    }
}

fn set_of(paths: &Vec<String>) -> (set: PathSet)
    ensures
        set@ == views(paths@).to_set(),
{
    let mut set = PathSet::new();
    let mut i: usize = 0;
    let ghost all = views(paths@);
    assert(set@ =~= all.take(0).to_set());
    while i < paths.len()
        invariant
            i <= paths.len(),
            all == views(paths@),
            set@ == all.take(i as int).to_set(),
        decreases paths.len() - i,
    {
        let ghost was = all.take(i as int);
        let ghost next = all.take(i + 1);
        set.insert(paths[i].as_str());
        assert(next =~= was.push(paths@[i as int]@));
        assert forall|p: Seq<char>| set@.contains(p) <==> next.to_set().contains(p) by {
            if was.contains(p) {
                let k = choose|k: int| 0 <= k < was.len() && was[k] == p;
                assert(next[k] == p);
            }
            if next.contains(p) {
                let k = choose|k: int| 0 <= k < next.len() && next[k] == p;
                if k < i {
                    assert(was[k] == p);
                }
            }
            assert(next[i as int] == paths@[i as int]@);
        }
        assert(set@ =~= next.to_set());
        i += 1;
    }
    assert(all.take(all.len() as int) =~= all);
    set
}

/// The tree of a document: its dots read off the diff of the range, and its
/// repository row named for the repository's directory.
pub open spec fn is_tree_at(
    doc: &ReviewDoc,
    paths: Seq<String>,
    added: Set<Seq<char>>,
    tree: FileTree,
) -> bool {
    &&& tree.name@ == recent_label(doc.repo@)
    &&& exists|dots: DotMap| #[trigger] is_tree_with(doc, paths, added, dots, tree)
}

/// Whether a tree is the one of the listed paths with these dots, and the dots
/// are those of the range.
pub open spec fn is_tree_with(
    doc: &ReviewDoc,
    paths: Seq<String>,
    added: Set<Seq<char>>,
    dots: DotMap,
    tree: FileTree,
) -> bool {
    let t = listing_of(paths, dots@);
    &&& forall|p: Seq<char>| #[trigger] dots@.contains_key(p) <==> touched(doc.files_rows@, p)
    &&& forall|p: Seq<char>|
        dots@.contains_key(p) ==> #[trigger] dots@[p] == dot_of(p, added, views(paths).to_set())
    &&& is_tree_of(
        Listing { nodes: with_gone(t.nodes, dots.dots@, dots@), roots: t.roots },
        tree,
    )
}

impl FileBrowser {
    /// A browser that has listed nothing yet.
    pub fn new() -> (browser: FileBrowser)
        ensures
            browser.tree.wf(),
            browser.tree.nodes@.len() == 0,
            browser.built == 0,
    {
        let none: Vec<String> = Vec::new();
        let tree = build(&none, &DotMap::new(), "");
        FileBrowser { tree, built: 0 }
    }

    /// Rebuilds the tree when a load has landed: the listing is `paths`, and
    /// `added` are the paths that the range added. Opening a file bumps no
    /// generation, so it rebuilds nothing. Says whether it was rebuilt, which
    /// is when the repository row is to be opened.
    pub fn refresh(&mut self, doc: &ReviewDoc, paths: &Vec<String>, added: &PathSet) -> (rebuilt:
        bool)
        requires
            old(self).tree.wf(),
        ensures
            rebuilt == (old(self).built != doc.generation),
            final(self).built == doc.generation,
            final(self).tree.wf(),
            !rebuilt ==> final(self).tree == old(self).tree,
            rebuilt ==> is_tree_at(doc, paths@, added@, final(self).tree),
    {
        if self.built == doc.generation {
            return false;
        }
        self.built = doc.generation;
        let at_head = set_of(paths);
        let dots = status_dots(&doc.files_rows, added, &at_head);
        let name = recent_name(doc.repo.as_str());
        self.tree = build(paths, &dots, name.as_str());
        assert(is_tree_with(doc, paths@, added@, dots, self.tree));
        true
    }
}

// ---------------------------------------------------------------------------
// Laws
// ---------------------------------------------------------------------------

/// Two kinds under one folder are mixed where they differ, and themselves where
/// they do not.
pub proof fn different_kinds_are_mixed(a: DotKind, b: DotKind)
    ensures
        a != b ==> merged(a, b) == DotKind::Mixed,
        a == b ==> merged(a, b) == a,
{
}

/// A path that a range touched is new where the range added it, modified where
/// it was there before, and mixed where it is gone; one that no range touched is
/// clean.
pub proof fn a_dot_says_what_happened(
    path: Seq<char>,
    added: Set<Seq<char>>,
    at_head: Set<Seq<char>>,
    dots: Map<Seq<char>, DotKind>,
)
    ensures
        at_head.contains(path) && added.contains(path) ==> dot_of(path, added, at_head)
            == DotKind::New,
        at_head.contains(path) && !added.contains(path) ==> dot_of(path, added, at_head)
            == DotKind::Modified,
        !at_head.contains(path) ==> dot_of(path, added, at_head) == DotKind::Mixed,
        !dots.contains_key(path) ==> kind_of(dots, path) == DotKind::Clean,
        dots.contains_key(path) ==> kind_of(dots, path) == dots[path],
{
}

/// A node is named by the last component of its path, and is a folder exactly
/// where the listed path goes on below it.
pub proof fn a_node_is_named_by_its_component(path: Seq<char>, at: int, status: DotKind)
    requires
        0 <= at <= path.len(),
        at == 0 || path[at - 1] == '/',
    ensures
        ({
            let end = component_end(path, at);
            let node = fresh_node(path, at, end, status);
            &&& node.path == path.take(end)
            &&& node.name == node.path.skip(at)
            &&& !node.name.contains('/')
            &&& end < path.len() ==> path[end] == '/' && node.children is Some
            &&& end == path.len() ==> node.path == path && node.children is None
            &&& node.status == status
        }),
{
    let end = component_end(path, at);
    lemma_component_end(path, at);
    let node = fresh_node(path, at, end, status);
    assert(node.name =~= node.path.skip(at));
    assert forall|k: int| 0 <= k < node.name.len() implies node.name[k] != '/' by {
        lemma_component_inside(path, at, at + k);
        assert(node.name[k] == path[at + k]);
    }
    if end == path.len() {
        assert(node.path =~= path);
    }
}

/// Among siblings folders stand before files, and each kind stands by name,
/// whatever its case; and sorting loses none and adds none.
pub proof fn folders_stand_first(
    nodes: Seq<NodeView>,
    before: Seq<usize>,
    after: Seq<usize>,
    i: int,
    j: int,
)
    requires
        is_sorted(nodes, before, after),
        0 <= i < j < after.len(),
    ensures
        ({
            let a = nodes[after[i] as int];
            let b = nodes[after[j] as int];
            &&& b.children is Some ==> a.children is Some
            &&& (a.children is Some) == (b.children is Some) ==> !text_before(
                lowercase(b.name),
                lowercase(a.name),
            )
            &&& before.contains(after[i]) && before.contains(after[j])
        }),
{
    let a = nodes[after[i] as int];
    let b = nodes[after[j] as int];
    assert(comes_first(nodes, after[i], after[j]));
    lemma_text_irreflexive(lowercase(a.name));
    if text_before(lowercase(a.name), lowercase(b.name)) && text_before(
        lowercase(b.name),
        lowercase(a.name),
    ) {
        lemma_text_transitive(lowercase(a.name), lowercase(b.name), lowercase(a.name));
    }
    assert(after.contains(after[i]));
    assert(after.contains(after[j]));
}

/// A file is drawn as one row, and so is a shut folder; an open folder is drawn
/// as its row, everything that it holds, and its end. What each child draws
/// stands whole among that, in the order of the children.
pub proof fn an_open_folder_draws_what_it_holds(nodes: Seq<NodeView>, k: int, open: Set<u64>, i: int)
    requires
        0 <= k < nodes.len() <= usize::MAX,
    ensures
        nodes[k].children is None ==> drawn(nodes, k, open) == seq![DrawStep::File(k as usize)],
        nodes[k].children is Some && !open.contains(nodes[k].id) ==> drawn(nodes, k, open) == seq![
            DrawStep::Shut(k as usize),
        ],
        nodes[k].children matches Some(list) ==> open.contains(nodes[k].id) ==> {
            let all = drawn(nodes, k, open);
            &&& all.len() >= 2 && all[0] == DrawStep::Open(k as usize) && all.last()
                == DrawStep::End
            &&& 0 <= i < list.len() && k < list[i] < nodes.len() ==> {
                let own = drawn(nodes, list[i] as int, open);
                let at: int = 1 + drawn_list(nodes, k, list.take(i), open).len() as int;
                at + own.len() < all.len() && all.subrange(at, at + own.len())
                    == own
            }
        },
{
    if let Some(list) = nodes[k].children {
        if open.contains(nodes[k].id) && 0 <= i < list.len() && k < list[i] < nodes.len() {
            let all = drawn(nodes, k, open);
            let inner = drawn_list(nodes, k, list, open);
            let own = drawn(nodes, list[i] as int, open);
            let at: int = drawn_list(nodes, k, list.take(i), open).len() as int;
            lemma_child_is_drawn(nodes, k, list, open, i);
            assert(all.subrange(1 + at, 1 + at + own.len()) =~= inner.subrange(
                at,
                at + own.len(),
            ));
        }
    }
}

proof fn lemma_child_is_drawn(
    nodes: Seq<NodeView>,
    k: int,
    list: Seq<usize>,
    open: Set<u64>,
    i: int,
)
    requires
        0 <= i < list.len(),
        k < list[i] < nodes.len(),
    ensures
        ({
            let inner = drawn_list(nodes, k, list, open);
            let own = drawn(nodes, list[i] as int, open);
            let at: int = drawn_list(nodes, k, list.take(i), open).len() as int;
            at + own.len() <= inner.len() && inner.subrange(at, at + own.len()) == own
        }),
    decreases list.len(),
{
    let rest = list.drop_last();
    let inner = drawn_list(nodes, k, list, open);
    let own = drawn(nodes, list[i] as int, open);
    let at: int = drawn_list(nodes, k, list.take(i), open).len() as int;
    if i < rest.len() {
        lemma_child_is_drawn(nodes, k, rest, open, i);
        assert(rest.take(i) =~= list.take(i));
        assert(inner.subrange(at, at + own.len()) =~= drawn_list(
            nodes,
            k,
            rest,
            open,
        ).subrange(at, at + own.len()));
    } else {
        assert(list.take(i) =~= rest);
        assert(inner.subrange(at, at + own.len()) =~= own);
    }
}

} // verus!
