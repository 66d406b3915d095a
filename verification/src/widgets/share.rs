//! Handing the review comments on, as one document.

use crate::diff::{opt_text, Oid};
use crate::order::{
    is_arrangement, is_text_before, lemma_text_order, precedes, stable_order, text_before, SortKey,
};
use crate::review::comments::{id_before, Meta};
use crate::review::import::Entry;
use crate::review_doc::ReviewDoc;
use crate::text::{decimal, number, same, to_chars};
use vstd::prelude::*;

verus! {

/// By which shared comments are ordered: the file, the line, the id.
pub struct ShareKey {
    pub path: String,
    pub start: u32,
    pub id: Option<u64>,
}

/// What an entry is ordered by.
pub open spec fn share_parts(e: Entry) -> (Seq<char>, int, Option<u64>) {
    (e.path@, e.start as int, e.id)
}

/// The order of shared comments.
pub open spec fn share_before(
    a: (Seq<char>, int, Option<u64>),
    b: (Seq<char>, int, Option<u64>),
) -> bool {
    if a.0 != b.0 {
        text_before(a.0, b.0)
    } else if a.1 != b.1 {
        a.1 < b.1
    } else {
        id_before(a.2, b.2)
    }
}

impl ShareKey {
    /// The key's parts, the first deciding first.
    pub open spec fn parts(self) -> (Seq<char>, int, Option<u64>) {
        (self.path@, self.start as int, self.id)
    }
}

impl SortKey for ShareKey {
    open spec fn before(self, other: ShareKey) -> bool {
        share_before(self.parts(), other.parts())
    }

    proof fn order_law(a: ShareKey, b: ShareKey, c: ShareKey) {
        lemma_text_order(a.path@, b.path@, c.path@);
        lemma_text_order(b.path@, c.path@, a.path@);
        lemma_text_order(c.path@, a.path@, b.path@);
        lemma_text_order(a.path@, c.path@, b.path@);
        lemma_text_order(c.path@, b.path@, a.path@);
        lemma_text_order(b.path@, a.path@, c.path@);
    }

    fn is_before(&self, other: &ShareKey) -> (r: bool) {
        if !same(self.path.as_str(), other.path.as_str()) {
            is_text_before(self.path.as_str(), other.path.as_str())
        } else if self.start != other.start {
            self.start < other.start
        } else {
            match (self.id, other.id) {
                (None, Some(_)) => true,
                (Some(a), Some(b)) => a < b,
                _ => false,
            }
        }
    }
}

/// Whether places are in the order of shared comments; those that tie keep
/// theirs.
pub open spec fn is_share_order(entries: Seq<Entry>, order: Seq<usize>) -> bool {
    &&& is_arrangement(order, entries.len())
    &&& forall|i: int, j: int|
        0 <= i < j < order.len() ==> {
            let a = share_parts(entries[(#[trigger] order[i]) as int]);
            let b = share_parts(entries[(#[trigger] order[j]) as int]);
            share_before(a, b) || (!share_before(b, a) && order[i] < order[j])
        }
}

/// The order in which comments are shared.
pub fn share_order(entries: &Vec<Entry>) -> (order: Vec<usize>)
    ensures
        is_share_order(entries@, order@),
{
    let mut keys: Vec<ShareKey> = Vec::new();
    while keys.len() < entries.len()
        invariant
            keys@.len() <= entries@.len(),
            forall|i: int|
                0 <= i < keys@.len() ==> (#[trigger] keys@[i]).parts() == share_parts(entries@[i]),
        decreases entries.len() - keys.len(),
    {
        let e = &entries[keys.len()];
        keys.push(ShareKey { path: e.path.clone(), start: e.start, id: e.id });
    }
    let order = stable_order(&keys);
    proof {
        assert forall|i: int, j: int| 0 <= i < j < order@.len() implies {
            let a = share_parts(entries@[(#[trigger] order@[i]) as int]);
            let b = share_parts(entries@[(#[trigger] order@[j]) as int]);
            share_before(a, b) || (!share_before(b, a) && order@[i] < order@[j])
        } by {
            assert(precedes(keys@, order@[i] as int, order@[j] as int));
        }
    }
    order
}

/// An end of the range: its commit, or what it was asked for by.
pub open spec fn shared_end(oid: Option<Oid>, rev: Seq<char>) -> Seq<char> {
    match oid {
        Some(oid) => oid.text(),
        None => rev,
    }
}

fn end_text(oid: Option<Oid>, rev: &str) -> (text: String)
    ensures
        text@ == shared_end(oid, rev@),
{
    match oid {
        Some(oid) => oid.hex(),
        None => rev.to_owned(),
    }
}

/// What shared comments say they were made for; the commits are those of the
/// loaded range.
pub fn share_meta(doc: &ReviewDoc, merge_base: Option<Oid>, head: Option<Oid>) -> (meta: Meta)
    ensures
        opt_text(meta.repo) == (if doc.repo@.len() == 0 {
            None
        } else {
            Some(doc.repo@)
        }),
        opt_text(meta.base) == Some(shared_end(merge_base, doc.base@)),
        opt_text(meta.head) == Some(shared_end(head, doc.head@)),
{
    let chars = to_chars(doc.repo.as_str());
    let repo = if chars.len() == 0 {
        None
    } else {
        Some(doc.repo.clone())
    };
    Meta {
        repo,
        base: Some(end_text(merge_base, doc.base.as_str())),
        head: Some(end_text(head, doc.head.as_str())),
    }
}

/// What is said after sharing: how many were copied, or that there are none.
pub fn share_status(n: usize) -> (text: String)
    ensures
        text@ == (if n == 0 {
            "no comments to share yet — click a line number to leave one"@
        } else {
            decimal(n as nat) + " comment(s) copied to the clipboard"@
        }),
{
    if n == 0 {
        "no comments to share yet — click a line number to leave one".to_owned()
    } else {
        let mut text = number(n as u64);
        text.append(" comment(s) copied to the clipboard");
        text
    }
}

/// What is shared has every comment once, by file, then by line, then in the
/// order they were made.
pub proof fn what_is_shared_is_in_order(entries: Seq<Entry>, order: Seq<usize>, i: int, j: int)
    requires
        is_share_order(entries, order),
        0 <= i < j < order.len(),
    ensures
        ({
            let a = entries[order[i] as int];
            let b = entries[order[j] as int];
            &&& order.len() == entries.len()
            &&& order[i] != order[j]
            &&& a.path@ != b.path@ ==> text_before(a.path@, b.path@)
            &&& a.path@ == b.path@ ==> a.start <= b.start
            &&& a.path@ == b.path@ && a.start == b.start && a.id is Some && b.id is Some
                ==> a.id->0 <= b.id->0
        }),
{
    let a = entries[order[i] as int];
    let b = entries[order[j] as int];
    lemma_text_order(a.path@, b.path@, a.path@);
    let x = share_parts(a);
    let y = share_parts(b);
    assert(share_before(x, y) || (!share_before(y, x) && order[i] < order[j]));
}

/// An end of a shared range is its commit where that is known, and else the
/// revision that was asked for.
pub proof fn a_shared_end_is_its_commit(oid: Oid, rev: Seq<char>)
    ensures
        shared_end(Some(oid), rev) == oid.text(),
        shared_end(None, rev) == rev,
{
}

} // verus!
