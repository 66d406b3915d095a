//! Finding and replacing in a buffer. Positions are byte offsets into the
//! text, and letters match whatever their ASCII case.

use crate::text::{byte_to_lower, decimal, lower_byte, number};
use vstd::prelude::*;
use vstd::utf8::encode_utf8;

verus! {

/// The bytes of a text with its ASCII letters in lower case.
pub open spec fn folded(s: Seq<char>) -> Seq<u8> {
    let bytes = encode_utf8(s);
    Seq::new(bytes.len(), |i: int| lower_byte(bytes[i]))
}

/// Whether `needle` stands at `at`.
pub open spec fn found_at(hay: Seq<u8>, needle: Seq<u8>, at: int) -> bool {
    0 <= at && at + needle.len() <= hay.len() && hay.subrange(at, at + needle.len()) == needle
}

/// The first place at or after `from` where `needle` stands.
pub open spec fn first_from(hay: Seq<u8>, needle: Seq<u8>, from: int) -> Option<int>
    decreases hay.len() - from + 1,
{
    if from < 0 || from + needle.len() > hay.len() {
        None
    } else if found_at(hay, needle, from) {
        Some(from)
    } else {
        first_from(hay, needle, from + 1)
    }
}

/// The last place where `needle` stands and ends at or before `end`.
pub open spec fn last_up_to(hay: Seq<u8>, needle: Seq<u8>, end: int) -> Option<int>
    decreases end + 1,
{
    if end < needle.len() || end < 0 || end > hay.len() {
        None
    } else if found_at(hay, needle, end - needle.len()) {
        Some(end - needle.len())
    } else {
        last_up_to(hay, needle, end - 1)
    }
}

/// What [`first_from`] finds is an occurrence, and none comes before it.
pub proof fn lemma_first_from(hay: Seq<u8>, needle: Seq<u8>, from: int)
    requires
        0 <= from,
    ensures
        (match first_from(hay, needle, from) {
            Some(at) => from <= at && found_at(hay, needle, at) && forall|k: int|
                from <= k < at ==> !#[trigger] found_at(hay, needle, k),
            None => forall|k: int| from <= k ==> !#[trigger] found_at(hay, needle, k),
        }),
    decreases hay.len() - from + 1,
{
    if from + needle.len() <= hay.len() && !found_at(hay, needle, from) {
        lemma_first_from(hay, needle, from + 1);
    }
}

/// The occurrences from `from` on, one after another without overlap, as byte
/// ranges.
pub open spec fn hits_from(hay: Seq<u8>, needle: Seq<u8>, from: int) -> Seq<(usize, usize)>
    decreases hay.len() - from,
{
    if needle.len() == 0 || from < 0 {
        Seq::empty()
    } else {
        match first_from(hay, needle, from) {
            Some(at) => if from <= at && at + needle.len() <= hay.len() {
                seq![(at as usize, (at + needle.len()) as usize)] + hits_from(
                    hay,
                    needle,
                    at + needle.len(),
                )
            } else {
                Seq::empty()
            },
            None => Seq::empty(),
        }
    }
}

/// The hits of a search: occurrences, in order, that do not overlap; and every
/// occurrence overlaps one of them.
pub proof fn hits_mark_every_occurrence(hay: Seq<u8>, needle: Seq<u8>, from: int)
    requires
        needle.len() > 0,
        0 <= from,
        hay.len() <= usize::MAX,
    ensures
        ({
            let hits = hits_from(hay, needle, from);
            &&& forall|i: int|
                0 <= i < hits.len() ==> {
                    &&& from <= (#[trigger] hits[i]).0
                    &&& found_at(hay, needle, hits[i].0 as int)
                    &&& hits[i].1 == hits[i].0 + needle.len()
                }
            &&& forall|i: int, j: int|
                0 <= i < j < hits.len() ==> (#[trigger] hits[i]).1 <= (#[trigger] hits[j]).0
            &&& forall|k: int|
                from <= k && #[trigger] found_at(hay, needle, k) ==> exists|i: int|
                    0 <= i < hits.len() && (#[trigger] hits[i]).0 <= k < hits[i].1
        }),
    decreases hay.len() - from,
{
    lemma_first_from(hay, needle, from);
    if let Some(at) = first_from(hay, needle, from) {
        let n = needle.len() as int;
        hits_mark_every_occurrence(hay, needle, at + n);
        let rest = hits_from(hay, needle, at + n);
        let hits = hits_from(hay, needle, from);
        assert(hits[0] == (at as usize, (at + n) as usize));
        assert forall|i: int| 0 < i < hits.len() implies hits[i] == rest[i - 1] by {}
        assert forall|k: int| from <= k && #[trigger] found_at(hay, needle, k) implies exists|i: int|
            0 <= i < hits.len() && (#[trigger] hits[i]).0 <= k < hits[i].1 by {
            if k >= at + n {
                let i = choose|i: int|
                    0 <= i < rest.len() && (#[trigger] rest[i]).0 <= k < rest[i].1;
                assert(hits[i + 1] == rest[i]);
            } else {
                assert(hits[0].0 <= k < hits[0].1);
            }
        }
        assert forall|i: int, j: int| 0 <= i < j < hits.len() implies (#[trigger] hits[i]).1 <= (
        #[trigger] hits[j]).0 by {
            assert(hits[j] == rest[j - 1]);
            if i > 0 {
                assert(hits[i] == rest[i - 1]);
            }
        }
    }
}

/// The bytes of a text with its ASCII letters in lower case.
fn fold(s: &str) -> (r: Vec<u8>)
    ensures
        r@ == folded(s@),
{
    let bytes = s.as_bytes();
    let mut out: Vec<u8> = Vec::new();
    let mut i: usize = 0;
    while i < bytes.len()
        invariant
            i <= bytes.len(),
            bytes@ == encode_utf8(s@),
            out@ == folded(s@).take(i as int),
        decreases bytes.len() - i,
    {
        out.push(byte_to_lower(bytes[i]));
        assert(out@ =~= folded(s@).take(i + 1));
        i += 1;
    }
    assert(folded(s@).take(bytes@.len() as int) =~= folded(s@));
    out
}

/// Whether `needle` stands at `at`.
fn is_at(hay: &Vec<u8>, needle: &Vec<u8>, at: usize) -> (r: bool)
    requires
        at + needle.len() <= hay.len(),
    ensures
        r == found_at(hay@, needle@, at as int),
{
    let mut k: usize = 0;
    while k < needle.len()
        invariant
            k <= needle.len(),
            at + needle.len() <= hay.len(),
            forall|j: int| 0 <= j < k ==> hay@[at + j] == #[trigger] needle@[j],
        decreases needle.len() - k,
    {
        if hay[at + k] != needle[k] {
            assert(hay@.subrange(at as int, at + needle@.len())[k as int] != needle@[k as int]);
            return false;
        }
        k += 1;
    }
    assert(hay@.subrange(at as int, at + needle@.len()) =~= needle@);
    true
}

/// The first place at or after `from` where `needle` stands.
fn find_from(hay: &Vec<u8>, needle: &Vec<u8>, from: usize) -> (r: Option<usize>)
    ensures
        (match r {
            Some(at) => first_from(hay@, needle@, from as int) == Some(at as int) && from <= at && at
                + needle.len() <= hay.len(),
            None => first_from(hay@, needle@, from as int) is None,
        }),
{
    let mut at: usize = from;
    loop
        invariant
            from <= at,
            first_from(hay@, needle@, from as int) == first_from(hay@, needle@, at as int),
        decreases hay@.len() - at,
    {
        if needle.len() > hay.len() || at > hay.len() - needle.len() {
            return None;
        }
        if is_at(hay, needle, at) {
            return Some(at);
        }
        assert(at < hay.len()) by {
            if needle@.len() == 0 {
                assert(hay@.subrange(at as int, at as int) =~= needle@);
            }
        }
        at += 1;
    }
}

/// The last place where `needle` stands and ends at or before `end`.
fn find_back(hay: &Vec<u8>, needle: &Vec<u8>, end: usize) -> (r: Option<usize>)
    requires
        end <= hay@.len(),
    ensures
        (match r {
            Some(at) => last_up_to(hay@, needle@, end as int) == Some(at as int),
            None => last_up_to(hay@, needle@, end as int) is None,
        }),
{
    let mut to: usize = end;
    loop
        invariant
            to <= end <= hay@.len(),
            last_up_to(hay@, needle@, end as int) == last_up_to(hay@, needle@, to as int),
        decreases to,
    {
        if to < needle.len() {
            return None;
        }
        if is_at(hay, needle, to - needle.len()) {
            return Some(to - needle.len());
        }
        assert(to > 0) by {
            if needle@.len() == 0 {
                assert(hay@.subrange(to as int, to as int) =~= needle@);
            }
        }
        to -= 1;
    }
}

/// The occurrences in a folded text.
fn collect_hits(hay: &Vec<u8>, needle: &Vec<u8>) -> (hits: Vec<(usize, usize)>)
    requires
        needle@.len() > 0,
    ensures
        hits@ == hits_from(hay@, needle@, 0),
{
    let mut hits: Vec<(usize, usize)> = Vec::new();
    let mut at: usize = 0;
    loop
        invariant
            needle@.len() > 0,
            at <= hay.len(),
            hits@ + hits_from(hay@, needle@, at as int) =~= hits_from(hay@, needle@, 0),
        decreases hay@.len() - at,
    {
        match find_from(hay, needle, at) {
            Some(start) => {
                let end: usize = start + needle.len();
                hits.push((start, end));
                at = end;
            },
            None => {
                return hits;
            },
        }
    }
}

/// What a search marks in a text: nothing without a query, else every
/// occurrence that does not overlap one before it.
pub open spec fn hits_of(text: Seq<char>, query: Option<Seq<char>>) -> Seq<(usize, usize)> {
    match query {
        Some(q) => hits_from(folded(text), folded(q), 0),
        None => Seq::empty(),
    }
}

/// The view of an optional text.
pub open spec fn opt_view(s: Option<&str>) -> Option<Seq<char>> {
    match s {
        Some(s) => Some(s@),
        None => None,
    }
}

/// Every occurrence of `query` in one line, as byte ranges. Case-insensitive
/// on ASCII, which is what one means by "find" most of the time.
pub fn hits_in(text: &str, query: Option<&str>) -> (hits: Vec<(usize, usize)>)
    ensures
        hits@ == hits_of(text@, opt_view(query)),
{
    match query {
        Some(q) => {
            let needle = fold(q);
            if needle.len() == 0 {
                return Vec::new();
            }
            let hay = fold(text);
            collect_hits(&hay, &needle)
        },
        None => Vec::new(),
    }
}

/// What the find bar says of a tally: nothing without a query, else how many.
pub open spec fn tally_label(count: nat, query: Seq<char>) -> Seq<char> {
    if query.len() == 0 {
        Seq::empty()
    } else if count == 0 {
        "no matches"@
    } else if count == 1 {
        "1 match"@
    } else {
        decimal(count) + " matches"@
    }
}

/// The find bar's tally over the text the caret is in. Without a caret there
/// is no text, and nothing matches.
pub fn count_hits(text: Option<&str>, query: &str) -> (label: String)
    ensures
        label@ == tally_label(
            (match text {
                Some(text) => hits_of(text@, Some(query@)).len(),
                None => 0,
            }),
            query@,
        ),
{
    let count: usize = match text {
        Some(text) => hits_in(text, Some(query)).len(),
        None => 0,
    };
    if query.is_empty() {
        let label = String::new();
        assert(label@ =~= Seq::<char>::empty());
        label
    } else if count == 0 {
        "no matches".to_owned()
    } else if count == 1 {
        "1 match".to_owned()
    } else {
        let mut label = number(count as u64);
        label.append(" matches");
        label
    }
}

/// Where a search goes from `at`: forwards to the next occurrence at or after it,
/// backwards to the last one that ends at or before it, and round the end of
/// the text when there is none.
pub open spec fn seek_target(text: Seq<char>, query: Seq<char>, at: int, back: bool) -> Option<int> {
    let hay = folded(text);
    let needle = folded(query);
    let (near, wrapped) = if back {
        (
            last_up_to(
                hay,
                needle,
                if at < hay.len() {
                    at
                } else {
                    hay.len() as int
                },
            ),
            last_up_to(hay, needle, hay.len() as int),
        )
    } else {
        (
            first_from(
                hay,
                needle,
                if at < hay.len() {
                    at
                } else {
                    hay.len() as int
                },
            ),
            first_from(hay, needle, 0),
        )
    };
    match near {
        Some(found) => Some(found),
        None => wrapped,
    }
}

/// Where a search goes from the byte at `at`. An empty query goes nowhere.
pub fn seek(text: &str, query: &str, at: usize, back: bool) -> (found: Option<usize>)
    ensures
        (match found {
            Some(i) => query@.len() > 0 && seek_target(text@, query@, at as int, back) == Some(
                i as int,
            ),
            None => query@.len() == 0 || seek_target(text@, query@, at as int, back) is None,
        }),
{
    if query.is_empty() {
        return None;
    }
    let hay = fold(text);
    let needle = fold(query);
    if back {
        let end: usize = if at < hay.len() {
            at
        } else {
            hay.len()
        };
        match find_back(&hay, &needle, end) {
            Some(i) => Some(i),
            None => find_back(&hay, &needle, hay.len()),
        }
    } else {
        let from: usize = if at < hay.len() {
            at
        } else {
            hay.len()
        };
        match find_from(&hay, &needle, from) {
            Some(i) => Some(i),
            None => find_from(&hay, &needle, 0),
        }
    }
}

/// Whether the byte at `at` is inside a hit.
pub open spec fn hit_covers(hit: (usize, usize), at: int) -> bool {
    hit.0 <= at < hit.1
}

/// The ranges that a replacement takes out, the last first, so that an earlier
/// one cannot move the offset of a later one: every hit, or the one that the
/// caret is in.
pub open spec fn replaced_ranges(
    text: Seq<char>,
    query: Seq<char>,
    at: int,
    all: bool,
) -> Seq<(usize, usize)> {
    let hits = hits_of(text, Some(query));
    if all {
        hits.reverse()
    } else {
        hits.filter(|hit: (usize, usize)| hit_covers(hit, at)).reverse()
    }
}

/// The ranges to replace, the last first.
pub fn replacements(text: &str, query: &str, at: usize, all: bool) -> (ranges: Vec<
    (usize, usize),
>)
    ensures
        ranges@ == replaced_ranges(text@, query@, at as int, all),
{
    let hits = hits_in(text, Some(query));
    let mut out: Vec<(usize, usize)> = Vec::new();
    let mut n: usize = hits.len();
    let ghost covers = |hit: (usize, usize)| hit_covers(hit, at as int);
    let ghost kept = if all {
        hits@
    } else {
        hits@.filter(covers)
    };
    assert(hits@.take(hits@.len() as int) =~= hits@);
    assert(hits@.skip(hits@.len() as int) =~= Seq::<(usize, usize)>::empty());
    proof {
        reveal(Seq::filter);
    }
    assert(Seq::<(usize, usize)>::empty().filter(covers) =~= Seq::<(usize, usize)>::empty());
    while n > 0
        invariant
            n <= hits.len(),
            covers == (|hit: (usize, usize)| hit_covers(hit, at as int)),
            out@.reverse() =~= (if all {
                hits@.skip(n as int)
            } else {
                hits@.skip(n as int).filter(covers)
            }),
        decreases n,
    {
        let hit = hits[n - 1];
        let ghost was = out@;
        let ghost tail = hits@.skip(n as int);
        let ghost more = hits@.skip(n - 1);
        assert(more =~= seq![hit] + tail);
        proof {
            lemma_filter_cons(hit, tail, covers);
        }
        if all || (hit.0 <= at && at < hit.1) {
            out.push(hit);
            assert(out@.reverse() =~= seq![hit] + was.reverse());
        }
        n -= 1;
    }
    assert(hits@.skip(0) =~= hits@);
    assert(out@ =~= out@.reverse().reverse());
    out
}

/// Filtering takes the first element or leaves it out.
proof fn lemma_filter_cons(
    first: (usize, usize),
    rest: Seq<(usize, usize)>,
    keep: spec_fn((usize, usize)) -> bool,
)
    ensures
        (seq![first] + rest).filter(keep) == (if keep(first) {
            seq![first] + rest.filter(keep)
        } else {
            rest.filter(keep)
        }),
    decreases rest.len(),
{
    reveal(Seq::filter);
    let all = seq![first] + rest;
    if rest.len() == 0 {
        assert(all =~= seq![first]);
        assert(all.drop_last() =~= Seq::<(usize, usize)>::empty());
        assert(rest =~= Seq::<(usize, usize)>::empty());
    } else {
        lemma_filter_cons(first, rest.drop_last(), keep);
        assert(all.drop_last() =~= seq![first] + rest.drop_last());
        assert(all.last() == rest.last());
    }
}

// ---------------------------------------------------------------------------
// Laws
// ---------------------------------------------------------------------------

/// An occurrence is the query, byte for byte, whatever the case of its ASCII
/// letters.
pub proof fn an_occurrence_is_the_query(text: Seq<char>, query: Seq<char>, at: int)
    ensures
        found_at(folded(text), folded(query), at) <==> {
            &&& 0 <= at
            &&& at + encode_utf8(query).len() <= encode_utf8(text).len()
            &&& forall|k: int|
                0 <= k < encode_utf8(query).len() ==> lower_byte(encode_utf8(text)[at + k])
                    == lower_byte(#[trigger] encode_utf8(query)[k])
        },
{
    let hay = folded(text);
    let needle = folded(query);
    let a = encode_utf8(text);
    let b = encode_utf8(query);
    if found_at(hay, needle, at) {
        assert forall|k: int| 0 <= k < b.len() implies lower_byte(a[at + k]) == lower_byte(
            #[trigger] b[k],
        ) by {
            assert(hay.subrange(at, at + needle.len())[k] == needle[k]);
        }
    }
    if 0 <= at && at + b.len() <= a.len() && (forall|k: int|
        0 <= k < b.len() ==> lower_byte(a[at + k]) == lower_byte(#[trigger] b[k])) {
        assert forall|k: int| 0 <= k < needle.len() implies hay.subrange(at, at + needle.len())[k]
            == needle[k] by {
            assert(lower_byte(a[at + k]) == lower_byte(b[k]));
        }
        assert(hay.subrange(at, at + needle.len()) =~= needle);
    }
}

proof fn lemma_last_up_to(hay: Seq<u8>, needle: Seq<u8>, end: int)
    requires
        end <= hay.len(),
    ensures
        (match last_up_to(hay, needle, end) {
            Some(at) => at + needle.len() <= end && found_at(hay, needle, at) && forall|k: int|
                at < k && k + needle.len() <= end ==> !#[trigger] found_at(hay, needle, k),
            None => forall|k: int|
                k + needle.len() <= end ==> !#[trigger] found_at(hay, needle, k),
        }),
    decreases end + 1,
{
    if end >= needle.len() && end >= 0 && !found_at(hay, needle, end - needle.len()) {
        lemma_last_up_to(hay, needle, end - 1);
    }
}

/// A search goes to an occurrence wherever there is one. Forwards, that is the
/// first that begins at the position or after it, and the first of all where
/// none does; backwards, the last that ends at the position or before it, and
/// the last of all where none does.
pub proof fn a_search_finds_the_nearest(text: Seq<char>, query: Seq<char>, at: int, back: bool)
    requires
        0 <= at <= folded(text).len(),
    ensures
        ({
            let hay = folded(text);
            let needle = folded(query);
            let n = needle.len();
            match seek_target(text, query, at, back) {
                Some(i) => {
                    &&& found_at(hay, needle, i)
                    &&& !back && i >= at ==> forall|k: int|
                        at <= k < i ==> !#[trigger] found_at(hay, needle, k)
                    &&& !back && i < at ==> forall|k: int|
                        k < i || at <= k ==> !#[trigger] found_at(hay, needle, k)
                    &&& back && i + n <= at ==> forall|k: int|
                        i < k && k + n <= at ==> !#[trigger] found_at(hay, needle, k)
                    &&& back && i + n > at ==> forall|k: int|
                        k > i || k + n <= at ==> !#[trigger] found_at(hay, needle, k)
                },
                None => forall|k: int| !#[trigger] found_at(hay, needle, k),
            }
        }),
{
    let hay = folded(text);
    let needle = folded(query);
    if back {
        lemma_last_up_to(hay, needle, at);
        lemma_last_up_to(hay, needle, hay.len() as int);
    } else {
        lemma_first_from(hay, needle, at);
        lemma_first_from(hay, needle, 0);
    }
}

proof fn lemma_kept(
    hits: Seq<(usize, usize)>,
    keep: spec_fn((usize, usize)) -> bool,
)
    requires
        forall|i: int, j: int|
            0 <= i < j < hits.len() ==> (#[trigger] hits[i]).1 <= (#[trigger] hits[j]).0,
        forall|i: int| 0 <= i < hits.len() ==> (#[trigger] hits[i]).0 <= hits[i].1,
    ensures
        forall|i: int|
            0 <= i < hits.filter(keep).len() ==> keep(#[trigger] hits.filter(keep)[i])
                && hits.contains(hits.filter(keep)[i]),
        forall|i: int| 0 <= i < hits.len() && keep(#[trigger] hits[i]) ==> hits.filter(keep).contains(hits[i]),
        forall|i: int, j: int|
            0 <= i < j < hits.filter(keep).len() ==> (#[trigger] hits.filter(keep)[i]).1 <= (
            #[trigger] hits.filter(keep)[j]).0,
    decreases hits.len(),
{
    reveal(Seq::filter);
    if hits.len() > 0 {
        let rest = hits.drop_last();
        let last = hits.last();
        let kept = rest.filter(keep);
        let all = hits.filter(keep);
        lemma_kept(rest, keep);
        assert forall|i: int| 0 <= i < all.len() implies keep(#[trigger] all[i]) && hits.contains(
            all[i],
        ) by {
            if i < kept.len() {
                assert(all[i] == kept[i]);
                let k = choose|k: int| 0 <= k < rest.len() && rest[k] == kept[i];
                assert(hits[k] == kept[i]);
            } else {
                assert(hits[hits.len() - 1] == last);
            }
        }
        assert forall|i: int| 0 <= i < hits.len() && keep(#[trigger] hits[i]) implies all.contains(
            hits[i],
        ) by {
            if i < rest.len() {
                assert(rest[i] == hits[i]);
                assert(kept.contains(rest[i]));
                let k = choose|k: int| 0 <= k < kept.len() && kept[k] == rest[i];
                assert(all[k] == rest[i]);
            } else {
                assert(all[all.len() - 1] == last);
            }
        }
        assert forall|i: int, j: int| 0 <= i < j < all.len() implies (#[trigger] all[i]).1 <= (
        #[trigger] all[j]).0 by {
            assert(all[i] == kept[i]);
            if j < kept.len() {
                assert(all[j] == kept[j]);
            } else {
                assert(rest.contains(kept[i]));
                let k = choose|k: int| 0 <= k < rest.len() && rest[k] == kept[i];
                assert(hits[k] == kept[i]);
                assert(hits[hits.len() - 1] == last);
            }
        }
    }
}

/// What is replaced is hits of the query, the last first and none twice: every
/// one of them, or only one that the caret is in.
pub proof fn replacing_takes_the_hits_from_the_end(
    text: Seq<char>,
    query: Seq<char>,
    at: int,
    all: bool,
)
    requires
        folded(query).len() > 0,
        folded(text).len() <= usize::MAX,
    ensures
        ({
            let hits = hits_of(text, Some(query));
            let ranges = replaced_ranges(text, query, at, all);
            &&& forall|i: int|
                0 <= i < ranges.len() ==> {
                    let r = #[trigger] ranges[i];
                    &&& found_at(folded(text), folded(query), r.0 as int)
                    &&& r.1 == r.0 + folded(query).len()
                    &&& !all ==> r.0 <= at < r.1
                }
            &&& forall|i: int, j: int|
                0 <= i < j < ranges.len() ==> (#[trigger] ranges[j]).1 <= (#[trigger] ranges[i]).0
            &&& forall|i: int|
                0 <= i < hits.len() && (all || hits[i].0 <= at < hits[i].1) ==> ranges.contains(
                    #[trigger] hits[i],
                )
        }),
{
    let hay = folded(text);
    let needle = folded(query);
    let hits = hits_of(text, Some(query));
    hits_mark_every_occurrence(hay, needle, 0);
    let keep = |hit: (usize, usize)| hit_covers(hit, at);
    lemma_kept(hits, keep);
    let kept = if all {
        hits
    } else {
        hits.filter(keep)
    };
    let ranges = replaced_ranges(text, query, at, all);
    assert(ranges == kept.reverse());
    assert forall|i: int| 0 <= i < ranges.len() implies {
        let r = #[trigger] ranges[i];
        &&& found_at(folded(text), folded(query), r.0 as int)
        &&& r.1 == r.0 + folded(query).len()
        &&& !all ==> r.0 <= at < r.1
    } by {
        let k = kept.len() - 1 - i;
        assert(ranges[i] == kept[k]);
        if !all {
            assert(keep(kept[k]));
            assert(hits.contains(kept[k]));
        }
        let h = choose|h: int| 0 <= h < hits.len() && hits[h] == kept[k];
        assert(all ==> hits[k] == kept[k]);
        assert(hits[h] == kept[k]);
    }
    assert forall|i: int, j: int| 0 <= i < j < ranges.len() implies (#[trigger] ranges[j]).1 <= (
    #[trigger] ranges[i]).0 by {
        assert(ranges[i] == kept[kept.len() - 1 - i]);
        assert(ranges[j] == kept[kept.len() - 1 - j]);
    }
    assert forall|i: int| 0 <= i < hits.len() && (all || hits[i].0 <= at < hits[i].1) implies
        ranges.contains(#[trigger] hits[i]) by {
        if !all {
            assert(keep(hits[i]));
        }
        assert(all ==> kept.contains(hits[i])) by {
            if all {
                assert(kept[i] == hits[i]);
            }
        }
        let k = choose|k: int| 0 <= k < kept.len() && kept[k] == hits[i];
        assert(ranges[kept.len() - 1 - k] == hits[i]);
    }
}

/// The tally says how many matches there are, in words where there is none or
/// one, and nothing without a query.
pub proof fn a_tally_says_how_many(count: nat, query: Seq<char>)
    ensures
        query.len() == 0 ==> tally_label(count, query).len() == 0,
        query.len() > 0 && count == 0 ==> tally_label(count, query) == "no matches"@,
        query.len() > 0 && count == 1 ==> tally_label(count, query) == "1 match"@,
        query.len() > 0 && count > 1 ==> tally_label(count, query) == decimal(count)
            + " matches"@,
{
}

} // verus!
