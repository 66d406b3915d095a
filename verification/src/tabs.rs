//! The tabs, and the bar that lists them.

use crate::text::to_chars;
use vstd::prelude::*;

verus! {

/// Which tab is shown.
#[derive(Clone, Copy, Debug, PartialEq, Eq, Structural)]
pub enum ActiveTab {
    Session(u32),
    Sessions,
    Settings,
    Help,
}

/// An entry of the tab bar.
#[allow(inconsistent_fields)]
#[derive(Debug)]
pub enum TabBarEntry {
    Session { id: u32, label: String },
    NewButton,
    Utility { tab: ActiveTab, label: &'static str },
}

/// What a click on the tab bar asks for.
#[derive(Clone, Copy, Debug, PartialEq, Eq, Structural)]
pub enum ClickTarget {
    SwitchTab(ActiveTab),
    CloseSession(u32),
    NewSession,
}

/// The text that names an entry, as it is drawn.
pub open spec fn label_text(e: TabBarEntry) -> Seq<char> {
    match e {
        TabBarEntry::Session { id: _, label } => " "@ + label@ + " "@,
        TabBarEntry::NewButton => " [+] "@,
        TabBarEntry::Utility { tab: _, label } => " "@ + label@ + " "@,
    }
}

/// What a click on that text asks for.
pub open spec fn label_target(e: TabBarEntry) -> ClickTarget {
    match e {
        TabBarEntry::Session { id, label: _ } => ClickTarget::SwitchTab(ActiveTab::Session(id)),
        TabBarEntry::NewButton => ClickTarget::NewSession,
        TabBarEntry::Utility { tab, label: _ } => ClickTarget::SwitchTab(tab),
    }
}

/// The mark behind the name of a session that closes it, as it is drawn.
pub open spec fn close_text(e: TabBarEntry) -> Seq<char> {
    if e is Session {
        "✕ "@
    } else {
        Seq::empty()
    }
}

/// How many cells an entry takes.
pub open spec fn entry_width(e: TabBarEntry) -> int {
    (label_text(e).len() + close_text(e).len()) as int
}

/// Where an entry starts, from the start of the first.
pub open spec fn entry_offset(entries: Seq<TabBarEntry>, i: int) -> int
    decreases i,
{
    if i <= 0 {
        0
    } else {
        entry_offset(entries, i - 1) + entry_width(entries[i - 1])
    }
}

/// What a click on an entry asks for.
pub open spec fn entry_target(e: TabBarEntry, start: int, x: int) -> Option<ClickTarget> {
    let middle = start + label_text(e).len();
    if start <= x < middle {
        Some(label_target(e))
    } else if middle <= x < middle + close_text(e).len() {
        match e {
            TabBarEntry::Session { id, label: _ } => Some(ClickTarget::CloseSession(id)),
            _ => None,
        }
    } else {
        None
    }
}

/// What a click on the bar asks for, when its entries start at a column.
pub open spec fn bar_target(entries: Seq<TabBarEntry>, start: int, x: int) -> Option<ClickTarget>
    decreases entries.len(),
{
    if entries.len() == 0 {
        None
    } else {
        match entry_target(entries[0], start, x) {
            Some(target) => Some(target),
            None => bar_target(entries.skip(1), start + entry_width(entries[0]), x),
        }
    }
}

/// How many cells the text that names an entry takes.
fn label_width(e: &TabBarEntry) -> (n: usize)
    requires
        label_text(*e).len() <= usize::MAX,
    ensures
        n == label_text(*e).len(),
{
    proof {
        reveal_strlit(" ");
        reveal_strlit(" [+] ");
    }
    match e {
        TabBarEntry::Session { id: _, label } => to_chars(label.as_str()).len() + 2,
        TabBarEntry::NewButton => 5,
        TabBarEntry::Utility { tab: _, label } => to_chars(label).len() + 2,
    }
}

/// How many cells the text that names an entry takes, up to a limit.
fn label_width_within(e: &TabBarEntry, limit: usize) -> (n: Option<usize>)
    requires
        limit <= u16::MAX,
    ensures
        (match n {
            Some(n) => n == label_text(*e).len() && n <= limit,
            None => label_text(*e).len() > limit,
        }),
{
    proof {
        reveal_strlit(" ");
        reveal_strlit(" [+] ");
    }
    let inner: usize = match e {
        TabBarEntry::Session { id: _, label } => to_chars(label.as_str()).len(),
        TabBarEntry::NewButton => 3,
        TabBarEntry::Utility { tab: _, label } => to_chars(label).len(),
    };
    if inner > limit || inner + 2 > limit {
        None
    } else {
        Some(inner + 2)
    }
}

proof fn lemma_past(entries: Seq<TabBarEntry>, start: int, x: int)
    requires
        x < start,
    ensures
        bar_target(entries, start, x) is None,
    decreases entries.len(),
{
    if entries.len() > 0 {
        lemma_past(entries.skip(1), start + entry_width(entries[0]), x);
    }
}

/// What a click on the bar asks for. The entries start behind `lead` cells.
pub fn target_at(entries: &Vec<TabBarEntry>, lead: usize, x: u16) -> (target: Option<ClickTarget>)
    ensures
        target == bar_target(entries@, lead as int, x as int),
{
    let at: usize = x as usize;
    let mut pos: usize = lead;
    let mut i: usize = 0;
    assert(entries@.skip(0) =~= entries@);
    while i < entries.len()
        invariant
            i <= entries@.len(),
            at == x,
            bar_target(entries@, lead as int, x as int) == bar_target(
                entries@.skip(i as int),
                pos as int,
                x as int,
            ),
        decreases entries.len() - i,
    {
        assert(entries@.skip(i as int)[0] == entries@[i as int]);
        assert(entries@.skip(i as int).skip(1) =~= entries@.skip(i + 1));
        if pos > at {
            proof {
                lemma_past(entries@.skip(i as int), pos as int, x as int);
            }
            return None;
        }
        let entry = &entries[i];
        let width: usize = match label_width_within(entry, at - pos) {
            Some(width) => width,
            None => {
                return Some(
                    match entry {
                        TabBarEntry::Session { id, label: _ } => ClickTarget::SwitchTab(
                            ActiveTab::Session(*id),
                        ),
                        TabBarEntry::NewButton => ClickTarget::NewSession,
                        TabBarEntry::Utility { tab, label: _ } => ClickTarget::SwitchTab(*tab),
                    },
                );
            },
        };
        pos = pos + width;
        if let TabBarEntry::Session { id, label: _ } = entry {
            proof {
                reveal_strlit("✕ ");
            }
            if at < pos + 2 {
                return Some(ClickTarget::CloseSession(*id));
            }
            pos = pos + 2;
        }
        i += 1;
    }
    None
}

/// A target of the bar, and the columns it takes.
#[derive(Clone, Copy, Debug, PartialEq, Eq, Structural)]
pub struct HitBox {
    pub target: ClickTarget,
    pub start: usize,
    pub end: usize,
}

/// The targets of an entry that starts at a column.
pub open spec fn entry_boxes(e: TabBarEntry, start: int) -> Seq<HitBox> {
    let middle = start + label_text(e).len();
    let label = HitBox { target: label_target(e), start: start as usize, end: middle as usize };
    match e {
        TabBarEntry::Session { id, label: _ } => seq![
            label,
            HitBox {
                target: ClickTarget::CloseSession(id),
                start: middle as usize,
                end: (middle + close_text(e).len()) as usize,
            },
        ],
        _ => seq![label],
    }
}

/// The targets of the first `n` entries.
pub open spec fn bar_boxes(entries: Seq<TabBarEntry>, lead: int, n: nat) -> Seq<HitBox>
    decreases n,
{
    if n == 0 {
        Seq::empty()
    } else {
        bar_boxes(entries, lead, (n - 1) as nat) + entry_boxes(
            entries[n - 1],
            lead + entry_offset(entries, n - 1),
        )
    }
}

pub(crate) proof fn lemma_offsets_grow(entries: Seq<TabBarEntry>, i: int, j: int)
    requires
        0 <= i <= j,
    ensures
        entry_offset(entries, i) <= entry_offset(entries, j),
    decreases j,
{
    if i < j {
        lemma_offsets_grow(entries, i, j - 1);
    }
}

/// The targets of the bar, and the columns each takes. The entries start
/// behind `lead` cells.
pub fn hit_boxes(entries: &Vec<TabBarEntry>, lead: usize) -> (boxes: Vec<HitBox>)
    requires
        lead + entry_offset(entries@, entries@.len() as int) <= usize::MAX,
    ensures
        boxes@ == bar_boxes(entries@, lead as int, entries@.len()),
{
    let mut boxes: Vec<HitBox> = Vec::new();
    let mut pos: usize = lead;
    let mut i: usize = 0;
    while i < entries.len()
        invariant
            i <= entries@.len(),
            lead + entry_offset(entries@, entries@.len() as int) <= usize::MAX,
            pos == lead + entry_offset(entries@, i as int),
            boxes@ == bar_boxes(entries@, lead as int, i as nat),
        decreases entries.len() - i,
    {
        proof {
            lemma_offsets_grow(entries@, i + 1, entries@.len() as int);
            lemma_offsets_grow(entries@, 0, i as int);
            reveal_strlit("✕ ");
        }
        let ghost was = boxes@;
        let ghost start = pos as int;
        let entry = &entries[i];
        let middle: usize = pos + label_width(entry);
        match entry {
            TabBarEntry::Session { id, label: _ } => {
                boxes.push(
                    HitBox {
                        target: ClickTarget::SwitchTab(ActiveTab::Session(*id)),
                        start: pos,
                        end: middle,
                    },
                );
                boxes.push(
                    HitBox {
                        target: ClickTarget::CloseSession(*id),
                        start: middle,
                        end: middle + 2,
                    },
                );
                pos = middle + 2;
            },
            TabBarEntry::NewButton => {
                boxes.push(HitBox { target: ClickTarget::NewSession, start: pos, end: middle });
                pos = middle;
            },
            TabBarEntry::Utility { tab, label: _ } => {
                boxes.push(
                    HitBox { target: ClickTarget::SwitchTab(*tab), start: pos, end: middle },
                );
                pos = middle;
            },
        }
        assert(boxes@ =~= was + entry_boxes(entries@[i as int], start));
        i += 1;
    }
    boxes
}

proof fn lemma_offset_shift(entries: Seq<TabBarEntry>, i: int)
    requires
        1 <= i <= entries.len(),
    ensures
        entry_offset(entries, i) == entry_width(entries[0]) + entry_offset(entries.skip(1), i - 1),
    decreases i,
{
    if i > 1 {
        lemma_offset_shift(entries, i - 1);
        assert(entries.skip(1)[i - 2] == entries[i - 1]);
    } else {
        assert(entry_offset(entries, 0) == 0);
        assert(entry_offset(entries.skip(1), 0) == 0);
    }
}

/// What is clicked is what is drawn: each cell of the text that names an entry
/// asks for that entry, and each cell of the mark behind a session's name asks
/// for that session to be closed.
pub proof fn what_is_clicked_is_what_is_drawn(
    entries: Seq<TabBarEntry>,
    lead: int,
    i: int,
    x: int,
)
    requires
        0 <= i < entries.len(),
        lead + entry_offset(entries, i) <= x < lead + entry_offset(entries, i) + entry_width(
            entries[i],
        ),
    ensures
        bar_target(entries, lead, x) == (if x < lead + entry_offset(entries, i) + label_text(
            entries[i],
        ).len() {
            Some(label_target(entries[i]))
        } else {
            match entries[i] {
                TabBarEntry::Session { id, label: _ } => Some(ClickTarget::CloseSession(id)),
                _ => None,
            }
        }),
    decreases entries.len(),
{
    if i > 0 {
        lemma_offset_shift(entries, i);
        lemma_offsets_grow(entries.skip(1), 0, i - 1);
        assert(entries.skip(1)[i - 1] == entries[i]);
        what_is_clicked_is_what_is_drawn(
            entries.skip(1),
            lead + entry_width(entries[0]),
            i - 1,
            x,
        );
    } else {
        assert(entry_offset(entries, 0) == 0);
    }
}

/// A click behind the last entry asks for nothing.
pub proof fn nothing_is_behind_the_last_entry(entries: Seq<TabBarEntry>, lead: int, x: int)
    requires
        x >= lead + entry_offset(entries, entries.len() as int),
    ensures
        bar_target(entries, lead, x) is None,
    decreases entries.len(),
{
    if entries.len() > 0 {
        lemma_offset_shift(entries, entries.len() as int);
        lemma_offsets_grow(entries.skip(1), 0, entries.len() - 1);
        nothing_is_behind_the_last_entry(entries.skip(1), lead + entry_width(entries[0]), x);
    }
}

/// A click on the name of a session shows that session, and on the mark behind
/// it closes it; a click on another tab's name shows that tab; and a click on
/// the button starts a session. Every name is drawn whole.
pub proof fn a_click_means_its_entry(e: TabBarEntry, start: int, x: int)
    requires
        start <= x < start + entry_width(e),
    ensures
        (match e {
            TabBarEntry::Session { id, label } => {
                &&& entry_width(e) == label@.len() + 4
                &&& label_text(e) == " "@ + label@ + " "@
                &&& x < start + label@.len() + 2 ==> entry_target(e, start, x) == Some(
                    ClickTarget::SwitchTab(ActiveTab::Session(id)),
                )
                &&& x >= start + label@.len() + 2 ==> entry_target(e, start, x) == Some(
                    ClickTarget::CloseSession(id),
                )
            },
            TabBarEntry::NewButton => entry_target(e, start, x) == Some(ClickTarget::NewSession),
            TabBarEntry::Utility { tab, label } => {
                &&& entry_width(e) == label@.len() + 2
                &&& label_text(e) == " "@ + label@ + " "@
                &&& entry_target(e, start, x) == Some(ClickTarget::SwitchTab(tab))
            },
        }),
{
    reveal_strlit(" ");
    reveal_strlit(" [+] ");
    reveal_strlit("✕ ");
}

/// The columns that are listed for a target are those where a click asks for
/// it.
pub proof fn boxes_and_clicks_agree(
    entries: Seq<TabBarEntry>,
    lead: int,
    n: nat,
    k: int,
    x: int,
)
    requires
        n <= entries.len(),
        0 <= lead,
        lead + entry_offset(entries, n as int) <= usize::MAX,
        0 <= k < bar_boxes(entries, lead, n).len(),
        bar_boxes(entries, lead, n)[k].start <= x < bar_boxes(entries, lead, n)[k].end,
    ensures
        bar_target(entries, lead, x) == Some(bar_boxes(entries, lead, n)[k].target),
    decreases n,
{
    let before = bar_boxes(entries, lead, (n - 1) as nat);
    lemma_offsets_grow(entries, n - 1, n as int);
    lemma_offsets_grow(entries, 0, n - 1);
    if k < before.len() {
        boxes_and_clicks_agree(entries, lead, (n - 1) as nat, k, x);
    } else {
        let e = entries[n - 1];
        let start = lead + entry_offset(entries, n - 1);
        assert(bar_boxes(entries, lead, n)[k] == entry_boxes(e, start)[k - before.len()]);
        assert(entry_offset(entries, n as int) == entry_offset(entries, n - 1) + entry_width(e));
        what_is_clicked_is_what_is_drawn(entries, lead, n - 1, x);
    }
}

/// Every entry has a target in the bar: a session two, any other one.
pub proof fn every_entry_has_its_boxes(entries: Seq<TabBarEntry>, lead: int, i: int, n: nat)
    requires
        0 <= i < n <= entries.len(),
    ensures
        exists|k: int|
            0 <= k < bar_boxes(entries, lead, n).len() && (match entries[i] {
                TabBarEntry::Session { id, label: _ } => k + 1 < bar_boxes(entries, lead, n).len()
                    && (#[trigger] bar_boxes(entries, lead, n)[k]).target == ClickTarget::SwitchTab(
                    ActiveTab::Session(id),
                ) && bar_boxes(entries, lead, n)[k + 1].target == ClickTarget::CloseSession(id),
                TabBarEntry::NewButton => bar_boxes(entries, lead, n)[k].target
                    == ClickTarget::NewSession,
                TabBarEntry::Utility { tab, label: _ } => bar_boxes(entries, lead, n)[k].target
                    == ClickTarget::SwitchTab(tab),
            }),
    decreases n,
{
    let before = bar_boxes(entries, lead, (n - 1) as nat);
    let all = bar_boxes(entries, lead, n);
    if i < n - 1 {
        every_entry_has_its_boxes(entries, lead, i, (n - 1) as nat);
        let k = choose|k: int|
            0 <= k < before.len() && (match entries[i] {
                TabBarEntry::Session { id, label: _ } => k + 1 < before.len() && (
                #[trigger] before[k]).target == ClickTarget::SwitchTab(ActiveTab::Session(id))
                    && before[k + 1].target == ClickTarget::CloseSession(id),
                TabBarEntry::NewButton => before[k].target == ClickTarget::NewSession,
                TabBarEntry::Utility { tab, label: _ } => before[k].target
                    == ClickTarget::SwitchTab(tab),
            });
        assert(all[k] == before[k]);
        if k + 1 < before.len() {
            assert(all[k + 1] == before[k + 1]);
        }
    } else {
        let k = before.len() as int;
        let start = lead + entry_offset(entries, n - 1);
        assert(all[k] == entry_boxes(entries[i], start)[0]);
        if entries[i] is Session {
            assert(all[k + 1] == entry_boxes(entries[i], start)[1]);
        }
    }
}

} // verus!
