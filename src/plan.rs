//! The numbering of a run: which entry gets which track number.
use core::cmp::Ordering;
use vstd::prelude::*;
use crate::order::{is_arrangement, name_order, sort_by_name, sorted_by_name, steps_up};
use crate::scan::{entry_name, is_track_file, select_tracks, track_count, ListingEntry};

verus! {

/// The numbers to write into one file's tag.
#[derive(Clone, Copy, Debug, PartialEq, Eq, Structural)]
pub struct Assignment {
    /// Position of the file in the listing.
    pub entry: usize,
    /// Its track number, counted from one.
    pub track: u32,
    /// The number of files in the run.
    pub total: u32,
}

/// Every file of the listing appears in `plan` exactly once, and nothing else does.
pub open spec fn covers_tracks(entries: Seq<ListingEntry>, plan: Seq<Assignment>) -> bool {
    &&& forall|k: int| 0 <= k < plan.len() ==> plan[k].entry < entries.len() && is_track_file(
        entries[plan[k].entry as int],
    )
    &&& forall|j: int, k: int| 0 <= j < k < plan.len() ==> plan[j].entry != plan[k].entry
    &&& forall|i: int| 0 <= i < entries.len() && is_track_file(#[trigger] entries[i]) ==> exists|
        k: int,
    | 0 <= k < plan.len() && plan[k].entry == i
}

/// Track `k + 1` of `plan.len()` stands at place `k`.
pub open spec fn numbered_in_sequence(plan: Seq<Assignment>) -> bool {
    forall|k: int|
        0 <= k < plan.len() ==> (#[trigger] plan[k]).track == k + 1 && plan[k].total == plan.len()
}

/// The files in `plan` follow name order.
pub open spec fn in_name_order(entries: Seq<ListingEntry>, plan: Seq<Assignment>) -> bool {
    forall|k: int|
        0 <= k < plan.len() - 1 ==> name_order(
            entry_name(entries[(#[trigger] plan[k]).entry as int]),
            entry_name(entries[plan[k + 1].entry as int]),
        ) != Ordering::Greater
}

/// What the two stages of `plan_run` leave behind: `sel` lists the audio
/// files, `names` their names, `order` sorts the names, `plan` follows `order`.
pub open spec fn plan_stages(
    entries: Seq<ListingEntry>,
    sel: Seq<usize>,
    names: Seq<String>,
    order: Seq<usize>,
    plan: Seq<Assignment>,
) -> bool {
    &&& names.len() == sel.len()
    &&& forall|q: int| 0 <= q < sel.len() ==> sel[q] < entries.len() && is_track_file(
        entries[sel[q] as int],
    )
    &&& forall|q: int| 0 <= q < sel.len() ==> (#[trigger] names[q])@ == entry_name(
        entries[sel[q] as int],
    )
    &&& is_arrangement(order, sel.len())
    &&& plan.len() == order.len()
    &&& forall|q: int| 0 <= q < plan.len() ==> (#[trigger] plan[q]).entry == sel[order[q] as int]
}

proof fn lemma_plan_in_name_order(
    entries: Seq<ListingEntry>,
    sel: Seq<usize>,
    names: Seq<String>,
    order: Seq<usize>,
    plan: Seq<Assignment>,
)
    requires
        plan_stages(entries, sel, names, order, plan),
        sorted_by_name(names, order),
    ensures
        in_name_order(entries, plan),
{
    assert forall|k: int| 0 <= k < plan.len() - 1 implies name_order(
        entry_name(entries[(#[trigger] plan[k]).entry as int]),
        entry_name(entries[plan[k + 1].entry as int]),
    ) != Ordering::Greater by {
        assert(steps_up(names, order, k));
        assert(plan[k].entry == sel[order[k] as int]);
        assert(plan[k + 1].entry == sel[order[k + 1] as int]);
        assert(names[order[k] as int]@ == entry_name(entries[sel[order[k] as int] as int]));
        assert(names[order[k + 1] as int]@ == entry_name(
            entries[sel[order[k + 1] as int] as int],
        ));
    }
}

proof fn lemma_plan_covers(
    entries: Seq<ListingEntry>,
    sel: Seq<usize>,
    order: Seq<usize>,
    plan: Seq<Assignment>,
)
    requires
        entries.len() <= usize::MAX,
        sel.len() <= entries.len(),
        forall|q: int| 0 <= q < sel.len() ==> sel[q] < entries.len() && is_track_file(
            entries[sel[q] as int],
        ),
        forall|j: int, k: int| 0 <= j < k < sel.len() ==> sel[j] < sel[k],
        forall|i: int| 0 <= i < entries.len() && is_track_file(#[trigger] entries[i])
            ==> sel.contains(i as usize),
        is_arrangement(order, sel.len()),
        plan.len() == order.len(),
        forall|q: int| 0 <= q < plan.len() ==> (#[trigger] plan[q]).entry == sel[order[q] as int],
    ensures
        covers_tracks(entries, plan),
{
    assert forall|j: int, k: int| 0 <= j < k < sel.len() implies sel[j] != sel[k] by {}
    assert forall|i: int| 0 <= i < entries.len() && is_track_file(
        #[trigger] entries[i],
    ) implies exists|k: int| 0 <= k < plan.len() && plan[k].entry == i by {
        let q = choose|q: int| 0 <= q < sel.len() && sel[q] == i as usize;
        assert(order.contains(q as usize));
        let k = choose|k: int| 0 <= k < order.len() && order[k] == q as usize;
        assert(plan[k].entry == sel[q]);
    }
    assert forall|j: int, k: int| 0 <= j < k < plan.len() implies plan[j].entry
        != plan[k].entry by {
        assert(plan[j].entry == sel[order[j] as int]);
        assert(plan[k].entry == sel[order[k] as int]);
        assert(order[j] != order[k]);
        if sel[order[j] as int] == sel[order[k] as int] {
            if order[j] < order[k] {
                assert(sel[order[j] as int] < sel[order[k] as int]);
            } else {
                assert(sel[order[k] as int] < sel[order[j] as int]);
            }
        }
    }
}

/// Numbers the audio files of a listing: they are taken in name order and
/// given tracks `1..=n`, each with total `n`, the number of audio files.
#[verifier::rlimit(30)]
pub fn plan_run(entries: &Vec<ListingEntry>) -> (plan: Vec<Assignment>)
    requires
        track_count(entries@) <= u32::MAX,
    ensures
        plan@.len() == track_count(entries@),
        covers_tracks(entries@, plan@),
        numbered_in_sequence(plan@),
        in_name_order(entries@, plan@),
{
    let listed: usize = entries.len();
    let sel = select_tracks(entries);
    let mut names: Vec<String> = Vec::new();
    let mut k: usize = 0;
    while k < sel.len()
        invariant
            k <= sel@.len(),
            names@.len() == k,
            forall|q: int| 0 <= q < sel@.len() ==> sel@[q] < entries@.len() && is_track_file(
                entries@[sel@[q] as int],
            ),
            forall|q: int| 0 <= q < k ==> (#[trigger] names@[q])@ == entry_name(
                entries@[sel@[q] as int],
            ),
        decreases sel@.len() - k,
    {
        let name = match &entries[sel[k]] {
            ListingEntry::Found(c) => c.name.clone(),
            ListingEntry::Unreadable => String::new(),
        };
        names.push(name);
        k = k + 1;
    }
    let order = sort_by_name(&names);
    let n: u32 = order.len() as u32;
    let mut plan: Vec<Assignment> = Vec::new();
    let mut t: usize = 0;
    while t < order.len()
        invariant
            t <= order@.len(),
            order@.len() == sel@.len(),
            sel@.len() <= entries@.len(),
            n == order@.len(),
            is_arrangement(order@, sel@.len()),
            plan@.len() == t,
            forall|q: int| 0 <= q < t ==> (#[trigger] plan@[q]).entry == sel@[order@[q] as int]
                && plan@[q].track == q + 1 && plan@[q].total == n,
        decreases order@.len() - t,
    {
        plan.push(Assignment { entry: sel[order[t]], track: (t + 1) as u32, total: n });
        t = t + 1;
    }
    proof {
        lemma_plan_in_name_order(entries@, sel@, names@, order@, plan@);
        assert(entries@.len() == listed);
        lemma_plan_covers(entries@, sel@, order@, plan@);
    }
    plan
}

/// Some entry of `plan` has track number `t`.
pub open spec fn has_track(plan: Seq<Assignment>, t: int) -> bool {
    exists|k: int| 0 <= k < plan.len() && #[trigger] plan[k].track == t
}

/// The track numbers of a numbered plan are exactly `1..=n`: each number of
/// that range is held by one entry, and no two entries share one.
pub proof fn lemma_tracks_one_to_n(plan: Seq<Assignment>)
    requires
        numbered_in_sequence(plan),
    ensures
        forall|j: int, k: int| 0 <= j < k < plan.len() ==> plan[j].track != plan[k].track,
        forall|k: int| 0 <= k < plan.len() ==> 1 <= #[trigger] plan[k].track <= plan.len(),
        forall|t: int| 1 <= t <= plan.len() ==> #[trigger] has_track(plan, t),
{
    assert forall|j: int, k: int| 0 <= j < k < plan.len() implies plan[j].track != plan[k].track by {
        assert(plan[j].track == j + 1 && plan[k].track == k + 1);
    }
    assert forall|t: int| 1 <= t <= plan.len() implies #[trigger] has_track(plan, t) by {
        assert(plan[t - 1].track == t);
    }
}

/// Every file of a numbered plan is given the same total: the number of files.
pub proof fn lemma_total_is_count(plan: Seq<Assignment>)
    requires
        numbered_in_sequence(plan),
    ensures
        forall|j: int, k: int| 0 <= j < plan.len() && 0 <= k < plan.len() ==> #[trigger] plan[j].total == #[trigger] plan[k].total,
        forall|k: int| 0 <= k < plan.len() ==> #[trigger] plan[k].total == plan.len(),
{
}

} // verus!
