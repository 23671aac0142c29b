//! Change detection: which maps have to be synchronised again.
//!
//! The host reports, for every tick, the asset events of that tick in the
//! order in which they arrived. A map that was created or modified has to be
//! synchronised; a map that was removed afterwards has not.

use crate::handle::MapHandle;
use std::collections::HashSet;
use vstd::prelude::*;

verus! {

broadcast use vstd::std_specs::hash::group_hash_axioms;

/// Something that happened to a map asset.
#[derive(Clone, Copy, Debug, PartialEq, Eq, Structural)]
pub enum AssetEvent {
    Created { handle: MapHandle },
    Modified { handle: MapHandle },
    Removed { handle: MapHandle },
}

impl AssetEvent {
    /// Id of the map that the event is about.
    pub open spec fn id(self) -> u128 {
        match self {
            AssetEvent::Created { handle } => handle.id,
            AssetEvent::Modified { handle } => handle.id,
            AssetEvent::Removed { handle } => handle.id,
        }
    }

    /// Whether the event puts map `id` into the changed set.
    pub open spec fn marks(self, id: u128) -> bool {
        !(self is Removed) && self.id() == id
    }

    /// Whether the event takes map `id` out of the changed set.
    pub open spec fn clears(self, id: u128) -> bool {
        self is Removed && self.id() == id
    }
}

/// The changed set after one more event.
pub open spec fn apply_event(changed: Set<u128>, event: AssetEvent) -> Set<u128> {
    if event is Removed {
        changed.remove(event.id())
    } else {
        changed.insert(event.id())
    }
}

/// The ids of the maps to synchronise after the events of one tick, taken
/// in order from an empty set.
pub open spec fn changed_after(events: Seq<AssetEvent>) -> Set<u128>
    decreases events.len(),
{
    if events.len() == 0 {
        Set::empty()
    } else {
        apply_event(changed_after(events.drop_last()), events.last())
    }
}

/// Reduces the events of one tick to the set of maps to synchronise.
///
/// Events are taken strictly in order: `Created` and `Modified` put the map
/// into the set, `Removed` takes it out, also where it came in earlier in
/// the same tick.
pub fn changed_maps(events: &Vec<AssetEvent>) -> (changed: HashSet<u128>)
    ensures
        changed@ == changed_after(events@),
{
    let mut changed: HashSet<u128> = HashSet::new();
    let mut i: usize = 0;
    while i < events.len()
        invariant
            i <= events.len(),
            changed@ == changed_after(events@.take(i as int)),
        decreases events.len() - i,
    {
        proof {
            assert(events@.take(i + 1).drop_last() == events@.take(i as int));
        }
        match events[i] {
            AssetEvent::Created { handle } => {
                changed.insert(handle.id);
            },
            AssetEvent::Modified { handle } => {
                changed.insert(handle.id);
            },
            AssetEvent::Removed { handle } => {
                changed.remove(&handle.id);
            },
        }
        i += 1;
    }
    proof {
        assert(events@.take(events.len() as int) == events@);
    }
    changed
}

/// Reduces the events of one tick to the set of maps to synchronise, given
/// the maps that the host still holds: the changed maps that are present.
/// A map that is gone is passed over, whatever the events say of it.
pub fn maps_to_synchronise(events: &Vec<AssetEvent>, present: &HashSet<u128>) -> (changed: HashSet<
    u128,
>)
    ensures
        changed@ == changed_after(events@).intersect(present@),
{
    let mut changed: HashSet<u128> = HashSet::new();
    let mut i: usize = 0;
    assert(changed@ =~= changed_after(events@.take(0)).intersect(present@));
    while i < events.len()
        invariant
            i <= events.len(),
            changed@ == changed_after(events@.take(i as int)).intersect(present@),
        decreases events.len() - i,
    {
        proof {
            assert(events@.take(i + 1).drop_last() == events@.take(i as int));
        }
        let ghost before = changed_after(events@.take(i as int));
        match events[i] {
            AssetEvent::Created { handle } => {
                if present.contains(&handle.id) {
                    changed.insert(handle.id);
                }
                assert(changed@ =~= before.insert(handle.id).intersect(present@));
            },
            AssetEvent::Modified { handle } => {
                if present.contains(&handle.id) {
                    changed.insert(handle.id);
                }
                assert(changed@ =~= before.insert(handle.id).intersect(present@));
            },
            AssetEvent::Removed { handle } => {
                changed.remove(&handle.id);
                assert(changed@ =~= before.remove(handle.id).intersect(present@));
            },
        }
        i += 1;
    }
    proof {
        assert(events@.take(events.len() as int) == events@);
    }
    changed
}

/// A map is in the changed set exactly if some event put it there and no
/// later event of the tick took it out.
pub proof fn lemma_changed_iff_marked_last(events: Seq<AssetEvent>, id: u128)
    ensures
        changed_after(events).contains(id) <==> exists|i: int|
            0 <= i < events.len() && #[trigger] events[i].marks(id) && forall|j: int|
                i < j < events.len() ==> !#[trigger] events[j].clears(id),
    decreases events.len(),
{
    let marked_last = |s: Seq<AssetEvent>|
        exists|i: int|
            0 <= i < s.len() && #[trigger] s[i].marks(id) && forall|j: int|
                i < j < s.len() ==> !#[trigger] s[j].clears(id);
    if events.len() > 0 {
        let init = events.drop_last();
        let last = events.last();
        lemma_changed_iff_marked_last(init, id);
        if last.marks(id) {
            assert(events[events.len() - 1].marks(id));
        } else if last.clears(id) {
            assert(events[events.len() - 1].clears(id));
        } else {
            if marked_last(init) {
                let i = choose|i: int|
                    0 <= i < init.len() && #[trigger] init[i].marks(id) && forall|j: int|
                        i < j < init.len() ==> !#[trigger] init[j].clears(id);
                assert(events[i].marks(id));
                assert forall|j: int| i < j < events.len() implies !#[trigger] events[j].clears(
                    id,
                ) by {
                    if j < init.len() {
                        assert(!init[j].clears(id));
                    }
                }
            }
            if marked_last(events) {
                let i = choose|i: int|
                    0 <= i < events.len() && #[trigger] events[i].marks(id) && forall|j: int|
                        i < j < events.len() ==> !#[trigger] events[j].clears(id);
                assert(init[i].marks(id));
                assert forall|j: int| i < j < init.len() implies !#[trigger] init[j].clears(
                    id,
                ) by {
                    assert(!events[j].clears(id));
                }
            }
        }
    }
}

/// A map that was removed, and neither created nor modified afterwards in
/// the same tick, is not in the changed set.
pub proof fn lemma_removed_stays_out(events: Seq<AssetEvent>, id: u128, at: int)
    requires
        0 <= at < events.len(),
        events[at].clears(id),
        forall|j: int| at < j < events.len() ==> !#[trigger] events[j].marks(id),
    ensures
        !changed_after(events).contains(id),
{
    lemma_changed_iff_marked_last(events, id);
    if changed_after(events).contains(id) {
        let i = choose|i: int|
            0 <= i < events.len() && #[trigger] events[i].marks(id) && forall|j: int|
                i < j < events.len() ==> !#[trigger] events[j].clears(id);
        if i < at {
            assert(!events[at].clears(id));
        } else {
            assert(!events[i].marks(id));
        }
    }
}

/// Creating or modifying a map that is already in the changed set changes
/// nothing.
pub proof fn lemma_mark_idempotent(changed: Set<u128>, event: AssetEvent)
    requires
        !(event is Removed),
    ensures
        apply_event(apply_event(changed, event), event) == apply_event(changed, event),
{
    assert(changed.insert(event.id()).insert(event.id()) =~= changed.insert(event.id()));
}

} // verus!
