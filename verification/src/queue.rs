//! The steps that have been dispatched to machines and are building, keyed by
//! their derivation path.

use vstd::prelude::*;

verus! {

/// A step that has been dispatched to a machine and is building there.
#[derive(Debug, Clone, PartialEq, Eq)]
pub struct ScheduledItem {
    pub drv_path: String,
    pub resolved_drv_path: Option<String>,
    /// The id of the machine that builds the step.
    pub machine_id: u128,
    /// The host name of the machine that builds the step.
    pub machine_hostname: String,
}

/// A `hashbrown::HashMap` from derivation paths to the items scheduled
/// under them.
#[verifier::external_body]
pub struct ScheduledMap {
    map: hashbrown::HashMap<String, ScheduledItem>,
}

/// The entries of a `ScheduledMap`: each key's text and the item stored
/// under it.
pub uninterp spec fn scheduled_entries(m: ScheduledMap) -> Map<Seq<char>, ScheduledItem>;

/// `keys` lists the keys of `entries` once each, and `items` holds the item
/// stored under each of them, in the same order.
pub open spec fn lists_values(
    entries: Map<Seq<char>, ScheduledItem>,
    keys: Seq<Seq<char>>,
    items: Seq<ScheduledItem>,
) -> bool {
    &&& keys.len() == items.len()
    &&& keys.no_duplicates()
    &&& forall|i: int|
        0 <= i < keys.len() ==> entries.dom().contains(#[trigger] keys[i]) && entries[keys[i]]
            == items[i]
}

/// `hashbrown::HashMap::with_capacity`: an empty map with room for
/// `capacity` entries. Far larger requests can overflow the computation of
/// the table's size, which panics; the bound keeps clear of that.
#[verifier::external_body]
fn map_with_capacity(capacity: usize) -> (m: ScheduledMap)
    requires
        capacity <= 4096,
    ensures
        scheduled_entries(m).dom() == Set::<Seq<char>>::empty(),
{
    ScheduledMap { map: hashbrown::HashMap::with_capacity(capacity) }
}

/// `hashbrown::HashMap::insert`: stores `item` under `key` and gives back
/// the item that was stored under an equal key before, if any.
#[verifier::external_body]
fn map_insert(m: &mut ScheduledMap, key: String, item: ScheduledItem) -> (prev: Option<
    ScheduledItem,
>)
    ensures
        scheduled_entries(*final(m)) == scheduled_entries(*old(m)).insert(key@, item),
        prev == scheduled_entries(*old(m)).get(key@),
{
    m.map.insert(key, item)
}

/// `hashbrown::HashMap::remove`: takes out the item stored under `key`, if
/// any.
#[verifier::external_body]
fn map_remove(m: &mut ScheduledMap, key: &str) -> (r: Option<ScheduledItem>)
    ensures
        scheduled_entries(*final(m)) == scheduled_entries(*old(m)).remove(key@),
        r == scheduled_entries(*old(m)).get(key@),
{
    m.map.remove(key)
}

/// `hashbrown::HashMap::len`: the number of entries.
#[verifier::external_body]
fn map_len(m: &ScheduledMap) -> (n: usize)
    ensures
        n == scheduled_entries(*m).len(),
{
    m.map.len()
}

/// `hashbrown::HashMap::values`, each item cloned (a derived `clone`, equal
/// to the item). The order is the map's iteration order, which depends on
/// the hasher's random seed, so only that each entry comes out once is
/// stated.
#[verifier::external_body]
fn map_values(m: &ScheduledMap) -> (v: Vec<ScheduledItem>)
    ensures
        v@.len() == scheduled_entries(*m).len(),
        exists|keys: Seq<Seq<char>>| #[trigger] lists_values(scheduled_entries(*m), keys, v@),
{
    m.map.values().cloned().collect()
}

/// Every item is stored under its own derivation path.
pub open spec fn keyed_by_drv_path(entries: Map<Seq<char>, ScheduledItem>) -> bool {
    forall|k: Seq<char>| #[trigger] entries.dom().contains(k) ==> entries[k].drv_path@ == k
}

/// The steps that have been dispatched and are building.
pub struct InnerQueues {
    scheduled: ScheduledMap,
}

impl View for InnerQueues {
    type V = Map<Seq<char>, ScheduledItem>;

    closed spec fn view(&self) -> Map<Seq<char>, ScheduledItem> {
        scheduled_entries(self.scheduled)
    }
}

impl InnerQueues {
    /// Finitely many steps, each under its own derivation path.
    pub open spec fn wf(&self) -> bool {
        &&& self@.dom().finite()
        &&& keyed_by_drv_path(self@)
    }

    /// No step scheduled.
    pub fn new() -> (r: Self)
        ensures
            r.wf(),
            r@ == Map::<Seq<char>, ScheduledItem>::empty(),
    {
        InnerQueues { scheduled: map_with_capacity(100) }
    }

    /// Records that `item` is building; an item scheduled before under the
    /// same derivation path is replaced.
    pub fn add_job_to_scheduled(&mut self, item: ScheduledItem)
        requires
            old(self).wf(),
        ensures
            final(self).wf(),
            final(self)@ == old(self)@.insert(item.drv_path@, item),
    {
        let key = item.drv_path.clone();
        let _ = map_insert(&mut self.scheduled, key, item);
    }

    /// Takes the step with derivation path `drv` out of the scheduled ones,
    /// and gives it back if it was there.
    pub fn remove_job_from_scheduled(&mut self, drv: &str) -> (r: Option<ScheduledItem>)
        requires
            old(self).wf(),
        ensures
            final(self).wf(),
            final(self)@ == old(self)@.remove(drv@),
            r == old(self)@.get(drv@),
    {
        map_remove(&mut self.scheduled, drv)
    }

    /// The scheduled steps, each once, in no particular order.
    pub fn get_scheduled(&self) -> (r: Vec<ScheduledItem>)
        requires
            self.wf(),
        ensures
            r@.len() == self@.len(),
            forall|i: int|
                0 <= i < r@.len() ==> self@.dom().contains(#[trigger] r@[i].drv_path@) && self@[r@[i].drv_path@]
                    == r@[i],
            forall|i: int, j: int|
                0 <= i < j < r@.len() ==> #[trigger] r@[i].drv_path@ != #[trigger] r@[j].drv_path@,
    {
        let v = map_values(&self.scheduled);
        proof {
            let keys = choose|keys: Seq<Seq<char>>| lists_values(self@, keys, v@);
            assert forall|i: int| 0 <= i < v@.len() implies self@.dom().contains(
                #[trigger] v@[i].drv_path@,
            ) && self@[v@[i].drv_path@] == v@[i] by {
                assert(self@.dom().contains(keys[i]));
            }
            assert forall|i: int, j: int| 0 <= i < j < v@.len() implies v@[i].drv_path@
                != v@[j].drv_path@ by {
                assert(self@.dom().contains(keys[i]));
                assert(self@.dom().contains(keys[j]));
            }
        }
        v
    }

    /// The number of scheduled steps.
    pub fn get_scheduled_count(&self) -> (n: usize)
        requires
            self.wf(),
        ensures
            n == self@.len(),
    {
        map_len(&self.scheduled)
    }
}

/// What became of a scheduled step when the active steps were killed.
#[derive(Debug, Clone, Copy, PartialEq, Eq, Structural)]
pub enum KillOutcome {
    /// Builds still depend on the step: it was left running.
    HasDependents,
    /// The machine had no active build for the step.
    NoActiveBuild,
    /// The machine did not abort the build.
    AbortFailed,
    /// The build was aborted.
    Aborted,
}

/// The steps that a round of killing cancelled: the derivation path and the
/// machine of each step whose build was aborted, in the order of `items`.
pub open spec fn cancelled_of(items: Seq<ScheduledItem>, outcomes: Seq<KillOutcome>) -> Seq<
    (Seq<char>, u128),
>
    decreases items.len(),
{
    if items.len() == 0 || outcomes.len() == 0 {
        Seq::empty()
    } else {
        let rest = cancelled_of(items.drop_last(), outcomes.drop_last());
        if outcomes.last() == KillOutcome::Aborted {
            rest.push((items.last().drv_path@, items.last().machine_id))
        } else {
            rest
        }
    }
}

/// The list that killing the active steps reports: each item, with the
/// outcome of the attempt to abort it at the same index, counts when its
/// build was aborted.
pub fn cancelled_steps(items: &Vec<ScheduledItem>, outcomes: &Vec<KillOutcome>) -> (r: Vec<
    (String, u128),
>)
    requires
        items@.len() == outcomes@.len(),
    ensures
        r@.len() == cancelled_of(items@, outcomes@).len(),
        forall|i: int|
            0 <= i < r@.len() ==> (#[trigger] r@[i]).0@ == cancelled_of(items@, outcomes@)[i].0
                && r@[i].1 == cancelled_of(items@, outcomes@)[i].1,
{
    let mut r: Vec<(String, u128)> = Vec::new();
    let mut i: usize = 0;
    while i < items.len()
        invariant
            items@.len() == outcomes@.len(),
            i <= items@.len(),
            r@.len() == cancelled_of(items@.take(i as int), outcomes@.take(i as int)).len(),
            forall|k: int|
                0 <= k < r@.len() ==> (#[trigger] r@[k]).0@ == cancelled_of(
                    items@.take(i as int),
                    outcomes@.take(i as int),
                )[k].0 && r@[k].1 == cancelled_of(
                    items@.take(i as int),
                    outcomes@.take(i as int),
                )[k].1,
        decreases items.len() - i,
    {
        proof {
            assert(items@.take(i + 1).drop_last() =~= items@.take(i as int));
            assert(outcomes@.take(i + 1).drop_last() =~= outcomes@.take(i as int));
        }
        if outcomes[i] == KillOutcome::Aborted {
            let item = &items[i];
            r.push((item.drv_path.clone(), item.machine_id));
        }
        i = i + 1;
    }
    proof {
        assert(items@.take(items@.len() as int) =~= items@);
        assert(outcomes@.take(outcomes@.len() as int) =~= outcomes@);
    }
    r
}

/// What a read of the scheduled steps gives back of a write: after a step
/// is added, it is found under its derivation path and removing it gives
/// it back; the count grows by one exactly when no step was scheduled under
/// that path, and removing a scheduled step lowers it by one.
pub proof fn lemma_scheduled_roundtrip(m: Map<Seq<char>, ScheduledItem>, item: ScheduledItem)
    requires
        m.dom().finite(),
        keyed_by_drv_path(m),
    ensures
        keyed_by_drv_path(m.insert(item.drv_path@, item)),
        m.insert(item.drv_path@, item).get(item.drv_path@) == Some(item),
        m.insert(item.drv_path@, item).remove(item.drv_path@) == m.remove(item.drv_path@),
        m.insert(item.drv_path@, item).len() == if m.dom().contains(item.drv_path@) {
            m.len()
        } else {
            m.len() + 1
        },
        m.dom().contains(item.drv_path@) ==> m.remove(item.drv_path@).len() + 1 == m.len(),
{
    assert(m.insert(item.drv_path@, item).remove(item.drv_path@) =~= m.remove(item.drv_path@));
}

} // verus!
