use vstd::prelude::*;

use crate::event::FoundStatus;
use crate::event::NewScanEvent;
use crate::event::ProcessStatus;
use crate::event::ScanEvent;
use crate::event::EventModel;
use crate::event::clone_opt_string;
use crate::event::event_wf;
use crate::event::fresh_event;

verus! {

/// The persisted queue of scan events.  Events keep the order they were
/// inserted in; identifiers are assigned by the store and strictly increase
/// along the queue, so the queue can never outgrow the identifier space.
pub struct EventStore {
    pub events: Vec<ScanEvent>,
    pub next_id: i32,
}

impl View for EventStore {
    type V = Seq<EventModel>;

    open spec fn view(&self) -> Seq<EventModel> {
        self.events@.map_values(|e: ScanEvent| e@)
    }
}

/// Store invariant: identifiers are non-negative, strictly increasing along
/// the queue, below the next free identifier, and every event keeps its own
/// invariant.
pub open spec fn store_wf(s: EventStore, max_retries: u32) -> bool {
    &&& 1 <= s.next_id
    &&& forall|i: int| 0 <= i < s@.len() ==> 0 <= (#[trigger] s@[i]).id < s.next_id
    &&& forall|i: int, j: int| 0 <= i < j < s@.len() ==> s@[i].id < s@[j].id
    &&& forall|i: int| 0 <= i < s@.len() ==> event_wf(#[trigger] s@[i], max_retries)
}

proof fn lemma_id_at_least_index(evs: Seq<EventModel>, i: int)
    requires
        forall|k: int| 0 <= k < evs.len() ==> 0 <= (#[trigger] evs[k]).id,
        forall|k: int, l: int| 0 <= k < l < evs.len() ==> evs[k].id < evs[l].id,
        0 <= i < evs.len(),
    ensures
        i <= evs[i].id,
    decreases i,
{
    if i > 0 {
        lemma_id_at_least_index(evs, i - 1);
        assert(evs[i - 1].id < evs[i].id);
    }
}

/// Strictly increasing identifiers below `bound` leave room for at most
/// `bound` events, so the queue length is bounded by the identifier space.
pub proof fn lemma_len_bounded_by_ids(evs: Seq<EventModel>, bound: int)
    requires
        0 <= bound,
        forall|k: int| 0 <= k < evs.len() ==> 0 <= (#[trigger] evs[k]).id < bound,
        forall|k: int, l: int| 0 <= k < l < evs.len() ==> evs[k].id < evs[l].id,
    ensures
        evs.len() <= bound,
{
    if evs.len() > 0 {
        lemma_id_at_least_index(evs, evs.len() - 1);
        assert(evs.len() - 1 <= evs[evs.len() - 1].id);
    }
}

impl EventStore {
    /// An empty store; the first event gets identifier 1.
    pub fn new() -> (s: EventStore)
        ensures
            s@ =~= Seq::<EventModel>::empty(),
            s.next_id == 1,
    {
        EventStore { events: Vec::new(), next_id: 1 }
    }

    /// Append a fresh event for the request, assigning the next identifier
    /// and stamping both timestamps with `now`.  Fails exactly when the
    /// identifier space is exhausted, in which case nothing changes.
    pub fn insert(&mut self, new: &NewScanEvent, now: i64) -> (r: Option<ScanEvent>)
        ensures
            (r is Some) <==> old(self).next_id < i32::MAX,
            r is Some ==> {
                &&& r->0@ == fresh_event(new@, old(self).next_id as int, now as int)
                &&& final(self)@ == old(self)@.push(r->0@)
                &&& final(self).next_id == old(self).next_id + 1
            },
            r is None ==> *final(self) == *old(self),
            forall|mr: u32| store_wf(*old(self), mr) ==> store_wf(*final(self), mr),
    {
        if self.next_id == i32::MAX {
            return None;
        }
        let ev = ScanEvent {
            id: self.next_id,
            file_path: new.file_path.clone(),
            file_hash: clone_opt_string(&new.file_hash),
            found_status: FoundStatus::Pending,
            found_at: None,
            process_status: ProcessStatus::Pending,
            failed_times: 0,
            next_retry_at: None,
            targets_hit: Vec::new(),
            processed_at: None,
            created_at: now,
            updated_at: now,
        };
        proof {
            assert(ev@ =~= fresh_event(new@, self.next_id as int, now as int));
        }
        let r = ev.duplicate();
        self.events.push(ev);
        self.next_id = self.next_id + 1;
        proof {
            assert(self@ =~= old(self)@.push(r@));
        }
        Some(r)
    }

    /// Look an event up by its identifier; the returned copy has the model
    /// of the stored event.
    pub fn find(&self, scan_id: i32) -> (r: Option<ScanEvent>)
        ensures
            (r is Some) <==> exists|i: int|
                0 <= i < self@.len() && (#[trigger] self@[i]).id == scan_id,
            r is Some ==> exists|i: int|
                0 <= i < self@.len() && (#[trigger] self@[i]).id == scan_id && r->0@ == self@[i],
    {
        let mut i: usize = 0;
        while i < self.events.len()
            invariant
                i <= self@.len(),
                forall|j: int| 0 <= j < i ==> (#[trigger] self@[j]).id != scan_id,
            decreases self@.len() - i,
    {
            if self.events[i].id == scan_id {
                let found = self.events[i].duplicate();
                proof {
                    assert(self@[i as int].id == scan_id);
                }
                return Some(found);
            }
            i += 1;
        }
        None
    }
}

} // verus!
