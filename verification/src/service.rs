use vstd::prelude::*;

use crate::clock::now_seconds;
use crate::event::EventModel;
use crate::event::FoundStatus;
use crate::event::NewScanEvent;
use crate::event::ProcessStatus;
use crate::event::ScanEvent;
use crate::event::fresh_event;
use crate::settings::Settings;
use crate::store::EventStore;
use crate::store::lemma_len_bounded_by_ids;
use crate::store::store_wf;

verus! {

/// Point-in-time aggregate view of the store.  The categories are not a
/// partition: `found` counts found events of any process status, `pending`
/// only the found ones not yet processed, and `failed` counts retrying
/// events together with terminally failed ones.
#[derive(Clone, Copy, Debug, PartialEq, Eq, Structural)]
pub struct Stats {
    pub total: i64,
    pub found: i64,
    pub pending: i64,
    pub processed: i64,
    pub failed: i64,
}

pub open spec fn stat_found(ev: EventModel) -> bool {
    ev.found_status == FoundStatus::Found
}

pub open spec fn stat_pending(ev: EventModel) -> bool {
    ev.found_status == FoundStatus::Found && ev.process_status == ProcessStatus::Pending
}

pub open spec fn stat_processed(ev: EventModel) -> bool {
    ev.process_status == ProcessStatus::Complete
}

pub open spec fn stat_failed(ev: EventModel) -> bool {
    ev.process_status == ProcessStatus::Failed || ev.process_status == ProcessStatus::Retry
}

pub open spec fn count_found(evs: Seq<EventModel>) -> int
    decreases evs.len(),
{
    if evs.len() == 0 {
        0
    } else {
        count_found(evs.drop_last()) + if stat_found(evs.last()) {
            1int
        } else {
            0int
        }
    }
}

pub open spec fn count_pending(evs: Seq<EventModel>) -> int
    decreases evs.len(),
{
    if evs.len() == 0 {
        0
    } else {
        count_pending(evs.drop_last()) + if stat_pending(evs.last()) {
            1int
        } else {
            0int
        }
    }
}

pub open spec fn count_processed(evs: Seq<EventModel>) -> int
    decreases evs.len(),
{
    if evs.len() == 0 {
        0
    } else {
        count_processed(evs.drop_last()) + if stat_processed(evs.last()) {
            1int
        } else {
            0int
        }
    }
}

pub open spec fn count_failed(evs: Seq<EventModel>) -> int
    decreases evs.len(),
{
    if evs.len() == 0 {
        0
    } else {
        count_failed(evs.drop_last()) + if stat_failed(evs.last()) {
            1int
        } else {
            0int
        }
    }
}

/// Creation, lookup and aggregate reads over the event store, sharing the
/// configuration snapshot with the background runner.
pub struct PulseService {
    pub settings: Settings,
    pub store: EventStore,
}

impl PulseService {
    pub fn new(settings: Settings) -> (s: PulseService)
        ensures
            s.settings == settings,
            s.store@ =~= Seq::<EventModel>::empty(),
            s.store.next_id == 1,
    {
        PulseService { settings, store: EventStore::new() }
    }

    /// Insert an event for a creation request, stamping it with the current
    /// wall-clock time; the returned copy is the persisted event.  Fails
    /// exactly when the identifier space is exhausted.
    pub fn add_event(&mut self, new: &NewScanEvent) -> (r: Option<ScanEvent>)
        ensures
            (r is Some) <==> old(self).store.next_id < i32::MAX,
            r is Some ==> r->0@ == fresh_event(
                new@,
                old(self).store.next_id as int,
                r->0@.created_at,
            ),
            r is Some ==> final(self).store@ == old(self).store@.push(r->0@)
                && final(self).store.next_id == old(self).store.next_id + 1,
            r is None ==> final(self).store == old(self).store,
            final(self).settings == old(self).settings,
            forall|mr: u32| store_wf(old(self).store, mr) ==> store_wf(final(self).store, mr),
    {
        let t = now_seconds();
        self.store.insert(new, t)
    }

    /// Look an event up by its identifier.
    pub fn get_event(&self, scan_id: &i32) -> (r: Option<ScanEvent>)
        ensures
            (r is Some) <==> exists|i: int|
                0 <= i < self.store@.len() && (#[trigger] self.store@[i]).id == *scan_id,
            r is Some ==> exists|i: int|
                0 <= i < self.store@.len() && (#[trigger] self.store@[i]).id == *scan_id
                    && r->0@ == self.store@[i],
    {
        self.store.find(*scan_id)
    }

    /// The aggregate counts, each the count of its own filter over the
    /// queue at this instant.
    pub fn get_stats(&self) -> (r: Stats)
        requires
            store_wf(self.store, self.settings.opts.max_retries),
        ensures
            r.total == self.store@.len(),
            r.found == count_found(self.store@),
            r.pending == count_pending(self.store@),
            r.processed == count_processed(self.store@),
            r.failed == count_failed(self.store@),
    {
        proof {
            lemma_len_bounded_by_ids(self.store@, self.store.next_id as int);
        }
        let ghost evs = self.store@;
        let n = self.store.events.len();
        let mut found: i64 = 0;
        let mut pending: i64 = 0;
        let mut processed: i64 = 0;
        let mut failed: i64 = 0;
        let mut i: usize = 0;
        while i < n
            invariant
                i <= n,
                n == self.store.events@.len(),
                n <= i32::MAX,
                evs == self.store@,
                evs.len() == n,
                0 <= found <= i,
                0 <= pending <= i,
                0 <= processed <= i,
                0 <= failed <= i,
                found == count_found(evs.take(i as int)),
                pending == count_pending(evs.take(i as int)),
                processed == count_processed(evs.take(i as int)),
                failed == count_failed(evs.take(i as int)),
            decreases n - i,
        {
            proof {
                assert(evs.take(i + 1).drop_last() =~= evs.take(i as int));
                assert(evs.take(i + 1).last() == evs[i as int]);
                assert(evs[i as int] == self.store.events@[i as int]@);
            }
            let ev = &self.store.events[i];
            if ev.found_status == FoundStatus::Found {
                found = found + 1;
                if ev.process_status == ProcessStatus::Pending {
                    pending = pending + 1;
                }
            }
            if ev.process_status == ProcessStatus::Complete {
                processed = processed + 1;
            }
            if ev.process_status == ProcessStatus::Failed || ev.process_status
                == ProcessStatus::Retry {
                failed = failed + 1;
            }
            i += 1;
        }
        proof {
            assert(evs.take(n as int) =~= evs);
        }
        Stats { total: n as i64, found, pending, processed, failed }
    }
}

} // verus!
