use vstd::prelude::*;

verus! {

/// Whether the file behind an event has been located on disk and, when a
/// digest was recorded at creation, whether the content still matches it.
#[derive(Clone, Copy, Debug, PartialEq, Eq, Structural)]
pub enum FoundStatus {
    Pending,
    Found,
    NotFound,
    HashMismatch,
}

/// Progress of downstream-target notification for an event.  `Complete` and
/// `Failed` are terminal: no pipeline stage ever leaves them.
#[derive(Clone, Copy, Debug, PartialEq, Eq, Structural)]
pub enum ProcessStatus {
    Pending,
    Retry,
    Complete,
    Failed,
}

/// One unit of work: a file path under observation, together with its
/// reconciliation state against the filesystem and against the configured
/// targets.  Timestamps are UTC seconds.
#[derive(Clone, Debug)]
pub struct ScanEvent {
    pub id: i32,
    pub file_path: String,
    pub file_hash: Option<String>,
    pub found_status: FoundStatus,
    pub found_at: Option<i64>,
    pub process_status: ProcessStatus,
    pub failed_times: u32,
    pub next_retry_at: Option<i64>,
    pub targets_hit: Vec<String>,
    pub processed_at: Option<i64>,
    pub created_at: i64,
    pub updated_at: i64,
}

/// What a producer hands to the store when creating an event: the path, and
/// optionally a content digest recorded once and never changed afterwards.
#[derive(Clone, Debug)]
pub struct NewScanEvent {
    pub file_path: String,
    pub file_hash: Option<String>,
}

/// Mathematical model of a scan event; every contract of the library speaks
/// of events through this model.
#[verifier::ext_equal]
pub struct EventModel {
    pub id: int,
    pub file_path: Seq<char>,
    pub file_hash: Option<Seq<char>>,
    pub found_status: FoundStatus,
    pub found_at: Option<int>,
    pub process_status: ProcessStatus,
    pub failed_times: int,
    pub next_retry_at: Option<int>,
    pub targets_hit: Seq<Seq<char>>,
    pub processed_at: Option<int>,
    pub created_at: int,
    pub updated_at: int,
}

impl View for ScanEvent {
    type V = EventModel;

    open spec fn view(&self) -> EventModel {
        EventModel {
            id: self.id as int,
            file_path: self.file_path@,
            file_hash: match self.file_hash {
                Some(h) => Some(h@),
                None => None,
            },
            found_status: self.found_status,
            found_at: match self.found_at {
                Some(t) => Some(t as int),
                None => None,
            },
            process_status: self.process_status,
            failed_times: self.failed_times as int,
            next_retry_at: match self.next_retry_at {
                Some(t) => Some(t as int),
                None => None,
            },
            targets_hit: self.targets_hit.deep_view(),
            processed_at: match self.processed_at {
                Some(t) => Some(t as int),
                None => None,
            },
            created_at: self.created_at as int,
            updated_at: self.updated_at as int,
        }
    }
}

/// Model of a creation request.
pub struct NewEventModel {
    pub file_path: Seq<char>,
    pub file_hash: Option<Seq<char>>,
}

impl View for NewScanEvent {
    type V = NewEventModel;

    open spec fn view(&self) -> NewEventModel {
        NewEventModel {
            file_path: self.file_path@,
            file_hash: match self.file_hash {
                Some(h) => Some(h@),
                None => None,
            },
        }
    }
}

/// Structural invariant every stored event keeps: a retry time is recorded
/// exactly while the event is in `Retry`; an event the advancer has never
/// touched still has a zero failure count; and a retrying event is still
/// below the configured retry ceiling.
pub open spec fn event_wf(ev: EventModel, max_retries: u32) -> bool {
    &&& (ev.next_retry_at is Some <==> ev.process_status == ProcessStatus::Retry)
    &&& (ev.process_status == ProcessStatus::Pending ==> ev.failed_times == 0)
    &&& (ev.process_status == ProcessStatus::Retry ==> ev.failed_times < max_retries)
    &&& 0 <= ev.failed_times
}

/// The event the store persists for a creation request: both statuses start
/// at `Pending`, nothing has failed yet, and no target has been notified.
pub open spec fn fresh_event(new: NewEventModel, id: int, now: int) -> EventModel {
    EventModel {
        id: id,
        file_path: new.file_path,
        file_hash: new.file_hash,
        found_status: FoundStatus::Pending,
        found_at: None,
        process_status: ProcessStatus::Pending,
        failed_times: 0,
        next_retry_at: None,
        targets_hit: Seq::empty(),
        processed_at: None,
        created_at: now,
        updated_at: now,
    }
}

pub(crate) fn clone_string_vec(v: &Vec<String>) -> (r: Vec<String>)
    ensures
        r.deep_view() == v.deep_view(),
{
    let mut r: Vec<String> = Vec::new();
    let mut i: usize = 0;
    while i < v.len()
        invariant
            i <= v.len(),
            r@.len() == i,
            forall|j: int| 0 <= j < i ==> r@[j]@ == v@[j]@,
        decreases v.len() - i,
    {
        r.push(v[i].clone());
        i += 1;
    }
    proof {
        assert(r.deep_view() =~= v.deep_view());
    }
    r
}

pub(crate) fn clone_opt_string(v: &Option<String>) -> (r: Option<String>)
    ensures
        (r is Some <==> v is Some),
        r is Some ==> r->0@ == v->0@,
{
    match v {
        Some(s) => Some(s.clone()),
        None => None,
    }
}

impl ScanEvent {
    /// A field-for-field copy with the same model.
    pub fn duplicate(&self) -> (r: ScanEvent)
        ensures
            r@ == self@,
    {
        let r = ScanEvent {
            id: self.id,
            file_path: self.file_path.clone(),
            file_hash: clone_opt_string(&self.file_hash),
            found_status: self.found_status,
            found_at: self.found_at,
            process_status: self.process_status,
            failed_times: self.failed_times,
            next_retry_at: self.next_retry_at,
            targets_hit: clone_string_vec(&self.targets_hit),
            processed_at: self.processed_at,
            created_at: self.created_at,
            updated_at: self.updated_at,
        };
        r
    }
}

} // verus!
