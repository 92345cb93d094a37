use vstd::prelude::*;

use crate::event::EventModel;
use crate::event::FoundStatus;
use crate::event::ProcessStatus;
use crate::runner::OutcomeModel;
use crate::runner::advance_pass;
use crate::runner::advance_step;
use crate::runner::backoff_secs;
use crate::runner::eligible;
use crate::runner::found_batch;
use crate::runner::newly_found;
use crate::runner::pending_targets;
use crate::runner::resolve_pass;
use crate::runner::resolve_step;
use crate::runner::lemma_pending_targets_members;
use crate::settings::Settings;
use crate::settings::settings_wf;
use crate::settings::target_names;
use vstd::arithmetic::power2::lemma2_to64;
use vstd::arithmetic::power2::pow2;

verus! {

/// What the dispatcher owes the advancer for one event: every attempted
/// target lands in exactly one of the two lists, and only planned targets
/// are attempted.
pub open spec fn outcome_for_plan(out: OutcomeModel, plan: Seq<Seq<char>>) -> bool {
    &&& out.succeeded.len() + out.failed.len() == plan.len()
    &&& forall|i: int| 0 <= i < out.succeeded.len() ==> plan.contains(#[trigger] out.succeeded[i])
    &&& forall|i: int| 0 <= i < out.failed.len() ==> plan.contains(#[trigger] out.failed[i])
}

/// Monotonic escalation and terminal stability: over one advancer pass no
/// event's failure count decreases; a terminal event is untouched; and an
/// eligible event whose failure count reaches the retry ceiling on a failed
/// dispatch becomes `Failed` with its retry time cleared.
pub proof fn lemma_monotonic_escalation(
    evs: Seq<EventModel>,
    outs: Seq<OutcomeModel>,
    now: int,
    max_retries: u32,
    check_path: bool,
)
    ensures
        forall|i: int|
            0 <= i < evs.len() ==> (#[trigger] advance_pass(evs, outs, now, max_retries, check_path)[i]).failed_times
                >= evs[i].failed_times,
        forall|i: int|
            0 <= i < evs.len() && (evs[i].process_status == ProcessStatus::Complete
                || evs[i].process_status == ProcessStatus::Failed) ==> #[trigger] advance_pass(
                evs,
                outs,
                now,
                max_retries,
                check_path,
            )[i] == evs[i],
        forall|i: int|
            0 <= i < evs.len() && eligible(evs[i], now, check_path) && outs[i].failed.len() > 0
                && evs[i].failed_times + 1 >= max_retries ==> (#[trigger] advance_pass(
                evs,
                outs,
                now,
                max_retries,
                check_path,
            )[i]).process_status == ProcessStatus::Failed && advance_pass(
                evs,
                outs,
                now,
                max_retries,
                check_path,
            )[i].next_retry_at is None,
{
}

/// The resolver never touches an event's process side, nor its recorded
/// digest: found-status resolution and process-status advancement evolve
/// independently, and a recorded digest is immutable.
pub proof fn lemma_resolver_preserves_process(
    evs: Seq<EventModel>,
    checks: Seq<Option<Seq<char>>>,
    now: int,
)
    ensures
        forall|i: int|
            0 <= i < evs.len() ==> {
                let r = #[trigger] resolve_pass(evs, checks, now)[i];
                r.process_status == evs[i].process_status && r.failed_times == evs[i].failed_times
                    && r.next_retry_at == evs[i].next_retry_at && r.file_hash == evs[i].file_hash
                    && r.file_path == evs[i].file_path && r.id == evs[i].id
            },
{
}

/// The backoff delay after the `k`-th failure is exactly `2^(k+1)` seconds:
/// 4s after the first, 8s after the second, 16s after the third.
pub proof fn lemma_backoff_exact(k: nat)
    ensures
        backoff_secs(k) == pow2(k + 1),
        backoff_secs(1) == 4,
        backoff_secs(2) == 8,
        backoff_secs(3) == 16,
{
    lemma2_to64();
}

/// An eligible event that fails a dispatch below the retry ceiling retries
/// after exactly the exponential backoff delay for its new failure count.
pub proof fn lemma_retry_schedule(ev: EventModel, out: OutcomeModel, now: int, max_retries: u32)
    requires
        out.failed.len() > 0,
        ev.failed_times + 1 < max_retries,
    ensures
        advance_step(ev, out, now, max_retries).process_status == ProcessStatus::Retry,
        advance_step(ev, out, now, max_retries).next_retry_at == Some(
            now + backoff_secs((ev.failed_times + 1) as nat),
        ),
        advance_step(ev, out, now, max_retries).failed_times == ev.failed_times + 1,
{
}

/// Vacuous success: an event with an empty configured-target set completes
/// on its very first eligible tick, whatever the dispatcher reports for an
/// empty plan.
pub proof fn lemma_vacuous_success(
    ev: EventModel,
    out: OutcomeModel,
    s: Settings,
    now: int,
    check_path: bool,
)
    requires
        eligible(ev, now, check_path),
        target_names(s).len() == 0,
        outcome_for_plan(out, pending_targets(target_names(s), ev.targets_hit)),
    ensures
        advance_step(ev, out, now, s.opts.max_retries).process_status == ProcessStatus::Complete,
        advance_step(ev, out, now, s.opts.max_retries).processed_at == Some(now),
{
}

/// First discovery: a pending event with no recorded digest whose file is
/// present becomes `Found` in one resolver step, `found_at` stamped with
/// the pass time, and counts as newly found for the pass's batch.
pub proof fn lemma_first_discovery(ev: EventModel, digest: Seq<char>, now: int)
    requires
        ev.found_status == FoundStatus::Pending,
        ev.file_hash is None,
    ensures
        resolve_step(ev, Some(digest), now).found_status == FoundStatus::Found,
        resolve_step(ev, Some(digest), now).found_at == Some(now),
        newly_found(ev, Some(digest)),
{
}

/// How often a path occurs in a notification batch.
pub open spec fn count_in(batch: Seq<Seq<char>>, p: Seq<char>) -> int
    decreases batch.len(),
{
    if batch.len() == 0 {
        0
    } else {
        count_in(batch.drop_last(), p) + if batch.last() == p {
            1int
        } else {
            0int
        }
    }
}

proof fn lemma_found_batch_absent(evs: Seq<EventModel>, checks: Seq<Option<Seq<char>>>, p: Seq<char>)
    requires
        forall|j: int| 0 <= j < evs.len() ==> (#[trigger] evs[j]).file_path != p,
    ensures
        count_in(found_batch(evs, checks), p) == 0,
    decreases evs.len(),
{
    if evs.len() > 0 {
        assert forall|j: int| 0 <= j < evs.drop_last().len() implies (#[trigger] evs.drop_last()[j]).file_path
            != p by {
            assert(evs.drop_last()[j] == evs[j]);
        }
        lemma_found_batch_absent(evs.drop_last(), checks.drop_last(), p);
        let pre = found_batch(evs.drop_last(), checks.drop_last());
        let b = found_batch(evs, checks);
        if newly_found(evs.last(), checks.last()) {
            assert(b == pre.push(evs.last().file_path));
            assert(b.drop_last() =~= pre);
            assert(evs[evs.len() - 1].file_path != p);
            assert(b.last() != p);
            assert(count_in(b, p) == count_in(pre, p));
        } else {
            assert(b == pre);
        }
    }
}

/// A newly found event's path appears exactly once in the pass's `Found`
/// notification batch, provided the queue holds no duplicate paths.
pub proof fn lemma_found_once_in_batch(
    evs: Seq<EventModel>,
    checks: Seq<Option<Seq<char>>>,
    i: int,
)
    requires
        evs.len() == checks.len(),
        0 <= i < evs.len(),
        newly_found(evs[i], checks[i]),
        forall|k: int, l: int|
            0 <= k < l < evs.len() ==> (#[trigger] evs[k]).file_path != (#[trigger] evs[l]).file_path,
    ensures
        count_in(found_batch(evs, checks), evs[i].file_path) == 1,
    decreases evs.len(),
{
    let p = evs[i].file_path;
    let pre = found_batch(evs.drop_last(), checks.drop_last());
    let b = found_batch(evs, checks);
    if i == evs.len() - 1 {
        assert forall|j: int| 0 <= j < evs.drop_last().len() implies (#[trigger] evs.drop_last()[j]).file_path
            != p by {
            assert(evs.drop_last()[j] == evs[j]);
        }
        lemma_found_batch_absent(evs.drop_last(), checks.drop_last(), p);
        assert(b == pre.push(p));
        assert(b.drop_last() =~= pre);
        assert(b.last() == p);
        assert(count_in(b, p) == count_in(pre, p) + 1);
    } else {
        assert forall|k: int, l: int| 0 <= k < l < evs.drop_last().len() implies (
        #[trigger] evs.drop_last()[k]).file_path != (#[trigger] evs.drop_last()[l]).file_path by {
            assert(evs.drop_last()[k] == evs[k]);
            assert(evs.drop_last()[l] == evs[l]);
        }
        assert(evs.drop_last()[i] == evs[i]);
        assert(checks.drop_last()[i] == checks[i]);
        lemma_found_once_in_batch(evs.drop_last(), checks.drop_last(), i);
        assert(count_in(pre, p) == 1);
        if newly_found(evs.last(), checks.last()) {
            assert(b == pre.push(evs.last().file_path));
            assert(b.drop_last() =~= pre);
            assert(evs[evs.len() - 1].file_path != p);
            assert(b.last() != p);
            assert(count_in(b, p) == count_in(pre, p));
        } else {
            assert(b == pre);
        }
    }
}

/// Permanent mismatch: a not-yet-found event whose recorded digest differs
/// from the computed one becomes `HashMismatch`, keeps its digest, and —
/// the computed digest of an unchanged file being the same on every pass —
/// stays `HashMismatch` on every later pass.
pub proof fn lemma_mismatch_permanent(
    ev: EventModel,
    h: Seq<char>,
    d: Seq<char>,
    t1: int,
    t2: int,
)
    requires
        ev.found_status != FoundStatus::Found,
        ev.file_hash == Some(h),
        h != d,
    ensures
        resolve_step(ev, Some(d), t1).found_status == FoundStatus::HashMismatch,
        resolve_step(ev, Some(d), t1).file_hash == Some(h),
        resolve_step(resolve_step(ev, Some(d), t1), Some(d), t2).found_status
            == FoundStatus::HashMismatch,
{
}

/// The dispatcher's plan holds exactly the configured target names not
/// already hit: a target that already succeeded for an event is never
/// attempted again, every other configured target is.
pub proof fn lemma_pending_targets_exact(names: Seq<Seq<char>>, hit: Seq<Seq<char>>, x: Seq<char>)
    ensures
        pending_targets(names, hit).contains(x) <==> (names.contains(x) && !hit.contains(x)),
    decreases names.len(),
{
    if names.len() > 0 {
        lemma_pending_targets_exact(names.drop_last(), hit, x);
        let pre = pending_targets(names.drop_last(), hit);
        let ret = pending_targets(names, hit);
        if ret.contains(x) {
            let k = choose|k: int| 0 <= k < ret.len() && ret[k] == x;
            if k < pre.len() {
                assert(pre[k] == x);
                assert(pre.contains(x));
                let j = choose|j: int| 0 <= j < names.drop_last().len() && names.drop_last()[j]
                    == x;
                assert(names[j] == x);
                assert(names.contains(x));
            } else {
                assert(x == names.last());
                assert(names[names.len() - 1] == x);
                assert(names.contains(x));
            }
        }
        if names.contains(x) && !hit.contains(x) {
            let j = choose|j: int| 0 <= j < names.len() && names[j] == x;
            if j < names.len() - 1 {
                assert(names.drop_last()[j] == x);
                assert(names.drop_last().contains(x));
                assert(pre.contains(x));
                let k = choose|k: int| 0 <= k < pre.len() && pre[k] == x;
                if hit.contains(names.last()) {
                    assert(ret[k] == x);
                } else {
                    assert(ret[k] == x);
                }
                assert(ret.contains(x));
            } else {
                assert(x == names.last());
                assert(ret[ret.len() - 1] == x);
                assert(ret.contains(x));
            }
        }
    }
}

proof fn lemma_pending_targets_no_dup(names: Seq<Seq<char>>, hit: Seq<Seq<char>>)
    requires
        forall|k: int, l: int| 0 <= k < l < names.len() ==> names[k] != names[l],
    ensures
        forall|k: int, l: int|
            0 <= k < l < pending_targets(names, hit).len() ==> pending_targets(names, hit)[k]
                != pending_targets(names, hit)[l],
    decreases names.len(),
{
    if names.len() > 0 {
        let src = names.drop_last();
        assert forall|k: int, l: int| 0 <= k < l < src.len() implies src[k] != src[l] by {
            assert(src[k] == names[k]);
            assert(src[l] == names[l]);
        }
        lemma_pending_targets_no_dup(src, hit);
        lemma_pending_targets_members(src, hit);
        let pre = pending_targets(src, hit);
        let ret = pending_targets(names, hit);
        if !hit.contains(names.last()) {
            assert forall|k: int, l: int| 0 <= k < l < ret.len() implies ret[k] != ret[l] by {
                if l < ret.len() - 1 {
                    assert(ret[k] == pre[k]);
                    assert(ret[l] == pre[l]);
                } else {
                    assert(ret[k] == pre[k]);
                    let j = choose|j: int| 0 <= j < src.len() && #[trigger] pre[k] == src[j];
                    assert(src[j] == names[j]);
                    assert(names[j] != names[names.len() - 1]);
                    assert(ret[l] == names[names.len() - 1]);
                }
            }
        }
    }
}

/// With a well-formed configuration — no two targets sharing a name — the
/// dispatch plan lists each pending target only once, so no target is
/// attempted twice for one event in one pass.
pub proof fn lemma_plan_duplicate_free(s: Settings, hit: Seq<Seq<char>>)
    requires
        settings_wf(s),
    ensures
        forall|k: int, l: int|
            0 <= k < l < pending_targets(target_names(s), hit).len() ==> pending_targets(
                target_names(s),
                hit,
            )[k] != pending_targets(target_names(s), hit)[l],
{
    lemma_pending_targets_no_dup(target_names(s), hit);
}

} // verus!
