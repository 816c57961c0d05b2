//! What holds of the manager across its operations.

use vstd::prelude::*;
use crate::error::ManagerError;
use crate::fetch::FetchModel;
use crate::ledger::{
    in_window, lemma_record_all_appends, lemma_record_all_wf, lemma_unbounded_admits_all,
    total_in, total_of, window_of, LedgerModel, RecordModel, WindowModel,
};
use crate::manager::{
    all_records, next_resume, CostsRefreshResponse, ManagerModel, RefreshError, RefreshStart,
    COOLDOWN_SECONDS,
};
use crate::pool::{
    callers, lemma_add_keeps_wf, lemma_assign_keeps_wf, lemma_retire_keeps_wf, lemma_slot_for,
    slot_for, PoolModel,
};
use crate::refresh::{refresh_completed, refresh_started};
use crate::report::{
    all_endings, ending_before, latest, lemma_latest_is_last,
    lemma_resume_form_keeps_the_moment, ReportModel,
};
use crate::seqs::{first_index, lemma_first_index, lemma_first_index_is};

verus! {

/// Every operation on the pool leaves it well formed.
pub proof fn law_pool_stays_well_formed(
    pool: PoolModel,
    key: Seq<char>,
    node: Seq<char>,
    picked: Option<Seq<char>>,
    now: int,
)
    requires
        pool.wf(),
    ensures
        pool.try_add(key).0.wf(),
        pool.try_remove(key).0.wf(),
        pool.request(node, picked, now).0.wf(),
{
    if !pool.knows(key) {
        lemma_add_keeps_wf(pool, key);
    }
    if pool.is_active(key) {
        lemma_retire_keeps_wf(pool, key);
    }
    if pool.key_for(node) is None && pool.active.len() > 0 {
        if let Some(k) = picked {
            if pool.is_active(k) {
                lemma_assign_keeps_wf(pool, node, k, now);
            }
        }
    }
}

/// A request that is answered with a credential leaves the caller holding
/// that credential.
pub proof fn law_request_records_the_answer(
    pool: PoolModel,
    node: Seq<char>,
    picked: Option<Seq<char>>,
    now: int,
)
    requires
        pool.wf(),
        pool.request(node, picked, now).1 is Ok,
    ensures
        pool.request(node, picked, now).0.key_for(node) == Some(
            pool.request(node, picked, now).1->Ok_0,
        ),
{
    if pool.key_for(node) is None {
        let key = picked->0;
        let names = callers(pool.assignments);
        let slot = slot_for(pool.assignments, now);
        let after = pool.assign(node, key, now);
        lemma_slot_for(pool.assignments, now);
        lemma_assign_keeps_wf(pool, node, key, now);
        lemma_first_index(names, node);
        let later = callers(after.assignments);
        assert forall|k: int| 0 <= k < slot implies later[k] != node by {
            assert(later[k] == names[k]);
        }
        assert(later[slot] == node);
        lemma_first_index_is(later, node, slot);
    }
}

/// A caller keeps the credential that it was first given: once a request of
/// `node` was answered with a credential, every later request of `node` is
/// answered with the same one and changes nothing, whatever is drawn for it
/// and whatever the time, also after the credential was retired.
pub proof fn law_assignment_is_stable(
    pool: PoolModel,
    node: Seq<char>,
    first_pick: Option<Seq<char>>,
    first_time: int,
    later_pick: Option<Seq<char>>,
    later_time: int,
)
    requires
        pool.wf(),
        pool.request(node, first_pick, first_time).1 is Ok,
    ensures
        ({
            let first = pool.request(node, first_pick, first_time);
            first.0.request(node, later_pick, later_time) == first
        }),
{
    law_request_records_the_answer(pool, node, first_pick, first_time);
}

/// What a caller holds is not changed by adding a credential, by retiring
/// one, or by answering another caller.
pub proof fn law_assignment_survives(
    pool: PoolModel,
    node: Seq<char>,
    key: Seq<char>,
    other: Seq<char>,
    picked: Option<Seq<char>>,
    now: int,
)
    requires
        pool.wf(),
        pool.key_for(node) is Some,
    ensures
        pool.try_add(key).0.key_for(node) == pool.key_for(node),
        pool.try_remove(key).0.key_for(node) == pool.key_for(node),
        pool.request(other, picked, now).0.key_for(node) == pool.key_for(node),
{
    let after = pool.request(other, picked, now).0;
    if after != pool {
        let names = callers(pool.assignments);
        let slot = slot_for(pool.assignments, now);
        let later = callers(after.assignments);
        let at = first_index(names, node);
        lemma_slot_for(pool.assignments, now);
        lemma_first_index(names, node);
        lemma_first_index(names, other);
        assert(other != node);
        let moved = if at < slot {
            at
        } else {
            at + 1
        };
        assert forall|k: int| 0 <= k < moved implies later[k] != node by {
            if k < slot {
                assert(later[k] == names[k]);
            } else if k > slot {
                assert(later[k] == names[k - 1]);
            }
        }
        assert(later[moved] == names[at]);
        lemma_first_index_is(later, node, moved);
    }
}

/// No credential is both active and retired.
pub proof fn law_active_and_retired_are_disjoint(pool: PoolModel, key: Seq<char>)
    requires
        pool.wf(),
    ensures
        !(pool.is_active(key) && pool.is_retired(key)),
{
}

/// Removing an active credential retires it; from then on it is not active,
/// a second removal is refused, and it cannot be added again.
pub proof fn law_removal_is_final(pool: PoolModel, key: Seq<char>)
    requires
        pool.wf(),
        pool.is_active(key),
    ensures
        ({
            let removed = pool.try_remove(key);
            &&& removed.1 == Ok::<(), ManagerError>(())
            &&& removed.0.wf()
            &&& removed.0.is_retired(key)
            &&& !removed.0.is_active(key)
            &&& removed.0.try_remove(key) == (
                removed.0,
                Err::<(), ManagerError>(ManagerError::NotFound),
            )
            &&& removed.0.try_add(key) == (
                removed.0,
                Err::<(), ManagerError>(ManagerError::AlreadyExists),
            )
        }),
{
    lemma_retire_keeps_wf(pool, key);
}

/// A retired credential stays retired, and out of the active ones, whatever
/// is added, removed or requested.
pub proof fn law_retired_stays_retired(
    pool: PoolModel,
    key: Seq<char>,
    other: Seq<char>,
    node: Seq<char>,
    picked: Option<Seq<char>>,
    now: int,
)
    requires
        pool.wf(),
        pool.is_retired(key),
    ensures
        pool.try_add(other).0.is_retired(key) && !pool.try_add(other).0.is_active(key),
        pool.try_remove(other).0.is_retired(key) && !pool.try_remove(other).0.is_active(key),
        pool.request(node, picked, now).0.is_retired(key) && !pool.request(
            node,
            picked,
            now,
        ).0.is_active(key),
{
    assert(!(pool.is_active(key) && pool.is_retired(key)));
    if !pool.knows(other) {
        lemma_add_keeps_wf(pool, other);
    }
    if pool.is_active(other) {
        lemma_retire_keeps_wf(pool, other);
    }
}

/// The total over a span is the sum of the amounts of the records that were
/// incurred within it, and without bounds the sum of the whole ledger. A
/// span asked for without a bound, or with bounds that write no moment, has
/// that side open.
pub proof fn law_total_is_the_sum_within_the_span(records: Seq<RecordModel>, w: WindowModel)
    ensures
        total_in(records, w) == total_of(
            records.filter(
                |r: RecordModel|
                    (w.start matches Some(s) ==> s <= r.timestamp) && (w.end matches Some(e)
                        ==> r.timestamp <= e),
            ),
        ),
        total_in(records, WindowModel::unbounded()) == total_of(records),
        window_of(None, None) == WindowModel::unbounded(),
{
    lemma_unbounded_admits_all(records);
    let plain = |r: RecordModel|
        (w.start matches Some(s) ==> s <= r.timestamp) && (w.end matches Some(e) ==> r.timestamp
            <= e);
    assert(in_window(w) =~= plain);
}

/// Whether the place or end `a` is not later than `b`, by the moments that
/// the two write.
pub open spec fn not_after(a: Seq<char>, b: Seq<char>) -> bool {
    !ending_before(b, a)
}

/// Where the next run resumes after the runs `runs`, one after the other,
/// the first of which resumed from `resume_from`.
pub open spec fn resume_after(
    resume_from: Option<Seq<char>>,
    runs: Seq<Seq<ReportModel>>,
) -> Option<Seq<char>>
    decreases runs.len(),
{
    if runs.len() == 0 {
        resume_from
    } else {
        next_resume(resume_after(resume_from, runs.drop_last()), runs.last())
    }
}

/// The latest end of a run is one of the ends that the run saw, and none of
/// them is a later moment, in whatever zone or form each is written.
pub proof fn law_latest_end_is_the_latest_moment(pages: Seq<ReportModel>)
    requires
        all_endings(pages).len() > 0,
    ensures
        latest(None, all_endings(pages)) is Some,
        all_endings(pages).contains(latest(None, all_endings(pages))->0),
        forall|i: int|
            0 <= i < all_endings(pages).len() ==> not_after(
                #[trigger] all_endings(pages)[i],
                latest(None, all_endings(pages))->0,
            ),
{
    lemma_latest_is_last(all_endings(pages));
}

/// After a run, the place to resume from is not earlier than any end that
/// the run saw.
pub proof fn law_resume_covers_the_run(resume_from: Option<Seq<char>>, pages: Seq<ReportModel>)
    requires
        all_endings(pages).len() > 0,
    ensures
        next_resume(resume_from, pages) is Some,
        forall|i: int|
            0 <= i < all_endings(pages).len() ==> not_after(
                #[trigger] all_endings(pages)[i],
                next_resume(resume_from, pages)->0,
            ),
{
    lemma_latest_is_last(all_endings(pages));
    lemma_resume_form_keeps_the_moment(latest(None, all_endings(pages))->0);
}

/// No run moves the place to resume from back: where there was a place, the
/// place after the run is not an earlier moment, also where every end that
/// the run saw is earlier.
pub proof fn law_resume_never_goes_back(resume_from: Option<Seq<char>>, pages: Seq<ReportModel>)
    ensures
        resume_from matches Some(from) ==> next_resume(resume_from, pages) matches Some(next)
            && not_after(from, next),
        all_endings(pages).len() == 0 ==> next_resume(resume_from, pages) == resume_from,
{
    lemma_latest_is_last(all_endings(pages));
    if let Some(end) = latest(None, all_endings(pages)) {
        lemma_resume_form_keeps_the_moment(end);
    }
}

/// Over any number of runs the place to resume from never moves back: where
/// it stood after the first `i` runs is not later than where it stands
/// after the first `j`, for `i` up to `j`.
pub proof fn law_resume_is_monotonic(
    resume_from: Option<Seq<char>>,
    runs: Seq<Seq<ReportModel>>,
    i: int,
    j: int,
)
    requires
        0 <= i <= j <= runs.len(),
    ensures
        resume_after(resume_from, runs.take(i)) matches Some(sooner) ==> resume_after(
            resume_from,
            runs.take(j),
        ) matches Some(later) && not_after(sooner, later),
    decreases j - i,
{
    if resume_after(resume_from, runs.take(i)) is Some && i < j {
        law_resume_is_monotonic(resume_from, runs, i, j - 1);
        let middle = resume_after(resume_from, runs.take(j - 1));
        assert(runs.take(j).drop_last() =~= runs.take(j - 1));
        assert(runs.take(j).last() == runs[j - 1]);
        law_resume_never_goes_back(middle, runs[j - 1]);
    }
}

/// A run starts to read the report exactly at the place to resume from,
/// where there is one: nothing before it is asked for again.
pub proof fn law_next_run_starts_at_resume(m: ManagerModel, now: int)
    requires
        m.last_cost_query_date is Some,
    ensures
        m.start_boundary(now) == m.last_cost_query_date,
{
}

/// After a refresh that reached its end, a request to refresh within the
/// cooldown is answered as too soon, with the time of that refresh, and
/// changes nothing; a request from the end of the cooldown on is not held
/// back.
pub proof fn law_cooldown(
    before: ManagerModel,
    run: FetchModel,
    times: Seq<Seq<int>>,
    refreshed: ManagerModel,
    first: Result<CostsRefreshResponse, RefreshError>,
    now: int,
    after: ManagerModel,
    second: Result<RefreshStart, ManagerError>,
)
    requires
        before.admin_api_key is Some,
        run.outcome == Some(Ok::<(), crate::fetch::FetchError>(())),
        refresh_completed(before, run, times, refreshed, first),
        refresh_started(refreshed, now, after, second),
    ensures
        refreshed.last_cost_check == Some(run.started_at),
        run.started_at <= now < run.started_at + COOLDOWN_SECONDS ==> {
            &&& after == refreshed
            &&& second matches Ok(RefreshStart::TooSoon(held))
            &&& !held.success
            &&& held.timestamp == run.started_at as i64
        },
        now >= run.started_at + COOLDOWN_SECONDS ==> !(second matches Ok(
            RefreshStart::TooSoon(_),
        )) && after == refreshed,
        now < run.started_at ==> !(second matches Ok(RefreshStart::TooSoon(_)))
            && after.last_cost_check is None,
{
}

/// Processing pages leaves the state well formed.
pub proof fn law_processing_keeps_the_state_well_formed(
    m: ManagerModel,
    pages: Seq<ReportModel>,
    times: Seq<Seq<int>>,
)
    requires
        m.wf(),
    ensures
        m.with_pages(pages, times).wf(),
        m.with_pages(pages, times).pool == m.pool,
        m.with_pages(pages, times).ledger.all == m.ledger.all + all_records(pages, times),
{
    lemma_record_all_wf(m.ledger, all_records(pages, times), m.pool.active);
    lemma_record_all_appends(m.ledger, all_records(pages, times), m.pool.active);
}

/// A reset leaves no record, no share of a credential, no place to resume
/// from and no time of a last refresh, and does not touch the pool.
pub proof fn law_reset_forgets_the_costs(m: ManagerModel, w: WindowModel, key: Seq<char>)
    ensures
        total_in(m.reset().ledger.all, w) == 0,
        total_in(m.reset().ledger.records_of(key), w) == 0,
        m.reset().ledger == LedgerModel::empty(),
        m.reset().last_cost_query_date is None,
        m.reset().last_cost_check is None,
        m.reset().pool == m.pool,
{
    reveal(Seq::filter);
    assert(Seq::<RecordModel>::empty().filter(in_window(w)) =~= Seq::empty());
    assert(m.reset().ledger.records_of(key) =~= Seq::empty());
}

} // verus!
