//! Refreshing the costs: whether a refresh may begin, what the pages of a
//! run add to the ledger, and where the next run resumes.
//!
//! A refresh is held back while the last one is less than a minute old. A
//! time of the last refresh that lies in the future is not believed: it is
//! cleared, and the refresh goes on. The pages that a run brought are kept
//! also where the run failed later; only a run that reached its end sets the
//! time of the last refresh.

use vstd::prelude::*;
use crate::error::ManagerError;
use crate::fetch::{page_address, start_boundary, CostFetch, FetchModel, FetchStep};
use crate::ledger::{lemma_record_all_appends, lemma_record_all_joins};
use crate::manager::{
    all_records, all_times_fit, times_fit, AnthropicApiKeyManagerState, CostsRefreshResponse,
    ManagerModel, RefreshError, RefreshStart, COOLDOWN_SECONDS,
};
use crate::report::{
    all_endings, bucket_records, ending_before, endings, ends_earlier, latest, latest_ending,
    lemma_latest_joins, lemma_resume_form_keeps_the_moment, report_records, resume_text,
    AnthropicCostReport, CostReportData, ReportModel,
};
use crate::seqs::views;
use crate::text::option_view;
use crate::trusted::{parse_rfc3339, rfc3339_timestamp, unix_now, url_normal_form};

verus! {

/// Whether `r` is what beginning a run at `now` gives in the state `m`: a
/// refusal without a credential for the billing endpoint or without a place
/// to start from; else the run that reads the report from that place, with
/// its first step.
pub open spec fn fetch_begun(
    m: ManagerModel,
    now: int,
    r: Result<(CostFetch, FetchStep), ManagerError>,
) -> bool {
    match m.admin_api_key {
        None => {
            &&& r matches Err(e)
            &&& e == ManagerError::AdminKeyMissing
        },
        Some(admin) => match m.start_boundary(now) {
            None => {
                &&& r matches Err(e)
                &&& e == ManagerError::ClockOutOfRange
            },
            Some(start) => {
                &&& r matches Ok(begun)
                &&& begun.0.wf()
                &&& begun.0@ == FetchModel::begin(
                    admin,
                    start,
                    now,
                    url_normal_form(page_address(start, None)),
                )
                &&& begun.1@ == FetchModel::first_step(
                    admin,
                    url_normal_form(page_address(start, None)),
                )
            },
        },
    }
}

/// Whether `after` and `r` are what a request at `now` to refresh the costs
/// gives in the state `before`: a refusal without a credential for the
/// billing endpoint; the answer that the last refresh is too recent while it
/// is; else a run begun, with a time of the last refresh that lay in the
/// future cleared.
pub open spec fn refresh_started(
    before: ManagerModel,
    now: int,
    after: ManagerModel,
    r: Result<RefreshStart, ManagerError>,
) -> bool {
    if before.admin_api_key is None {
        &&& after == before
        &&& r matches Err(e)
        &&& e == ManagerError::AdminKeyMissing
    } else if before.cooling_down(now) {
        &&& after == before
        &&& r matches Ok(RefreshStart::TooSoon(held))
        &&& held == (CostsRefreshResponse {
            success: false,
            records_added: 0,
            seconds_since_last: Some((now - before.last_cost_check->0) as i64),
            timestamp: before.last_cost_check->0 as i64,
        })
    } else {
        &&& after == ManagerModel { last_cost_check: before.believed_check(now), ..before }
        &&& match r {
            Ok(RefreshStart::Begin { run, step }) => fetch_begun(
                before,
                now,
                Ok::<(CostFetch, FetchStep), ManagerError>((run, step)),
            ),
            Ok(RefreshStart::TooSoon(_)) => false,
            Err(e) => fetch_begun(before, now, Err::<(CostFetch, FetchStep), ManagerError>(e)),
        }
    }
}

/// Whether `after` and `r` are what completing the run `run` gives in the
/// state `before`, where `times` are the times of the buckets of its pages:
/// nothing for a run that is not over; else its pages processed, and for a
/// run that reached its end the time of the last refresh set to its
/// beginning.
pub open spec fn refresh_completed(
    before: ManagerModel,
    run: FetchModel,
    times: Seq<Seq<int>>,
    after: ManagerModel,
    r: Result<CostsRefreshResponse, RefreshError>,
) -> bool {
    match run.outcome {
        None => after == before && r == Err::<CostsRefreshResponse, RefreshError>(
            RefreshError::Unfinished,
        ),
        Some(Ok(())) => after == (ManagerModel {
            last_cost_check: Some(run.started_at),
            ..before.with_pages(run.pages, times)
        }) && r == Ok::<CostsRefreshResponse, RefreshError>(
            CostsRefreshResponse {
                success: true,
                records_added: all_records(run.pages, times).len() as usize,
                seconds_since_last: None,
                timestamp: run.started_at as i64,
            },
        ),
        Some(Err(error)) => after == before.with_pages(run.pages, times) && r == Err::<
            CostsRefreshResponse,
            RefreshError,
        >(
            RefreshError::Failed {
                error: error,
                records_added: all_records(run.pages, times).len() as usize,
            },
        ),
    }
}

impl AnthropicApiKeyManagerState {
    /// Adds to the ledger the records of `bucket`, as incurred at
    /// `incurred_at`, and says how many they are.
    pub fn record_bucket(&mut self, bucket: &CostReportData, incurred_at: i64) -> (added: usize)
        requires
            old(self).wf(),
        ensures
            final(self).wf(),
            final(self)@ == (ManagerModel {
                ledger: old(self)@.ledger.record_all(
                    bucket_records(bucket@.results, incurred_at as int),
                    old(self)@.pool.active,
                ),
                ..old(self)@
            }),
            added == bucket_records(bucket@.results, incurred_at as int).len(),
    {
        let records = bucket.records(incurred_at);
        self.ledger.record_many(&records, self.pool.active_list());
        records.len()
    }

    /// Adds to the ledger the records of the page `cost_report`, and says
    /// how many they are. The results of a bucket are taken as incurred at
    /// its start, or at the time of the clock where its start writes no
    /// moment. The time `query_timestamp` at which the page was asked for
    /// does not enter the records.
    pub fn process_cost_report(
        &mut self,
        cost_report: &AnthropicCostReport,
        query_timestamp: i64,
    ) -> (added: usize)
        requires
            old(self).wf(),
        ensures
            final(self).wf(),
            exists|times: Seq<int>|
                {
                    &&& times_fit(cost_report@.data, times)
                    &&& final(self)@ == (ManagerModel {
                        ledger: old(self)@.ledger.record_all(
                            #[trigger] report_records(cost_report@.data, times),
                            old(self)@.pool.active,
                        ),
                        ..old(self)@
                    })
                    &&& added == report_records(cost_report@.data, times).len()
                },
    {
        let ghost before = self@;
        let ghost data = cost_report@.data;
        let ghost active = before.pool.active;
        let ghost mut times: Seq<int> = Seq::empty();
        let held = self.ledger.len();
        let mut i: usize = 0;
        proof {
            assert(data.take(0) =~= Seq::empty());
            assert(before.ledger.record_all(Seq::empty(), active) == before.ledger);
        }
        while i < cost_report.data.len()
            invariant
                i <= cost_report.data.len(),
                data == cost_report@.data,
                active == before.pool.active,
                before.wf(),
                self.wf(),
                times_fit(data.take(i as int), times),
                self@ == (ManagerModel {
                    ledger: before.ledger.record_all(
                        report_records(data.take(i as int), times),
                        active,
                    ),
                    ..before
                }),
            decreases cost_report.data.len() - i,
        {
            let bucket = &cost_report.data[i];
            let incurred_at = match parse_rfc3339(bucket.starting_at.as_str()) {
                Some(t) => t,
                None => unix_now(),
            };
            proof {
                let upto = data.take(i + 1);
                let sooner = times;
                let later = times.push(incurred_at as int);
                assert(upto.drop_last() =~= data.take(i as int));
                assert(upto.last() == bucket@);
                assert(later.drop_last() =~= sooner);
                assert forall|k: int| 0 <= k < upto.len() implies (rfc3339_timestamp(
                    #[trigger] upto[k].starting_at,
                ) matches Some(t) ==> later[k] == t) by {
                    if k < i {
                        assert(data.take(i as int)[k] == upto[k]);
                    }
                }
                lemma_record_all_joins(
                    before.ledger,
                    report_records(data.take(i as int), sooner),
                    bucket_records(bucket@.results, incurred_at as int),
                    active,
                );
                times = later;
            }
            self.record_bucket(bucket, incurred_at);
            i += 1;
        }
        proof {
            assert(data.take(i as int) =~= data);
            lemma_record_all_appends(before.ledger, report_records(data, times), active);
        }
        let now_held = self.ledger.len();
        now_held - held
    }

    /// Processes the pages that a run brought: adds their records to the
    /// ledger, and moves the place where the next run resumes to the latest
    /// end of a span among them, if that is a later moment than the place
    /// holds; the place never moves back. Says how many records were added.
    /// `timestamp` is the time at which the pages were asked for.
    pub fn process_all_cost_reports(
        &mut self,
        cost_reports: &Vec<AnthropicCostReport>,
        timestamp: i64,
    ) -> (added: usize)
        requires
            old(self).wf(),
        ensures
            final(self).wf(),
            exists|times: Seq<Seq<int>>|
                {
                    &&& all_times_fit(views(cost_reports@), times)
                    &&& final(self)@ == #[trigger] old(self)@.with_pages(
                        views(cost_reports@),
                        times,
                    )
                    &&& added == all_records(views(cost_reports@), times).len()
                },
            old(self)@.last_cost_query_date matches Some(from) ==> {
                &&& final(self)@.last_cost_query_date matches Some(next)
                &&& !ending_before(next, from)
            },
    {
        let ghost before = self@;
        let ghost pages = views(cost_reports@);
        let ghost active = before.pool.active;
        let ghost mut times: Seq<Seq<int>> = Seq::empty();
        let held = self.ledger.len();
        let mut last: Option<String> = None;
        let mut i: usize = 0;
        proof {
            assert(pages.take(0) =~= Seq::empty());
            assert(before.ledger.record_all(Seq::empty(), active) == before.ledger);
        }
        while i < cost_reports.len()
            invariant
                i <= cost_reports.len(),
                pages == views(cost_reports@),
                active == before.pool.active,
                before.wf(),
                self.wf(),
                all_times_fit(pages.take(i as int), times),
                option_view(last) == latest(None, all_endings(pages.take(i as int))),
                self@ == (ManagerModel {
                    ledger: before.ledger.record_all(
                        all_records(pages.take(i as int), times),
                        active,
                    ),
                    ..before
                }),
            decreases cost_reports.len() - i,
        {
            let page = &cost_reports[i];
            let ghost upto = pages.take(i + 1);
            let ghost sofar = self@;
            proof {
                assert(upto.drop_last() =~= pages.take(i as int));
                assert(upto.last() == page@);
                lemma_latest_joins(
                    None,
                    all_endings(pages.take(i as int)),
                    endings(page@.data),
                );
            }
            last = latest_ending(last, &page.data);
            self.process_cost_report(page, timestamp);
            proof {
                let t = choose|t: Seq<int>|
                    {
                        &&& times_fit(page@.data, t)
                        &&& self@ == (ManagerModel {
                            ledger: sofar.ledger.record_all(
                                #[trigger] report_records(page@.data, t),
                                sofar.pool.active,
                            ),
                            ..sofar
                        })
                    };
                let sooner = times;
                let later = times.push(t);
                assert(later.drop_last() =~= sooner);
                assert forall|p: int| 0 <= p < upto.len() implies times_fit(
                    (#[trigger] upto[p]).data,
                    later[p],
                ) by {
                    if p < i {
                        assert(pages.take(i as int)[p] == upto[p]);
                    }
                }
                lemma_record_all_joins(
                    before.ledger,
                    all_records(pages.take(i as int), sooner),
                    report_records(page@.data, t),
                    active,
                );
                times = later;
            }
            i += 1;
        }
        proof {
            assert(pages.take(i as int) =~= pages);
            lemma_record_all_appends(before.ledger, all_records(pages, times), active);
        }
        match last {
            Some(ending) => {
                let moves = match &self.last_cost_query_date {
                    Some(from) => ends_earlier(from.as_str(), ending.as_str()),
                    None => true,
                };
                if moves {
                    self.last_cost_query_date = Some(resume_text(ending));
                }
            },
            None => {},
        }
        let now_held = self.ledger.len();
        proof {
            assert(all_times_fit(pages, times));
            assert(self@.last_cost_query_date == before.with_pages(
                pages,
                times,
            ).last_cost_query_date);
            assert(self@ == before.with_pages(pages, times));
            assert(now_held - held == all_records(pages, times).len());
            if let Some(end) = latest(None, all_endings(pages)) {
                lemma_resume_form_keeps_the_moment(end);
            }
        }
        now_held - held
    }

    /// Begins a run at `now`: it reads the report from where the last run
    /// left off, or from thirty days before `now`.
    pub fn fetch_costs_from_anthropic_at(&self, now: i64) -> (r: Result<
        (CostFetch, FetchStep),
        ManagerError,
    >)
        ensures
            fetch_begun(self@, now as int, r),
    {
        match &self.admin_api_key {
            None => Err(ManagerError::AdminKeyMissing),
            Some(admin) => match start_boundary(&self.last_cost_query_date, now) {
                None => Err(ManagerError::ClockOutOfRange),
                Some(start) => Ok(CostFetch::begin(admin.as_str(), start, now)),
            },
        }
    }

    /// Begins a run at the time of the clock.
    pub fn fetch_costs_from_anthropic(&self) -> (r: Result<(CostFetch, FetchStep), ManagerError>)
        ensures
            exists|now: int| #[trigger] fetch_begun(self@, now, r),
    {
        let now = unix_now();
        let r = self.fetch_costs_from_anthropic_at(now);
        assert(fetch_begun(self@, now as int, r));
        r
    }

    /// Answers a request at `now` to refresh the costs.
    pub fn refresh_costs_at(&mut self, now: i64) -> (r: Result<RefreshStart, ManagerError>)
        ensures
            refresh_started(old(self)@, now as int, final(self)@, r),
            old(self).wf() ==> final(self).wf(),
    {
        if self.admin_api_key.is_none() {
            return Err(ManagerError::AdminKeyMissing);
        }
        match self.last_cost_check {
            Some(last) => {
                if last > now {
                    self.last_cost_check = None;
                } else if (now as i128) - (last as i128) < COOLDOWN_SECONDS as i128 {
                    return Ok(
                        RefreshStart::TooSoon(
                            CostsRefreshResponse {
                                success: false,
                                records_added: 0,
                                seconds_since_last: Some(now - last),
                                timestamp: last,
                            },
                        ),
                    );
                }
            },
            None => {},
        }
        match self.fetch_costs_from_anthropic_at(now) {
            Ok((run, step)) => Ok(RefreshStart::Begin { run, step }),
            Err(e) => Err(e),
        }
    }

    /// Answers a request to refresh the costs at the time of the clock.
    pub fn refresh_costs(&mut self) -> (r: Result<RefreshStart, ManagerError>)
        ensures
            exists|now: int| #[trigger] refresh_started(old(self)@, now, final(self)@, r),
            old(self).wf() ==> final(self).wf(),
    {
        let now = unix_now();
        let ghost before = self@;
        let r = self.refresh_costs_at(now);
        assert(refresh_started(before, now as int, self@, r));
        r
    }

    /// Completes a refresh with the run that it began: processes the pages
    /// that came, also where the run failed later, and for a run that
    /// reached its end sets the time of the last refresh to its beginning.
    pub fn complete_refresh(&mut self, run: CostFetch) -> (r: Result<
        CostsRefreshResponse,
        RefreshError,
    >)
        requires
            old(self).wf(),
        ensures
            final(self).wf(),
            exists|times: Seq<Seq<int>>|
                all_times_fit(run@.pages, times) && #[trigger] refresh_completed(
                    old(self)@,
                    run@,
                    times,
                    final(self)@,
                    r,
                ),
            old(self)@.last_cost_query_date matches Some(from) ==> {
                &&& final(self)@.last_cost_query_date matches Some(next)
                &&& !ending_before(next, from)
            },
    {
        let ghost before = self@;
        let ghost model = run@;
        match run.outcome() {
            None => {
                proof {
                    lemma_some_times_fit(model.pages);
                    let t = choose|t: Seq<Seq<int>>| all_times_fit(model.pages, t);
                    assert(refresh_completed(
                        before,
                        model,
                        t,
                        self@,
                        Err(RefreshError::Unfinished),
                    ));
                }
                Err(RefreshError::Unfinished)
            },
            Some(outcome) => {
                let started_at = run.started_at();
                let pages = run.into_pages();
                let added = self.process_all_cost_reports(&pages, started_at);
                let ghost t = choose|t: Seq<Seq<int>>|
                    {
                        &&& all_times_fit(views(pages@), t)
                        &&& self@ == #[trigger] before.with_pages(views(pages@), t)
                        &&& added == all_records(views(pages@), t).len()
                    };
                match outcome {
                    Ok(()) => {
                        self.last_cost_check = Some(started_at);
                        let r = Ok(
                            CostsRefreshResponse {
                                success: true,
                                records_added: added,
                                seconds_since_last: None,
                                timestamp: started_at,
                            },
                        );
                        assert(refresh_completed(before, model, t, self@, r));
                        r
                    },
                    Err(error) => {
                        let r = Err(RefreshError::Failed { error, records_added: added });
                        assert(refresh_completed(before, model, t, self@, r));
                        r
                    },
                }
            },
        }
    }
}

/// Every list of pages has times that fit it.
pub proof fn lemma_some_times_fit(pages: Seq<ReportModel>)
    ensures
        exists|times: Seq<Seq<int>>| all_times_fit(pages, times),
{
    let times = Seq::new(
        pages.len(),
        |p: int|
            Seq::new(
                pages[p].data.len(),
                |i: int|
                    match rfc3339_timestamp(pages[p].data[i].starting_at) {
                        Some(t) => t,
                        None => 0int,
                    },
            ),
    );
    assert(all_times_fit(pages, times));
}

} // verus!
