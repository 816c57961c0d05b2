//! A page of the provider's cost report, and what the ledger takes from it.
//!
//! A page holds buckets of time; a bucket holds results, each with an amount
//! of cents written as a decimal numeral. A result becomes a record of the
//! ledger unless its amount is zero or is no numeral. The ends of the
//! buckets, compared as moments, say where the next run resumes.

use vstd::prelude::*;
use vstd::string::StringExecFns;
use crate::amount::{micros_of_cents, numeral_is_zero, read_cents};
use crate::ledger::{CostRecord, RecordModel};
use crate::seqs::{lemma_views_push, views};
use crate::text::{ends_in, has_last_char, option_view};
use crate::trusted::{parse_rfc3339, rfc3339_timestamp, utc_clock, utc_clock_of_seconds};

verus! {

/// One line of a bucket: an amount and what it was for.
#[derive(Debug)]
pub struct CostReportResult {
    pub currency: String,
    /// The amount in cents, as a decimal numeral.
    pub amount: String,
    pub workspace_id: Option<String>,
    pub description: Option<String>,
    pub cost_type: Option<String>,
    pub context_window: Option<String>,
    pub model: Option<String>,
    pub service_tier: Option<String>,
    pub token_type: Option<String>,
}

/// What the ledger reads of a `CostReportResult`.
pub struct ResultModel {
    pub currency: Seq<char>,
    pub amount: Seq<char>,
    pub description: Option<Seq<char>>,
}

impl View for CostReportResult {
    type V = ResultModel;

    open spec fn view(&self) -> ResultModel {
        ResultModel {
            currency: self.currency@,
            amount: self.amount@,
            description: option_view(self.description),
        }
    }
}

/// The results of one span of time.
#[derive(Debug)]
pub struct CostReportData {
    /// The beginning of the span, in RFC 3339.
    pub starting_at: String,
    /// The end of the span, in RFC 3339.
    pub ending_at: String,
    pub results: Vec<CostReportResult>,
}

/// What a `CostReportData` stands for.
pub struct BucketModel {
    pub starting_at: Seq<char>,
    pub ending_at: Seq<char>,
    pub results: Seq<ResultModel>,
}

impl View for CostReportData {
    type V = BucketModel;

    open spec fn view(&self) -> BucketModel {
        BucketModel {
            starting_at: self.starting_at@,
            ending_at: self.ending_at@,
            results: views(self.results@),
        }
    }
}

/// One page of the cost report.
#[derive(Debug)]
pub struct AnthropicCostReport {
    pub data: Vec<CostReportData>,
    /// Whether the provider has pages after this one.
    pub has_more: bool,
    /// The token that asks for the next page.
    pub next_page: Option<String>,
}

/// What an `AnthropicCostReport` stands for.
pub struct ReportModel {
    pub data: Seq<BucketModel>,
    pub has_more: bool,
    pub next_page: Option<Seq<char>>,
}

impl View for AnthropicCostReport {
    type V = ReportModel;

    open spec fn view(&self) -> ReportModel {
        ReportModel {
            data: views(self.data@),
            has_more: self.has_more,
            next_page: option_view(self.next_page),
        }
    }
}

impl ReportModel {
    /// Whether this page is the last: the provider announces no more, or
    /// gives no token to ask for more.
    pub open spec fn is_last(self) -> bool {
        !self.has_more || self.next_page is None
    }
}

/// The description given to a result that brings none.
pub open spec fn default_description() -> Seq<char> {
    "Unknown"@
}

/// The record that the result `r`, incurred at `incurred_at`, adds to the
/// ledger: its amount in whole micro-dollars, with its currency and
/// description. `None` if the amount is no numeral, does not fit, or is
/// worth nothing; an amount of less than a micro-dollar adds a record.
pub open spec fn record_of(r: ResultModel, incurred_at: int) -> Option<RecordModel> {
    match micros_of_cents(r.amount) {
        Some(v) => if numeral_is_zero(r.amount) {
            None
        } else {
            Some(
                RecordModel {
                    timestamp: incurred_at,
                    amount: v,
                    currency: r.currency,
                    description: match r.description {
                        Some(d) => d,
                        None => default_description(),
                    },
                },
            )
        },
        None => None,
    }
}

/// The records that `results`, all incurred at `incurred_at`, add to the
/// ledger, in order.
pub open spec fn bucket_records(results: Seq<ResultModel>, incurred_at: int) -> Seq<RecordModel>
    decreases results.len(),
{
    if results.len() == 0 {
        Seq::empty()
    } else {
        match record_of(results.last(), incurred_at) {
            Some(r) => bucket_records(results.drop_last(), incurred_at).push(r),
            None => bucket_records(results.drop_last(), incurred_at),
        }
    }
}

/// The records that the buckets `data` add to the ledger, where `times[i]`
/// is the time at which the results of bucket `i` were incurred.
pub open spec fn report_records(data: Seq<BucketModel>, times: Seq<int>) -> Seq<RecordModel>
    decreases data.len(),
{
    if data.len() == 0 || times.len() != data.len() {
        Seq::empty()
    } else {
        report_records(data.drop_last(), times.drop_last()) + bucket_records(
            data.last().results,
            times.last(),
        )
    }
}

/// Whether the moment `a` is earlier than the moment `b`, where a text
/// that writes no moment stands for `None`: no moment is earlier than every
/// moment, and nothing is earlier than no moment.
pub open spec fn moment_before(a: Option<int>, b: Option<int>) -> bool {
    match b {
        Some(y) => match a {
            Some(x) => x < y,
            None => true,
        },
        None => false,
    }
}

/// Whether the end `a` is earlier than the end `b`, by the moments that the
/// two write in RFC 3339, whatever the zone and the form in which they
/// write them.
pub open spec fn ending_before(a: Seq<char>, b: Seq<char>) -> bool {
    moment_before(rfc3339_timestamp(a), rfc3339_timestamp(b))
}

/// The later of two ends; `a` where neither is later.
pub open spec fn later_of(a: Seq<char>, b: Seq<char>) -> Seq<char> {
    if ending_before(a, b) {
        b
    } else {
        a
    }
}

/// The latest of the ends `texts`, starting from `so_far`; of ends that
/// write the same moment, the first.
pub open spec fn latest(so_far: Option<Seq<char>>, texts: Seq<Seq<char>>) -> Option<Seq<char>>
    decreases texts.len(),
{
    if texts.len() == 0 {
        so_far
    } else {
        match latest(so_far, texts.drop_last()) {
            Some(m) => Some(later_of(m, texts.last())),
            None => Some(texts.last()),
        }
    }
}

/// The ends of the spans of `data`, in order.
pub open spec fn endings(data: Seq<BucketModel>) -> Seq<Seq<char>> {
    Seq::new(data.len(), |i: int| data[i].ending_at)
}

/// The ends of the spans of all of `pages`, in order.
pub open spec fn all_endings(pages: Seq<ReportModel>) -> Seq<Seq<char>>
    decreases pages.len(),
{
    if pages.len() == 0 {
        Seq::empty()
    } else {
        all_endings(pages.drop_last()) + endings(pages.last().data)
    }
}

/// The moment `moment` written in UTC to the second and followed by `Z`,
/// where `moment` is one that has a date.
pub open spec fn utc_form(moment: Option<int>) -> Option<Seq<char>> {
    match moment {
        Some(seconds) => match utc_clock(seconds) {
            Some(clock) => Some(clock + "Z"@),
            None => None,
        },
        None => None,
    }
}

/// What `resume_form` gives for `ending`, where `moment` is the moment that
/// `ending` writes, `rewritten` that moment written in UTC, and `reread` the
/// moment that `rewritten` writes.
pub open spec fn resume_form_with(
    ending: Seq<char>,
    moment: Option<int>,
    rewritten: Option<Seq<char>>,
    reread: Option<int>,
) -> Seq<char> {
    if ends_in(ending, 'Z') {
        ending
    } else {
        match rewritten {
            Some(text) => if moment is Some && reread == moment {
                text
            } else {
                ending
            },
            None => ending,
        }
    }
}

/// The form in which the end of a span is kept as the place to resume from:
/// as it stands if it ends in `Z`; else its moment written in UTC to the
/// second and followed by `Z`, where that writes the same moment; else as it
/// stands.
pub open spec fn resume_form(ending: Seq<char>) -> Seq<char> {
    let moment = rfc3339_timestamp(ending);
    let rewritten = utc_form(moment);
    resume_form_with(
        ending,
        moment,
        rewritten,
        match rewritten {
            Some(text) => rfc3339_timestamp(text),
            None => None,
        },
    )
}

/// The form in which an end is kept writes the moment that the end writes.
pub proof fn lemma_resume_form_keeps_the_moment(ending: Seq<char>)
    ensures
        rfc3339_timestamp(resume_form(ending)) == rfc3339_timestamp(ending),
{
}

/// `latest` starting from nothing picks one of the ends, and none of them
/// is later than it.
pub proof fn lemma_latest_is_last(texts: Seq<Seq<char>>)
    ensures
        texts.len() == 0 <==> latest(None, texts) is None,
        latest(None, texts) matches Some(m) ==> texts.contains(m) && forall|i: int|
            0 <= i < texts.len() ==> !ending_before(m, #[trigger] texts[i]),
    decreases texts.len(),
{
    if texts.len() > 0 {
        let front = texts.drop_last();
        lemma_latest_is_last(front);
        let m = latest(None, texts)->0;
        match latest(None, front) {
            Some(p) => {
                let k = choose|k: int| 0 <= k < front.len() && front[k] == p;
                assert(texts[k] == p);
                assert(texts[texts.len() - 1] == texts.last());
                assert forall|i: int| 0 <= i < texts.len() implies !ending_before(
                    m,
                    #[trigger] texts[i],
                ) by {
                    if i < front.len() {
                        assert(texts[i] == front[i]);
                        assert(!ending_before(p, front[i]));
                    }
                }
            },
            None => {
                assert(texts[0] == texts.last());
            },
        }
    }
}

/// Taking the latest of one list and going on from it through another is
/// taking the latest of the two as one.
pub proof fn lemma_latest_joins(start: Option<Seq<char>>, a: Seq<Seq<char>>, b: Seq<Seq<char>>)
    ensures
        latest(latest(start, a), b) == latest(start, a + b),
    decreases b.len(),
{
    if b.len() > 0 {
        lemma_latest_joins(start, a, b.drop_last());
        assert((a + b).drop_last() =~= a + b.drop_last());
        assert((a + b).last() == b.last());
    } else {
        assert(a + b =~= a);
    }
}

impl CostReportResult {
    /// The record that this result, incurred at `incurred_at`, adds to the
    /// ledger, if it adds one.
    pub fn record(&self, incurred_at: i64) -> (rec: Option<CostRecord>)
        ensures
            match rec {
                Some(r) => record_of(self@, incurred_at as int) == Some(r@),
                None => record_of(self@, incurred_at as int) is None,
            },
    {
        match read_cents(self.amount.as_str()) {
            None => None,
            Some(reading) => {
                if reading.is_zero {
                    None
                } else {
                    let description = match &self.description {
                        Some(d) => d.clone(),
                        None => String::from_str("Unknown"),
                    };
                    Some(
                        CostRecord {
                            timestamp: incurred_at,
                            amount: reading.micros,
                            currency: self.currency.clone(),
                            description,
                        },
                    )
                }
            },
        }
    }
}

impl CostReportData {
    /// The records that this bucket adds to the ledger if its results were
    /// incurred at `incurred_at`.
    pub fn records(&self, incurred_at: i64) -> (out: Vec<CostRecord>)
        ensures
            views(out@) == bucket_records(self@.results, incurred_at as int),
    {
        let ghost results = self@.results;
        let mut out: Vec<CostRecord> = Vec::new();
        let mut i: usize = 0;
        assert(results.take(0) =~= Seq::empty());
        assert(views(out@) =~= Seq::empty());
        while i < self.results.len()
            invariant
                i <= self.results.len(),
                results == self@.results,
                views(out@) == bucket_records(results.take(i as int), incurred_at as int),
            decreases self.results.len() - i,
        {
            proof {
                let upto = results.take(i + 1);
                assert(upto.drop_last() =~= results.take(i as int));
                assert(upto.last() == self.results@[i as int]@);
            }
            match self.results[i].record(incurred_at) {
                Some(r) => {
                    proof {
                        lemma_views_push(out@, r);
                    }
                    out.push(r);
                },
                None => {},
            }
            i += 1;
        }
        assert(results.take(i as int) =~= results);
        out
    }
}

/// The moment that an optional count of seconds stands for.
pub open spec fn moment_view(moment: Option<i64>) -> Option<int> {
    match moment {
        Some(t) => Some(t as int),
        None => None,
    }
}

/// The moment that `text` writes in RFC 3339, if it writes one.
pub fn moment_of(text: &str) -> (moment: Option<i64>)
    ensures
        moment_view(moment) == rfc3339_timestamp(text@),
{
    parse_rfc3339(text)
}

/// Whether the moment `a` is earlier than the moment `b`, where `None`
/// stands for a text that writes no moment.
pub fn is_earlier(a: Option<i64>, b: Option<i64>) -> (earlier: bool)
    ensures
        earlier == moment_before(moment_view(a), moment_view(b)),
{
    match b {
        Some(y) => match a {
            Some(x) => x < y,
            None => true,
        },
        None => false,
    }
}

/// Whether the end `a` is earlier than the end `b`, by the moments that the
/// two write.
pub fn ends_earlier(a: &str, b: &str) -> (earlier: bool)
    ensures
        earlier == ending_before(a@, b@),
{
    is_earlier(moment_of(a), moment_of(b))
}

/// The latest of `so_far` and the ends of the spans of `data`.
pub fn latest_ending(so_far: Option<String>, data: &Vec<CostReportData>) -> (out: Option<String>)
    ensures
        option_view(out) == latest(option_view(so_far), endings(views(data@))),
{
    let ghost start = option_view(so_far);
    let ghost ends = endings(views(data@));
    let mut reached: Option<i64> = match &so_far {
        Some(text) => moment_of(text.as_str()),
        None => None,
    };
    let mut out = so_far;
    let mut i: usize = 0;
    assert(ends.take(0) =~= Seq::empty());
    while i < data.len()
        invariant
            i <= data.len(),
            ends == endings(views(data@)),
            option_view(out) == latest(start, ends.take(i as int)),
            out matches Some(text) ==> moment_view(reached) == rfc3339_timestamp(text@),
        decreases data.len() - i,
    {
        proof {
            let upto = ends.take(i + 1);
            assert(upto.drop_last() =~= ends.take(i as int));
            assert(upto.last() == data@[i as int].ending_at@);
        }
        let moment = moment_of(data[i].ending_at.as_str());
        let replace = match &out {
            Some(_) => is_earlier(reached, moment),
            None => true,
        };
        if replace {
            out = Some(data[i].ending_at.clone());
            reached = moment;
        }
        i += 1;
    }
    assert(ends.take(i as int) =~= ends);
    out
}

/// The moment `moment` written in UTC to the second and followed by `Z`,
/// where `clock` is the UTC clock text of that moment.
pub fn utc_text_with(moment: Option<i64>, clock: Option<String>) -> (text: Option<String>)
    ensures
        option_view(text) == match moment {
            Some(_) => match clock {
                Some(c) => Some(c@ + "Z"@),
                None => None,
            },
            None => None,
        },
{
    match moment {
        Some(_) => match clock {
            Some(c) => Some(c.concat("Z")),
            None => None,
        },
        None => None,
    }
}

/// The moment `moment` written in UTC to the second and followed by `Z`.
pub fn utc_text(moment: Option<i64>) -> (text: Option<String>)
    ensures
        option_view(text) == utc_form(moment_view(moment)),
{
    let clock = match moment {
        Some(seconds) => utc_clock_of_seconds(seconds),
        None => None,
    };
    utc_text_with(moment, clock)
}

/// The form in which `ending` is kept as the place to resume from, where
/// `moment` is the moment that `ending` writes, `rewritten` that moment
/// written in UTC, and `reread` the moment that `rewritten` writes.
pub fn resume_text_with(
    ending: String,
    moment: Option<i64>,
    rewritten: Option<String>,
    reread: Option<i64>,
) -> (out: String)
    ensures
        out@ == resume_form_with(
            ending@,
            moment_view(moment),
            option_view(rewritten),
            moment_view(reread),
        ),
{
    if has_last_char(ending.as_str(), 'Z') {
        return ending;
    }
    let same = match (moment, reread) {
        (Some(a), Some(b)) => a == b,
        _ => false,
    };
    match rewritten {
        Some(text) => if same {
            text
        } else {
            ending
        },
        None => ending,
    }
}

/// The form in which `ending` is kept as the place to resume from.
pub fn resume_text(ending: String) -> (out: String)
    ensures
        out@ == resume_form(ending@),
{
    if has_last_char(ending.as_str(), 'Z') {
        ending
    } else {
        let moment = moment_of(ending.as_str());
        let rewritten = utc_text(moment);
        let reread = match &rewritten {
            Some(text) => moment_of(text.as_str()),
            None => None,
        };
        resume_text_with(ending, moment, rewritten, reread)
    }
}

} // verus!
