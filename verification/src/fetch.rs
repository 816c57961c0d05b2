//! The run that brings the cost report in, page by page.
//!
//! The run itself sends nothing. It says what to send next and takes what
//! came back: it is a machine from a state and an event to the next state and
//! the next step. Whoever drives it performs the steps.
//!
//! A page is asked for at most three times. A failure that may pass is
//! followed by a wait that grows with the number of attempts, a longer one
//! where the provider limits the rate. A refusal of the credential ends the
//! run at once. The run ends by itself after a hundred pages.

use vstd::prelude::*;
use vstd::string::StringExecFns;
use crate::report::{AnthropicCostReport, ReportModel};
use crate::seqs::{lemma_views_push, views};
use crate::text::option_view;
use crate::trusted::{normalize_url, url_normal_form, utc_clock, utc_clock_of_seconds};

verus! {

/// The most pages that one run asks for.
pub const MAX_PAGES: u32 = 100;

/// The most attempts that are made at one page.
pub const MAX_ATTEMPTS: u32 = 3;

/// How long a request may take, in milliseconds.
pub const REQUEST_TIMEOUT_MS: u64 = 30_000;

/// How far back the first run of all looks, in seconds: thirty days.
pub const LOOKBACK_SECONDS: i64 = 2_592_000;

/// The status of a response that brings a page.
pub const STATUS_OK: u16 = 200;

/// The status of a response that refuses the credential as unknown.
pub const STATUS_UNAUTHORIZED: u16 = 401;

/// The status of a response that refuses the credential as not entitled.
pub const STATUS_FORBIDDEN: u16 = 403;

/// The status of a response that limits the rate of requests.
pub const STATUS_TOO_MANY_REQUESTS: u16 = 429;

/// How a request is made.
#[derive(Clone, Copy, Debug, PartialEq, Eq, Structural)]
pub enum HttpMethod {
    Get,
    Post,
}

/// A request to the provider.
#[derive(Debug)]
pub struct UpstreamRequest {
    pub method: HttpMethod,
    pub url: String,
    /// The headers, each a name and a value.
    pub headers: Vec<(String, String)>,
    pub timeout_ms: u64,
    pub body: String,
}

/// What an `UpstreamRequest` stands for.
pub struct RequestModel {
    pub method: HttpMethod,
    pub url: Seq<char>,
    pub headers: Seq<(Seq<char>, Seq<char>)>,
    pub timeout_ms: int,
    pub body: Seq<char>,
}

impl View for UpstreamRequest {
    type V = RequestModel;

    open spec fn view(&self) -> RequestModel {
        RequestModel {
            method: self.method,
            url: self.url@,
            headers: views(self.headers@),
            timeout_ms: self.timeout_ms as int,
            body: self.body@,
        }
    }
}

/// Why an attempt at a page failed in a way that may pass.
#[derive(Clone, Copy, Debug, PartialEq, Eq, Structural)]
pub enum FailureCause {
    /// No response came.
    Transport,
    /// The provider limits the rate of requests.
    RateLimited,
    /// The response had this status, which is none of those with a meaning
    /// of their own.
    Status(u16),
    /// The response was a success whose body is no page.
    ParseFailure,
}

/// Why a run ended without reaching the last page.
#[derive(Clone, Copy, Debug, PartialEq, Eq, Structural)]
pub enum FetchError {
    /// The address of a page is no URL.
    InvalidUrl,
    /// The provider does not know the credential.
    UpstreamUnauthorized,
    /// The provider does not let the credential read the report.
    UpstreamForbidden,
    /// Every attempt at the page `page` failed, the last of them for `cause`.
    UpstreamTransient { page: u32, attempts: u32, cause: FailureCause },
}

/// What came of a request.
#[derive(Debug)]
pub enum FetchEvent {
    /// No response came.
    TransportFailed,
    /// A response came, with this status; `decoded` is the page that its
    /// body holds, if it holds one.
    Response { status: u16, decoded: Option<AnthropicCostReport> },
}

/// What a `FetchEvent` stands for.
pub enum EventModel {
    TransportFailed,
    Response { status: int, decoded: Option<ReportModel> },
}

impl View for FetchEvent {
    type V = EventModel;

    open spec fn view(&self) -> EventModel {
        match *self {
            FetchEvent::TransportFailed => EventModel::TransportFailed,
            FetchEvent::Response { status, decoded } => EventModel::Response {
                status: status as int,
                decoded: match decoded {
                    Some(page) => Some(page@),
                    None => None,
                },
            },
        }
    }
}

/// What the driver of a run does next.
#[derive(Debug)]
pub enum FetchStep {
    /// Wait for `wait_ms` milliseconds, send `request`, and hand in what
    /// came of it.
    Send { wait_ms: u64, request: UpstreamRequest },
    /// Nothing: the run is over.
    Done,
}

/// What a `FetchStep` stands for.
pub enum StepModel {
    Send { wait_ms: int, request: RequestModel },
    Done,
}

impl View for FetchStep {
    type V = StepModel;

    open spec fn view(&self) -> StepModel {
        match *self {
            FetchStep::Send { wait_ms, request } => StepModel::Send {
                wait_ms: wait_ms as int,
                request: request@,
            },
            FetchStep::Done => StepModel::Done,
        }
    }
}

/// The wait in milliseconds after the failed attempt number `attempt` at a
/// page: a second after the first, and twice as long after each further one.
pub open spec fn transient_backoff(attempt: int) -> int
    decreases attempt,
{
    if attempt <= 1 {
        1000
    } else {
        2 * transient_backoff(attempt - 1)
    }
}

/// The wait in milliseconds after the attempt number `attempt` at a page was
/// refused for the rate of requests: five seconds for each attempt made.
pub open spec fn rate_limit_backoff(attempt: int) -> int {
    5000 * attempt
}

/// The wait in milliseconds that follows a failure for `cause` of the
/// attempt number `attempt`.
pub open spec fn backoff(cause: FailureCause, attempt: int) -> int {
    if cause == FailureCause::RateLimited {
        rate_limit_backoff(attempt)
    } else {
        transient_backoff(attempt)
    }
}

/// The address of a page of the report that starts at `starting_at`: of the
/// first page without a token, of a later page with the token that the page
/// before it gave.
pub open spec fn page_address(starting_at: Seq<char>, token: Option<Seq<char>>) -> Seq<char> {
    let first = "https://api.anthropic.com/v1/organizations/cost_report?starting_at="@
        + starting_at + "&group_by[]=workspace_id&group_by[]=description&limit=30"@;
    match token {
        Some(t) => first + "&page="@ + t,
        None => first,
    }
}

/// The headers of every request made with the credential `admin_key`.
pub open spec fn request_headers(admin_key: Seq<char>) -> Seq<(Seq<char>, Seq<char>)> {
    seq![
        ("anthropic-version"@, "2023-06-01"@),
        ("content-type"@, "application/json"@),
        ("x-api-key"@, admin_key),
    ]
}

/// The request for the page of the report at the address `url`.
pub open spec fn cost_request(admin_key: Seq<char>, url: Seq<char>) -> RequestModel {
    RequestModel {
        method: HttpMethod::Get,
        url: url,
        headers: request_headers(admin_key),
        timeout_ms: REQUEST_TIMEOUT_MS as int,
        body: Seq::empty(),
    }
}

/// Where a run starts to read the report: where the last run left off, or
/// without such a place at `lookback`, the UTC clock text of thirty days
/// ago, followed by `Z`. `None` if there is neither.
pub open spec fn start_boundary_with(
    resume_from: Option<Seq<char>>,
    lookback: Option<Seq<char>>,
) -> Option<Seq<char>> {
    match resume_from {
        Some(c) => Some(c),
        None => match lookback {
            Some(clock) => Some(clock + "Z"@),
            None => None,
        },
    }
}

/// The UTC clock text of thirty days before `now`, if that moment has one.
pub open spec fn lookback_clock(now: int) -> Option<Seq<char>> {
    if now - LOOKBACK_SECONDS < i64::MIN {
        None
    } else {
        utc_clock(now - LOOKBACK_SECONDS)
    }
}

/// What a `CostFetch` stands for.
pub struct FetchModel {
    pub admin_key: Seq<char>,
    /// Where the report is read from.
    pub starting_at: Seq<char>,
    /// When the run began.
    pub started_at: int,
    /// The address of the page that is being asked for.
    pub url: Seq<char>,
    /// The pages that came, in order.
    pub pages: Seq<ReportModel>,
    /// The number of the page that is being asked for, from 1.
    pub page_number: int,
    /// The attempts made at that page, the one under way included.
    pub attempts: int,
    /// How the run ended, once it has.
    pub outcome: Option<Result<(), FetchError>>,
}

impl FetchModel {
    /// Whether the run is over.
    pub open spec fn is_over(self) -> bool {
        self.outcome is Some
    }

    /// What holds of every run: the counters are within their limits, and
    /// while it goes on every page before the one asked for has come.
    pub open spec fn wf(self) -> bool {
        &&& 1 <= self.page_number <= MAX_PAGES
        &&& 1 <= self.attempts <= MAX_ATTEMPTS
        &&& !self.is_over() ==> self.pages.len() == self.page_number - 1
    }

    /// The run that reads the report from `starting_at` with `admin_key`,
    /// begun at `started_at`, where `address` is the URL of the first page:
    /// over at once if there is no such URL.
    pub open spec fn begin(
        admin_key: Seq<char>,
        starting_at: Seq<char>,
        started_at: int,
        address: Option<Seq<char>>,
    ) -> FetchModel {
        FetchModel {
            admin_key: admin_key,
            starting_at: starting_at,
            started_at: started_at,
            url: match address {
                Some(u) => u,
                None => Seq::empty(),
            },
            pages: Seq::empty(),
            page_number: 1,
            attempts: 1,
            outcome: match address {
                Some(_) => None,
                None => Some(Err(FetchError::InvalidUrl)),
            },
        }
    }

    /// The first step of the run that `begin` makes.
    pub open spec fn first_step(admin_key: Seq<char>, address: Option<Seq<char>>) -> StepModel {
        match address {
            Some(u) => StepModel::Send { wait_ms: 0, request: cost_request(admin_key, u) },
            None => StepModel::Done,
        }
    }

    /// The run ended with `outcome`.
    pub open spec fn end(self, outcome: Result<(), FetchError>) -> FetchModel {
        FetchModel { outcome: Some(outcome), ..self }
    }

    /// The request for the page that is being asked for.
    pub open spec fn request(self) -> RequestModel {
        cost_request(self.admin_key, self.url)
    }

    /// The run and its next step after an attempt failed for `cause`: the
    /// same request again after the wait, or the end of the run if this was
    /// the last attempt allowed.
    pub open spec fn retry(self, cause: FailureCause) -> (FetchModel, StepModel) {
        if self.attempts < MAX_ATTEMPTS {
            (
                FetchModel { attempts: self.attempts + 1, ..self },
                StepModel::Send {
                    wait_ms: backoff(cause, self.attempts),
                    request: self.request(),
                },
            )
        } else {
            (
                self.end(
                    Err(
                        FetchError::UpstreamTransient {
                            page: self.page_number as u32,
                            attempts: self.attempts as u32,
                            cause: cause,
                        },
                    ),
                ),
                StepModel::Done,
            )
        }
    }

    /// The text of the address of the page after `page`, where the run goes
    /// on after `page`; `None` where `page` ends it.
    pub open spec fn next_address_text(self, page: ReportModel) -> Option<Seq<char>> {
        if page.is_last() || self.page_number >= MAX_PAGES {
            None
        } else {
            Some(page_address(self.starting_at, page.next_page))
        }
    }

    /// The run and its next step after `page` came, where `address` is the
    /// URL of the page after it: the end of the run if `page` is the last or
    /// the hundredth, or if there is no such URL; else the first request for
    /// the next page.
    pub open spec fn accept(self, page: ReportModel, address: Option<Seq<char>>) -> (
        FetchModel,
        StepModel,
    ) {
        let kept = FetchModel { pages: self.pages.push(page), ..self };
        if page.is_last() || self.page_number >= MAX_PAGES {
            (kept.end(Ok(())), StepModel::Done)
        } else {
            match address {
                Some(u) => {
                    let next = FetchModel {
                        page_number: self.page_number + 1,
                        attempts: 1,
                        url: u,
                        ..kept
                    };
                    (next, StepModel::Send { wait_ms: 0, request: next.request() })
                },
                None => (kept.end(Err(FetchError::InvalidUrl)), StepModel::Done),
            }
        }
    }

    /// The page that `event` brings, if it brings one: the decoded body of a
    /// response with the status of success.
    pub open spec fn page_of(event: EventModel) -> Option<ReportModel> {
        match event {
            EventModel::Response { status, decoded } => if status == STATUS_OK {
                decoded
            } else {
                None
            },
            EventModel::TransportFailed => None,
        }
    }

    /// The run and its next step after `event`, where `address` is the URL
    /// of the page after the one that `event` brings, if it brings one that
    /// the run goes on after.
    pub open spec fn react(self, event: EventModel, address: Option<Seq<char>>) -> (
        FetchModel,
        StepModel,
    ) {
        if self.is_over() {
            (self, StepModel::Done)
        } else {
            match event {
                EventModel::TransportFailed => self.retry(FailureCause::Transport),
                EventModel::Response { status, decoded } => if status == STATUS_OK {
                    match decoded {
                        Some(page) => self.accept(page, address),
                        None => self.retry(FailureCause::ParseFailure),
                    }
                } else if status == STATUS_TOO_MANY_REQUESTS {
                    self.retry(FailureCause::RateLimited)
                } else if status == STATUS_UNAUTHORIZED {
                    (self.end(Err(FetchError::UpstreamUnauthorized)), StepModel::Done)
                } else if status == STATUS_FORBIDDEN {
                    (self.end(Err(FetchError::UpstreamForbidden)), StepModel::Done)
                } else {
                    self.retry(FailureCause::Status(status as u16))
                },
            }
        }
    }

    /// The URL of the page after the one that `event` brings, as the run
    /// needs it to go on.
    pub open spec fn next_address(self, event: EventModel) -> Option<Seq<char>> {
        match Self::page_of(event) {
            Some(page) => match self.next_address_text(page) {
                Some(text) => url_normal_form(text),
                None => None,
            },
            None => None,
        }
    }

    /// The run and its next step after `event`.
    pub open spec fn on_event(self, event: EventModel) -> (FetchModel, StepModel) {
        self.react(event, self.next_address(event))
    }
}

/// The wait in milliseconds after the failed attempt number `attempt`.
pub fn transient_backoff_ms(attempt: u32) -> (wait: u64)
    requires
        1 <= attempt <= MAX_ATTEMPTS,
    ensures
        wait == transient_backoff(attempt as int),
{
    let mut wait: u64 = 1000;
    let mut k: u32 = 1;
    while k < attempt
        invariant
            1 <= k <= attempt <= MAX_ATTEMPTS,
            wait == transient_backoff(k as int),
            wait <= 4000,
        decreases attempt - k,
    {
        assert(transient_backoff(2) == 2000 && transient_backoff(3) == 4000) by {
            reveal_with_fuel(transient_backoff, 4);
        }
        wait = wait * 2;
        k += 1;
    }
    wait
}

/// The wait in milliseconds after the attempt number `attempt` was refused
/// for the rate of requests.
pub fn rate_limit_backoff_ms(attempt: u32) -> (wait: u64)
    ensures
        wait == rate_limit_backoff(attempt as int),
{
    5000 * (attempt as u64)
}

/// The wait in milliseconds that follows a failure for `cause` of the
/// attempt number `attempt`.
pub fn backoff_ms(cause: FailureCause, attempt: u32) -> (wait: u64)
    requires
        1 <= attempt <= MAX_ATTEMPTS,
    ensures
        wait == backoff(cause, attempt as int),
{
    match cause {
        FailureCause::RateLimited => rate_limit_backoff_ms(attempt),
        _ => transient_backoff_ms(attempt),
    }
}

/// The text of the address of a page of the report that starts at
/// `starting_at`.
pub fn page_address_text(starting_at: &str, token: &Option<String>) -> (text: String)
    ensures
        text@ == page_address(starting_at@, option_view(*token)),
{
    let mut text = String::from_str(
        "https://api.anthropic.com/v1/organizations/cost_report?starting_at=",
    );
    text.append(starting_at);
    text.append("&group_by[]=workspace_id&group_by[]=description&limit=30");
    match token {
        Some(t) => {
            text.append("&page=");
            text.append(t.as_str());
        },
        None => {},
    }
    text
}

/// The headers of every request made with the credential `admin_key`.
pub fn headers_for(admin_key: &str) -> (headers: Vec<(String, String)>)
    ensures
        views(headers@) == request_headers(admin_key@),
{
    let mut headers: Vec<(String, String)> = Vec::new();
    headers.push((String::from_str("anthropic-version"), String::from_str("2023-06-01")));
    headers.push((String::from_str("content-type"), String::from_str("application/json")));
    headers.push((String::from_str("x-api-key"), String::from_str(admin_key)));
    assert(views(headers@) =~= request_headers(admin_key@));
    headers
}

/// The request for the page of the report at the address `url`.
pub fn cost_request_for(admin_key: &str, url: &str) -> (request: UpstreamRequest)
    ensures
        request@ == cost_request(admin_key@, url@),
{
    UpstreamRequest {
        method: HttpMethod::Get,
        url: String::from_str(url),
        headers: headers_for(admin_key),
        timeout_ms: REQUEST_TIMEOUT_MS,
        body: String::new(),
    }
}

/// The URL that `text` writes, if it writes one.
pub fn address_of(text: &str) -> (address: Option<String>)
    ensures
        option_view(address) == url_normal_form(text@),
{
    match normalize_url(text) {
        Ok(u) => Some(u),
        Err(_) => None,
    }
}

/// Where a run starts to read the report, given the place where the last
/// run left off and the UTC clock text of thirty days ago.
pub fn start_boundary_from(resume_from: &Option<String>, lookback: Option<String>) -> (start:
    Option<String>)
    ensures
        option_view(start) == start_boundary_with(option_view(*resume_from), option_view(lookback)),
{
    match resume_from {
        Some(c) => Some(c.clone()),
        None => match lookback {
            Some(clock) => Some(clock.concat("Z")),
            None => None,
        },
    }
}

/// Where a run that begins at `now` starts to read the report: where the
/// last run left off, or without such a place thirty days before `now`.
pub fn start_boundary(resume_from: &Option<String>, now: i64) -> (start: Option<String>)
    ensures
        option_view(start) == start_boundary_with(
            option_view(*resume_from),
            if resume_from is Some {
                None
            } else {
                lookback_clock(now as int)
            },
        ),
{
    let lookback = if resume_from.is_some() {
        None
    } else {
        match now.checked_sub(LOOKBACK_SECONDS) {
            Some(then) => utc_clock_of_seconds(then),
            None => None,
        }
    };
    start_boundary_from(resume_from, lookback)
}

/// A run that brings the cost report in.
#[derive(Debug)]
pub struct CostFetch {
    admin_key: String,
    starting_at: String,
    started_at: i64,
    url: String,
    pages: Vec<AnthropicCostReport>,
    page_number: u32,
    attempts: u32,
    outcome: Option<Result<(), FetchError>>,
}

impl View for CostFetch {
    type V = FetchModel;

    closed spec fn view(&self) -> FetchModel {
        FetchModel {
            admin_key: self.admin_key@,
            starting_at: self.starting_at@,
            started_at: self.started_at as int,
            url: self.url@,
            pages: views(self.pages@),
            page_number: self.page_number as int,
            attempts: self.attempts as int,
            outcome: self.outcome,
        }
    }
}

impl CostFetch {
    /// What holds of every run that this module hands out.
    pub open spec fn wf(&self) -> bool {
        self@.wf()
    }

    /// Begins the run that reads the report from `starting_at` with
    /// `admin_key`, where `address` is the URL of the first page.
    pub fn begin_with(
        admin_key: &str,
        starting_at: String,
        started_at: i64,
        address: Option<String>,
    ) -> (r: (CostFetch, FetchStep))
        ensures
            r.0.wf(),
            r.0@ == FetchModel::begin(
                admin_key@,
                starting_at@,
                started_at as int,
                option_view(address),
            ),
            r.1@ == FetchModel::first_step(admin_key@, option_view(address)),
    {
        match address {
            Some(u) => {
                let step = FetchStep::Send {
                    wait_ms: 0,
                    request: cost_request_for(admin_key, u.as_str()),
                };
                let run = CostFetch {
                    admin_key: String::from_str(admin_key),
                    starting_at,
                    started_at,
                    url: u,
                    pages: Vec::new(),
                    page_number: 1,
                    attempts: 1,
                    outcome: None,
                };
                assert(run@.pages =~= Seq::empty());
                (run, step)
            },
            None => {
                let run = CostFetch {
                    admin_key: String::from_str(admin_key),
                    starting_at,
                    started_at,
                    url: String::new(),
                    pages: Vec::new(),
                    page_number: 1,
                    attempts: 1,
                    outcome: Some(Err(FetchError::InvalidUrl)),
                };
                assert(run@.pages =~= Seq::empty());
                (run, FetchStep::Done)
            },
        }
    }

    /// Begins the run that reads the report from `starting_at` with
    /// `admin_key`.
    pub fn begin(admin_key: &str, starting_at: String, started_at: i64) -> (r: (
        CostFetch,
        FetchStep,
    ))
        ensures
            r.0.wf(),
            r.0@ == FetchModel::begin(
                admin_key@,
                starting_at@,
                started_at as int,
                url_normal_form(page_address(starting_at@, None)),
            ),
            r.1@ == FetchModel::first_step(
                admin_key@,
                url_normal_form(page_address(starting_at@, None)),
            ),
    {
        let text = page_address_text(starting_at.as_str(), &None);
        let address = address_of(text.as_str());
        Self::begin_with(admin_key, starting_at, started_at, address)
    }

    /// Whether the run is over.
    pub fn is_over(&self) -> (over: bool)
        ensures
            over == self@.is_over(),
    {
        self.outcome.is_some()
    }

    /// How the run ended, once it has.
    pub fn outcome(&self) -> (outcome: Option<Result<(), FetchError>>)
        ensures
            outcome == self@.outcome,
    {
        self.outcome
    }

    /// When the run began.
    pub fn started_at(&self) -> (at: i64)
        ensures
            at == self@.started_at,
    {
        self.started_at
    }

    /// How many pages have come.
    pub fn page_count(&self) -> (n: usize)
        ensures
            n == self@.pages.len(),
    {
        self.pages.len()
    }

    /// Hands out the pages that came.
    pub fn into_pages(self) -> (pages: Vec<AnthropicCostReport>)
        ensures
            views(pages@) == self@.pages,
    {
        self.pages
    }

    /// Takes an attempt that failed for `cause`.
    fn retry(&mut self, cause: FailureCause) -> (step: FetchStep)
        requires
            old(self).wf(),
            !old(self)@.is_over(),
        ensures
            final(self).wf(),
            final(self)@ == old(self)@.retry(cause).0,
            step@ == old(self)@.retry(cause).1,
    {
        if self.attempts < MAX_ATTEMPTS {
            let wait_ms = backoff_ms(cause, self.attempts);
            let request = cost_request_for(self.admin_key.as_str(), self.url.as_str());
            self.attempts = self.attempts + 1;
            FetchStep::Send { wait_ms, request }
        } else {
            self.outcome = Some(
                Err(
                    FetchError::UpstreamTransient {
                        page: self.page_number,
                        attempts: self.attempts,
                        cause,
                    },
                ),
            );
            FetchStep::Done
        }
    }

    /// The text of the address of the page after the one that `event`
    /// brings, where it brings one that the run goes on after.
    pub fn next_address_text(&self, event: &FetchEvent) -> (text: Option<String>)
        ensures
            option_view(text) == match FetchModel::page_of(event@) {
                Some(page) => self@.next_address_text(page),
                None => None,
            },
    {
        match event {
            FetchEvent::Response { status, decoded } => {
                if *status != STATUS_OK {
                    return None;
                }
                match decoded {
                    Some(page) => {
                        if !page.has_more || page.next_page.is_none() || self.page_number
                            >= MAX_PAGES {
                            None
                        } else {
                            Some(page_address_text(self.starting_at.as_str(), &page.next_page))
                        }
                    },
                    None => None,
                }
            },
            FetchEvent::TransportFailed => None,
        }
    }

    /// Takes what came of the last request and says what to do next, where
    /// `address` is the URL of the page after the one that `event` brings.
    pub fn react(&mut self, event: FetchEvent, address: Option<String>) -> (step: FetchStep)
        requires
            old(self).wf(),
        ensures
            final(self).wf(),
            final(self)@ == old(self)@.react(event@, option_view(address)).0,
            step@ == old(self)@.react(event@, option_view(address)).1,
    {
        if self.outcome.is_some() {
            return FetchStep::Done;
        }
        match event {
            FetchEvent::TransportFailed => self.retry(FailureCause::Transport),
            FetchEvent::Response { status, decoded } => {
                if status == STATUS_OK {
                    match decoded {
                        Some(page) => {
                            let last = !page.has_more || page.next_page.is_none();
                            proof {
                                lemma_views_push(self.pages@, page);
                            }
                            self.pages.push(page);
                            if last || self.page_number >= MAX_PAGES {
                                self.outcome = Some(Ok(()));
                                FetchStep::Done
                            } else {
                                match address {
                                    Some(u) => {
                                        let request = cost_request_for(
                                            self.admin_key.as_str(),
                                            u.as_str(),
                                        );
                                        self.page_number = self.page_number + 1;
                                        self.attempts = 1;
                                        self.url = u;
                                        FetchStep::Send { wait_ms: 0, request }
                                    },
                                    None => {
                                        self.outcome = Some(Err(FetchError::InvalidUrl));
                                        FetchStep::Done
                                    },
                                }
                            }
                        },
                        None => self.retry(FailureCause::ParseFailure),
                    }
                } else if status == STATUS_TOO_MANY_REQUESTS {
                    self.retry(FailureCause::RateLimited)
                } else if status == STATUS_UNAUTHORIZED {
                    self.outcome = Some(Err(FetchError::UpstreamUnauthorized));
                    FetchStep::Done
                } else if status == STATUS_FORBIDDEN {
                    self.outcome = Some(Err(FetchError::UpstreamForbidden));
                    FetchStep::Done
                } else {
                    self.retry(FailureCause::Status(status))
                }
            },
        }
    }

    /// Takes what came of the last request and says what to do next.
    pub fn on_event(&mut self, event: FetchEvent) -> (step: FetchStep)
        requires
            old(self).wf(),
        ensures
            final(self).wf(),
            final(self)@ == old(self)@.on_event(event@).0,
            step@ == old(self)@.on_event(event@).1,
    {
        let address = match self.next_address_text(&event) {
            Some(text) => address_of(text.as_str()),
            None => None,
        };
        self.react(event, address)
    }
}

} // verus!
