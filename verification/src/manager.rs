//! The manager: the pool of credentials, the ledger of costs, and the place
//! and time of the last refresh, as one state with the operations that
//! callers see.

use vstd::prelude::*;
use vstd::string::StringExecFns;
use crate::error::ManagerError;
use crate::fetch::{lookback_clock, start_boundary_with, CostFetch, FetchError, FetchStep};
use crate::ledger::{
    in_window, subtotals, total_in, total_of, window_of, CostLedger, CostRecord, DateWindow,
    LedgerModel, RecordModel,
};
use crate::pool::{result_view, KeyPool, KeyStatus, NodeAssignment, PoolModel};
use crate::report::{
    all_endings, ending_before, latest, report_records, resume_form, BucketModel, ReportModel,
};
use crate::seqs::views;
use crate::text::{begins_with, copy_option, has_prefix, hex_text, lower_hex, option_view};
use crate::trusted::{base64_encode, base64_standard, random_u128, rfc3339_timestamp};

verus! {

/// How long after a refresh the next one is held back, in seconds.
pub const COOLDOWN_SECONDS: i64 = 60;

/// That an operation was done, in words.
#[derive(Debug)]
pub struct SuccessResponse {
    pub success: bool,
    pub message: String,
}

/// Whether a credential for the billing endpoint is configured, and what
/// it looks like.
#[derive(Debug)]
pub struct AdminKeyStatusResponse {
    pub has_admin_key: bool,
    pub key_prefix: Option<String>,
}

/// The token of the interface, and whether a credential for the billing
/// endpoint is configured.
#[derive(Debug)]
pub struct AuthResponse {
    pub token: String,
    pub has_admin_key: bool,
}

/// Where a credential stands, who holds it and what it has cost.
#[derive(Debug)]
pub struct KeyStatusResponse {
    pub status: KeyStatus,
    pub assigned_nodes: Vec<String>,
    /// In micro-dollars.
    pub total_cost: i128,
}

/// An active credential, who holds it and what it has cost.
#[derive(Debug)]
pub struct ApiKeyInfo {
    pub key: String,
    pub status: KeyStatus,
    /// In micro-dollars.
    pub total_cost: i128,
    pub assigned_nodes: Vec<String>,
    pub created_at: i64,
}

/// The costs within a span of time, in all and by credential.
#[derive(Debug)]
pub struct TotalCostsResponse {
    /// In micro-dollars.
    pub total_cost: i128,
    /// For each credential with a share that is not zero, the share in
    /// micro-dollars.
    pub cost_by_key: Vec<(String, i128)>,
    pub currency: String,
}

/// The costs credited to one credential within a span of time.
#[derive(Debug)]
pub struct KeyCostsResponse {
    pub api_key: String,
    pub costs: Vec<CostRecord>,
    /// In micro-dollars.
    pub total: i128,
}

/// What came of a request to refresh the costs.
#[derive(Clone, Copy, Debug, PartialEq, Eq, Structural)]
pub struct CostsRefreshResponse {
    /// Whether the costs were refreshed; not so when the last refresh is too
    /// recent.
    pub success: bool,
    /// How many records the refresh added.
    pub records_added: usize,
    /// The seconds since the last refresh, where that held this one back.
    pub seconds_since_last: Option<i64>,
    /// The time of this refresh, or of the last one where it held this one
    /// back.
    pub timestamp: i64,
}

/// How a request to refresh the costs begins.
#[derive(Debug)]
pub enum RefreshStart {
    /// The last refresh is too recent: nothing is to be done.
    TooSoon(CostsRefreshResponse),
    /// A run was begun, and `step` is its first step.
    Begin { run: CostFetch, step: FetchStep },
}

/// Why a refresh did not complete.
#[derive(Clone, Copy, Debug, PartialEq, Eq, Structural)]
pub enum RefreshError {
    /// The run handed in is not over.
    Unfinished,
    /// The run failed with `error`; the pages that had come were kept, and
    /// added `records_added` records.
    Failed { error: FetchError, records_added: usize },
}

/// Whether `times` can be the times at which the results of the buckets
/// `data` were incurred: one for each bucket, and for a bucket whose start
/// writes a moment, that moment.
pub open spec fn times_fit(data: Seq<BucketModel>, times: Seq<int>) -> bool {
    &&& times.len() == data.len()
    &&& forall|i: int|
        0 <= i < data.len() ==> (rfc3339_timestamp(#[trigger] data[i].starting_at) matches Some(t)
            ==> times[i] == t)
}

/// Whether `times` can be the times of the buckets of each of `pages`.
pub open spec fn all_times_fit(pages: Seq<ReportModel>, times: Seq<Seq<int>>) -> bool {
    &&& times.len() == pages.len()
    &&& forall|p: int| 0 <= p < pages.len() ==> times_fit((#[trigger] pages[p]).data, times[p])
}

/// The records that `pages` add to the ledger, where `times[p][i]` is the
/// time of bucket `i` of page `p`.
pub open spec fn all_records(pages: Seq<ReportModel>, times: Seq<Seq<int>>) -> Seq<RecordModel>
    decreases pages.len(),
{
    if pages.len() == 0 || times.len() != pages.len() {
        Seq::empty()
    } else {
        all_records(pages.drop_last(), times.drop_last()) + report_records(
            pages.last().data,
            times.last(),
        )
    }
}

/// Where the next run resumes after a run that resumed from `resume_from`
/// brought `pages`: from the later, by moment, of `resume_from` and the
/// latest end of a span among `pages`, the end in the form in which it is
/// kept. The place stays where it was unless the run saw a later moment.
pub open spec fn next_resume(resume_from: Option<Seq<char>>, pages: Seq<ReportModel>) -> Option<
    Seq<char>,
> {
    match latest(None, all_endings(pages)) {
        Some(end) => match resume_from {
            Some(from) => if ending_before(from, end) {
                Some(resume_form(end))
            } else {
                Some(from)
            },
            None => Some(resume_form(end)),
        },
        None => resume_from,
    }
}

/// What an `AnthropicApiKeyManagerState` stands for.
pub struct ManagerModel {
    /// The credential for the billing endpoint.
    pub admin_api_key: Option<Seq<char>>,
    pub pool: PoolModel,
    pub ledger: LedgerModel,
    /// When the costs were last refreshed.
    pub last_cost_check: Option<int>,
    /// Where the next run resumes the report.
    pub last_cost_query_date: Option<Seq<char>>,
    pub ui_auth_token: Option<Seq<char>>,
}

impl ManagerModel {
    /// The state that holds nothing.
    pub open spec fn empty() -> ManagerModel {
        ManagerModel {
            admin_api_key: None,
            pool: PoolModel::empty(),
            ledger: LedgerModel::empty(),
            last_cost_check: None,
            last_cost_query_date: None,
            ui_auth_token: None,
        }
    }

    /// What holds of every state.
    pub open spec fn wf(self) -> bool {
        self.pool.wf() && self.ledger.wf()
    }

    /// Whether a refresh at `now` is held back: the last one is not in the
    /// future and less than the cooldown ago.
    pub open spec fn cooling_down(self, now: int) -> bool {
        self.last_cost_check matches Some(t) && t <= now && now - t < COOLDOWN_SECONDS
    }

    /// The time of the last refresh, unless it lies after `now`: such a time
    /// is not believed.
    pub open spec fn believed_check(self, now: int) -> Option<int> {
        match self.last_cost_check {
            Some(t) => if t > now {
                None
            } else {
                Some(t)
            },
            None => None,
        }
    }

    /// Where a run that begins at `now` starts to read the report.
    pub open spec fn start_boundary(self, now: int) -> Option<Seq<char>> {
        start_boundary_with(
            self.last_cost_query_date,
            if self.last_cost_query_date is Some {
                None
            } else {
                lookback_clock(now)
            },
        )
    }

    /// The state after `pages` were processed with the times `times`: their
    /// records are in the ledger, credited to the active credentials, and
    /// the next run resumes from the latest end of a span among them, unless
    /// the place that it would have resumed from is no earlier.
    pub open spec fn with_pages(
        self,
        pages: Seq<ReportModel>,
        times: Seq<Seq<int>>,
    ) -> ManagerModel {
        ManagerModel {
            ledger: self.ledger.record_all(all_records(pages, times), self.pool.active),
            last_cost_query_date: next_resume(self.last_cost_query_date, pages),
            ..self
        }
    }

    /// The state with the costs forgotten: no record, no place to resume
    /// from, no time of a last refresh.
    pub open spec fn reset(self) -> ManagerModel {
        ManagerModel {
            ledger: LedgerModel::empty(),
            last_cost_check: None,
            last_cost_query_date: None,
            ..self
        }
    }
}

/// The pool, the ledger and the bookkeeping of the refresh.
#[derive(Debug)]
pub struct AnthropicApiKeyManagerState {
    pub(crate) admin_api_key: Option<String>,
    pub(crate) pool: KeyPool,
    pub(crate) ledger: CostLedger,
    pub(crate) last_cost_check: Option<i64>,
    pub(crate) last_cost_query_date: Option<String>,
    pub(crate) ui_auth_token: Option<String>,
}

impl View for AnthropicApiKeyManagerState {
    type V = ManagerModel;

    open(crate) spec fn view(&self) -> ManagerModel {
        ManagerModel {
            admin_api_key: option_view(self.admin_api_key),
            pool: self.pool@,
            ledger: self.ledger@,
            last_cost_check: match self.last_cost_check {
                Some(t) => Some(t as int),
                None => None,
            },
            last_cost_query_date: option_view(self.last_cost_query_date),
            ui_auth_token: option_view(self.ui_auth_token),
        }
    }
}

impl Default for AnthropicApiKeyManagerState {
    fn default() -> (state: Self)
        ensures
            state.wf(),
            state@ == ManagerModel::empty(),
    {
        AnthropicApiKeyManagerState::new()
    }
}

/// The token made from the random number `n`: its digits in base sixteen,
/// in base64.
pub open spec fn token_of(n: nat) -> Seq<char> {
    base64_standard(hex_text(n))
}

/// Makes a token from the random number `n`.
pub fn auth_token_from(n: u128) -> (token: String)
    ensures
        token@ == token_of(n as nat),
{
    let digits = lower_hex(n);
    base64_encode(digits.as_str())
}

impl AnthropicApiKeyManagerState {
    /// What holds of every state that this module hands out.
    pub open spec fn wf(&self) -> bool {
        self@.wf()
    }

    /// A state that holds nothing.
    pub fn new() -> (state: Self)
        ensures
            state.wf(),
            state@ == ManagerModel::empty(),
    {
        AnthropicApiKeyManagerState {
            admin_api_key: None,
            pool: KeyPool::new(),
            ledger: CostLedger::new(),
            last_cost_check: None,
            last_cost_query_date: None,
            ui_auth_token: None,
        }
    }

    /// When the costs were last refreshed.
    pub fn last_cost_check(&self) -> (at: Option<i64>)
        ensures
            match at {
                Some(t) => self@.last_cost_check == Some(t as int),
                None => self@.last_cost_check is None,
            },
    {
        self.last_cost_check
    }

    /// Where the next run resumes the report.
    pub fn last_cost_query_date(&self) -> (date: Option<String>)
        ensures
            option_view(date) == self@.last_cost_query_date,
    {
        copy_option(&self.last_cost_query_date)
    }

    /// The token of the interface, if one was made.
    pub fn ui_auth_token(&self) -> (token: Option<String>)
        ensures
            option_view(token) == self@.ui_auth_token,
    {
        copy_option(&self.ui_auth_token)
    }

    /// Takes `fresh` as the token of the interface, unless there is one.
    pub fn adopt_auth_token(&mut self, fresh: String)
        ensures
            final(self)@ == (ManagerModel {
                ui_auth_token: match old(self)@.ui_auth_token {
                    Some(t) => Some(t),
                    None => Some(fresh@),
                },
                ..old(self)@
            }),
    {
        if self.ui_auth_token.is_none() {
            self.ui_auth_token = Some(fresh);
        }
    }

    /// Makes the token of the interface from a random number, unless there
    /// is one.
    pub fn initialize(&mut self)
        ensures
            final(self)@.ui_auth_token is Some,
            old(self)@.ui_auth_token is Some ==> final(self)@ == old(self)@,
            old(self)@.ui_auth_token is None ==> exists|n: nat|
                n <= u128::MAX && final(self)@ == (ManagerModel {
                    ui_auth_token: Some(#[trigger] token_of(n)),
                    ..old(self)@
                }),
    {
        if self.ui_auth_token.is_none() {
            let n = random_u128();
            let token = auth_token_from(n);
            self.adopt_auth_token(token);
            assert(self@.ui_auth_token == Some(token_of(n as nat)));
        }
    }

    /// Makes the token of the interface if there is none, and hands it out.
    pub fn initialize_auth(&mut self) -> (r: AuthResponse)
        ensures
            final(self)@.ui_auth_token == Some(r.token@),
            r.has_admin_key == (old(self)@.admin_api_key is Some),
            old(self)@.ui_auth_token is Some ==> final(self)@ == old(self)@,
            old(self)@.ui_auth_token is None ==> exists|n: nat|
                n <= u128::MAX && final(self)@ == (ManagerModel {
                    ui_auth_token: Some(#[trigger] token_of(n)),
                    ..old(self)@
                }),
    {
        self.initialize();
        let token = match &self.ui_auth_token {
            Some(t) => t.clone(),
            None => String::new(),
        };
        AuthResponse { token, has_admin_key: self.admin_api_key.is_some() }
    }

    /// Sets the credential for the billing endpoint.
    pub fn set_admin_key(&mut self, admin_key: &str) -> (r: SuccessResponse)
        ensures
            final(self)@ == (ManagerModel {
                admin_api_key: Some(admin_key@),
                ..old(self)@
            }),
            r.success,
            r.message@ == "Admin key set successfully"@,
    {
        self.admin_api_key = Some(String::from_str(admin_key));
        SuccessResponse { success: true, message: "Admin key set successfully".to_owned() }
    }

    /// Whether a credential for the billing endpoint is configured, and
    /// whether it looks like one: `sk-***` if it begins with `sk-`, else
    /// `invalid`.
    pub fn check_admin_key(&self) -> (r: AdminKeyStatusResponse)
        ensures
            r.has_admin_key == (self@.admin_api_key is Some),
            option_view(r.key_prefix) == match self@.admin_api_key {
                Some(k) => Some(
                    if begins_with(k, "sk-"@) {
                        "sk-***"@
                    } else {
                        "invalid"@
                    },
                ),
                None => None,
            },
    {
        let key_prefix = match &self.admin_api_key {
            Some(k) => Some(
                if has_prefix(k.as_str(), "sk-") {
                    "sk-***".to_owned()
                } else {
                    "invalid".to_owned()
                },
            ),
            None => None,
        };
        AdminKeyStatusResponse { has_admin_key: self.admin_api_key.is_some(), key_prefix }
    }

    /// The credential that `node_id` was given, if it was given one.
    pub fn find_key_for_node(&self, node_id: &str) -> (found: Option<String>)
        ensures
            option_view(found) == self@.pool.key_for(node_id@),
    {
        self.pool.find_key_for_node(node_id)
    }

    /// Answers a request of `node_id` for a credential, with `picked` as the
    /// credential drawn for a new caller and `now` as the time.
    pub fn request_api_key_with(&mut self, node_id: &str, picked: Option<String>, now: i64) -> (r:
        Result<String, ManagerError>)
        requires
            old(self).wf(),
        ensures
            final(self).wf(),
            final(self)@ == (ManagerModel {
                pool: old(self)@.pool.request(node_id@, option_view(picked), now as int).0,
                ..old(self)@
            }),
            result_view(r) == old(self)@.pool.request(node_id@, option_view(picked), now as int).1,
    {
        self.pool.request_with(node_id, picked, now)
    }

    /// Answers a request of `node_id` for a credential: the one it already
    /// has; else one of the active credentials drawn at random, which it
    /// keeps from now on; a refusal if none is active.
    pub fn request_api_key(&mut self, node_id: &str) -> (r: Result<String, ManagerError>)
        requires
            old(self).wf(),
        ensures
            final(self).wf(),
            exists|picked: Option<Seq<char>>, now: int|
                {
                    &&& old(self)@.pool.may_draw(picked)
                    &&& final(self)@ == (ManagerModel {
                        pool: (#[trigger] old(self)@.pool.request(node_id@, picked, now)).0,
                        ..old(self)@
                    })
                    &&& result_view(r) == old(self)@.pool.request(node_id@, picked, now).1
                },
    {
        self.pool.request(node_id)
    }

    /// Makes `api_key` an active credential, unless the pool knows it.
    pub fn add_api_key(&mut self, api_key: &str) -> (r: Result<SuccessResponse, ManagerError>)
        requires
            old(self).wf(),
        ensures
            final(self).wf(),
            final(self)@ == (ManagerModel {
                pool: old(self)@.pool.try_add(api_key@).0,
                ..old(self)@
            }),
            match r {
                Ok(done) => old(self)@.pool.try_add(api_key@).1 is Ok && done.success
                    && done.message@ == "API key added successfully"@,
                Err(e) => old(self)@.pool.try_add(api_key@).1 == Err::<(), ManagerError>(e),
            },
    {
        match self.pool.add(api_key) {
            Ok(()) => Ok(
                SuccessResponse {
                    success: true,
                    message: "API key added successfully".to_owned(),
                },
            ),
            Err(e) => Err(e),
        }
    }

    /// Retires the active credential `api_key`. Who holds it keeps it.
    pub fn remove_api_key(&mut self, api_key: &str) -> (r: Result<SuccessResponse, ManagerError>)
        requires
            old(self).wf(),
        ensures
            final(self).wf(),
            final(self)@ == (ManagerModel {
                pool: old(self)@.pool.try_remove(api_key@).0,
                ..old(self)@
            }),
            match r {
                Ok(done) => old(self)@.pool.try_remove(api_key@).1 is Ok && done.success
                    && done.message@ == "API key removed successfully"@,
                Err(e) => old(self)@.pool.try_remove(api_key@).1 == Err::<(), ManagerError>(e),
            },
    {
        match self.pool.remove(api_key) {
            Ok(()) => Ok(
                SuccessResponse {
                    success: true,
                    message: "API key removed successfully".to_owned(),
                },
            ),
            Err(e) => Err(e),
        }
    }

    /// Where `api_key` stands, who holds it, and the sum of all that was
    /// credited to it.
    pub fn get_key_status(&self, api_key: &str) -> (r: KeyStatusResponse)
        ensures
            r.status == self@.pool.status(api_key@),
            views(r.assigned_nodes@) == self@.pool.callers_of(api_key@),
            r.total_cost == total_of(self@.ledger.records_of(api_key@)),
    {
        KeyStatusResponse {
            status: self.pool.status(api_key),
            assigned_nodes: self.pool.callers_of(api_key),
            total_cost: self.ledger.key_total(api_key),
        }
    }

    /// Every active credential, oldest first, with who holds it and the sum
    /// of all that was credited to it.
    pub fn list_keys(&self) -> (keys: Vec<ApiKeyInfo>)
        ensures
            keys@.len() == self@.pool.active.len(),
            forall|i: int|
                0 <= i < keys@.len() ==> {
                    let info = #[trigger] keys@[i];
                    let key = self@.pool.active[i];
                    &&& info.key@ == key
                    &&& info.status == KeyStatus::Active
                    &&& info.total_cost == total_of(self@.ledger.records_of(key))
                    &&& views(info.assigned_nodes@) == self@.pool.callers_of(key)
                    &&& info.created_at == 0
                },
    {
        let active = self.pool.active_list();
        let mut keys: Vec<ApiKeyInfo> = Vec::new();
        let mut i: usize = 0;
        while i < active.len()
            invariant
                i <= active.len(),
                views(active@) == self@.pool.active,
                keys@.len() == i,
                forall|j: int|
                    0 <= j < i ==> {
                        let info = #[trigger] keys@[j];
                        let key = self@.pool.active[j];
                        &&& info.key@ == key
                        &&& info.status == KeyStatus::Active
                        &&& info.total_cost == total_of(self@.ledger.records_of(key))
                        &&& views(info.assigned_nodes@) == self@.pool.callers_of(key)
                        &&& info.created_at == 0
                    },
            decreases active.len() - i,
        {
            assert(views(active@)[i as int] == active@[i as int]@);
            let key = active[i].clone();
            let info = ApiKeyInfo {
                status: KeyStatus::Active,
                total_cost: self.ledger.key_total(key.as_str()),
                assigned_nodes: self.pool.callers_of(key.as_str()),
                key,
                created_at: 0,
            };
            keys.push(info);
            i += 1;
        }
        keys
    }

    /// Every assignment, in the order of the times of issue.
    pub fn get_node_history(&self) -> (all: Vec<NodeAssignment>)
        ensures
            views(all@) == self@.pool.assignments,
    {
        self.pool.history()
    }

    /// Every record of the ledger, in the order of arrival.
    pub fn get_all_costs(&self) -> (records: Vec<CostRecord>)
        ensures
            views(records@) == self@.ledger.all,
    {
        self.ledger.all_costs()
    }

    /// Whether `timestamp` lies between the moments that `start_date` and
    /// `end_date` write; a bound that is absent or writes no moment leaves
    /// its side open.
    pub fn filter_by_date(
        &self,
        timestamp: i64,
        start_date: &Option<String>,
        end_date: &Option<String>,
    ) -> (inside: bool)
        ensures
            inside == window_of(option_view(*start_date), option_view(*end_date)).admits(
                timestamp as int,
            ),
    {
        DateWindow::between(start_date, end_date).contains(timestamp)
    }

    /// The sum of the ledger within `window`, and the share of each
    /// credential whose share is not zero.
    pub fn get_total_costs_in(&self, window: &DateWindow) -> (r: TotalCostsResponse)
        ensures
            r.total_cost == total_in(self@.ledger.all, window@),
            r.cost_by_key@.len() == subtotals(self@.ledger.by_key, window@).len(),
            forall|i: int|
                0 <= i < r.cost_by_key@.len() ==> (#[trigger] r.cost_by_key@[i]).0@ == subtotals(
                    self@.ledger.by_key,
                    window@,
                )[i].0 && r.cost_by_key@[i].1 == subtotals(self@.ledger.by_key, window@)[i].1,
            r.currency@ == "USD"@,
    {
        TotalCostsResponse {
            total_cost: self.ledger.total(window),
            cost_by_key: self.ledger.subtotals(window),
            currency: "USD".to_owned(),
        }
    }

    /// The sum of the ledger between the moments that `start_date` and
    /// `end_date` write, and the share of each credential whose share is
    /// not zero.
    pub fn get_total_costs(&self, start_date: &Option<String>, end_date: &Option<String>) -> (r:
        TotalCostsResponse)
        ensures
            r.total_cost == total_in(
                self@.ledger.all,
                window_of(option_view(*start_date), option_view(*end_date)),
            ),
            r.cost_by_key@.len() == subtotals(
                self@.ledger.by_key,
                window_of(option_view(*start_date), option_view(*end_date)),
            ).len(),
            forall|i: int|
                0 <= i < r.cost_by_key@.len() ==> (#[trigger] r.cost_by_key@[i]).0@ == subtotals(
                    self@.ledger.by_key,
                    window_of(option_view(*start_date), option_view(*end_date)),
                )[i].0 && r.cost_by_key@[i].1 == subtotals(
                    self@.ledger.by_key,
                    window_of(option_view(*start_date), option_view(*end_date)),
                )[i].1,
            r.currency@ == "USD"@,
    {
        let window = DateWindow::between(start_date, end_date);
        self.get_total_costs_in(&window)
    }

    /// The records credited to `api_key` within `window`, and their sum.
    pub fn get_key_costs_in(&self, api_key: &str, window: &DateWindow) -> (r: KeyCostsResponse)
        ensures
            r.api_key@ == api_key@,
            views(r.costs@) == self@.ledger.records_of(api_key@).filter(in_window(window@)),
            r.total == total_in(self@.ledger.records_of(api_key@), window@),
    {
        let found = self.ledger.for_key(api_key, window);
        KeyCostsResponse { api_key: String::from_str(api_key), costs: found.0, total: found.1 }
    }

    /// The records credited to `api_key` between the moments that
    /// `start_date` and `end_date` write, and their sum.
    pub fn get_key_costs(
        &self,
        api_key: &str,
        start_date: &Option<String>,
        end_date: &Option<String>,
    ) -> (r: KeyCostsResponse)
        ensures
            r.api_key@ == api_key@,
            views(r.costs@) == self@.ledger.records_of(api_key@).filter(
                in_window(window_of(option_view(*start_date), option_view(*end_date))),
            ),
            r.total == total_in(
                self@.ledger.records_of(api_key@),
                window_of(option_view(*start_date), option_view(*end_date)),
            ),
    {
        let window = DateWindow::between(start_date, end_date);
        self.get_key_costs_in(api_key, &window)
    }

    /// Forgets the costs: the ledger, the place to resume from and the time
    /// of the last refresh, all or none. Refused without a credential for
    /// the billing endpoint.
    pub fn reset_costs(&mut self) -> (r: Result<SuccessResponse, ManagerError>)
        requires
            old(self).wf(),
        ensures
            final(self).wf(),
            match r {
                Ok(done) => {
                    &&& old(self)@.admin_api_key is Some
                    &&& final(self)@ == old(self)@.reset()
                    &&& done.success
                    &&& done.message@
                        == "Cost data reset successfully. All historical data cleared."@
                },
                Err(e) => old(self)@.admin_api_key is None && final(self)@ == old(self)@ && e
                    == ManagerError::AdminKeyMissing,
            },
    {
        if self.admin_api_key.is_none() {
            return Err(ManagerError::AdminKeyMissing);
        }
        self.ledger.reset();
        self.last_cost_query_date = None;
        self.last_cost_check = None;
        Ok(
            SuccessResponse {
                success: true,
                message: "Cost data reset successfully. All historical data cleared.".to_owned(),
            },
        )
    }
}

} // verus!
