//! The state of the manager as plain values, to keep it between runs of the
//! process, and the way back: what was kept is taken up again only if it is
//! a state that the manager could have reached.

use vstd::prelude::*;
use crate::ledger::{share_models, CostLedger, CostRecord, LedgerModel};
use crate::manager::{AnthropicApiKeyManagerState, ManagerModel};
use crate::pool::{KeyPool, NodeAssignment, PoolModel};
use crate::seqs::views;
use crate::text::{copy_option, option_view};

verus! {

/// All that the manager holds, as plain values.
#[derive(Debug)]
pub struct StoredState {
    pub admin_api_key: Option<String>,
    /// The active credentials, oldest first.
    pub active_keys: Vec<String>,
    /// The retired credentials, in the order of their retirement.
    pub historical_keys: Vec<String>,
    /// The assignments, in the order of their times of issue.
    pub assignments: Vec<NodeAssignment>,
    /// For each credential that was ever credited, its records.
    pub key_costs: Vec<(String, Vec<CostRecord>)>,
    /// Every record, in the order of arrival.
    pub all_costs: Vec<CostRecord>,
    pub last_cost_check: Option<i64>,
    pub last_cost_query_date: Option<String>,
    pub ui_auth_token: Option<String>,
}

impl View for StoredState {
    type V = ManagerModel;

    open spec fn view(&self) -> ManagerModel {
        ManagerModel {
            admin_api_key: option_view(self.admin_api_key),
            pool: PoolModel {
                active: views(self.active_keys@),
                historical: views(self.historical_keys@),
                assignments: views(self.assignments@),
            },
            ledger: LedgerModel {
                all: views(self.all_costs@),
                by_key: share_models(self.key_costs@),
            },
            last_cost_check: match self.last_cost_check {
                Some(t) => Some(t as int),
                None => None,
            },
            last_cost_query_date: option_view(self.last_cost_query_date),
            ui_auth_token: option_view(self.ui_auth_token),
        }
    }
}

impl AnthropicApiKeyManagerState {
    /// All that the manager holds, as plain values.
    pub fn snapshot(&self) -> (stored: StoredState)
        ensures
            stored@ == self@,
    {
        StoredState {
            admin_api_key: copy_option(&self.admin_api_key),
            active_keys: self.pool.active_keys(),
            historical_keys: self.pool.retired_keys(),
            assignments: self.pool.history(),
            key_costs: self.ledger.shares(),
            all_costs: self.ledger.all_costs(),
            last_cost_check: self.last_cost_check,
            last_cost_query_date: copy_option(&self.last_cost_query_date),
            ui_auth_token: copy_option(&self.ui_auth_token),
        }
    }

    /// The manager that holds what `stored` holds, if that is a state of the
    /// manager: a pool in which no credential is listed twice or on both
    /// sides, no caller has two assignments, every assigned credential is
    /// listed and the assignments are in the order of issue, and a ledger in
    /// which no credential has two shares.
    pub fn restore(stored: StoredState) -> (r: Option<Self>)
        ensures
            match r {
                Some(state) => state.wf() && state@ == stored@,
                None => !stored@.wf(),
            },
    {
        let pool = match KeyPool::from_parts(
            stored.active_keys,
            stored.historical_keys,
            stored.assignments,
        ) {
            Some(pool) => pool,
            None => {
                return None;
            },
        };
        let ledger = match CostLedger::from_parts(stored.all_costs, stored.key_costs) {
            Some(ledger) => ledger,
            None => {
                return None;
            },
        };
        Some(
            AnthropicApiKeyManagerState {
                admin_api_key: stored.admin_api_key,
                pool,
                ledger,
                last_cost_check: stored.last_cost_check,
                last_cost_query_date: stored.last_cost_query_date,
                ui_auth_token: stored.ui_auth_token,
            },
        )
    }
}

} // verus!
