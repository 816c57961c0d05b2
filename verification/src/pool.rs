//! The pool of credentials and the table that says which caller was given
//! which credential.
//!
//! A credential is active or retired, never both, and a retired one does not
//! come back. A caller keeps the credential that it was first given, also
//! after that credential is retired. The table is kept in the order of the
//! times of issue.

use vstd::prelude::*;
use vstd::string::StringExecFns;
use crate::error::ManagerError;
use crate::seqs::{
    first_index, lemma_first_index, lemma_first_index_is, lemma_insert_no_duplicates,
    lemma_push_contains, lemma_push_no_duplicates, lemma_remove_contains, lemma_views_push, views,
};
use crate::text::{all_distinct, option_view};
use crate::trusted::{choose_one, unix_now};

verus! {

/// One caller's credential, and when it was issued.
#[derive(Debug)]
pub struct NodeAssignment {
    pub node_id: String,
    pub api_key: String,
    pub issued_at: i64,
}

/// What a `NodeAssignment` stands for.
pub struct AssignmentModel {
    pub node_id: Seq<char>,
    pub api_key: Seq<char>,
    pub issued_at: int,
}

impl View for NodeAssignment {
    type V = AssignmentModel;

    open spec fn view(&self) -> AssignmentModel {
        AssignmentModel {
            node_id: self.node_id@,
            api_key: self.api_key@,
            issued_at: self.issued_at as int,
        }
    }
}

impl Clone for NodeAssignment {
    fn clone(&self) -> (c: Self)
        ensures
            c == *self,
    {
        NodeAssignment {
            node_id: self.node_id.clone(),
            api_key: self.api_key.clone(),
            issued_at: self.issued_at,
        }
    }
}

/// Where a credential stands in its life.
#[derive(Clone, Copy, Debug, PartialEq, Eq, Structural)]
pub enum KeyStatus {
    /// Usable, and handed out to new callers.
    Active,
    /// Retired.
    Inactive,
    /// Never seen by the pool.
    Unknown,
}

impl KeyStatus {
    /// The word for this status.
    pub fn label(&self) -> (word: String)
        ensures
            word@ == match *self {
                KeyStatus::Active => "active"@,
                KeyStatus::Inactive => "inactive"@,
                KeyStatus::Unknown => "unknown"@,
            },
    {
        match self {
            KeyStatus::Active => "active".to_owned(),
            KeyStatus::Inactive => "inactive".to_owned(),
            KeyStatus::Unknown => "unknown".to_owned(),
        }
    }
}

/// The callers of the assignments `a`, in order.
pub open spec fn callers(a: Seq<AssignmentModel>) -> Seq<Seq<char>> {
    Seq::new(a.len(), |i: int| a[i].node_id)
}

/// Whether the times of issue in `a` never go down.
pub open spec fn times_ascend(a: Seq<AssignmentModel>) -> bool {
    forall|i: int, j: int| 0 <= i <= j < a.len() ==> a[i].issued_at <= a[j].issued_at
}

/// The place of the first assignment in `a` issued after `now`, or the length
/// of `a` if there is none: where an assignment issued at `now` goes.
pub open spec fn slot_for(a: Seq<AssignmentModel>, now: int) -> int
    decreases a.len(),
{
    if a.len() == 0 || a[0].issued_at > now {
        0
    } else {
        1 + slot_for(a.drop_first(), now)
    }
}

/// The callers that hold `key` according to `a`, in the order of `a`.
pub open spec fn holders(a: Seq<AssignmentModel>, key: Seq<char>) -> Seq<Seq<char>>
    decreases a.len(),
{
    if a.len() == 0 {
        Seq::empty()
    } else if a.last().api_key == key {
        holders(a.drop_last(), key).push(a.last().node_id)
    } else {
        holders(a.drop_last(), key)
    }
}

/// What a `KeyPool` stands for.
pub struct PoolModel {
    /// The active credentials, oldest first.
    pub active: Seq<Seq<char>>,
    /// The retired credentials, in the order of their retirement.
    pub historical: Seq<Seq<char>>,
    /// The assignments, in the order of their times of issue.
    pub assignments: Seq<AssignmentModel>,
}

impl PoolModel {
    /// The pool that holds nothing.
    pub open spec fn empty() -> PoolModel {
        PoolModel { active: Seq::empty(), historical: Seq::empty(), assignments: Seq::empty() }
    }

    /// Whether `key` is active.
    pub open spec fn is_active(self, key: Seq<char>) -> bool {
        self.active.contains(key)
    }

    /// Whether `key` is retired.
    pub open spec fn is_retired(self, key: Seq<char>) -> bool {
        self.historical.contains(key)
    }

    /// Whether the pool has ever seen `key`.
    pub open spec fn knows(self, key: Seq<char>) -> bool {
        self.is_active(key) || self.is_retired(key)
    }

    /// What holds of every pool: no credential is listed twice or is both
    /// active and retired, no caller has two assignments, every assigned
    /// credential is known, and the assignments are in the order of issue.
    pub open spec fn wf(self) -> bool {
        &&& self.active.no_duplicates()
        &&& self.historical.no_duplicates()
        &&& forall|k: Seq<char>| !(self.is_active(k) && self.is_retired(k))
        &&& callers(self.assignments).no_duplicates()
        &&& times_ascend(self.assignments)
        &&& forall|i: int|
            0 <= i < self.assignments.len() ==> self.knows(
                (#[trigger] self.assignments[i]).api_key,
            )
    }

    /// Where `key` stands in its life.
    pub open spec fn status(self, key: Seq<char>) -> KeyStatus {
        if self.is_active(key) {
            KeyStatus::Active
        } else if self.is_retired(key) {
            KeyStatus::Inactive
        } else {
            KeyStatus::Unknown
        }
    }

    /// The credential that `node` was given, if it was given one.
    pub open spec fn key_for(self, node: Seq<char>) -> Option<Seq<char>> {
        let i = first_index(callers(self.assignments), node);
        if i < self.assignments.len() {
            Some(self.assignments[i].api_key)
        } else {
            None
        }
    }

    /// The callers that were given `key`.
    pub open spec fn callers_of(self, key: Seq<char>) -> Seq<Seq<char>> {
        holders(self.assignments, key)
    }

    /// The pool with `key` added to the active credentials.
    pub open spec fn add(self, key: Seq<char>) -> PoolModel {
        PoolModel { active: self.active.push(key), ..self }
    }

    /// The pool with the active credential `key` retired.
    pub open spec fn retire(self, key: Seq<char>) -> PoolModel {
        PoolModel {
            active: self.active.remove(first_index(self.active, key)),
            historical: self.historical.push(key),
            ..self
        }
    }

    /// What adding `key` gives, and the pool after it: a refusal if the pool
    /// knows `key`, as active or as retired; else `key` is active.
    pub open spec fn try_add(self, key: Seq<char>) -> (PoolModel, Result<(), ManagerError>) {
        if self.knows(key) {
            (self, Err(ManagerError::AlreadyExists))
        } else {
            (self.add(key), Ok(()))
        }
    }

    /// What removing `key` gives, and the pool after it: a refusal if `key`
    /// is not active; else `key` is retired.
    pub open spec fn try_remove(self, key: Seq<char>) -> (PoolModel, Result<(), ManagerError>) {
        if self.is_active(key) {
            (self.retire(key), Ok(()))
        } else {
            (self, Err(ManagerError::NotFound))
        }
    }

    /// The pool with `node` given `key` at the time `now`.
    pub open spec fn assign(self, node: Seq<char>, key: Seq<char>, now: int) -> PoolModel {
        PoolModel {
            assignments: self.assignments.insert(
                slot_for(self.assignments, now),
                AssignmentModel { node_id: node, api_key: key, issued_at: now },
            ),
            ..self
        }
    }

    /// Whether `picked` can come out of a draw from the active credentials:
    /// one of them, or nothing where there is none.
    pub open spec fn may_draw(self, picked: Option<Seq<char>>) -> bool {
        match picked {
            Some(k) => self.is_active(k),
            None => self.active.len() == 0,
        }
    }

    /// What a request of `node` for a credential gives, and the pool after
    /// it, where `picked` is the credential drawn for a new caller and `now`
    /// the time: the credential that `node` already has; else a refusal if
    /// nothing is active or the pick is not; else the pick, now recorded.
    pub open spec fn request(self, node: Seq<char>, picked: Option<Seq<char>>, now: int) -> (
        PoolModel,
        Result<Seq<char>, ManagerError>,
    ) {
        match self.key_for(node) {
            Some(k) => (self, Ok(k)),
            None => if self.active.len() == 0 {
                (self, Err(ManagerError::NoKeysAvailable))
            } else {
                match picked {
                    Some(k) => if self.is_active(k) {
                        (self.assign(node, k, now), Ok(k))
                    } else {
                        (self, Err(ManagerError::SelectionFailed))
                    },
                    None => (self, Err(ManagerError::SelectionFailed)),
                }
            },
        }
    }
}

/// `slot_for` is in range, everything before it was issued by `now`, and
/// in a list ordered by time everything from it on was issued later.
pub proof fn lemma_slot_for(a: Seq<AssignmentModel>, now: int)
    ensures
        0 <= slot_for(a, now) <= a.len(),
        forall|k: int| 0 <= k < slot_for(a, now) ==> a[k].issued_at <= now,
        times_ascend(a) ==> forall|k: int| slot_for(a, now) <= k < a.len() ==> a[k].issued_at > now,
    decreases a.len(),
{
    if !(a.len() == 0 || a[0].issued_at > now) {
        let t = a.drop_first();
        lemma_slot_for(t, now);
        assert forall|k: int| 0 <= k < slot_for(a, now) implies a[k].issued_at <= now by {
            if k > 0 {
                assert(a[k] == t[k - 1]);
            }
        }
        if times_ascend(a) {
            assert forall|i: int, j: int| 0 <= i <= j < t.len() implies t[i].issued_at
                <= t[j].issued_at by {
                assert(t[i] == a[i + 1] && t[j] == a[j + 1]);
            }
            assert forall|k: int| slot_for(a, now) <= k < a.len() implies a[k].issued_at
                > now by {
                assert(a[k] == t[k - 1]);
            }
        }
    }
}

/// The place that a forward search for the slot stops at is `slot_for`.
pub proof fn lemma_slot_for_is(a: Seq<AssignmentModel>, now: int, j: int)
    requires
        0 <= j <= a.len(),
        forall|k: int| 0 <= k < j ==> a[k].issued_at <= now,
        j == a.len() || a[j].issued_at > now,
    ensures
        slot_for(a, now) == j,
    decreases a.len(),
{
    if j > 0 {
        let t = a.drop_first();
        assert forall|k: int| 0 <= k < j - 1 implies t[k].issued_at <= now by {
            assert(t[k] == a[k + 1]);
        }
        assert(a[0].issued_at <= now);
        lemma_slot_for_is(t, now, j - 1);
    }
}

/// A well-formed pool stays well formed when a credential that it does not
/// know is added.
pub proof fn lemma_add_keeps_wf(p: PoolModel, key: Seq<char>)
    requires
        p.wf(),
        !p.knows(key),
    ensures
        p.add(key).wf(),
        forall|x: Seq<char>| p.add(key).is_active(x) <==> p.is_active(x) || x == key,
        forall|x: Seq<char>| p.add(key).is_retired(x) <==> p.is_retired(x),
{
    let q = p.add(key);
    lemma_push_no_duplicates(p.active, key);
    assert forall|x: Seq<char>| q.is_active(x) <==> p.is_active(x) || x == key by {
        lemma_push_contains(p.active, key, x);
    }
    assert forall|x: Seq<char>| !(q.is_active(x) && q.is_retired(x)) by {
        assert(!(p.is_active(x) && p.is_retired(x)));
    }
    assert forall|i: int| 0 <= i < q.assignments.len() implies q.knows(
        (#[trigger] q.assignments[i]).api_key,
    ) by {
        assert(p.knows(p.assignments[i].api_key));
    }
}

/// A well-formed pool stays well formed when an active credential is
/// retired, and the credential is then retired and no longer active.
pub proof fn lemma_retire_keeps_wf(p: PoolModel, key: Seq<char>)
    requires
        p.wf(),
        p.is_active(key),
    ensures
        p.retire(key).wf(),
        forall|x: Seq<char>| p.retire(key).is_active(x) <==> p.is_active(x) && x != key,
        forall|x: Seq<char>| p.retire(key).is_retired(x) <==> p.is_retired(x) || x == key,
{
    let q = p.retire(key);
    let i = first_index(p.active, key);
    lemma_first_index(p.active, key);
    assert(!(p.is_active(key) && p.is_retired(key)));
    lemma_push_no_duplicates(p.historical, key);
    lemma_remove_contains(p.active, i, key);
    assert forall|x: Seq<char>| q.is_active(x) <==> p.is_active(x) && x != key by {
        lemma_remove_contains(p.active, i, x);
    }
    assert forall|x: Seq<char>| q.is_retired(x) <==> p.is_retired(x) || x == key by {
        lemma_push_contains(p.historical, key, x);
    }
    assert forall|x: Seq<char>| !(q.is_active(x) && q.is_retired(x)) by {
        assert(!(p.is_active(x) && p.is_retired(x)));
    }
    assert forall|j: int| 0 <= j < q.assignments.len() implies q.knows(
        (#[trigger] q.assignments[j]).api_key,
    ) by {
        assert(p.knows(p.assignments[j].api_key));
    }
}

/// A well-formed pool stays well formed when a caller without a credential
/// is given an active one.
pub proof fn lemma_assign_keeps_wf(p: PoolModel, node: Seq<char>, key: Seq<char>, now: int)
    requires
        p.wf(),
        p.key_for(node) is None,
        p.is_active(key),
    ensures
        p.assign(node, key, now).wf(),
        callers(p.assign(node, key, now).assignments) == callers(p.assignments).insert(
            slot_for(p.assignments, now),
            node,
        ),
{
    let a = p.assignments;
    let s = slot_for(a, now);
    let e = AssignmentModel { node_id: node, api_key: key, issued_at: now };
    lemma_slot_for(a, now);
    let b = a.insert(s, e);
    lemma_first_index(callers(a), node);
    assert(callers(b) =~= callers(a).insert(s, node));
    lemma_insert_no_duplicates(callers(a), s, node);
    assert forall|i: int, j: int| 0 <= i <= j < b.len() implies b[i].issued_at
        <= b[j].issued_at by {
        let i2 = if i < s { i } else { i - 1 };
        let j2 = if j < s { j } else { j - 1 };
        if i != s {
            assert(b[i] == a[i2]);
        }
        if j != s {
            assert(b[j] == a[j2]);
        }
    }
    let q = p.assign(node, key, now);
    assert(times_ascend(b));
    assert(callers(b).no_duplicates());
    assert forall|i: int| 0 <= i < b.len() implies q.knows((#[trigger] b[i]).api_key) by {
        let i2 = if i < s { i } else { i - 1 };
        if i != s {
            assert(b[i] == a[i2]);
            assert(p.knows(a[i2].api_key));
        }
    }
    assert forall|k: Seq<char>| !(q.is_active(k) && q.is_retired(k)) by {
        assert(!(p.is_active(k) && p.is_retired(k)));
    }
}

/// The credentials in use and retired, and who was given which.
#[derive(Debug)]
pub struct KeyPool {
    active: Vec<String>,
    historical: Vec<String>,
    assignments: Vec<NodeAssignment>,
}

impl View for KeyPool {
    type V = PoolModel;

    closed spec fn view(&self) -> PoolModel {
        PoolModel {
            active: views(self.active@),
            historical: views(self.historical@),
            assignments: views(self.assignments@),
        }
    }
}

/// The place of `key` in `list`, or the length of `list` if it is not there.
fn position_in(list: &Vec<String>, key: &String) -> (i: usize)
    ensures
        i == first_index(views(list@), key@),
        i <= list.len(),
        i < list.len() <==> views(list@).contains(key@),
{
    let mut i: usize = 0;
    proof {
        lemma_first_index(views(list@), key@);
    }
    while i < list.len()
        invariant
            i <= list.len(),
            forall|k: int| 0 <= k < i ==> views(list@)[k] != key@,
        decreases list.len() - i,
    {
        if list[i] == *key {
            proof {
                lemma_first_index(views(list@), key@);
                lemma_first_index_is(views(list@), key@, i as int);
            }
            return i;
        }
        i += 1;
    }
    proof {
        lemma_first_index_is(views(list@), key@, i as int);
    }
    i
}

/// A copy of `list`.
fn copy_texts(list: &Vec<String>) -> (out: Vec<String>)
    ensures
        views(out@) == views(list@),
{
    let mut out: Vec<String> = Vec::new();
    let mut i: usize = 0;
    while i < list.len()
        invariant
            i <= list.len(),
            views(out@) == views(list@).take(i as int),
        decreases list.len() - i,
    {
        proof {
            lemma_views_push(out@, list@[i as int]);
        }
        out.push(list[i].clone());
        assert(views(out@) =~= views(list@).take(i + 1));
        i += 1;
    }
    assert(views(list@).take(list.len() as int) =~= views(list@));
    out
}

/// Whether no text of `a` occurs in `b`.
fn none_shared(a: &Vec<String>, b: &Vec<String>) -> (r: bool)
    ensures
        r == (forall|k: Seq<char>| !(views(a@).contains(k) && views(b@).contains(k))),
{
    let mut i: usize = 0;
    while i < a.len()
        invariant
            i <= a.len(),
            forall|j: int| 0 <= j < i ==> !views(b@).contains(views(a@)[j]),
        decreases a.len() - i,
    {
        if position_in(b, &a[i]) < b.len() {
            assert(views(a@).contains(views(a@)[i as int]));
            return false;
        }
        i += 1;
    }
    true
}

/// Whether the times of issue in `list` never go down.
fn times_in_order(list: &Vec<NodeAssignment>) -> (r: bool)
    ensures
        r == times_ascend(views(list@)),
{
    let ghost all = views(list@);
    let mut i: usize = 1;
    while i < list.len()
        invariant
            1 <= i,
            all == views(list@),
            forall|a: int, b: int|
                0 <= a <= b < i && b < all.len() ==> all[a].issued_at <= all[b].issued_at,
        decreases list.len() - i,
    {
        if list[i - 1].issued_at > list[i].issued_at {
            assert(all[i - 1].issued_at > all[i as int].issued_at);
            return false;
        }
        assert forall|a: int, b: int| 0 <= a <= b < i + 1 && b < all.len() implies all[a].issued_at
            <= all[b].issued_at by {
            if b == i && a < i {
                assert(all[a].issued_at <= all[i - 1].issued_at);
            }
        }
        i += 1;
    }
    true
}

/// The callers of `list`, in order.
fn callers_in(list: &Vec<NodeAssignment>) -> (names: Vec<String>)
    ensures
        views(names@) == callers(views(list@)),
{
    let mut names: Vec<String> = Vec::new();
    let mut i: usize = 0;
    while i < list.len()
        invariant
            i <= list.len(),
            views(names@) == callers(views(list@)).take(i as int),
        decreases list.len() - i,
    {
        proof {
            lemma_views_push(names@, list@[i as int].node_id);
        }
        names.push(list[i].node_id.clone());
        assert(views(names@) =~= callers(views(list@)).take(i + 1));
        i += 1;
    }
    assert(callers(views(list@)).take(i as int) =~= callers(views(list@)));
    names
}

impl KeyPool {
    /// What holds of every pool that this module hands out.
    pub open spec fn wf(&self) -> bool {
        self@.wf()
    }

    /// A pool with no credential and no assignment.
    pub fn new() -> (pool: KeyPool)
        ensures
            pool.wf(),
            pool@ == PoolModel::empty(),
    {
        let pool = KeyPool { active: Vec::new(), historical: Vec::new(), assignments: Vec::new() };
        assert(pool@.active =~= Seq::empty());
        assert(pool@.historical =~= Seq::empty());
        assert(pool@.assignments =~= Seq::empty());
        assert(callers(pool@.assignments) =~= Seq::empty());
        pool
    }

    /// The pool that holds these credentials and assignments, if they make
    /// a pool: if no credential is listed twice or on both sides, no caller
    /// has two assignments, every assigned credential is listed, and the
    /// assignments are in the order of issue.
    pub fn from_parts(
        active: Vec<String>,
        historical: Vec<String>,
        assignments: Vec<NodeAssignment>,
    ) -> (r: Option<KeyPool>)
        ensures
            match r {
                Some(pool) => pool.wf() && pool@ == (PoolModel {
                    active: views(active@),
                    historical: views(historical@),
                    assignments: views(assignments@),
                }),
                None => !(PoolModel {
                    active: views(active@),
                    historical: views(historical@),
                    assignments: views(assignments@),
                }).wf(),
            },
    {
        let ghost model = PoolModel {
            active: views(active@),
            historical: views(historical@),
            assignments: views(assignments@),
        };
        if !all_distinct(&active) || !all_distinct(&historical) {
            return None;
        }
        if !none_shared(&active, &historical) {
            proof {
                let k = choose|k: Seq<char>|
                    views(active@).contains(k) && views(historical@).contains(k);
                assert(model.is_active(k) && model.is_retired(k));
            }
            return None;
        }
        let names = callers_in(&assignments);
        if !all_distinct(&names) || !times_in_order(&assignments) {
            return None;
        }
        let mut i: usize = 0;
        while i < assignments.len()
            invariant
                i <= assignments.len(),
                model == (PoolModel {
                    active: views(active@),
                    historical: views(historical@),
                    assignments: views(assignments@),
                }),
                forall|j: int|
                    0 <= j < i ==> model.knows((#[trigger] model.assignments[j]).api_key),
            decreases assignments.len() - i,
        {
            let key = &assignments[i].api_key;
            if position_in(&active, key) >= active.len() && position_in(&historical, key)
                >= historical.len() {
                assert(!model.knows(model.assignments[i as int].api_key));
                return None;
            }
            i += 1;
        }
        Some(KeyPool { active, historical, assignments })
    }

    /// Where `key` stands in its life.
    pub fn status(&self, key: &str) -> (status: KeyStatus)
        ensures
            status == self@.status(key@),
    {
        let k = String::from_str(key);
        if position_in(&self.active, &k) < self.active.len() {
            KeyStatus::Active
        } else if position_in(&self.historical, &k) < self.historical.len() {
            KeyStatus::Inactive
        } else {
            KeyStatus::Unknown
        }
    }

    /// Whether no credential is active.
    pub fn has_no_active(&self) -> (none: bool)
        ensures
            none == (self@.active.len() == 0),
    {
        self.active.len() == 0
    }

    /// The active credentials, oldest first, as the pool holds them.
    pub(crate) fn active_list(&self) -> (keys: &Vec<String>)
        ensures
            views(keys@) == self@.active,
    {
        &self.active
    }

    /// The active credentials, oldest first.
    pub fn active_keys(&self) -> (keys: Vec<String>)
        ensures
            views(keys@) == self@.active,
    {
        copy_texts(&self.active)
    }

    /// The retired credentials, in the order of their retirement.
    pub fn retired_keys(&self) -> (keys: Vec<String>)
        ensures
            views(keys@) == self@.historical,
    {
        copy_texts(&self.historical)
    }

    /// Makes `key` an active credential, unless the pool already knows it.
    pub fn add(&mut self, key: &str) -> (r: Result<(), ManagerError>)
        requires
            old(self).wf(),
        ensures
            final(self).wf(),
            final(self)@ == old(self)@.try_add(key@).0,
            r == old(self)@.try_add(key@).1,
    {
        let k = String::from_str(key);
        if position_in(&self.active, &k) < self.active.len() || position_in(&self.historical, &k)
            < self.historical.len() {
            return Err(ManagerError::AlreadyExists);
        }
        let ghost before = self@;
        self.active.push(k);
        proof {
            assert(self@.active =~= before.active.push(key@));
            lemma_add_keeps_wf(before, key@);
        }
        Ok(())
    }

    /// Retires the active credential `key`. The assignments stay as they are.
    pub fn remove(&mut self, key: &str) -> (r: Result<(), ManagerError>)
        requires
            old(self).wf(),
        ensures
            final(self).wf(),
            final(self)@ == old(self)@.try_remove(key@).0,
            r == old(self)@.try_remove(key@).1,
    {
        let k = String::from_str(key);
        let i = position_in(&self.active, &k);
        if i >= self.active.len() {
            return Err(ManagerError::NotFound);
        }
        let ghost before = self@;
        let gone = self.active.remove(i);
        self.historical.push(gone);
        proof {
            lemma_first_index(before.active, key@);
            assert(gone@ == key@);
            assert(self@.active =~= before.active.remove(i as int));
            assert(self@.historical =~= before.historical.push(key@));
            lemma_retire_keeps_wf(before, key@);
        }
        Ok(())
    }

    /// The credential that `node_id` was given, if it was given one.
    pub fn find_key_for_node(&self, node_id: &str) -> (found: Option<String>)
        ensures
            match found {
                Some(k) => self@.key_for(node_id@) == Some(k@),
                None => self@.key_for(node_id@) is None,
            },
    {
        let n = String::from_str(node_id);
        let ghost names = callers(self@.assignments);
        let mut i: usize = 0;
        while i < self.assignments.len()
            invariant
                i <= self.assignments.len(),
                names == callers(self@.assignments),
                n@ == node_id@,
                forall|k: int| 0 <= k < i ==> names[k] != node_id@,
            decreases self.assignments.len() - i,
        {
            if self.assignments[i].node_id == n {
                proof {
                    assert(names[i as int] == node_id@);
                    lemma_first_index_is(names, node_id@, i as int);
                }
                return Some(self.assignments[i].api_key.clone());
            }
            assert(names[i as int] != node_id@);
            i += 1;
        }
        proof {
            lemma_first_index_is(names, node_id@, i as int);
        }
        None
    }

    /// The callers that were given `key`, in the order of issue.
    pub fn callers_of(&self, key: &str) -> (nodes: Vec<String>)
        ensures
            views(nodes@) == self@.callers_of(key@),
    {
        let k = String::from_str(key);
        let mut nodes: Vec<String> = Vec::new();
        let mut i: usize = 0;
        assert(self@.assignments.take(0) =~= Seq::empty());
        assert(views(nodes@) =~= Seq::empty());
        while i < self.assignments.len()
            invariant
                i <= self.assignments.len(),
                k@ == key@,
                views(nodes@) == holders(self@.assignments.take(i as int), key@),
            decreases self.assignments.len() - i,
        {
            let ghost upto = self@.assignments.take(i + 1);
            assert(upto.drop_last() =~= self@.assignments.take(i as int));
            assert(upto.last() == self.assignments@[i as int]@);
            if self.assignments[i].api_key == k {
                let ghost had = views(nodes@);
                nodes.push(self.assignments[i].node_id.clone());
                assert(views(nodes@) =~= had.push(self.assignments@[i as int].node_id@));
            }
            i += 1;
        }
        assert(self@.assignments.take(i as int) =~= self@.assignments);
        nodes
    }

    /// Every assignment, in the order of issue.
    pub fn history(&self) -> (all: Vec<NodeAssignment>)
        ensures
            views(all@) == self@.assignments,
    {
        let mut all: Vec<NodeAssignment> = Vec::new();
        let mut i: usize = 0;
        while i < self.assignments.len()
            invariant
                i <= self.assignments.len(),
                views(all@) == self@.assignments.take(i as int),
            decreases self.assignments.len() - i,
        {
            proof {
                lemma_views_push(all@, self.assignments@[i as int]);
            }
            all.push(self.assignments[i].clone());
            assert(views(all@) =~= self@.assignments.take(i + 1));
            i += 1;
        }
        assert(self@.assignments.take(i as int) =~= self@.assignments);
        all
    }

    /// Draws one of the active credentials at random.
    pub fn draw(&self) -> (picked: Option<String>)
        ensures
            self@.may_draw(option_view(picked)),
    {
        let picked = choose_one(&self.active);
        proof {
            if picked is Some {
                let k = picked->0;
                let i = choose|i: int|
                    0 <= i < self.active@.len() && (#[trigger] self.active@[i])@ == k@;
                assert(views(self.active@)[i] == k@);
            }
        }
        picked
    }

    /// Answers a request of `node_id` for a credential, with `picked` as the
    /// credential drawn for a new caller and `now` as the time.
    pub fn request_with(&mut self, node_id: &str, picked: Option<String>, now: i64) -> (r: Result<
        String,
        ManagerError,
    >)
        requires
            old(self).wf(),
        ensures
            final(self).wf(),
            final(self)@ == old(self)@.request(node_id@, option_view(picked), now as int).0,
            result_view(r) == old(self)@.request(node_id@, option_view(picked), now as int).1,
    {
        if let Some(k) = self.find_key_for_node(node_id) {
            return Ok(k);
        }
        if self.active.len() == 0 {
            return Err(ManagerError::NoKeysAvailable);
        }
        match picked {
            None => Err(ManagerError::SelectionFailed),
            Some(k) => {
                if position_in(&self.active, &k) >= self.active.len() {
                    return Err(ManagerError::SelectionFailed);
                }
                let ghost before = self@;
                let mut i: usize = 0;
                while i < self.assignments.len() && self.assignments[i].issued_at <= now
                    invariant
                        i <= self.assignments.len(),
                        forall|j: int| 0 <= j < i ==> self@.assignments[j].issued_at <= now,
                    decreases self.assignments.len() - i,
                {
                    i += 1;
                }
                proof {
                    lemma_slot_for_is(before.assignments, now as int, i as int);
                    lemma_assign_keeps_wf(before, node_id@, k@, now as int);
                }
                let entry = NodeAssignment {
                    node_id: String::from_str(node_id),
                    api_key: k.clone(),
                    issued_at: now,
                };
                self.assignments.insert(i, entry);
                assert(self@.assignments =~= before.assign(
                    node_id@,
                    k@,
                    now as int,
                ).assignments);
                Ok(k)
            },
        }
    }

    /// Answers a request of `node_id` for a credential: the one it already
    /// has, else one of the active credentials drawn at random and recorded
    /// with the time of the clock.
    pub fn request(&mut self, node_id: &str) -> (r: Result<String, ManagerError>)
        requires
            old(self).wf(),
        ensures
            final(self).wf(),
            exists|picked: Option<Seq<char>>, now: int|
                {
                    &&& old(self)@.may_draw(picked)
                    &&& final(self)@ == (#[trigger] old(self)@.request(node_id@, picked, now)).0
                    &&& result_view(r) == old(self)@.request(node_id@, picked, now).1
                },
    {
        let ghost before = self@;
        if let Some(k) = self.find_key_for_node(node_id) {
            proof {
                let unused = if before.active.len() == 0 {
                    None
                } else {
                    Some(before.active[0])
                };
                assert(before.may_draw(unused));
                assert(before.request(node_id@, unused, 0).0 == before);
            }
            return Ok(k);
        }
        if self.active.len() == 0 {
            proof {
                assert(before.may_draw(None));
                assert(before.request(node_id@, None, 0).0 == before);
            }
            return Err(ManagerError::NoKeysAvailable);
        }
        let picked = self.draw();
        let now = unix_now();
        let r = self.request_with(node_id, picked, now);
        proof {
            assert(self@ == before.request(node_id@, option_view(picked), now as int).0);
        }
        r
    }
}

/// The text inside the outcome of a request.
pub open spec fn result_view(r: Result<String, ManagerError>) -> Result<Seq<char>, ManagerError> {
    match r {
        Ok(t) => Ok(t@),
        Err(e) => Err(e),
    }
}

} // verus!
