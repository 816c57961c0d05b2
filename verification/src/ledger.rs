//! The ledger of costs: every record that was brought in, in the order of
//! its arrival, and for each credential the records that arrived while it
//! was active. Records are only ever appended; a reset empties both.
//!
//! The provider's report does not say which credential a cost belongs to, so
//! a new record is credited to every credential that is active when it
//! arrives.

use vstd::prelude::*;
use vstd::string::StringExecFns;
use crate::seqs::{first_index, lemma_first_index, lemma_first_index_is, lemma_views_push, views};
use crate::text::all_distinct;
use crate::trusted::{parse_rfc3339, rfc3339_timestamp};

verus! {

/// One cost that the provider billed.
#[derive(Debug)]
pub struct CostRecord {
    /// When the cost was incurred, in seconds since the Unix epoch.
    pub timestamp: i64,
    /// The amount, in micro-dollars.
    pub amount: i64,
    pub currency: String,
    pub description: String,
}

/// What a `CostRecord` stands for.
pub struct RecordModel {
    pub timestamp: int,
    pub amount: int,
    pub currency: Seq<char>,
    pub description: Seq<char>,
}

impl View for CostRecord {
    type V = RecordModel;

    open spec fn view(&self) -> RecordModel {
        RecordModel {
            timestamp: self.timestamp as int,
            amount: self.amount as int,
            currency: self.currency@,
            description: self.description@,
        }
    }
}

impl Clone for CostRecord {
    fn clone(&self) -> (c: Self)
        ensures
            c == *self,
    {
        CostRecord {
            timestamp: self.timestamp,
            amount: self.amount,
            currency: self.currency.clone(),
            description: self.description.clone(),
        }
    }
}

/// A span of time, closed at both ends where it has an end.
#[derive(Clone, Copy, Debug, PartialEq, Eq, Structural)]
pub struct DateWindow {
    /// The first second inside, if the span has a beginning.
    pub start: Option<i64>,
    /// The last second inside, if the span has an end.
    pub end: Option<i64>,
}

/// What a `DateWindow` stands for.
pub struct WindowModel {
    pub start: Option<int>,
    pub end: Option<int>,
}

impl WindowModel {
    /// The span without a beginning or an end.
    pub open spec fn unbounded() -> WindowModel {
        WindowModel { start: None, end: None }
    }

    /// Whether the time `t` lies in the span.
    pub open spec fn admits(self, t: int) -> bool {
        &&& self.start matches Some(s) ==> t >= s
        &&& self.end matches Some(e) ==> t <= e
    }
}

impl View for DateWindow {
    type V = WindowModel;

    open spec fn view(&self) -> WindowModel {
        WindowModel {
            start: match self.start {
                Some(s) => Some(s as int),
                None => None,
            },
            end: match self.end {
                Some(e) => Some(e as int),
                None => None,
            },
        }
    }
}

/// The span between the moments that `start` and `end` write in RFC 3339.
/// A bound that is absent, or that writes no moment, leaves its side open.
pub open spec fn window_of(start: Option<Seq<char>>, end: Option<Seq<char>>) -> WindowModel {
    WindowModel {
        start: match start {
            Some(s) => rfc3339_timestamp(s),
            None => None,
        },
        end: match end {
            Some(e) => rfc3339_timestamp(e),
            None => None,
        },
    }
}

impl DateWindow {
    /// The span between the moments that `start` and `end` write in
    /// RFC 3339.
    pub fn between(start: &Option<String>, end: &Option<String>) -> (w: DateWindow)
        ensures
            w@ == window_of(crate::text::option_view(*start), crate::text::option_view(*end)),
    {
        let s = match start {
            Some(text) => parse_rfc3339(text.as_str()),
            None => None,
        };
        let e = match end {
            Some(text) => parse_rfc3339(text.as_str()),
            None => None,
        };
        DateWindow { start: s, end: e }
    }

    /// The span without a beginning or an end.
    pub fn unbounded() -> (w: DateWindow)
        ensures
            w@ == WindowModel::unbounded(),
    {
        DateWindow { start: None, end: None }
    }

    /// Whether the time `t` lies in the span.
    pub fn contains(&self, t: i64) -> (inside: bool)
        ensures
            inside == self@.admits(t as int),
    {
        let after_start = match self.start {
            Some(s) => t >= s,
            None => true,
        };
        let before_end = match self.end {
            Some(e) => t <= e,
            None => true,
        };
        after_start && before_end
    }
}

/// The test that picks the records incurred within `w`.
pub open spec fn in_window(w: WindowModel) -> spec_fn(RecordModel) -> bool {
    |r: RecordModel| w.admits(r.timestamp)
}

/// The sum of the amounts of `records`.
pub open spec fn total_of(records: Seq<RecordModel>) -> int
    decreases records.len(),
{
    if records.len() == 0 {
        0
    } else {
        total_of(records.drop_last()) + records.last().amount
    }
}

/// The sum of the amounts of those of `records` that were incurred within
/// `w`.
pub open spec fn total_in(records: Seq<RecordModel>, w: WindowModel) -> int {
    total_of(records.filter(in_window(w)))
}

/// The records credited to one credential.
pub struct KeyCostsModel {
    pub key: Seq<char>,
    pub records: Seq<RecordModel>,
}

/// The credentials of the entries of `index`, in order.
pub open spec fn keys_of(index: Seq<KeyCostsModel>) -> Seq<Seq<char>> {
    Seq::new(index.len(), |i: int| index[i].key)
}

/// The index `index` with `record` credited to `key`: appended to the entry
/// of `key`, or to a new last entry if `key` has none.
pub open spec fn credit(index: Seq<KeyCostsModel>, key: Seq<char>, record: RecordModel) -> Seq<
    KeyCostsModel,
> {
    let p = first_index(keys_of(index), key);
    if p < index.len() {
        index.update(p, KeyCostsModel { key: key, records: index[p].records.push(record) })
    } else {
        index.push(KeyCostsModel { key: key, records: seq![record] })
    }
}

/// The index `index` with `record` credited to each of `keys` in turn.
pub open spec fn credit_all(
    index: Seq<KeyCostsModel>,
    keys: Seq<Seq<char>>,
    record: RecordModel,
) -> Seq<KeyCostsModel>
    decreases keys.len(),
{
    if keys.len() == 0 {
        index
    } else {
        credit(credit_all(index, keys.drop_last(), record), keys.last(), record)
    }
}

/// For each entry of `index` whose records within `w` do not sum to zero,
/// its credential and that sum, in the order of `index`.
pub open spec fn subtotals(index: Seq<KeyCostsModel>, w: WindowModel) -> Seq<(Seq<char>, int)>
    decreases index.len(),
{
    if index.len() == 0 {
        Seq::empty()
    } else if total_in(index.last().records, w) != 0 {
        subtotals(index.drop_last(), w).push(
            (index.last().key, total_in(index.last().records, w)),
        )
    } else {
        subtotals(index.drop_last(), w)
    }
}

/// The shares that `shares` writes, each a credential with its records.
pub open spec fn share_models(shares: Seq<(String, Vec<CostRecord>)>) -> Seq<KeyCostsModel> {
    Seq::new(
        shares.len(),
        |i: int| KeyCostsModel { key: shares[i].0@, records: views(shares[i].1@) },
    )
}

/// The shares of a list with one more share are the shares of the list with
/// that of the one more.
pub proof fn lemma_share_models_push(
    shares: Seq<(String, Vec<CostRecord>)>,
    share: (String, Vec<CostRecord>),
)
    ensures
        share_models(shares.push(share)) == share_models(shares).push(
            KeyCostsModel { key: share.0@, records: views(share.1@) },
        ),
{
    assert(share_models(shares.push(share)) =~= share_models(shares).push(
        KeyCostsModel { key: share.0@, records: views(share.1@) },
    ));
}

/// What a `CostLedger` stands for.
pub struct LedgerModel {
    /// Every record, in the order of arrival.
    pub all: Seq<RecordModel>,
    /// For each credential that was ever credited, its records.
    pub by_key: Seq<KeyCostsModel>,
}

impl LedgerModel {
    /// The ledger without a record.
    pub open spec fn empty() -> LedgerModel {
        LedgerModel { all: Seq::empty(), by_key: Seq::empty() }
    }

    /// What holds of every ledger: no credential has two entries.
    pub open spec fn wf(self) -> bool {
        keys_of(self.by_key).no_duplicates()
    }

    /// The records credited to `key`; none if it was never credited.
    pub open spec fn records_of(self, key: Seq<char>) -> Seq<RecordModel> {
        let p = first_index(keys_of(self.by_key), key);
        if p < self.by_key.len() {
            self.by_key[p].records
        } else {
            Seq::empty()
        }
    }

    /// The ledger with `record` appended and credited to each of `active`.
    pub open spec fn record(self, record: RecordModel, active: Seq<Seq<char>>) -> LedgerModel {
        LedgerModel {
            all: self.all.push(record),
            by_key: credit_all(self.by_key, active, record),
        }
    }

    /// The ledger with each of `records` recorded in turn.
    pub open spec fn record_all(
        self,
        records: Seq<RecordModel>,
        active: Seq<Seq<char>>,
    ) -> LedgerModel
        decreases records.len(),
    {
        if records.len() == 0 {
            self
        } else {
            self.record_all(records.drop_last(), active).record(records.last(), active)
        }
    }
}

/// Crediting keeps the credentials of an index distinct, adds `key` to them
/// if it was missing, and leaves the other entries as they were.
pub proof fn lemma_credit(index: Seq<KeyCostsModel>, key: Seq<char>, record: RecordModel)
    requires
        keys_of(index).no_duplicates(),
    ensures
        keys_of(credit(index, key, record)).no_duplicates(),
        keys_of(credit(index, key, record)) == if keys_of(index).contains(key) {
            keys_of(index)
        } else {
            keys_of(index).push(key)
        },
{
    let p = first_index(keys_of(index), key);
    lemma_first_index(keys_of(index), key);
    let after = credit(index, key, record);
    if p < index.len() {
        assert(keys_of(after) =~= keys_of(index));
    } else {
        assert(keys_of(after) =~= keys_of(index).push(key));
        crate::seqs::lemma_push_no_duplicates(keys_of(index), key);
    }
}

/// Crediting to several credentials keeps the credentials of an index
/// distinct.
pub proof fn lemma_credit_all(index: Seq<KeyCostsModel>, keys: Seq<Seq<char>>, record: RecordModel)
    requires
        keys_of(index).no_duplicates(),
    ensures
        keys_of(credit_all(index, keys, record)).no_duplicates(),
    decreases keys.len(),
{
    if keys.len() > 0 {
        lemma_credit_all(index, keys.drop_last(), record);
        lemma_credit(credit_all(index, keys.drop_last(), record), keys.last(), record);
    }
}

/// Recording appends the records to the ledger in their order.
pub proof fn lemma_record_all_appends(
    l: LedgerModel,
    records: Seq<RecordModel>,
    active: Seq<Seq<char>>,
)
    ensures
        l.record_all(records, active).all == l.all + records,
    decreases records.len(),
{
    if records.len() > 0 {
        lemma_record_all_appends(l, records.drop_last(), active);
        assert(l.record_all(records, active).all =~= l.all + records);
    } else {
        assert(l.all + records =~= l.all);
    }
}

/// Recording one list after another is recording the two as one.
pub proof fn lemma_record_all_joins(
    l: LedgerModel,
    a: Seq<RecordModel>,
    b: Seq<RecordModel>,
    active: Seq<Seq<char>>,
)
    ensures
        l.record_all(a, active).record_all(b, active) == l.record_all(a + b, active),
    decreases b.len(),
{
    if b.len() > 0 {
        lemma_record_all_joins(l, a, b.drop_last(), active);
        assert((a + b).drop_last() =~= a + b.drop_last());
        assert((a + b).last() == b.last());
    } else {
        assert(a + b =~= a);
    }
}

/// Recording keeps a ledger well formed.
pub proof fn lemma_record_all_wf(l: LedgerModel, records: Seq<RecordModel>, active: Seq<Seq<char>>)
    requires
        l.wf(),
    ensures
        l.record_all(records, active).wf(),
    decreases records.len(),
{
    if records.len() > 0 {
        lemma_record_all_wf(l, records.drop_last(), active);
        lemma_credit_all(
            l.record_all(records.drop_last(), active).by_key,
            active,
            records.last(),
        );
    }
}

/// The records credited to one credential.
#[derive(Debug)]
struct KeyCosts {
    key: String,
    records: Vec<CostRecord>,
}

impl View for KeyCosts {
    type V = KeyCostsModel;

    closed spec fn view(&self) -> KeyCostsModel {
        KeyCostsModel { key: self.key@, records: views(self.records@) }
    }
}

/// The costs brought in so far.
#[derive(Debug)]
pub struct CostLedger {
    all: Vec<CostRecord>,
    by_key: Vec<KeyCosts>,
}

impl View for CostLedger {
    type V = LedgerModel;

    closed spec fn view(&self) -> LedgerModel {
        LedgerModel { all: views(self.all@), by_key: views(self.by_key@) }
    }
}

/// The sum of the amounts of those of `records` that were incurred within
/// `window`.
fn sum_in(records: &Vec<CostRecord>, window: &DateWindow) -> (sum: i128)
    ensures
        sum == total_in(views(records@), window@),
{
    let ghost all = views(records@);
    let ghost test = in_window(window@);
    let mut sum: i128 = 0;
    let mut i: usize = 0;
    proof {
        reveal(Seq::filter);
        assert(all.take(0).filter(test) =~= Seq::empty());
    }
    while i < records.len()
        invariant
            i <= records.len(),
            all == views(records@),
            test == in_window(window@),
            sum == total_of(all.take(i as int).filter(test)),
            -(i * 0x8000_0000_0000_0000) <= sum <= i * 0x8000_0000_0000_0000,
        decreases records.len() - i,
    {
        proof {
            reveal(Seq::filter);
            let upto = all.take(i + 1);
            assert(upto.drop_last() =~= all.take(i as int));
            assert(upto.last() == records@[i as int]@);
            let kept = all.take(i as int).filter(test);
            if test(upto.last()) {
                assert(upto.filter(test) == kept.push(upto.last()));
                assert(upto.filter(test).drop_last() =~= kept);
            }
        }
        if window.contains(records[i].timestamp) {
            sum = sum + records[i].amount as i128;
        }
        i += 1;
    }
    assert(all.take(i as int) =~= all);
    sum
}

/// Those of `records` that were incurred within `window`.
fn pick_in(records: &Vec<CostRecord>, window: &DateWindow) -> (picked: Vec<CostRecord>)
    ensures
        views(picked@) == views(records@).filter(in_window(window@)),
{
    let ghost all = views(records@);
    let ghost test = in_window(window@);
    let mut picked: Vec<CostRecord> = Vec::new();
    let mut i: usize = 0;
    proof {
        reveal(Seq::filter);
        assert(all.take(0).filter(test) =~= Seq::empty());
        assert(views(picked@) =~= Seq::empty());
    }
    while i < records.len()
        invariant
            i <= records.len(),
            all == views(records@),
            test == in_window(window@),
            views(picked@) == all.take(i as int).filter(test),
        decreases records.len() - i,
    {
        proof {
            reveal(Seq::filter);
            let upto = all.take(i + 1);
            assert(upto.drop_last() =~= all.take(i as int));
            assert(upto.last() == records@[i as int]@);
            lemma_views_push(picked@, records@[i as int]);
        }
        if window.contains(records[i].timestamp) {
            picked.push(records[i].clone());
        }
        i += 1;
    }
    assert(all.take(i as int) =~= all);
    picked
}

/// A copy of `records`.
fn copy_records(records: &Vec<CostRecord>) -> (copy: Vec<CostRecord>)
    ensures
        views(copy@) == views(records@),
{
    let mut copy: Vec<CostRecord> = Vec::new();
    let mut i: usize = 0;
    while i < records.len()
        invariant
            i <= records.len(),
            views(copy@) == views(records@).take(i as int),
        decreases records.len() - i,
    {
        proof {
            lemma_views_push(copy@, records@[i as int]);
        }
        copy.push(records[i].clone());
        assert(views(copy@) =~= views(records@).take(i + 1));
        i += 1;
    }
    assert(views(records@).take(i as int) =~= views(records@));
    copy
}

impl CostLedger {
    /// What holds of every ledger that this module hands out.
    pub open spec fn wf(&self) -> bool {
        self@.wf()
    }

    /// A ledger without a record.
    pub fn new() -> (ledger: CostLedger)
        ensures
            ledger.wf(),
            ledger@ == LedgerModel::empty(),
    {
        let ledger = CostLedger { all: Vec::new(), by_key: Vec::new() };
        assert(ledger@.all =~= Seq::empty());
        assert(ledger@.by_key =~= Seq::empty());
        assert(keys_of(ledger@.by_key) =~= Seq::empty());
        ledger
    }

    /// The ledger that holds these records and these shares, if no
    /// credential has two shares.
    pub fn from_parts(all: Vec<CostRecord>, shares: Vec<(String, Vec<CostRecord>)>) -> (r: Option<
        CostLedger,
    >)
        ensures
            match r {
                Some(ledger) => ledger.wf() && ledger@ == (LedgerModel {
                    all: views(all@),
                    by_key: share_models(shares@),
                }),
                None => !(LedgerModel { all: views(all@), by_key: share_models(shares@) }).wf(),
            },
    {
        let ghost index = share_models(shares@);
        let mut names: Vec<String> = Vec::new();
        let mut by_key: Vec<KeyCosts> = Vec::new();
        let mut i: usize = 0;
        while i < shares.len()
            invariant
                i <= shares.len(),
                index == share_models(shares@),
                views(names@) == keys_of(index).take(i as int),
                views(by_key@) == index.take(i as int),
            decreases shares.len() - i,
        {
            let share = KeyCosts {
                key: shares[i].0.clone(),
                records: copy_records(&shares[i].1),
            };
            proof {
                lemma_views_push(names@, shares@[i as int].0);
                lemma_views_push(by_key@, share);
            }
            names.push(shares[i].0.clone());
            by_key.push(share);
            assert(views(names@) =~= keys_of(index).take(i + 1));
            assert(views(by_key@) =~= index.take(i + 1));
            i += 1;
        }
        proof {
            assert(keys_of(index).take(i as int) =~= keys_of(index));
            assert(index.take(i as int) =~= index);
        }
        if all_distinct(&names) {
            Some(CostLedger { all, by_key })
        } else {
            None
        }
    }

    /// The shares of the credentials, each with its records.
    pub fn shares(&self) -> (shares: Vec<(String, Vec<CostRecord>)>)
        ensures
            share_models(shares@) == self@.by_key,
    {
        let mut shares: Vec<(String, Vec<CostRecord>)> = Vec::new();
        let mut i: usize = 0;
        while i < self.by_key.len()
            invariant
                i <= self.by_key.len(),
                share_models(shares@) == self@.by_key.take(i as int),
            decreases self.by_key.len() - i,
        {
            let share = (self.by_key[i].key.clone(), copy_records(&self.by_key[i].records));
            proof {
                lemma_share_models_push(shares@, share);
            }
            shares.push(share);
            assert(share_models(shares@) =~= self@.by_key.take(i + 1));
            i += 1;
        }
        assert(self@.by_key.take(i as int) =~= self@.by_key);
        shares
    }

    /// Empties the ledger: every record goes, and every credential's share.
    pub fn reset(&mut self)
        ensures
            final(self).wf(),
            final(self)@ == LedgerModel::empty(),
    {
        self.all.clear();
        self.by_key.clear();
        assert(self@.all =~= Seq::empty());
        assert(self@.by_key =~= Seq::empty());
        assert(keys_of(self@.by_key) =~= Seq::empty());
    }

    /// How many records the ledger holds.
    pub fn len(&self) -> (n: usize)
        ensures
            n == self@.all.len(),
    {
        self.all.len()
    }

    /// Every record, in the order of arrival.
    pub fn all_costs(&self) -> (records: Vec<CostRecord>)
        ensures
            views(records@) == self@.all,
    {
        copy_records(&self.all)
    }

    /// The place of the entry of `key` in the index, or the number of
    /// entries if it has none.
    fn entry_of(&self, key: &String) -> (p: usize)
        ensures
            p == first_index(keys_of(self@.by_key), key@),
            p <= self.by_key.len(),
    {
        let ghost names = keys_of(self@.by_key);
        let mut p: usize = 0;
        while p < self.by_key.len()
            invariant
                p <= self.by_key.len(),
                names == keys_of(self@.by_key),
                forall|k: int| 0 <= k < p ==> names[k] != key@,
            decreases self.by_key.len() - p,
        {
            if self.by_key[p].key == *key {
                proof {
                    assert(names[p as int] == key@);
                    lemma_first_index_is(names, key@, p as int);
                }
                return p;
            }
            assert(names[p as int] != key@);
            p += 1;
        }
        proof {
            lemma_first_index_is(names, key@, p as int);
        }
        p
    }

    /// Appends `record` to the share of `key`.
    fn credit(&mut self, key: &String, record: CostRecord)
        ensures
            final(self)@.all == old(self)@.all,
            final(self)@.by_key == credit(old(self)@.by_key, key@, record@),
    {
        let p = self.entry_of(key);
        let ghost before = self@.by_key;
        if p < self.by_key.len() {
            let ghost rows = self.by_key@;
            proof {
                lemma_views_push(rows[p as int].records@, record);
                lemma_first_index(keys_of(before), key@);
                assert(keys_of(before)[p as int] == key@);
            }
            let mut entry = self.by_key.remove(p);
            entry.records.push(record);
            self.by_key.insert(p, entry);
            proof {
                let after = credit(before, key@, record@);
                assert(self.by_key@.len() == rows.len());
                assert forall|k: int| 0 <= k < rows.len() implies self@.by_key[k] == after[k] by {
                    if k != p {
                        assert(self.by_key@[k] == rows[k]);
                        assert(before[k] == rows[k]@);
                    } else {
                        assert(before[k] == rows[k]@);
                    }
                }
                assert(self@.by_key =~= after);
            }
        } else {
            let mut records: Vec<CostRecord> = Vec::new();
            records.push(record);
            assert(views(records@) =~= seq![record@]);
            self.by_key.push(KeyCosts { key: key.clone(), records });
            assert(self@.by_key =~= credit(before, key@, record@));
        }
    }

    /// Appends `record` to the ledger and credits it to each of `active`.
    pub fn record(&mut self, record: CostRecord, active: &Vec<String>)
        requires
            old(self).wf(),
        ensures
            final(self).wf(),
            final(self)@ == old(self)@.record(record@, views(active@)),
    {
        let ghost before = self@;
        let ghost keys = views(active@);
        let mut i: usize = 0;
        assert(keys.take(0) =~= Seq::empty());
        while i < active.len()
            invariant
                i <= active.len(),
                keys == views(active@),
                self@.all == before.all,
                self@.by_key == credit_all(before.by_key, keys.take(i as int), record@),
            decreases active.len() - i,
        {
            proof {
                let upto = keys.take(i + 1);
                assert(upto.drop_last() =~= keys.take(i as int));
                assert(upto.last() == active@[i as int]@);
            }
            self.credit(&active[i], record.clone());
            i += 1;
        }
        proof {
            assert(keys.take(i as int) =~= keys);
            lemma_credit_all(before.by_key, keys, record@);
            lemma_views_push(self.all@, record);
        }
        self.all.push(record);
    }

    /// Appends each of `records` in turn, credited to each of `active`.
    pub fn record_many(&mut self, records: &Vec<CostRecord>, active: &Vec<String>)
        requires
            old(self).wf(),
        ensures
            final(self).wf(),
            final(self)@ == old(self)@.record_all(views(records@), views(active@)),
    {
        let ghost before = self@;
        let ghost all = views(records@);
        let mut i: usize = 0;
        assert(all.take(0) =~= Seq::empty());
        while i < records.len()
            invariant
                i <= records.len(),
                all == views(records@),
                self.wf(),
                self@ == before.record_all(all.take(i as int), views(active@)),
            decreases records.len() - i,
        {
            proof {
                let upto = all.take(i + 1);
                assert(upto.drop_last() =~= all.take(i as int));
                assert(upto.last() == records@[i as int]@);
            }
            self.record(records[i].clone(), active);
            i += 1;
        }
        assert(all.take(i as int) =~= all);
    }

    /// The sum of the amounts of the records incurred within `window`.
    pub fn total(&self, window: &DateWindow) -> (sum: i128)
        ensures
            sum == total_in(self@.all, window@),
    {
        sum_in(&self.all, window)
    }

    /// For each credential whose records within `window` do not sum to zero,
    /// the credential and that sum.
    pub fn subtotals(&self, window: &DateWindow) -> (shares: Vec<(String, i128)>)
        ensures
            shares@.len() == subtotals(self@.by_key, window@).len(),
            forall|i: int|
                0 <= i < shares@.len() ==> (#[trigger] shares@[i]).0@ == subtotals(
                    self@.by_key,
                    window@,
                )[i].0 && shares@[i].1 == subtotals(self@.by_key, window@)[i].1,
    {
        let ghost index = self@.by_key;
        let mut shares: Vec<(String, i128)> = Vec::new();
        let mut i: usize = 0;
        assert(index.take(0) =~= Seq::empty());
        while i < self.by_key.len()
            invariant
                i <= self.by_key.len(),
                index == self@.by_key,
                shares@.len() == subtotals(index.take(i as int), window@).len(),
                forall|k: int|
                    0 <= k < shares@.len() ==> (#[trigger] shares@[k]).0@ == subtotals(
                        index.take(i as int),
                        window@,
                    )[k].0 && shares@[k].1 == subtotals(index.take(i as int), window@)[k].1,
            decreases self.by_key.len() - i,
        {
            proof {
                let upto = index.take(i + 1);
                assert(upto.drop_last() =~= index.take(i as int));
                assert(upto.last() == self.by_key@[i as int]@);
            }
            let sum = sum_in(&self.by_key[i].records, window);
            if sum != 0 {
                shares.push((self.by_key[i].key.clone(), sum));
            }
            i += 1;
        }
        assert(index.take(i as int) =~= index);
        shares
    }

    /// The records credited to `key` that were incurred within `window`, and
    /// the sum of their amounts.
    pub fn for_key(&self, key: &str, window: &DateWindow) -> (r: (Vec<CostRecord>, i128))
        ensures
            views(r.0@) == self@.records_of(key@).filter(in_window(window@)),
            r.1 == total_in(self@.records_of(key@), window@),
    {
        let k = String::from_str(key);
        let p = self.entry_of(&k);
        if p < self.by_key.len() {
            let picked = pick_in(&self.by_key[p].records, window);
            let sum = sum_in(&self.by_key[p].records, window);
            (picked, sum)
        } else {
            let picked: Vec<CostRecord> = Vec::new();
            proof {
                reveal(Seq::filter);
                assert(views(picked@) =~= Seq::empty());
                assert(Seq::<RecordModel>::empty().filter(in_window(window@)) =~= Seq::empty());
            }
            (picked, 0)
        }
    }

    /// The sum of the amounts of all the records credited to `key`.
    pub fn key_total(&self, key: &str) -> (sum: i128)
        ensures
            sum == total_of(self@.records_of(key@)),
    {
        let w = DateWindow::unbounded();
        let r = self.for_key(key, &w);
        proof {
            lemma_unbounded_admits_all(self@.records_of(key@));
        }
        r.1
    }
}

/// The span without bounds leaves every record in.
pub proof fn lemma_unbounded_admits_all(records: Seq<RecordModel>)
    ensures
        records.filter(in_window(WindowModel::unbounded())) == records,
        total_in(records, WindowModel::unbounded()) == total_of(records),
    decreases records.len(),
{
    reveal(Seq::filter);
    let test = in_window(WindowModel::unbounded());
    if records.len() > 0 {
        lemma_unbounded_admits_all(records.drop_last());
        assert(test(records.last()));
        assert(records.drop_last().push(records.last()) =~= records);
    }
}

} // verus!
