//! A model of the engine's counters and gauges: the labelled families
//! the metrics exposition carries and their update rules. The
//! process-wide registry that serves them over HTTP is an outside
//! concern and may hold the numbers itself; this module states what a
//! labelled family does.

use vstd::prelude::*;
use vstd::string::*;

verus! {

/// Most label pairs a map may hold.
pub const MAX_LABELS: usize = 100_000;

/// Index of the entry labelled `(l1, l2)`, or -1.
pub open spec fn lmap_find(es: Seq<(String, String, i64)>, l1: Seq<char>, l2: Seq<char>) -> int
    decreases es.len(),
{
    if es.len() == 0 {
        -1
    } else if es[0].0@ == l1 && es[0].1@ == l2 {
        0
    } else {
        let r = lmap_find(es.subrange(1, es.len() as int), l1, l2);
        if r == -1 {
            -1
        } else {
            r + 1
        }
    }
}

/// Value stored under `(l1, l2)`, 0 if absent.
pub open spec fn lmap_get(es: Seq<(String, String, i64)>, l1: Seq<char>, l2: Seq<char>) -> int
    decreases es.len(),
{
    if es.len() == 0 {
        0
    } else if es[0].0@ == l1 && es[0].1@ == l2 {
        es[0].2 as int
    } else {
        lmap_get(es.subrange(1, es.len() as int), l1, l2)
    }
}

proof fn lemma_lmap_find_at(es: Seq<(String, String, i64)>, l1: Seq<char>, l2: Seq<char>, j: int)
    requires
        0 <= j < es.len(),
        es[j].0@ == l1 && es[j].1@ == l2,
        forall|k: int| 0 <= k < j ==> !((#[trigger] es[k]).0@ == l1 && es[k].1@ == l2),
    ensures
        lmap_find(es, l1, l2) == j,
        lmap_get(es, l1, l2) == es[j].2 as int,
    decreases es.len(),
{
    if j > 0 {
        let t = es.subrange(1, es.len() as int);
        assert(forall|k: int| 0 <= k < j - 1 ==> !((#[trigger] t[k]).0@ == l1 && t[k].1@ == l2))
            by {
            assert(forall|k: int| 0 <= k < t.len() ==> t[k] == es[k + 1]);
        }
        lemma_lmap_find_at(t, l1, l2, j - 1);
    }
}

proof fn lemma_lmap_find_none(es: Seq<(String, String, i64)>, l1: Seq<char>, l2: Seq<char>)
    requires
        forall|k: int| 0 <= k < es.len() ==> !((#[trigger] es[k]).0@ == l1 && es[k].1@ == l2),
    ensures
        lmap_find(es, l1, l2) == -1,
        lmap_get(es, l1, l2) == 0,
    decreases es.len(),
{
    if es.len() > 0 {
        let t = es.subrange(1, es.len() as int);
        assert(forall|k: int| 0 <= k < t.len() ==> !((#[trigger] t[k]).0@ == l1 && t[k].1@ == l2))
            by {
            assert(forall|k: int| 0 <= k < t.len() ==> t[k] == es[k + 1]);
        }
        lemma_lmap_find_none(t, l1, l2);
    }
}

/// A counter or gauge family with two labels.
pub struct LabelMap {
    pub entries: Vec<(String, String, i64)>,
}

impl LabelMap {
    /// Label pairs are unique and the table is small.
    pub open spec fn wf(&self) -> bool {
        &&& self.entries@.len() <= MAX_LABELS
        &&& forall|i: int, j: int|
            0 <= i < j < self.entries@.len() ==> !((#[trigger] self.entries@[i]).0@
                == (#[trigger] self.entries@[j]).0@ && self.entries@[i].1@
                == self.entries@[j].1@)
    }

    pub fn new() -> (r: LabelMap)
        ensures
            r.wf(),
            r.entries@.len() == 0,
    {
        LabelMap { entries: Vec::new() }
    }

    /// Reads the value stored under a label pair, 0 if absent.
    pub fn get(&self, l1: &str, l2: &str) -> (r: i64)
        ensures
            r == lmap_get(self.entries@, l1@, l2@),
    {
        let n = self.entries.len();
        let mut k: usize = 0;
        while k < n
            invariant
                0 <= k <= n,
                n == self.entries@.len(),
                forall|t: int|
                    0 <= t < k ==> !((#[trigger] self.entries@[t]).0@ == l1@
                        && self.entries@[t].1@ == l2@),
            decreases n - k,
        {
            if crate::numtext::str_eq(self.entries[k].0.as_str(), l1) && crate::numtext::str_eq(
                self.entries[k].1.as_str(),
                l2,
            ) {
                proof {
                    lemma_lmap_find_at(self.entries@, l1@, l2@, k as int);
                }
                return self.entries[k].2;
            }
            k = k + 1;
        }
        proof {
            lemma_lmap_find_none(self.entries@, l1@, l2@);
        }
        0
    }

    /// Stores `v` under a label pair: an existing entry is overwritten
    /// in place, a new pair appended.
    pub fn set(&mut self, l1: &str, l2: &str, v: i64)
        requires
            old(self).wf(),
            old(self).entries@.len() < MAX_LABELS,
        ensures
            final(self).wf(),
            lmap_get(final(self).entries@, l1@, l2@) == v,
            ({
                let es = old(self).entries@;
                let k = lmap_find(es, l1@, l2@);
                let es1 = final(self).entries@;
                &&& (k >= 0 ==> es1 == es.update(k, (es[k].0, es[k].1, v)))
                &&& (k == -1 ==> es1.len() == es.len() + 1 && es1.subrange(0, es.len() as int)
                    == es && es1.last().0@ == l1@ && es1.last().1@ == l2@ && es1.last().2 == v)
            }),
    {
        let n = self.entries.len();
        let mut k: usize = 0;
        let ghost es0 = self.entries@;
        while k < n
            invariant
                0 <= k <= n,
                n == self.entries@.len(),
                es0 == self.entries@,
                es0 == old(self).entries@,
                old(self).wf(),
                n < MAX_LABELS,
                forall|t: int|
                    0 <= t < k ==> !((#[trigger] self.entries@[t]).0@ == l1@
                        && self.entries@[t].1@ == l2@),
            decreases n - k,
        {
            if crate::numtext::str_eq(self.entries[k].0.as_str(), l1) && crate::numtext::str_eq(
                self.entries[k].1.as_str(),
                l2,
            ) {
                proof {
                    lemma_lmap_find_at(es0, l1@, l2@, k as int);
                }
                let e = self.entries.remove(k);
                self.entries.insert(k, (e.0, e.1, v));
                proof {
                    assert(self.entries@ =~= es0.update(k as int, (es0[k as int].0, es0[k as int].1, v)));
                    assert(forall|t: int|
                        0 <= t < k ==> #[trigger] self.entries@[t] == es0[t]);
                    assert(self.entries@[k as int].0@ == l1@ && self.entries@[k as int].1@ == l2@);
                    lemma_lmap_find_at(self.entries@, l1@, l2@, k as int);
                }
                return ;
            }
            k = k + 1;
        }
        proof {
            lemma_lmap_find_none(es0, l1@, l2@);
        }
        self.entries.push((l1.to_owned(), l2.to_owned(), v));
        proof {
            assert(self.entries@.subrange(0, es0.len() as int) =~= es0);
            assert(forall|t: int| 0 <= t < es0.len() ==> #[trigger] self.entries@[t] == es0[t]);
            assert(self.entries@.last().0@ == l1@ && self.entries@.last().1@ == l2@);
            lemma_lmap_find_at(self.entries@, l1@, l2@, es0.len() as int);
        }
    }

    /// Adds `delta` to the value under a label pair (starting from 0
    /// for a fresh pair), saturating at the i64 range ends.
    pub fn add(&mut self, l1: &str, l2: &str, delta: i64)
        requires
            old(self).wf(),
            old(self).entries@.len() < MAX_LABELS,
        ensures
            final(self).wf(),
            ({
                let sum = lmap_get(old(self).entries@, l1@, l2@) + delta;
                lmap_get(final(self).entries@, l1@, l2@) == if sum > i64::MAX as int {
                    i64::MAX as int
                } else if sum < i64::MIN as int {
                    i64::MIN as int
                } else {
                    sum
                }
            }),
    {
        let cur = self.get(l1, l2);
        let wide: i128 = cur as i128 + delta as i128;
        let v: i64 = if wide > i64::MAX as i128 {
            i64::MAX
        } else if wide < i64::MIN as i128 {
            i64::MIN
        } else {
            wide as i64
        };
        self.set(l1, l2, v);
    }
}

/// Everything the engine counts and gauges.
pub struct Metrics {
    /// Market-data ticks seen, in total and per symbol.
    pub ticks: u64,
    pub ticks_by_symbol: LabelMap,
    /// Strategy signals, in total and by (strategy, symbol).
    pub signals: u64,
    pub signals_by: LabelMap,
    /// Orders accepted by risk.
    pub orders: u64,
    /// Execution reports by (status, venue).
    pub execs: LabelMap,
    /// Latest router score per venue.
    pub venue_score: LabelMap,
    /// Net quantity per (symbol, venue), and overall.
    pub inv_qty: LabelMap,
    pub inv_total_qty: i64,
    pub pnl_realized: i64,
    pub pnl_unrealized: i64,
}

impl Metrics {
    pub open spec fn wf(&self) -> bool {
        &&& self.ticks_by_symbol.wf()
        &&& self.signals_by.wf()
        &&& self.execs.wf()
        &&& self.venue_score.wf()
        &&& self.inv_qty.wf()
    }
}

/// A fresh registry: every counter at zero, every family empty.
pub fn init() -> (m: Metrics)
    ensures
        m.wf(),
        m.ticks == 0 && m.signals == 0 && m.orders == 0,
        m.ticks_by_symbol.entries@.len() == 0,
        m.signals_by.entries@.len() == 0,
        m.execs.entries@.len() == 0,
        m.venue_score.entries@.len() == 0,
        m.inv_qty.entries@.len() == 0,
        m.inv_total_qty == 0 && m.pnl_realized == 0 && m.pnl_unrealized == 0,
{
    Metrics {
        ticks: 0,
        ticks_by_symbol: LabelMap::new(),
        signals: 0,
        signals_by: LabelMap::new(),
        orders: 0,
        execs: LabelMap::new(),
        venue_score: LabelMap::new(),
        inv_qty: LabelMap::new(),
        inv_total_qty: 0,
        pnl_realized: 0,
        pnl_unrealized: 0,
    }
}

} // verus!
