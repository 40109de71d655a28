//! The smart-order router: scores venues by liquidity, fees, latency and
//! current inventory, keeps the best few, and splits an order's quantity
//! across them in proportion to their liquidity.

use vstd::prelude::*;
use vstd::string::*;
use crate::domain::{Order, SymbolState, VenueOrder, PX_CAP, QTY_CAP};

verus! {

/// Per-venue routing parameters.
#[derive(Debug, Clone, Copy, PartialEq, Eq, Structural)]
pub struct VenueCfg {
    pub fee_bps: i32,
    pub est_latency_ms: u32,
    pub liq_score: u32,
}

impl VenueCfg {
    /// Fees up to 100%, latencies up to 1000 s, liquidity scores positive
    /// and bounded: keeps every score inside the i64 range.
    pub open spec fn wf(&self) -> bool {
        &&& 0 <= self.fee_bps <= 10_000
        &&& self.est_latency_ms <= 1_000_000
        &&& 1 <= self.liq_score <= 1_000_000
    }
}

/// The router's configuration: the venue table and the splitting rules.
#[derive(Debug, Clone)]
pub struct RouterCfg {
    /// Association list of venue name to parameters; names are unique.
    pub venues: Vec<(String, VenueCfg)>,
    /// How many of the best-scored venues share each order.
    pub top_n: usize,
    pub min_child_qty: i64,
    pub inv_target: i64,
    pub inv_bias_weight: i64,
}

impl RouterCfg {
    pub open spec fn wf(&self) -> bool {
        &&& self.venues@.len() <= 1_000
        &&& (forall|i: int| 0 <= i < self.venues@.len() ==> (#[trigger] self.venues@[i]).1.wf())
        &&& (forall|i: int, j: int|
            0 <= i < j < self.venues@.len() ==> self.venues@[i].0@ != self.venues@[j].0@)
        &&& 0 <= self.min_child_qty <= QTY_CAP
        &&& 0 <= self.inv_bias_weight <= PX_CAP
    }
}

impl Default for RouterCfg {
    /// Three mock venues, orders spread over the best two.
    fn default() -> (r: RouterCfg)
        ensures
            r.wf(),
            r.venues@.len() == 3,
            r.venues@[0].0@ == "A"@ && r.venues@[0].1 == (VenueCfg {
                fee_bps: 5,
                est_latency_ms: 3,
                liq_score: 70,
            }),
            r.venues@[1].0@ == "B"@ && r.venues@[1].1 == (VenueCfg {
                fee_bps: 7,
                est_latency_ms: 2,
                liq_score: 50,
            }),
            r.venues@[2].0@ == "C"@ && r.venues@[2].1 == (VenueCfg {
                fee_bps: 2,
                est_latency_ms: 6,
                liq_score: 90,
            }),
            r.top_n == 2,
            r.min_child_qty == 2,
            r.inv_target == 0,
            r.inv_bias_weight == 5,
    {
        let mut venues: Vec<(String, VenueCfg)> = Vec::new();
        venues.push((String::from_str("A"), VenueCfg { fee_bps: 5, est_latency_ms: 3, liq_score: 70 }));
        venues.push((String::from_str("B"), VenueCfg { fee_bps: 7, est_latency_ms: 2, liq_score: 50 }));
        venues.push((String::from_str("C"), VenueCfg { fee_bps: 2, est_latency_ms: 6, liq_score: 90 }));
        proof {
            reveal_strlit("A");
            reveal_strlit("B");
            reveal_strlit("C");
            assert("A"@.len() == 1 && "A"@[0] == 'A');
            assert("B"@.len() == 1 && "B"@[0] == 'B');
            assert("C"@.len() == 1 && "C"@[0] == 'C');
            assert("A"@ != "B"@ && "A"@ != "C"@ && "B"@ != "C"@);
        }
        RouterCfg { venues, top_n: 2, min_child_qty: 2, inv_target: 0, inv_bias_weight: 5 }
    }
}

/// The inventory-free part of a venue's score:
/// `liq_score - fee_bps * px / 10000 - est_latency_ms`.
pub open spec fn spec_score_base(v: VenueCfg, px: int) -> int {
    v.liq_score - (v.fee_bps * px) / 10_000 - v.est_latency_ms
}

pub fn score_base(v: &VenueCfg, px: i64) -> (r: i64)
    requires
        v.wf(),
        0 <= px <= PX_CAP,
    ensures
        r == spec_score_base(*v, px as int),
        -10_000_000_000_000_000 <= r <= 1_000_000,
{
    proof {
        assert(0 <= (v.fee_bps as int) * (px as int) <= 10_000 * (PX_CAP as int)) by (
        nonlinear_arith)
            requires
                0 <= v.fee_bps <= 10_000,
                0 <= px <= PX_CAP,
        ;
        assert(0 <= (v.fee_bps as int) * (px as int) / 10_000 <= 10_000_000_000_000_000) by (
        nonlinear_arith)
            requires
                0 <= (v.fee_bps as int) * (px as int) <= 10_000 * (PX_CAP as int),
        ;
    }
    let fee_ticks = (v.fee_bps as i64) * px / 10_000;
    let lat_penalty = v.est_latency_ms as i64;
    (v.liq_score as i64) - fee_ticks - lat_penalty
}

/// Sign of a quantity: -1, 0 or +1.
pub open spec fn spec_sign(q: int) -> int {
    if q > 0 {
        1
    } else if q < 0 {
        -1
    } else {
        0
    }
}

/// Quantity held at the venue called `name`: the first matching entry
/// of the association list, 0 if none.
pub open spec fn lookup_qty(bv: Seq<(String, crate::domain::VenuePosition)>, name: Seq<char>) -> int
    decreases bv.len(),
{
    if bv.len() == 0 {
        0
    } else if bv[0].0@ == name {
        bv[0].1.qty as int
    } else {
        lookup_qty(bv.subrange(1, bv.len() as int), name)
    }
}

/// The current net quantity at one venue, read from a symbol's state.
fn venue_qty(st: &SymbolState, name: &String) -> (r: i64)
    ensures
        r == lookup_qty(st.by_venue@, name@),
{
    let n = st.by_venue.len();
    let mut j: usize = 0;
    proof {
        assert(st.by_venue@.subrange(0, n as int) =~= st.by_venue@);
    }
    while j < n
        invariant
            n == st.by_venue@.len(),
            0 <= j <= n,
            lookup_qty(st.by_venue@.subrange(j as int, n as int), name@) == lookup_qty(
                st.by_venue@,
                name@,
            ),
        decreases n - j,
    {
        proof {
            let tail = st.by_venue@.subrange(j as int, n as int);
            assert(tail[0] == st.by_venue@[j as int]);
            assert(tail.subrange(1, tail.len() as int) =~= st.by_venue@.subrange(
                j as int + 1,
                n as int,
            ));
        }
        if st.by_venue[j].0 == *name {
            return st.by_venue[j].1.qty;
        }
        j = j + 1;
    }
    proof {
        assert(st.by_venue@.subrange(n as int, n as int) =~= Seq::<
            (String, crate::domain::VenuePosition),
        >::empty());
    }
    0
}

/// A scored venue: name, parameters, and the final (bias-adjusted) score.
pub open spec fn view_scored(v: Seq<(String, VenueCfg, i64)>) -> Seq<(Seq<char>, VenueCfg, int)> {
    v.map_values(|p: (String, VenueCfg, i64)| (p.0@, p.1, p.2 as int))
}

/// The scored venue list in configuration order: base score plus the
/// inventory bias `-sign(position) * inv_bias_weight`.
pub open spec fn spec_scored(cfg: RouterCfg, inv: Option<SymbolState>, px: int) -> Seq<
    (Seq<char>, VenueCfg, int),
> {
    cfg.venues@.map_values(
        |p: (String, VenueCfg)|
            (
                p.0@,
                p.1,
                spec_score_base(p.1, px) + (match inv {
                    Option::Some(st) => -spec_sign(lookup_qty(st.by_venue@, p.0@))
                        * cfg.inv_bias_weight,
                    Option::None => 0,
                }),
            ),
    )
}

/// Stable insertion into a descending list: the new entry goes after
/// every entry whose score is at least its own.
pub open spec fn insert_desc(s: Seq<(Seq<char>, VenueCfg, int)>, e: (Seq<char>, VenueCfg, int)) -> Seq<
    (Seq<char>, VenueCfg, int),
>
    decreases s.len(),
{
    if s.len() == 0 {
        seq![e]
    } else if e.2 > s[0].2 {
        seq![e] + s
    } else {
        seq![s[0]] + insert_desc(s.subrange(1, s.len() as int), e)
    }
}

/// Stable sort by descending score: entries with equal scores keep
/// their original order.
pub open spec fn sort_desc(s: Seq<(Seq<char>, VenueCfg, int)>) -> Seq<(Seq<char>, VenueCfg, int)>
    decreases s.len(),
{
    if s.len() == 0 {
        Seq::empty()
    } else {
        insert_desc(sort_desc(s.drop_last()), s.last())
    }
}

proof fn lemma_insert_desc_at(s: Seq<(Seq<char>, VenueCfg, int)>, e: (Seq<char>, VenueCfg, int), j: int)
    requires
        0 <= j <= s.len(),
        forall|i: int| 0 <= i < j ==> !(e.2 > (#[trigger] s[i]).2),
        j < s.len() ==> e.2 > s[j].2,
    ensures
        insert_desc(s, e) =~= s.subrange(0, j) + seq![e] + s.subrange(j, s.len() as int),
    decreases s.len(),
{
    if s.len() == 0 {
    } else if e.2 > s[0].2 {
        assert(j == 0);
    } else {
        let t = s.subrange(1, s.len() as int);
        lemma_insert_desc_at(t, e, j - 1);
        assert(t.subrange(0, j - 1) =~= s.subrange(1, j));
        assert(t.subrange(j - 1, t.len() as int) =~= s.subrange(j, s.len() as int));
    }
}

/// Sorts scored venues by descending score, stably.
fn sort_scored(v: Vec<(String, VenueCfg, i64)>) -> (r: Vec<(String, VenueCfg, i64)>)
    ensures
        view_scored(r@) == sort_desc(view_scored(v@)),
{
    let mut out: Vec<(String, VenueCfg, i64)> = Vec::new();
    let mut k: usize = 0;
    proof {
        assert(view_scored(v@.subrange(0, 0)) =~= Seq::<(Seq<char>, VenueCfg, int)>::empty());
        assert(view_scored(out@) =~= sort_desc(view_scored(v@.subrange(0, 0))));
    }
    while k < v.len()
        invariant
            0 <= k <= v@.len(),
            view_scored(out@) == sort_desc(view_scored(v@.subrange(0, k as int))),
            out@.len() == k,
        decreases v@.len() - k,
    {
        let e = (v[k].0.clone(), v[k].1, v[k].2);
        let mut j: usize = 0;
        while j < out.len() && !(e.2 > out[j].2)
            invariant
                0 <= j <= out@.len(),
                forall|i: int|
                    0 <= i < j ==> !(e.2 > (#[trigger] out@[i]).2),
            decreases out@.len() - j,
        {
            j = j + 1;
        }
        let ghost pre = view_scored(out@);
        let ghost ev = (e.0@, e.1, e.2 as int);
        proof {
            lemma_insert_desc_at(pre, ev, j as int);
        }
        out.insert(j, e);
        proof {
            assert(view_scored(out@) =~= pre.subrange(0, j as int) + seq![ev] + pre.subrange(
                j as int,
                pre.len() as int,
            ));
            let next = view_scored(v@.subrange(0, k as int + 1));
            assert(next.drop_last() =~= view_scored(v@.subrange(0, k as int)));
            assert(next.last() == ev);
            assert(view_scored(out@) =~= sort_desc(next));
        }
        k = k + 1;
    }
    proof {
        assert(v@.subrange(0, v@.len() as int) =~= v@);
    }
    out
}

/// Every scored entry carries well-formed venue parameters.
pub open spec fn all_wf(s: Seq<(Seq<char>, VenueCfg, int)>) -> bool {
    forall|i: int| 0 <= i < s.len() ==> (#[trigger] s[i]).1.wf()
}

proof fn lemma_insert_desc_wf(s: Seq<(Seq<char>, VenueCfg, int)>, e: (Seq<char>, VenueCfg, int))
    requires
        all_wf(s),
        e.1.wf(),
    ensures
        all_wf(insert_desc(s, e)),
        insert_desc(s, e).len() == s.len() + 1,
    decreases s.len(),
{
    if s.len() == 0 {
    } else if e.2 > s[0].2 {
    } else {
        let t = s.subrange(1, s.len() as int);
        assert(all_wf(t)) by {
            assert(forall|i: int| 0 <= i < t.len() ==> t[i] == s[i + 1]);
        }
        lemma_insert_desc_wf(t, e);
        let r = seq![s[0]] + insert_desc(t, e);
        assert(forall|i: int| 0 <= i < r.len() ==> (#[trigger] r[i]).1.wf()) by {
            assert(forall|i: int| 1 <= i < r.len() ==> r[i] == insert_desc(t, e)[i - 1]);
        }
    }
}

proof fn lemma_sort_desc_wf(s: Seq<(Seq<char>, VenueCfg, int)>)
    requires
        all_wf(s),
    ensures
        all_wf(sort_desc(s)),
        sort_desc(s).len() == s.len(),
    decreases s.len(),
{
    if s.len() > 0 {
        assert(all_wf(s.drop_last())) by {
            assert(forall|i: int| 0 <= i < s.len() - 1 ==> s.drop_last()[i] == #[trigger] s[i]);
        }
        lemma_sort_desc_wf(s.drop_last());
        lemma_insert_desc_wf(sort_desc(s.drop_last()), s.last());
    }
}

/// Sum of the liquidity scores of the selected venues.
pub open spec fn total_liq(sel: Seq<(Seq<char>, VenueCfg, int)>) -> int
    decreases sel.len(),
{
    if sel.len() == 0 {
        0
    } else {
        total_liq(sel.drop_last()) + sel.last().1.liq_score
    }
}

proof fn lemma_total_liq_bounds(sel: Seq<(Seq<char>, VenueCfg, int)>)
    requires
        all_wf(sel),
    ensures
        sel.len() <= total_liq(sel) <= sel.len() * 1_000_000,
    decreases sel.len(),
{
    if sel.len() > 0 {
        assert(all_wf(sel.drop_last())) by {
            assert(forall|i: int|
                0 <= i < sel.len() - 1 ==> sel.drop_last()[i] == #[trigger] sel[i]);
        }
        lemma_total_liq_bounds(sel.drop_last());
    }
}

/// The liquidity-proportional share of a venue that is not the last of
/// the selection, floored at `min_child_qty`.
pub open spec fn nonlast_share(e: (Seq<char>, VenueCfg, int), qty: int, minc: int, total: int) -> int {
    let prop = qty * e.1.liq_score / total;
    if prop > minc {
        prop
    } else {
        minc
    }
}

/// Sum of the shares handed out before position `i` of the selection.
pub open spec fn sum_shares_before(
    sel: Seq<(Seq<char>, VenueCfg, int)>,
    qty: int,
    minc: int,
    total: int,
    i: int,
) -> int
    decreases i,
{
    if i <= 0 {
        0
    } else {
        sum_shares_before(sel, qty, minc, total as int, i - 1) + nonlast_share(sel[i - 1], qty, minc, total as int)
    }
}

/// The share of the selected venue at position `i`: proportional for all
/// but the last, which receives whatever remains.
pub open spec fn share_at(
    sel: Seq<(Seq<char>, VenueCfg, int)>,
    qty: int,
    minc: int,
    total: int,
    i: int,
) -> int {
    if i == sel.len() - 1 {
        qty - sum_shares_before(sel, qty, minc, total as int, i)
    } else {
        nonlast_share(sel[i], qty, minc, total as int)
    }
}

/// The children emitted from position `i` on: one `(venue, qty)` pair per
/// selected venue whose share is positive.
pub open spec fn spec_children(
    sel: Seq<(Seq<char>, VenueCfg, int)>,
    qty: int,
    minc: int,
    total: int,
    i: int,
) -> Seq<(Seq<char>, int)>
    decreases sel.len() - i,
{
    if i < 0 || i >= sel.len() {
        Seq::empty()
    } else {
        let rest = spec_children(sel, qty, minc, total as int, i + 1);
        let sh = share_at(sel, qty, minc, total as int, i);
        if sh > 0 {
            seq![(sel[i].0, sh)] + rest
        } else {
            rest
        }
    }
}

/// Sum of the quantities of a child list.
pub open spec fn children_qty_sum(kids: Seq<(Seq<char>, int)>) -> int
    decreases kids.len(),
{
    if kids.len() == 0 {
        0
    } else {
        kids[0].1 + children_qty_sum(kids.subrange(1, kids.len() as int))
    }
}

/// One emitted child against its parent order: quantity and venue from
/// the split, the id traceable to the parent, everything else inherited.
pub open spec fn child_matches(c: VenueOrder, parent: Order, k: (Seq<char>, int)) -> bool {
    &&& c.venue@ == k.0
    &&& c.order.qty == k.1
    &&& c.order.cl_id@ == parent.cl_id@ + "-"@ + k.0
    &&& c.order.symbol@ == parent.symbol@
    &&& c.order.side == parent.side
    &&& c.order.px == parent.px
    &&& c.order.ts_ns == parent.ts_ns
}

proof fn lemma_children_sum_from(
    sel: Seq<(Seq<char>, VenueCfg, int)>,
    qty: int,
    minc: int,
    total: int,
    i: int,
)
    requires
        sel.len() >= 1,
        0 <= i <= sel.len() - 1,
        forall|k: int| 0 <= k < sel.len() ==> share_at(sel, qty, minc, total, k) > 0,
    ensures
        children_qty_sum(spec_children(sel, qty, minc, total, i)) == qty - sum_shares_before(
            sel,
            qty,
            minc,
            total,
            i,
        ),
    decreases sel.len() - i,
{
    let sh = share_at(sel, qty, minc, total, i);
    let rest = spec_children(sel, qty, minc, total, i + 1);
    let cur = spec_children(sel, qty, minc, total, i);
    assert(cur == seq![(sel[i].0, sh)] + rest);
    assert(cur[0] == (sel[i].0, sh));
    assert(cur.subrange(1, cur.len() as int) =~= rest);
    assert(children_qty_sum(cur) == sh + children_qty_sum(rest));
    if i == sel.len() - 1 {
        assert(rest =~= Seq::<(Seq<char>, int)>::empty());
        assert(children_qty_sum(rest) == 0);
    } else {
        lemma_children_sum_from(sel, qty, minc, total, i + 1);
        assert(sum_shares_before(sel, qty, minc, total, i + 1) == sum_shares_before(
            sel,
            qty,
            minc,
            total,
            i,
        ) + nonlast_share(sel[i], qty, minc, total));
    }
}

/// Whenever every computed share is positive, the children's quantities
/// sum to the parent quantity.
pub proof fn lemma_split_conserves_qty(
    sel: Seq<(Seq<char>, VenueCfg, int)>,
    qty: int,
    minc: int,
    total: int,
)
    requires
        sel.len() >= 1,
        forall|k: int| 0 <= k < sel.len() ==> share_at(sel, qty, minc, total, k) > 0,
    ensures
        children_qty_sum(spec_children(sel, qty, minc, total, 0)) == qty,
{
    lemma_children_sum_from(sel, qty, minc, total, 0);
}

/// The selection an order at price `px` is split across: the `top_n`
/// best-scored venues.
pub open spec fn spec_selection(cfg: RouterCfg, inv: Option<SymbolState>, px: int) -> Seq<
    (Seq<char>, VenueCfg, int),
> {
    let ranked = sort_desc(spec_scored(cfg, inv, px));
    ranked.subrange(
        0,
        if cfg.top_n <= ranked.len() {
            cfg.top_n as int
        } else {
            ranked.len() as int
        },
    )
}

/// Routes one order: scores every venue (the returned score list, in
/// configuration order, feeds the observability gauges), keeps the
/// `top_n` best, and splits the quantity across them by liquidity. Every
/// child order carries the parent's symbol, side, price and timestamp,
/// and the parent's id with `-<venue>` appended.
#[verifier::rlimit(100)]
pub fn route(cfg: &RouterCfg, inv: Option<&SymbolState>, o: &Order) -> (r: (
    Vec<VenueOrder>,
    Vec<(String, i64)>,
))
    requires
        cfg.wf(),
        0 <= o.px <= PX_CAP,
        0 <= o.qty <= QTY_CAP,
    ensures
        ({
            let inv_v = match inv {
                Option::Some(st) => Option::Some(*st),
                Option::None => Option::None,
            };
            let scored = spec_scored(*cfg, inv_v, o.px as int);
            let sel = spec_selection(*cfg, inv_v, o.px as int);
            let kids = spec_children(
                sel,
                o.qty as int,
                cfg.min_child_qty as int,
                total_liq(sel),
                0,
            );
            &&& r.1@.len() == scored.len()
            &&& (forall|i: int|
                0 <= i < scored.len() ==> (#[trigger] r.1@[i]).0@ == scored[i].0 && r.1@[i].1
                    == scored[i].2)
            &&& r.0@.len() == kids.len()
            &&& (forall|k: int|
                0 <= k < kids.len() ==> child_matches(#[trigger] r.0@[k], *o, kids[k]))
        }),
{
    let ghost inv_v = match inv {
        Option::Some(st) => Option::Some(*st),
        Option::None => Option::<SymbolState>::None,
    };
    let ghost scored_spec = spec_scored(*cfg, inv_v, o.px as int);

    // Score every venue in configuration order.
    let mut ranked: Vec<(String, VenueCfg, i64)> = Vec::new();
    let mut scores: Vec<(String, i64)> = Vec::new();
    let n = cfg.venues.len();
    let mut idx: usize = 0;
    while idx < n
        invariant
            n == cfg.venues@.len(),
            0 <= idx <= n,
            cfg.wf(),
            0 <= o.px <= PX_CAP,
            inv matches Option::Some(st) ==> inv_v == Option::Some(*st),
            inv is None ==> inv_v is None,
            scored_spec == spec_scored(*cfg, inv_v, o.px as int),
            ranked@.len() == idx,
            view_scored(ranked@) =~= scored_spec.subrange(0, idx as int),
            scores@.len() == idx,
            forall|i: int|
                0 <= i < idx ==> (#[trigger] scores@[i]).0@ == scored_spec[i].0 && scores@[i].1
                    == scored_spec[i].2,
        decreases n - idx,
    {
        let name = cfg.venues[idx].0.clone();
        let vc = cfg.venues[idx].1;
        let base = score_base(&vc, o.px);
        let bias: i64 = match inv {
            Option::Some(st) => {
                let q = venue_qty(st, &name);
                if q > 0 {
                    -cfg.inv_bias_weight
                } else if q < 0 {
                    cfg.inv_bias_weight
                } else {
                    0
                }
            },
            Option::None => 0,
        };
        let score = base + bias;
        proof {
            let p = cfg.venues@[idx as int];
            match inv_v {
                Option::Some(st) => {
                    let sq = lookup_qty(st.by_venue@, p.0@);
                    let w = cfg.inv_bias_weight as int;
                    if sq > 0 {
                        assert(-spec_sign(sq) * w == (-1) * w);
                        assert((-1) * w == -w) by (nonlinear_arith);
                    } else if sq < 0 {
                        assert(-spec_sign(sq) * w == 1 * w);
                        assert(1 * w == w) by (nonlinear_arith);
                    } else {
                        assert(-spec_sign(sq) * w == 0 * w);
                        assert(0 * w == 0) by (nonlinear_arith);
                    }
                    assert(bias as int == -spec_sign(sq) * w);
                },
                Option::None => {},
            }
            assert(score as int == scored_spec[idx as int].2);
        }
        ranked.push((name.clone(), vc, score));
        scores.push((name, score));
        proof {
            assert(view_scored(ranked@) =~= scored_spec.subrange(0, idx as int + 1));
        }
        idx = idx + 1;
    }
    proof {
        assert(scored_spec.subrange(0, n as int) =~= scored_spec);
    }

    // Keep the best `top_n`.
    let mut sorted = sort_scored(ranked);
    proof {
        assert(all_wf(scored_spec)) by {
            assert(forall|i: int|
                0 <= i < cfg.venues@.len() ==> (#[trigger] scored_spec[i]).1 == cfg.venues@[i].1);
        }
        lemma_sort_desc_wf(scored_spec);
    }
    proof {
        assert(sort_desc(scored_spec).subrange(0, sort_desc(scored_spec).len() as int)
            =~= sort_desc(scored_spec));
        assert(view_scored(ranked@) == scored_spec);
    }
    while sorted.len() > cfg.top_n
        invariant
            sorted@.len() <= scored_spec.len() <= 1_000,
            sort_desc(scored_spec).len() == scored_spec.len(),
            cfg.top_n <= sorted@.len() || sorted@.len() == scored_spec.len(),
            view_scored(sorted@) =~= sort_desc(scored_spec).subrange(0, sorted@.len() as int),
        decreases sorted@.len(),
    {
        let ghost pre = sorted@;
        sorted.pop();
        proof {
            assert(sorted@ =~= pre.subrange(0, pre.len() - 1));
            assert(forall|k: int|
                0 <= k < sorted@.len() ==> view_scored(sorted@)[k] == #[trigger] view_scored(
                    pre,
                )[k]);
            assert(view_scored(sorted@) =~= sort_desc(scored_spec).subrange(
                0,
                sorted@.len() as int,
            ));
        }
    }
    let top_len = sorted.len();
    let ghost sel = spec_selection(*cfg, inv_v, o.px as int);
    proof {
        assert(view_scored(sorted@) =~= sel);
        assert(all_wf(sel)) by {
            assert(forall|i: int|
                0 <= i < sel.len() ==> sel[i] == #[trigger] sort_desc(scored_spec)[i]);
        }
    }

    // Total liquidity of the selection.
    let mut total: i64 = 0;
    let mut t: usize = 0;
    proof {
        assert(sel.subrange(0, 0) =~= Seq::<(Seq<char>, VenueCfg, int)>::empty());
        lemma_total_liq_bounds(sel);
    }
    while t < top_len
        invariant
            0 <= t <= top_len,
            top_len == sorted@.len(),
            top_len <= 1_000,
            view_scored(sorted@) =~= sel,
            all_wf(sel),
            total == total_liq(sel.subrange(0, t as int)),
            0 <= total <= t * 1_000_000,
        decreases top_len - t,
    {
        proof {
            let pre = sel.subrange(0, t as int + 1);
            assert(pre.drop_last() =~= sel.subrange(0, t as int));
            assert(pre.last() == sel[t as int]);
            lemma_total_liq_bounds(sel.subrange(0, t as int));
            assert(all_wf(pre)) by {
                assert(forall|i: int| 0 <= i < pre.len() ==> pre[i] == #[trigger] sel[i]);
            }
            lemma_total_liq_bounds(pre);
        }
        total = total + (sorted[t].1.liq_score as i64);
        t = t + 1;
    }
    proof {
        assert(sel.subrange(0, top_len as int) =~= sel);
    }

    // Split the quantity across the selection.
    let ghost minc = cfg.min_child_qty as int;
    let ghost qty = o.qty as int;
    let mut kids: Vec<VenueOrder> = Vec::new();
    let mut remaining: i64 = o.qty;
    let mut i: usize = 0;
    proof {
        assert(kids_view(kids@) =~= Seq::<(Seq<char>, int)>::empty());
        assert(kids_view(kids@) + spec_children(sel, qty, minc, total as int, 0) =~= spec_children(
            sel,
            qty,
            minc,
            total as int,
            0,
        ));
    }
    while i < top_len
        invariant
            0 <= i <= top_len,
            top_len == sorted@.len(),
            top_len <= 1_000,
            view_scored(sorted@) =~= sel,
            all_wf(sel),
            cfg.wf(),
            minc == cfg.min_child_qty as int,
            qty == o.qty as int,
            0 <= o.qty <= QTY_CAP,
            total == total_liq(sel),
            sel.len() >= 1 ==> 1 <= total,
            total <= 1_000_000_000,
            i < top_len ==> remaining == qty - sum_shares_before(
                sel,
                qty,
                minc,
                total as int,
                i as int,
            ),
            i < top_len ==> 0 <= sum_shares_before(sel, qty, minc, total as int, i as int) <= i
                * 1_000_000_000_000_000,
            spec_children(sel, qty, minc, total as int, 0) =~= kids_view(kids@) + spec_children(
                sel,
                qty,
                minc,
                total as int,
                i as int,
            ),
            forall|k: int|
                0 <= k < kids@.len() ==> child_matches(
                    #[trigger] kids@[k],
                    *o,
                    kids_view(kids@)[k],
                ),
        decreases top_len - i,
    {
        let liq = sorted[i].1.liq_score as i64;
        let share: i64 = if i == top_len - 1 {
            remaining
        } else {
            proof {
                assert(0 <= qty * (liq as int) <= 1_000_000_000_000_000) by (nonlinear_arith)
                    requires
                        0 <= qty <= QTY_CAP as int,
                        0 <= liq <= 1_000_000,
                ;
                assert(0 <= qty * (liq as int) / (total as int) <= qty * (liq as int)) by (
                nonlinear_arith)
                    requires
                        0 <= qty * (liq as int),
                        1 <= total,
                ;
            }
            let prop = o.qty * liq / total;
            if prop > cfg.min_child_qty {
                prop
            } else {
                cfg.min_child_qty
            }
        };
        proof {
            if i < top_len - 1 {
                assert(0 <= qty * (liq as int)) by (nonlinear_arith)
                    requires
                        0 <= qty,
                        0 <= liq,
                ;
                assert(qty * (liq as int) / (total as int) <= qty * (liq as int)) by (
                nonlinear_arith)
                    requires
                        0 <= qty * (liq as int),
                        1 <= total,
                ;
                assert(share == nonlast_share(sel[i as int], qty, minc, total as int));
                assert(0 <= share <= 1_000_000_000_000_000);
            }
            assert(share == share_at(sel, qty, minc, total as int, i as int));
        }
        remaining = remaining - share;
        if share <= 0 {
            proof {
                assert(spec_children(sel, qty, minc, total as int, i as int) =~= spec_children(
                    sel,
                    qty,
                    minc,
                    total as int,
                    i as int + 1,
                ));
                if i as int + 1 < top_len {
                    assert(sum_shares_before(sel, qty, minc, total as int, i as int + 1)
                        == sum_shares_before(sel, qty, minc, total as int, i as int) + nonlast_share(
                        sel[i as int],
                        qty,
                        minc,
                        total as int,
                    ));
                }
            }
            i = i + 1;
            continue ;
        }
        let mut cid = o.cl_id.clone();
        proof {
            reveal_strlit("-");
        }
        cid.append("-");
        cid.append(sorted[i].0.as_str());
        let child = VenueOrder {
            venue: sorted[i].0.clone(),
            order: Order {
                cl_id: cid,
                ts_ns: o.ts_ns,
                symbol: o.symbol.clone(),
                side: o.side,
                px: o.px,
                qty: share,
            },
        };
        let ghost pre_kids = kids_view(kids@);
        kids.push(child);
        proof {
            assert(kids_view(kids@) =~= pre_kids + seq![(sel[i as int].0, share as int)]);
            assert(spec_children(sel, qty, minc, total as int, i as int) =~= seq![
                (sel[i as int].0, share as int),
            ] + spec_children(sel, qty, minc, total as int, i as int + 1));
            assert(spec_children(sel, qty, minc, total as int, 0) =~= kids_view(kids@) + spec_children(
                sel,
                qty,
                minc,
                total as int,
                i as int + 1,
            ));
            if i as int + 1 < top_len {
                assert(sum_shares_before(sel, qty, minc, total as int, i as int + 1) == sum_shares_before(
                    sel,
                    qty,
                    minc,
                    total as int,
                    i as int,
                ) + nonlast_share(sel[i as int], qty, minc, total as int));
            }
        }
        i = i + 1;
    }
    proof {
        assert(spec_children(sel, qty, minc, total as int, top_len as int) =~= Seq::<
            (Seq<char>, int),
        >::empty());
        assert(kids_view(kids@) =~= spec_children(sel, qty, minc, total as int, 0));
    }
    (kids, scores)
}

/// The `(venue, qty)` shape of an emitted child list.
pub open spec fn kids_view(kids: Seq<VenueOrder>) -> Seq<(Seq<char>, int)> {
    kids.map_values(|c: VenueOrder| (c.venue@, c.order.qty as int))
}

} // verus!
