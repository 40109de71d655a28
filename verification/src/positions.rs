//! Per-symbol inventory and PnL tracking. One task owns each symbol's
//! state: market ticks move the mark-to-market, execution reports move
//! the per-venue positions, and every update republishes a snapshot.

use vstd::prelude::*;
use vstd::string::*;
use crate::domain::{sum_qty, sum_realized, ExecReport, Side, SymbolState, VenuePosition, PX_CAP};
use crate::router::spec_sign;

verus! {

/// Largest number of venues a symbol's state may hold.
pub const MAX_VENUES: usize = 10_000;

/// The venue name encoded in a client order id: everything after the
/// last '-', or none if the id holds no '-'.
pub open spec fn after_last_dash(cl: Seq<char>) -> Option<Seq<char>>
    decreases cl.len(),
{
    if cl.len() == 0 {
        Option::None
    } else if cl.last() == '-' {
        Option::Some(Seq::empty())
    } else {
        match after_last_dash(cl.drop_last()) {
            Option::Some(s) => Option::Some(s.push(cl.last())),
            Option::None => Option::None,
        }
    }
}

/// The venue a fill is attributed to: the trailing `-<venue>` suffix of
/// the client order id, `"?"` when the id carries none.
pub open spec fn spec_venue_of(cl: Seq<char>) -> Seq<char> {
    match after_last_dash(cl) {
        Option::Some(s) => s,
        Option::None => "?"@,
    }
}

proof fn lemma_after_last_dash_found(cl: Seq<char>, j: int)
    requires
        0 <= j < cl.len(),
        cl[j] == '-',
        forall|k: int| j < k < cl.len() ==> cl[k] != '-',
    ensures
        after_last_dash(cl) == Option::Some(cl.subrange(j + 1, cl.len() as int)),
    decreases cl.len(),
{
    if j == cl.len() - 1 {
        assert(cl.subrange(j + 1, cl.len() as int) =~= Seq::<char>::empty());
    } else {
        let t = cl.drop_last();
        lemma_after_last_dash_found(t, j);
        assert(t.subrange(j + 1, t.len() as int).push(cl.last()) =~= cl.subrange(
            j + 1,
            cl.len() as int,
        ));
    }
}

proof fn lemma_after_last_dash_none(cl: Seq<char>)
    requires
        forall|k: int| 0 <= k < cl.len() ==> cl[k] != '-',
    ensures
        after_last_dash(cl) is None,
    decreases cl.len(),
{
    if cl.len() > 0 {
        lemma_after_last_dash_none(cl.drop_last());
    }
}

/// Reads the venue out of a client order id.
pub fn venue_of_cl_id(cl_id: &str) -> (r: String)
    ensures
        r@ == spec_venue_of(cl_id@),
{
    let n = cl_id.unicode_len();
    let mut i: usize = n;
    while i > 0
        invariant
            0 <= i <= n,
            n == cl_id@.len(),
            forall|k: int| i <= k < n ==> cl_id@[k] != '-',
        decreases i,
    {
        let c = cl_id.get_char(i - 1);
        if c == '-' {
            let suffix = cl_id.substring_char(i, n);
            proof {
                lemma_after_last_dash_found(cl_id@, i as int - 1);
            }
            return suffix.to_owned();
        }
        i = i - 1;
    }
    proof {
        lemma_after_last_dash_none(cl_id@);
    }
    String::from_str("?")
}

/// The venue position stored under `name`, or a flat one if none is.
pub open spec fn lookup_pos(bv: Seq<(String, VenuePosition)>, name: Seq<char>) -> VenuePosition
    decreases bv.len(),
{
    if bv.len() == 0 {
        VenuePosition { qty: 0, avg_cost_px: 0, realized_pnl: 0 }
    } else if bv[0].0@ == name {
        bv[0].1
    } else {
        lookup_pos(bv.subrange(1, bv.len() as int), name)
    }
}

/// Index of the entry stored under `name`, or -1.
pub open spec fn find_venue(bv: Seq<(String, VenuePosition)>, name: Seq<char>) -> int
    decreases bv.len(),
{
    if bv.len() == 0 {
        -1
    } else if bv[0].0@ == name {
        0
    } else {
        let r = find_venue(bv.subrange(1, bv.len() as int), name);
        if r == -1 {
            -1
        } else {
            r + 1
        }
    }
}

pub open spec fn abs(x: int) -> int {
    if x < 0 {
        -x
    } else {
        x
    }
}

/// A position `(qty, avg_cost_px, realized_pnl)` after absorbing a fill
/// of signed quantity `signed` at cumulative average price `px`. A fill
/// in the direction of the position (or from flat) blends the average
/// cost; a fill against it realizes PnL on the closed quantity and
/// clears the average cost when the position flattens.
pub open spec fn fill_step(q: int, a: int, rp: int, signed: int, px: int) -> (int, int, int) {
    let new_qty = q + signed;
    if q == 0 || spec_sign(q) == spec_sign(signed) {
        let avg = if q == 0 {
            px
        } else {
            (a * abs(q) + px * abs(signed)) / (abs(q) + abs(signed))
        };
        (new_qty, avg, rp)
    } else {
        let closed = if abs(signed) < abs(q) {
            abs(signed)
        } else {
            abs(q)
        };
        let pnl = (px - a) * (if q > 0 {
            closed
        } else {
            -closed
        });
        let avg = if new_qty == 0 {
            0
        } else {
            a
        };
        (new_qty, avg, rp + pnl)
    }
}

/// `fill_step` applied to a stored venue position.
pub open spec fn spec_fill_venue(v: VenuePosition, signed: int, px: int) -> (int, int, int) {
    fill_step(v.qty as int, v.avg_cost_px as int, v.realized_pnl as int, signed, px)
}

proof fn lemma_find_venue_at(bv: Seq<(String, VenuePosition)>, name: Seq<char>, j: int)
    requires
        0 <= j < bv.len(),
        bv[j].0@ == name,
        forall|k: int| 0 <= k < j ==> (#[trigger] bv[k]).0@ != name,
    ensures
        find_venue(bv, name) == j,
        lookup_pos(bv, name) == bv[j].1,
    decreases bv.len(),
{
    if j > 0 {
        let t = bv.subrange(1, bv.len() as int);
        assert(forall|k: int| 0 <= k < j - 1 ==> (#[trigger] t[k]).0@ != name) by {
            assert(forall|k: int| 0 <= k < t.len() ==> t[k] == bv[k + 1]);
        }
        lemma_find_venue_at(t, name, j - 1);
    }
}

proof fn lemma_find_venue_none(bv: Seq<(String, VenuePosition)>, name: Seq<char>)
    requires
        forall|k: int| 0 <= k < bv.len() ==> (#[trigger] bv[k]).0@ != name,
    ensures
        find_venue(bv, name) == -1,
        lookup_pos(bv, name) == (VenuePosition { qty: 0, avg_cost_px: 0, realized_pnl: 0 }),
    decreases bv.len(),
{
    if bv.len() > 0 {
        let t = bv.subrange(1, bv.len() as int);
        assert(forall|k: int| 0 <= k < t.len() ==> (#[trigger] t[k]).0@ != name) by {
            assert(forall|k: int| 0 <= k < t.len() ==> t[k] == bv[k + 1]);
        }
        lemma_find_venue_none(t, name);
    }
}

proof fn lemma_sum_qty_update(s: Seq<(String, VenuePosition)>, k: int, x: (String, VenuePosition))
    requires
        0 <= k < s.len(),
    ensures
        sum_qty(s.update(k, x)) == sum_qty(s) - s[k].1.qty + x.1.qty,
        sum_realized(s.update(k, x)) == sum_realized(s) - s[k].1.realized_pnl + x.1.realized_pnl,
    decreases s.len(),
{
    let u = s.update(k, x);
    if k == s.len() - 1 {
        assert(u.drop_last() =~= s.drop_last());
        assert(u.last() == x);
    } else {
        assert(u.drop_last() =~= s.drop_last().update(k, x));
        assert(u.last() == s.last());
        lemma_sum_qty_update(s.drop_last(), k, x);
    }
}

proof fn lemma_sum_push(s: Seq<(String, VenuePosition)>, x: (String, VenuePosition))
    ensures
        sum_qty(s.push(x)) == sum_qty(s) + x.1.qty,
        sum_realized(s.push(x)) == sum_realized(s) + x.1.realized_pnl,
{
    assert(s.push(x).drop_last() =~= s);
}

/// Absorbs one fill into a venue position, in wide arithmetic.
fn fill_pos(v: VenuePosition, signed: i64, px: i64) -> (r: VenuePosition)
    requires
        0 <= v.avg_cost_px <= PX_CAP,
        0 <= px <= PX_CAP,
        i64::MIN <= spec_fill_venue(v, signed as int, px as int).0 <= i64::MAX,
        i64::MIN <= spec_fill_venue(v, signed as int, px as int).2 <= i64::MAX,
    ensures
        ({
            let f = spec_fill_venue(v, signed as int, px as int);
            r.qty == f.0 && r.avg_cost_px == f.1 && r.realized_pnl == f.2
        }),
        0 <= r.avg_cost_px <= PX_CAP,
{
    let prev = v.qty;
    let new_qty_w: i128 = prev as i128 + signed as i128;
    let new_qty: i64 = new_qty_w as i64;
    let prev_sign: i64 = if prev > 0 {
        1
    } else if prev < 0 {
        -1
    } else {
        0
    };
    let signed_sign: i64 = if signed > 0 {
        1
    } else if signed < 0 {
        -1
    } else {
        0
    };
    let ap: i128 = if prev < 0 {
        -(prev as i128)
    } else {
        prev as i128
    };
    let asg: i128 = if signed < 0 {
        -(signed as i128)
    } else {
        signed as i128
    };
    if prev == 0 || prev_sign == signed_sign {
        let avg: i64 = if prev == 0 {
            px
        } else {
            proof {
                assert(0 <= (v.avg_cost_px as int) * (ap as int) <= (PX_CAP as int) * (ap as int))
                    by (nonlinear_arith)
                    requires
                        0 <= v.avg_cost_px <= PX_CAP,
                        0 <= ap,
                ;
                assert(0 <= (px as int) * (asg as int) <= (PX_CAP as int) * (asg as int)) by (
                nonlinear_arith)
                    requires
                        0 <= px <= PX_CAP,
                        0 <= asg,
                ;
                assert((PX_CAP as int) * (ap as int) + (PX_CAP as int) * (asg as int) == (
                PX_CAP as int) * (ap as int + asg as int)) by (nonlinear_arith);
                assert(0 <= ((v.avg_cost_px as int) * (ap as int) + (px as int) * (asg as int)) / (
                ap as int + asg as int) <= PX_CAP as int) by (nonlinear_arith)
                    requires
                        0 <= (v.avg_cost_px as int) * (ap as int) + (px as int) * (asg as int) <= (
                        PX_CAP as int) * (ap as int + asg as int),
                        1 <= ap as int + asg as int,
                ;
            }
            (((v.avg_cost_px as i128) * ap + (px as i128) * asg) / (ap + asg)) as i64
        };
        VenuePosition { qty: new_qty, avg_cost_px: avg, realized_pnl: v.realized_pnl }
    } else {
        let closed: i128 = if asg < ap {
            asg
        } else {
            ap
        };
        let closed_signed: i128 = if prev > 0 {
            closed
        } else {
            -closed
        };
        proof {
            let d = px as int - v.avg_cost_px as int;
            assert(-(PX_CAP as int) * (ap as int) <= d * (closed_signed as int) <= (PX_CAP as int)
                * (ap as int)) by (nonlinear_arith)
                requires
                    -(PX_CAP as int) <= d <= PX_CAP as int,
                    -(ap as int) <= closed_signed as int <= ap as int,
            ;
            assert((PX_CAP as int) * (ap as int) <= (PX_CAP as int) * 9_300_000_000_000_000_000)
                by (nonlinear_arith)
                requires
                    0 <= ap <= 9_300_000_000_000_000_000,
            ;
        }
        let pnl: i128 = ((px - v.avg_cost_px) as i128) * closed_signed;
        let new_realized: i128 = (v.realized_pnl as i128) + pnl;
        let avg: i64 = if new_qty == 0 {
            0
        } else {
            v.avg_cost_px
        };
        VenuePosition { qty: new_qty, avg_cost_px: avg, realized_pnl: new_realized as i64 }
    }
}

/// Tracks one symbol's positions and PnL.
pub struct PositionsTask {
    pub symbol: String,
    pub state: SymbolState,
}

impl PositionsTask {
    pub fn new(symbol: String) -> (r: PositionsTask)
        ensures
            r.symbol@ == symbol@,
            r.state.wf(),
            r.state.by_venue@.len() == 0,
            r.state.last_mid == 0 && r.state.total_qty == 0 && r.state.realized_pnl == 0
                && r.state.unrealized_pnl == 0,
    {
        PositionsTask { symbol, state: SymbolState::new() }
    }

    /// Absorbs one execution report as a fill of `side.sign() *
    /// filled_qty` at price `avg_px`, attributed to the venue named in
    /// the trailing `-<venue>` of the report's client order id (a fresh
    /// venue entry appears at the end of the table). The stored
    /// aggregates are recomputed; the mark-to-market fields are
    /// untouched.
    pub fn on_fill(&mut self, er: &ExecReport, side: Side)
        requires
            old(self).state.wf(),
            old(self).state.by_venue@.len() < MAX_VENUES,
            0 <= er.filled_qty,
            0 <= er.avg_px <= PX_CAP,
            ({
                let name = spec_venue_of(er.cl_id@);
                let v = lookup_pos(old(self).state.by_venue@, name);
                let f = spec_fill_venue(
                    v,
                    side.spec_sign() * er.filled_qty,
                    er.avg_px as int,
                );
                &&& i64::MIN <= f.0 <= i64::MAX
                &&& i64::MIN <= f.2 <= i64::MAX
                &&& i64::MIN <= sum_qty(old(self).state.by_venue@) - v.qty + f.0 <= i64::MAX
                &&& i64::MIN <= sum_realized(old(self).state.by_venue@) - v.realized_pnl + f.2
                    <= i64::MAX
            }),
        ensures
            final(self).state.wf(),
            final(self).symbol == old(self).symbol,
            final(self).state.last_mid == old(self).state.last_mid,
            final(self).state.unrealized_pnl == old(self).state.unrealized_pnl,
            ({
                let bv0 = old(self).state.by_venue@;
                let name = spec_venue_of(er.cl_id@);
                let k = find_venue(bv0, name);
                let f = spec_fill_venue(
                    lookup_pos(bv0, name),
                    side.spec_sign() * er.filled_qty,
                    er.avg_px as int,
                );
                let newpos = VenuePosition {
                    qty: f.0 as i64,
                    avg_cost_px: f.1 as i64,
                    realized_pnl: f.2 as i64,
                };
                let bv1 = final(self).state.by_venue@;
                &&& (k >= 0 ==> bv1 == bv0.update(k, (bv0[k].0, newpos)))
                &&& (k == -1 ==> bv1.len() == bv0.len() + 1 && bv1.subrange(0, bv0.len() as int)
                    == bv0 && bv1.last().0@ == name && bv1.last().1 == newpos)
            }),
    {
        let name = venue_of_cl_id(self.state_cl_id_of(er));
        let s = side.sign();
        let signed: i64 = if s >= 0 {
            er.filled_qty
        } else {
            -er.filled_qty
        };
        proof {
            match side {
                Side::Buy => {
                    assert(1 * (er.filled_qty as int) == er.filled_qty as int) by (nonlinear_arith);
                },
                Side::Sell => {
                    assert((-1) * (er.filled_qty as int) == -(er.filled_qty as int)) by (
                    nonlinear_arith);
                },
            }
        }

        // Find the venue's entry.
        let n = self.state.by_venue.len();
        let mut k: usize = 0;
        let mut found: bool = false;
        while k < n && !found
            invariant
                n == self.state.by_venue@.len(),
                0 <= k <= n,
                !found ==> forall|t: int|
                    0 <= t < k ==> (#[trigger] self.state.by_venue@[t]).0@ != name@,
                found ==> k < n && self.state.by_venue@[k as int].0@ == name@ && forall|t: int|
                    0 <= t < k ==> (#[trigger] self.state.by_venue@[t]).0@ != name@,
            decreases n - k, (if found { 0int } else { 1int }),
        {
            if self.state.by_venue[k].0 == name {
                found = true;
            } else {
                k = k + 1;
            }
        }

        let ghost bv0 = self.state.by_venue@;
        if found {
            proof {
                lemma_find_venue_at(bv0, name@, k as int);
            }
            let entry = self.state.by_venue.remove(k);
            let newpos = fill_pos(entry.1, signed, er.avg_px);
            self.state.by_venue.insert(k, (entry.0, newpos));
            proof {
                assert(self.state.by_venue@ =~= bv0.update(
                    k as int,
                    (bv0[k as int].0, newpos),
                ));
                lemma_sum_qty_update(bv0, k as int, (bv0[k as int].0, newpos));
            }
        } else {
            proof {
                lemma_find_venue_none(bv0, name@);
            }
            let zero = VenuePosition::new();
            let newpos = fill_pos(zero, signed, er.avg_px);
            self.state.by_venue.push((name, newpos));
            proof {
                lemma_sum_push(bv0, (self.state.by_venue@.last().0, newpos));
                assert(self.state.by_venue@.drop_last() =~= bv0);
                assert(self.state.by_venue@.subrange(0, bv0.len() as int) =~= bv0);
            }
        }

        // Recompute the aggregates.
        let (tq, rp) = sum_venues(&self.state.by_venue);
        self.state.total_qty = tq;
        self.state.realized_pnl = rp;
    }

    /// The report's client order id, as a borrowed slice.
    fn state_cl_id_of<'a>(&self, er: &'a ExecReport) -> (r: &'a str)
        ensures
            r@ == er.cl_id@,
    {
        er.cl_id.as_str()
    }
}

/// Unrealized PnL of a venue table at mark price `mid`: the sum of
/// `(mid - avg_cost_px) * qty` over venues with an open position and a
/// nonzero average cost.
pub open spec fn spec_unrealized(bv: Seq<(String, VenuePosition)>, mid: int) -> int
    decreases bv.len(),
{
    if bv.len() == 0 {
        0
    } else {
        spec_unrealized(bv.drop_last(), mid) + (if bv.last().1.qty != 0 && bv.last().1.avg_cost_px
            != 0 {
            (mid - bv.last().1.avg_cost_px) * bv.last().1.qty
        } else {
            0
        })
    }
}

impl PositionsTask {
    /// Marks the book to `mid`: stores the mid and the recomputed
    /// unrealized PnL; positions and realized PnL are untouched.
    pub fn mark_to_market(&mut self, mid: i64)
        requires
            old(self).state.wf(),
            0 <= mid <= PX_CAP,
            i64::MIN <= spec_unrealized(old(self).state.by_venue@, mid as int) <= i64::MAX,
        ensures
            final(self).state.wf(),
            final(self).symbol == old(self).symbol,
            final(self).state.by_venue == old(self).state.by_venue,
            final(self).state.total_qty == old(self).state.total_qty,
            final(self).state.realized_pnl == old(self).state.realized_pnl,
            final(self).state.last_mid == mid,
            final(self).state.unrealized_pnl == spec_unrealized(
                old(self).state.by_venue@,
                mid as int,
            ),
    {
        self.state.last_mid = mid;
        let n = self.state.by_venue.len();
        let mut u: i128 = 0;
        let mut i: usize = 0;
        proof {
            assert(self.state.by_venue@.subrange(0, 0) =~= Seq::<
                (String, VenuePosition),
            >::empty());
        }
        while i < n
            invariant
                n == self.state.by_venue@.len() <= MAX_VENUES,
                0 <= i <= n,
                self.state.wf(),
                0 <= mid <= PX_CAP,
                u == spec_unrealized(self.state.by_venue@.subrange(0, i as int), mid as int),
                -(i as int) * 10_000_000_000_000_000_000_000_000_000_000 <= u <= (i as int)
                    * 10_000_000_000_000_000_000_000_000_000_000,
            decreases n - i,
        {
            proof {
                let pre = self.state.by_venue@.subrange(0, i as int + 1);
                assert(pre.drop_last() =~= self.state.by_venue@.subrange(0, i as int));
                assert(pre.last() == self.state.by_venue@[i as int]);
            }
            let pos = self.state.by_venue[i].1;
            if pos.qty != 0 && pos.avg_cost_px != 0 {
                proof {
                    let d = mid as int - pos.avg_cost_px as int;
                    assert(-10_000_000_000_000_000_000_000_000_000_000 <= d * (pos.qty as int)
                        <= 10_000_000_000_000_000_000_000_000_000_000) by (nonlinear_arith)
                        requires
                            -(PX_CAP as int) <= d <= PX_CAP as int,
                            -9_300_000_000_000_000_000 <= pos.qty as int
                                <= 9_300_000_000_000_000_000,
                    ;
                }
                u = u + ((mid - pos.avg_cost_px) as i128) * (pos.qty as i128);
            }
            i = i + 1;
        }
        proof {
            assert(self.state.by_venue@.subrange(0, n as int) =~= self.state.by_venue@);
        }
        self.state.unrealized_pnl = u as i64;
    }
}

/// The side inferred for an execution report that carries none: a fill
/// at or above the last mid is taken as a buy, below it as a sell. An
/// acknowledged approximation that can misclassify in fast markets.
pub open spec fn spec_infer_side(last_mid: int, avg_px: int) -> Side {
    if last_mid <= avg_px {
        Side::Buy
    } else {
        Side::Sell
    }
}

pub fn infer_side(last_mid: i64, avg_px: i64) -> (r: Side)
    ensures
        r == spec_infer_side(last_mid as int, avg_px as int),
{
    if last_mid <= avg_px {
        Side::Buy
    } else {
        Side::Sell
    }
}

/// A sequence of fills, each a signed quantity and a price.
pub open spec fn sum_signed(fills: Seq<(int, int)>) -> int
    decreases fills.len(),
{
    if fills.len() == 0 {
        0
    } else {
        sum_signed(fills.drop_last()) + fills.last().0
    }
}

/// The position after a whole sequence of fills, starting from
/// `(q, a, rp)`.
pub open spec fn fold_fills(q: int, a: int, rp: int, fills: Seq<(int, int)>) -> (int, int, int)
    decreases fills.len(),
{
    if fills.len() == 0 {
        (q, a, rp)
    } else {
        let w = fold_fills(q, a, rp, fills.drop_last());
        fill_step(w.0, w.1, w.2, fills.last().0, fills.last().1)
    }
}

pub open spec fn fills_wf(fills: Seq<(int, int)>) -> bool {
    forall|i: int|
        0 <= i < fills.len() ==> (#[trigger] fills[i]).0 != 0 && 1 <= fills[i].1 <= PX_CAP
}

proof fn lemma_fill_step_invariant(q: int, a: int, rp: int, signed: int, px: int)
    requires
        signed != 0,
        1 <= px <= PX_CAP,
        a > 0 <==> q != 0,
        0 <= a <= PX_CAP,
    ensures
        ({
            let f = fill_step(q, a, rp, signed, px);
            &&& f.0 == q + signed
            &&& (f.1 > 0 <==> f.0 != 0)
            &&& 0 <= f.1 <= PX_CAP
        }),
{
    let f = fill_step(q, a, rp, signed, px);
    if q == 0 || spec_sign(q) == spec_sign(signed) {
        if q == 0 {
        } else {
            assert(abs(q) >= 1 && abs(signed) >= 1);
            assert(a * abs(q) >= 1 * 1) by (nonlinear_arith)
                requires
                    a >= 1,
                    abs(q) >= 1,
            ;
            assert(a * abs(q) <= PX_CAP * abs(q)) by (nonlinear_arith)
                requires
                    a <= PX_CAP,
                    abs(q) >= 0,
            ;
            assert(px * abs(signed) >= 1) by (nonlinear_arith)
                requires
                    px >= 1,
                    abs(signed) >= 1,
            ;
            assert(px * abs(signed) <= PX_CAP * abs(signed)) by (nonlinear_arith)
                requires
                    px <= PX_CAP,
                    abs(signed) >= 0,
            ;
            let num = a * abs(q) + px * abs(signed);
            let den = abs(q) + abs(signed);
            assert(a * abs(q) >= abs(q)) by (nonlinear_arith)
                requires
                    a >= 1,
                    abs(q) >= 0,
            ;
            assert(px * abs(signed) >= abs(signed)) by (nonlinear_arith)
                requires
                    px >= 1,
                    abs(signed) >= 0,
            ;
            assert(PX_CAP * abs(q) + PX_CAP * abs(signed) == PX_CAP * den) by (nonlinear_arith)
                requires
                    den == abs(q) + abs(signed),
            ;
            assert(1 <= num / den <= PX_CAP) by (nonlinear_arith)
                requires
                    2 <= num,
                    den <= num <= PX_CAP * den,
                    2 <= den,
            ;
            // same signs and both nonzero: the quantity cannot cancel
            assert(f.0 != 0);
        }
    } else {
    }
}

/// After any sequence of fills at one venue, starting flat, the position
/// quantity is the signed sum of the fill quantities, and the average
/// cost is positive exactly while the position is open (and is itself a
/// price in range).
pub proof fn lemma_fills_accumulate(fills: Seq<(int, int)>)
    requires
        fills_wf(fills),
    ensures
        ({
            let f = fold_fills(0, 0, 0, fills);
            &&& f.0 == sum_signed(fills)
            &&& (f.1 > 0 <==> f.0 != 0)
            &&& 0 <= f.1 <= PX_CAP
        }),
    decreases fills.len(),
{
    if fills.len() > 0 {
        assert(fills_wf(fills.drop_last())) by {
            assert(forall|i: int|
                0 <= i < fills.len() - 1 ==> fills.drop_last()[i] == #[trigger] fills[i]);
        }
        lemma_fills_accumulate(fills.drop_last());
        let w = fold_fills(0, 0, 0, fills.drop_last());
        lemma_fill_step_invariant(w.0, w.1, w.2, fills.last().0, fills.last().1);
    }
}

/// A fill of size `q` followed by an opposite fill of size `q` at the
/// same price leaves the venue flat: no quantity, no average cost, no
/// realized PnL.
pub proof fn lemma_opposite_fills_flatten(q: int, px: int)
    requires
        1 <= q,
        1 <= px <= PX_CAP,
    ensures
        ({
            let f1 = fill_step(0, 0, 0, q, px);
            let f2 = fill_step(f1.0, f1.1, f1.2, -q, px);
            f2 == (0int, 0int, 0int)
        }),
{
    let f1 = fill_step(0, 0, 0, q, px);
    assert(f1 == (q, px, 0int));
    let f2 = fill_step(q, px, 0, -q, px);
    assert((px - px) * (if q > 0 { q } else { -q }) == 0) by (nonlinear_arith);
}

/// Sums the venue quantities and realized PnL of a venue table whose
/// sums fit in i64.
fn sum_venues(bv: &Vec<(String, VenuePosition)>) -> (r: (i64, i64))
    requires
        bv@.len() <= MAX_VENUES,
        i64::MIN <= sum_qty(bv@) <= i64::MAX,
        i64::MIN <= sum_realized(bv@) <= i64::MAX,
    ensures
        r.0 == sum_qty(bv@),
        r.1 == sum_realized(bv@),
{
    let n = bv.len();
    let mut tq: i128 = 0;
    let mut rp: i128 = 0;
    let mut i: usize = 0;
    proof {
        assert(bv@.subrange(0, 0) =~= Seq::<(String, VenuePosition)>::empty());
    }
    while i < n
        invariant
            n == bv@.len() <= MAX_VENUES,
            0 <= i <= n,
            tq == sum_qty(bv@.subrange(0, i as int)),
            rp == sum_realized(bv@.subrange(0, i as int)),
            -(i as int) * 9_300_000_000_000_000_000 <= tq <= (i as int) * 9_300_000_000_000_000_000,
            -(i as int) * 9_300_000_000_000_000_000 <= rp <= (i as int) * 9_300_000_000_000_000_000,
        decreases n - i,
    {
        proof {
            let pre = bv@.subrange(0, i as int + 1);
            assert(pre.drop_last() =~= bv@.subrange(0, i as int));
            assert(pre.last() == bv@[i as int]);
        }
        tq = tq + (bv[i].1.qty as i128);
        rp = rp + (bv[i].1.realized_pnl as i128);
        i = i + 1;
    }
    proof {
        assert(bv@.subrange(0, n as int) =~= bv@);
    }
    (tq as i64, rp as i64)
}

} // verus!
