//! The pre-trade risk gate: notional cap, price band and a time-window
//! throttle, applied in that order. An accepted signal becomes an order
//! with a fresh client order id; a rejection names its kind and is never
//! retried.

use vstd::prelude::*;
use vstd::string::*;
use crate::config::Limits;
use crate::domain::{Order, Signal};
use crate::numtext::{dec_int, dec_nat, push_dec_i128, push_dec_u128};
use crate::sys;

verus! {

/// Length of the throttle window: 20 ms in nanoseconds.
pub const THROTTLE_WINDOW_NS: i128 = 20_000_000;

/// Throttle bookkeeping: the start of the current window and the number
/// of signals that arrived inside it.
#[derive(Debug, Clone, Copy, PartialEq, Eq, Structural)]
pub struct ThrottleState {
    pub last_ns: i128,
    pub counter: u32,
}

impl ThrottleState {
    /// The stored timestamp stays inside the i64 nanosecond range.
    pub open spec fn wf(&self) -> bool {
        i64::MIN as i128 <= self.last_ns <= i64::MAX as i128
    }
}

impl Default for ThrottleState {
    fn default() -> (r: ThrottleState)
        ensures
            r.last_ns == 0 && r.counter == 0,
            r.wf(),
    {
        ThrottleState { last_ns: 0, counter: 0 }
    }
}

/// Net position available to future pre-trade rules; today none of
/// them reads it.
#[derive(Debug, Clone, Copy, PartialEq, Eq, Structural)]
pub struct Positions {
    pub qty: i64,
}

impl Default for Positions {
    fn default() -> (r: Positions)
        ensures
            r.qty == 0,
    {
        Positions { qty: 0 }
    }
}

/// The kinds of pre-trade rejection.
#[derive(Debug, Clone, Copy, PartialEq, Eq, Structural)]
pub enum RiskError {
    Notional,
    PriceBand,
    Throttle,
}

impl RiskError {
    /// Human-readable description of the rejection.
    pub fn message(&self) -> (r: &'static str)
        ensures
            self == RiskError::Notional ==> r@ == "Notional limit exceeded"@,
            self == RiskError::PriceBand ==> r@ == "Price out of band"@,
            self == RiskError::Throttle ==> r@ == "Throttle exceeded"@,
    {
        match self {
            RiskError::Notional => "Notional limit exceeded",
            RiskError::PriceBand => "Price out of band",
            RiskError::Throttle => "Throttle exceeded",
        }
    }
}

/// `px * qty` saturated to the i64 range.
pub open spec fn spec_notional(px: int, qty: int) -> int {
    let p = px * qty;
    if p > i64::MAX as int {
        i64::MAX as int
    } else if p < i64::MIN as int {
        i64::MIN as int
    } else {
        p
    }
}

/// The throttle state after a signal arriving at `now`: inside the
/// current 20 ms window the counter grows, otherwise a new window opens.
pub open spec fn spec_throttle_next(thr: ThrottleState, now: i128) -> ThrottleState {
    if now - thr.last_ns < THROTTLE_WINDOW_NS {
        ThrottleState {
            last_ns: thr.last_ns,
            counter: if thr.counter == u32::MAX {
                u32::MAX
            } else {
                (thr.counter + 1) as u32
            },
        }
    } else {
        ThrottleState { last_ns: now, counter: 0 }
    }
}

/// Whether the throttle rejects a signal arriving at `now`.
pub open spec fn spec_throttle_rejects(thr: ThrottleState, now: i128, max_qps: u32) -> bool {
    now - thr.last_ns < THROTTLE_WINDOW_NS && spec_throttle_next(thr, now).counter > max_qps
}

/// The client order id assigned to a signal accepted at `now` with
/// random tag `nonce`.
pub open spec fn spec_cl_id(now: i128, nonce: u32) -> Seq<char> {
    "CL-"@ + dec_int(now as int) + "-"@ + dec_nat(nonce as int)
}

pub fn make_cl_id(now: i128, nonce: u32) -> (s: String)
    ensures
        s@ == spec_cl_id(now, nonce),
{
    let mut s = String::new();
    proof {
        reveal_strlit("CL-");
        reveal_strlit("-");
    }
    s.append("CL-");
    push_dec_i128(&mut s, now);
    s.append("-");
    push_dec_u128(&mut s, nonce as u128);
    proof {
        assert(s@ =~= spec_cl_id(now, nonce));
    }
    s
}

/// Everything `check_at` promises, as one relation between the signal,
/// the limits, the throttle state before and after, the time and random
/// tag used, and the verdict.
pub open spec fn check_post(
    sig: Signal,
    lim: Limits,
    thr0: ThrottleState,
    now: i128,
    nonce: u32,
    thr1: ThrottleState,
    r: Result<Order, RiskError>,
) -> bool {
    let over_notional = spec_notional(sig.px as int, sig.qty as int) > lim.max_notional;
    let out_of_band = sig.px < lim.px_min || sig.px > lim.px_max;
    let throttled = spec_throttle_rejects(thr0, now, lim.max_qps);
    &&& (r == Err::<Order, RiskError>(RiskError::Notional) <==> over_notional)
    &&& (r == Err::<Order, RiskError>(RiskError::PriceBand) <==> !over_notional && out_of_band)
    &&& (r == Err::<Order, RiskError>(RiskError::Throttle) <==> !over_notional && !out_of_band
        && throttled)
    &&& (r is Ok <==> !over_notional && !out_of_band && !throttled)
    &&& thr1 == if !over_notional && !out_of_band {
        spec_throttle_next(thr0, now)
    } else {
        thr0
    }
    &&& (r matches Ok(o) ==> o.cl_id@ == spec_cl_id(now, nonce) && o.ts_ns == sig.ts_ns
        && o.symbol@ == sig.symbol@ && o.side == sig.side && o.px == sig.px && o.qty == sig.qty)
}

/// The risk checks for a signal arriving at `now`, with `nonce` as the
/// random tag of the client order id. Deterministic in its arguments;
/// `check` supplies the time and the tag.
pub fn check_at(
    sig: &Signal,
    lim: &Limits,
    _pos: &Positions,
    thr: &mut ThrottleState,
    now: i128,
    nonce: u32,
) -> (r: Result<Order, RiskError>)
    requires
        old(thr).wf(),
        i64::MIN as i128 <= now <= i64::MAX as i128,
    ensures
        final(thr).wf(),
        check_post(*sig, *lim, *old(thr), now, nonce, *final(thr), r),
        r matches Ok(o) ==> spec_notional(o.px as int, o.qty as int) <= lim.max_notional
            && lim.px_min <= o.px <= lim.px_max,
        r matches Ok(o) ==> (lim.max_notional < i64::MAX ==> o.px * o.qty
            <= lim.max_notional),
{
    proof {
        let p = sig.px as int;
        let q = sig.qty as int;
        assert((i64::MIN as int) * (i64::MAX as int) <= p * q <= (i64::MIN as int) * (
        i64::MIN as int)) by (nonlinear_arith)
            requires
                i64::MIN as int <= p <= i64::MAX as int,
                i64::MIN as int <= q <= i64::MAX as int,
        ;
    }
    let prod: i128 = (sig.px as i128) * (sig.qty as i128);
    let notional: i64 = if prod > i64::MAX as i128 {
        i64::MAX
    } else if prod < i64::MIN as i128 {
        i64::MIN
    } else {
        prod as i64
    };
    if notional > lim.max_notional {
        return Err(RiskError::Notional);
    }

    if sig.px < lim.px_min || sig.px > lim.px_max {
        return Err(RiskError::PriceBand);
    }

    if now - thr.last_ns < THROTTLE_WINDOW_NS {
        thr.counter = thr.counter.saturating_add(1);
        if thr.counter > lim.max_qps {
            return Err(RiskError::Throttle);
        }
    } else {
        thr.counter = 0;
        thr.last_ns = now;
    }

    let cl_id = make_cl_id(now, nonce);
    Ok(
        Order {
            cl_id,
            ts_ns: sig.ts_ns,
            symbol: sig.symbol.clone(),
            side: sig.side,
            px: sig.px,
            qty: sig.qty,
        },
    )
}

/// The throttle state and the number of accepted signals after a
/// sequence of arrivals (each one having already passed the notional
/// and price-band checks).
pub open spec fn run_throttle(thr: ThrottleState, max_qps: u32, times: Seq<i128>) -> (
    ThrottleState,
    int,
)
    decreases times.len(),
{
    if times.len() == 0 {
        (thr, 0)
    } else {
        let w = run_throttle(thr, max_qps, times.drop_last());
        let next = spec_throttle_next(w.0, times.last());
        (
            next,
            w.1 + if spec_throttle_rejects(w.0, times.last(), max_qps) {
                0int
            } else {
                1int
            },
        )
    }
}

/// Inside one 20 ms window, starting from a fresh counter, at most
/// `max_qps` of any flood of signals are accepted; the rest are
/// throttled.
pub proof fn lemma_throttle_window(thr: ThrottleState, max_qps: u32, times: Seq<i128>)
    requires
        thr.counter == 0,
        times.len() <= u32::MAX,
        forall|i: int|
            0 <= i < times.len() ==> #[trigger] times[i] - thr.last_ns < THROTTLE_WINDOW_NS,
    ensures
        run_throttle(thr, max_qps, times).0.last_ns == thr.last_ns,
        run_throttle(thr, max_qps, times).0.counter == times.len(),
        run_throttle(thr, max_qps, times).1 == if times.len() <= max_qps {
            times.len() as int
        } else {
            max_qps as int
        },
        run_throttle(thr, max_qps, times).1 <= max_qps,
    decreases times.len(),
{
    if times.len() > 0 {
        assert(forall|i: int|
            0 <= i < times.len() - 1 ==> #[trigger] times.drop_last()[i] - thr.last_ns
                < THROTTLE_WINDOW_NS) by {
            assert(forall|i: int|
                0 <= i < times.len() - 1 ==> times.drop_last()[i] == #[trigger] times[i]);
        }
        lemma_throttle_window(thr, max_qps, times.drop_last());
        assert(times.last() == times[times.len() - 1]);
    }
}

/// The risk checks against the wall clock: stamps the signal with the
/// time of arrival and a random tag. The time is out of the caller's
/// hands, so the promise is that some arrival time and tag govern the
/// verdict; everything independent of them is promised outright.
pub fn check(sig: &Signal, lim: &Limits, pos: &Positions, thr: &mut ThrottleState) -> (r: Result<
    Order,
    RiskError,
>)
    requires
        old(thr).wf(),
    ensures
        final(thr).wf(),
        exists|now: i128, nonce: u32|
            #[trigger] check_post(*sig, *lim, *old(thr), now, nonce, *final(thr), r),
        r == Err::<Order, RiskError>(RiskError::Notional) <==> spec_notional(
            sig.px as int,
            sig.qty as int,
        ) > lim.max_notional,
        r == Err::<Order, RiskError>(RiskError::PriceBand) <==> (spec_notional(
            sig.px as int,
            sig.qty as int,
        ) <= lim.max_notional && (sig.px < lim.px_min || sig.px > lim.px_max)),
        r matches Ok(o) ==> spec_notional(o.px as int, o.qty as int) <= lim.max_notional
            && lim.px_min <= o.px <= lim.px_max && o.ts_ns == sig.ts_ns && o.symbol@
            == sig.symbol@ && o.side == sig.side && o.px == sig.px && o.qty == sig.qty,
        r matches Ok(o) ==> (lim.max_notional < i64::MAX ==> o.px * o.qty
            <= lim.max_notional),
{
    let now = sys::now_ns();
    let nonce = sys::random_u32();
    let r = check_at(sig, lim, pos, thr, now, nonce);
    proof {
        assert(check_post(*sig, *lim, *old(thr), now, nonce, *final(thr), r));
    }
    r
}

} // verus!
