//! The strategy state machines. Each one is a pure per-tick function from
//! market data to an optional trade signal; the surrounding process feeds
//! it ticks from the market-data bus and forwards its signals to risk.

use vstd::prelude::*;
use std::collections::VecDeque;
use crate::domain::{MdTick, Signal, Side, PX_CAP, spec_mid};

verus! {

/// Fixed quantity, in tick scale, of every emitted signal.
pub const SIGNAL_QTY: i64 = 10;

/// Largest rolling-window length the contracts accept; keeps window sums
/// far from the i64 range.
pub const MAX_WINDOW: usize = 1_000_000;

/// Sum of the elements of `s`.
pub open spec fn seq_sum(s: Seq<i64>) -> int
    decreases s.len(),
{
    if s.len() == 0 {
        0
    } else {
        seq_sum(s.drop_last()) + s.last()
    }
}

/// All elements of `s` are prices in `[0, PX_CAP]`.
pub open spec fn in_px_range(s: Seq<i64>) -> bool {
    forall|i: int| 0 <= i < s.len() ==> 0 <= #[trigger] s[i] <= PX_CAP
}

pub proof fn lemma_seq_sum_push(s: Seq<i64>, v: i64)
    ensures
        seq_sum(s.push(v)) == seq_sum(s) + v,
{
    assert(s.push(v).drop_last() =~= s);
}

pub proof fn lemma_seq_sum_drop_first(s: Seq<i64>)
    requires
        s.len() > 0,
    ensures
        seq_sum(s.subrange(1, s.len() as int)) == seq_sum(s) - s[0],
    decreases s.len(),
{
    if s.len() == 1 {
        assert(s.subrange(1, 1) =~= Seq::<i64>::empty());
        assert(s.drop_last() =~= Seq::<i64>::empty());
    } else {
        let t = s.drop_last();
        lemma_seq_sum_drop_first(t);
        assert(s.subrange(1, s.len() as int).drop_last() =~= t.subrange(1, t.len() as int));
        assert(s.subrange(1, s.len() as int).last() == s.last());
    }
}

pub proof fn lemma_seq_sum_bounds(s: Seq<i64>)
    requires
        in_px_range(s),
    ensures
        0 <= seq_sum(s) <= s.len() * PX_CAP,
    decreases s.len(),
{
    if s.len() > 0 {
        assert(in_px_range(s.drop_last())) by {
            assert(forall|i: int|
                0 <= i < s.len() - 1 ==> s.drop_last()[i] == #[trigger] s[i]);
        }
        lemma_seq_sum_bounds(s.drop_last());
    }
}

/// The rolling window after absorbing mid `m`: the oldest element falls
/// out once the window has reached its capacity `cap`.
pub open spec fn spec_next_window(win: Seq<i64>, cap: int, m: i64) -> Seq<i64> {
    if win.len() == cap {
        win.subrange(1, win.len() as int).push(m)
    } else {
        win.push(m)
    }
}

/// The midpoint of a well-formed tick.
pub fn mid_price(md: &MdTick) -> (m: i64)
    requires
        md.wf(),
    ensures
        m == spec_mid(md.best_bid as int, md.best_ask as int),
        0 < m <= PX_CAP,
{
    (md.best_bid + md.best_ask) / 2
}

// ---------------------------------------------------------------------------
// Mean-reversion: buy when the ask is well below the rolling fair value,
// sell when the bid is well above it.
// ---------------------------------------------------------------------------

pub struct StratState {
    pub window: VecDeque<i64>,
    pub sum: i64,
    pub edge: i64,
    pub w: usize,
}

impl StratState {
    pub open spec fn wf(&self) -> bool {
        &&& 1 <= self.w <= MAX_WINDOW
        &&& 0 <= self.edge <= PX_CAP
        &&& self.window@.len() <= self.w
        &&& in_px_range(self.window@)
        &&& self.sum == seq_sum(self.window@)
    }

    pub fn new(w: usize, edge: i64) -> (r: StratState)
        requires
            1 <= w <= MAX_WINDOW,
            0 <= edge <= PX_CAP,
        ensures
            r.wf(),
            r.w == w,
            r.edge == edge,
            r.window@.len() == 0,
    {
        StratState { window: VecDeque::with_capacity(w), sum: 0, edge, w }
    }

    /// The rolling fair value: the mean of the window once it is full.
    pub open spec fn spec_fair(&self) -> Option<i64> {
        if self.window@.len() >= self.w {
            Some((seq_sum(self.window@) / (self.w as int)) as i64)
        } else {
            None
        }
    }

    pub fn fair(&self) -> (r: Option<i64>)
        requires
            self.wf(),
        ensures
            r == self.spec_fair(),
            r matches Some(f) ==> 0 <= f <= PX_CAP,
    {
        if self.window.len() >= self.w {
            proof {
                lemma_seq_sum_bounds(self.window@);
                assert(seq_sum(self.window@) <= self.w * PX_CAP);
                assert(0 <= seq_sum(self.window@) / (self.w as int) <= PX_CAP) by (nonlinear_arith)
                    requires
                        0 <= seq_sum(self.window@) <= self.w * PX_CAP,
                        1 <= self.w,
                ;
            }
            Some(self.sum / (self.w as i64))
        } else {
            None
        }
    }

    /// Absorb one tick. The window takes the new mid (dropping the oldest
    /// mid when full); once full, a signal is emitted exactly when the ask
    /// sits more than `edge` below the fair value (Buy at the ask) or the
    /// bid more than `edge` above it (Sell at the bid).
    pub fn on_tick(&mut self, md: &MdTick) -> (r: Option<Signal>)
        requires
            old(self).wf(),
            md.wf(),
        ensures
            final(self).wf(),
            final(self).w == old(self).w,
            final(self).edge == old(self).edge,
            final(self).window@ == spec_next_window(
                old(self).window@,
                old(self).w as int,
                spec_mid(md.best_bid as int, md.best_ask as int) as i64,
            ),
            ({
                let nw = final(self).window@;
                let fair = seq_sum(nw) / (old(self).w as int);
                if nw.len() >= old(self).w && md.best_ask < fair - old(self).edge {
                    r matches Some(s) && s.side == Side::Buy && s.px == md.best_ask && s.qty
                        == SIGNAL_QTY && s.ts_ns == md.ts_ns && s.symbol@ == md.symbol@
                } else if nw.len() >= old(self).w && md.best_bid > fair + old(self).edge {
                    r matches Some(s) && s.side == Side::Sell && s.px == md.best_bid && s.qty
                        == SIGNAL_QTY && s.ts_ns == md.ts_ns && s.symbol@ == md.symbol@
                } else {
                    r is None
                }
            }),
    {
        let m = mid_price(md);
        if self.window.len() == self.w {
            proof {
                lemma_seq_sum_drop_first(self.window@);
                lemma_seq_sum_bounds(self.window@);
            }
            if let Some(x) = self.window.pop_front() {
                self.sum = self.sum - x;
            }
        }
        proof {
            lemma_seq_sum_push(self.window@, m);
            lemma_seq_sum_bounds(self.window@);
        }
        self.window.push_back(m);
        self.sum = self.sum + m;

        if self.window.len() >= self.w {
            proof {
                lemma_seq_sum_bounds(self.window@);
                assert(0 <= seq_sum(self.window@) / (self.w as int) <= PX_CAP) by (
                nonlinear_arith)
                    requires
                        0 <= seq_sum(self.window@) <= self.window@.len() * PX_CAP,
                        self.window@.len() <= self.w,
                        1 <= self.w <= MAX_WINDOW,
                ;
            }
            let fair = self.sum / (self.w as i64);
            if md.best_ask < fair - self.edge {
                return Some(
                    Signal {
                        ts_ns: md.ts_ns,
                        symbol: md.symbol.clone(),
                        side: Side::Buy,
                        px: md.best_ask,
                        qty: SIGNAL_QTY,
                    },
                );
            }
            if md.best_bid > fair + self.edge {
                return Some(
                    Signal {
                        ts_ns: md.ts_ns,
                        symbol: md.symbol.clone(),
                        side: Side::Sell,
                        px: md.best_bid,
                        qty: SIGNAL_QTY,
                    },
                );
            }
        }
        None
    }
}

// ---------------------------------------------------------------------------
// Moving-average crossover: a fast mean crossing the slow mean signals a
// trend change; small differences and fresh crossings inside the cooldown
// are ignored.
// ---------------------------------------------------------------------------

pub struct MACrossState {
    pub fast_w: usize,
    pub slow_w: usize,
    pub fast_win: VecDeque<i64>,
    pub slow_win: VecDeque<i64>,
    pub fast_sum: i64,
    pub slow_sum: i64,
    /// Sign of the last significant fast-minus-slow difference: -1, 0 or +1,
    /// 0 while no significant difference has been seen yet.
    pub prev_diff_sign: i8,
    pub min_edge: i64,
    pub cooldown_ticks: u32,
    pub since_last: u32,
}

impl MACrossState {
    pub open spec fn wf(&self) -> bool {
        &&& 1 <= self.fast_w <= MAX_WINDOW
        &&& 1 <= self.slow_w <= MAX_WINDOW
        &&& 0 <= self.min_edge <= PX_CAP
        &&& self.fast_win@.len() <= self.fast_w
        &&& self.slow_win@.len() <= self.slow_w
        &&& in_px_range(self.fast_win@)
        &&& in_px_range(self.slow_win@)
        &&& self.fast_sum == seq_sum(self.fast_win@)
        &&& self.slow_sum == seq_sum(self.slow_win@)
        &&& (self.prev_diff_sign == -1 || self.prev_diff_sign == 0 || self.prev_diff_sign == 1)
    }

    pub fn new(fast_w: usize, slow_w: usize, min_edge: i64, cooldown_ticks: u32) -> (r:
        MACrossState)
        requires
            1 <= fast_w <= MAX_WINDOW,
            1 <= slow_w <= MAX_WINDOW,
            0 <= min_edge <= PX_CAP,
        ensures
            r.wf(),
            r.fast_w == fast_w,
            r.slow_w == slow_w,
            r.min_edge == min_edge,
            r.cooldown_ticks == cooldown_ticks,
            r.since_last == cooldown_ticks,
            r.prev_diff_sign == 0,
            r.fast_win@.len() == 0,
            r.slow_win@.len() == 0,
    {
        MACrossState {
            fast_w,
            slow_w,
            fast_win: VecDeque::with_capacity(fast_w),
            slow_win: VecDeque::with_capacity(slow_w),
            fast_sum: 0,
            slow_sum: 0,
            prev_diff_sign: 0,
            min_edge,
            cooldown_ticks,
            since_last: cooldown_ticks,
        }
    }

    /// Rolling-window push shared by both windows: drops the oldest value
    /// once `cap` values are held, and keeps `sum` equal to the window sum.
    pub fn push_window(win: &mut VecDeque<i64>, sum: &mut i64, cap: usize, v: i64)
        requires
            1 <= cap <= MAX_WINDOW,
            old(win)@.len() <= cap,
            in_px_range(old(win)@),
            0 <= v <= PX_CAP,
            *old(sum) == seq_sum(old(win)@),
        ensures
            final(win)@ == spec_next_window(old(win)@, cap as int, v),
            *final(sum) == seq_sum(final(win)@),
            final(win)@.len() <= cap,
            in_px_range(final(win)@),
            final(win)@.len() == if old(win)@.len() == cap {
                cap as int
            } else {
                old(win)@.len() + 1int
            },
    {
        if win.len() == cap {
            proof {
                lemma_seq_sum_drop_first(win@);
                lemma_seq_sum_bounds(win@);
            }
            if let Some(x) = win.pop_front() {
                *sum = *sum - x;
            }
        }
        proof {
            lemma_seq_sum_push(win@, v);
            lemma_seq_sum_bounds(win@);
        }
        win.push_back(v);
        *sum = *sum + v;
    }

    /// The simple moving average `sum / len`, `None` for an empty window.
    pub open spec fn spec_sma(sum: int, len: int) -> Option<i64> {
        if len > 0 {
            Some((sum / len) as i64)
        } else {
            None
        }
    }

    pub fn sma(sum: i64, len: usize) -> (r: Option<i64>)
        requires
            0 <= sum,
            len <= MAX_WINDOW,
        ensures
            r == Self::spec_sma(sum as int, len as int),
    {
        if len > 0 {
            proof {
                assert(0 <= sum as int / (len as int) <= sum) by (nonlinear_arith)
                    requires
                        0 <= sum,
                        1 <= len,
                ;
            }
            Some(sum / (len as i64))
        } else {
            None
        }
    }

    /// Absorb one tick. Both windows take the mid; once both are full and
    /// the fast and slow means differ by at least `min_edge`, the sign of
    /// the difference is compared with the previously latched sign: a
    /// differing sign after the cooldown — the first significant sign
    /// counts as a cross — emits a signal (Buy at the ask on an upward
    /// cross, Sell at the bid on a downward one) and resets the cooldown.
    pub fn on_tick(&mut self, md: &MdTick) -> (r: Option<Signal>)
        requires
            old(self).wf(),
            md.wf(),
        ensures
            final(self).wf(),
            final(self).fast_w == old(self).fast_w,
            final(self).slow_w == old(self).slow_w,
            final(self).min_edge == old(self).min_edge,
            final(self).cooldown_ticks == old(self).cooldown_ticks,
            ({
                let m = spec_mid(md.best_bid as int, md.best_ask as int) as i64;
                let fw = spec_next_window(old(self).fast_win@, old(self).fast_w as int, m);
                let sw = spec_next_window(old(self).slow_win@, old(self).slow_w as int, m);
                let bumped = if old(self).since_last == u32::MAX {
                    u32::MAX
                } else {
                    (old(self).since_last + 1) as u32
                };
                let full = fw.len() >= old(self).fast_w && sw.len() >= old(self).slow_w;
                let diff = seq_sum(fw) / (old(self).fast_w as int) - seq_sum(sw) / (
                old(self).slow_w as int);
                let significant = full && (diff >= old(self).min_edge || diff <= -old(
                    self,
                ).min_edge);
                let cur: int = if diff > 0 {
                    1
                } else {
                    -1
                };
                let crossing = significant && cur != old(self).prev_diff_sign && bumped >= old(
                    self,
                ).cooldown_ticks;
                &&& final(self).fast_win@ == fw
                &&& final(self).slow_win@ == sw
                &&& final(self).since_last == if crossing {
                    0
                } else {
                    bumped
                }
                &&& final(self).prev_diff_sign as int == if crossing || (significant && old(
                    self,
                ).prev_diff_sign == 0) {
                    cur
                } else {
                    old(self).prev_diff_sign as int
                }
                &&& (if crossing && cur == 1 {
                    r matches Some(s) && s.side == Side::Buy && s.px == md.best_ask && s.qty
                        == SIGNAL_QTY && s.ts_ns == md.ts_ns && s.symbol@ == md.symbol@
                } else if crossing && cur != 1 {
                    r matches Some(s) && s.side == Side::Sell && s.px == md.best_bid && s.qty
                        == SIGNAL_QTY && s.ts_ns == md.ts_ns && s.symbol@ == md.symbol@
                } else {
                    r is None
                })
            }),
    {
        let m = mid_price(md);
        Self::push_window(&mut self.fast_win, &mut self.fast_sum, self.fast_w, m);
        Self::push_window(&mut self.slow_win, &mut self.slow_sum, self.slow_w, m);

        self.since_last = self.since_last.saturating_add(1);

        if self.fast_win.len() < self.fast_w || self.slow_win.len() < self.slow_w {
            return None;
        }
        proof {
            lemma_seq_sum_bounds(self.fast_win@);
            lemma_seq_sum_bounds(self.slow_win@);
            assert(0 <= seq_sum(self.fast_win@) / (self.fast_w as int) <= PX_CAP) by (
            nonlinear_arith)
                requires
                    0 <= seq_sum(self.fast_win@) <= self.fast_win@.len() * PX_CAP,
                    self.fast_win@.len() <= self.fast_w,
                    1 <= self.fast_w <= MAX_WINDOW,
            ;
            assert(0 <= seq_sum(self.slow_win@) / (self.slow_w as int) <= PX_CAP) by (
            nonlinear_arith)
                requires
                    0 <= seq_sum(self.slow_win@) <= self.slow_win@.len() * PX_CAP,
                    self.slow_win@.len() <= self.slow_w,
                    1 <= self.slow_w <= MAX_WINDOW,
            ;
        }
        let fast = self.fast_sum / (self.fast_w as i64);
        let slow = self.slow_sum / (self.slow_w as i64);
        let diff = fast - slow;

        let adiff = if diff < 0 {
            -diff
        } else {
            diff
        };
        if adiff < self.min_edge {
            return None;
        }

        let cur_sign: i8 = if diff > 0 {
            1
        } else {
            -1
        };

        if cur_sign != self.prev_diff_sign && self.since_last >= self.cooldown_ticks {
            self.prev_diff_sign = cur_sign;
            self.since_last = 0;
            if cur_sign > 0 {
                return Some(
                    Signal {
                        ts_ns: md.ts_ns,
                        symbol: md.symbol.clone(),
                        side: Side::Buy,
                        px: md.best_ask,
                        qty: SIGNAL_QTY,
                    },
                );
            } else {
                return Some(
                    Signal {
                        ts_ns: md.ts_ns,
                        symbol: md.symbol.clone(),
                        side: Side::Sell,
                        px: md.best_bid,
                        qty: SIGNAL_QTY,
                    },
                );
            }
        }

        if self.prev_diff_sign == 0 {
            self.prev_diff_sign = cur_sign;
        }
        None
    }
}

// ---------------------------------------------------------------------------
// Volatility breakout: signal when the mid escapes the rolling high/low
// range by more than a buffer.
// ---------------------------------------------------------------------------

/// Largest element of a nonempty sequence.
pub open spec fn seq_max(s: Seq<i64>) -> int
    recommends
        s.len() > 0,
    decreases s.len(),
{
    if s.len() <= 1 {
        s[0] as int
    } else if seq_max(s.drop_last()) >= s.last() {
        seq_max(s.drop_last())
    } else {
        s.last() as int
    }
}

/// Smallest element of a nonempty sequence.
pub open spec fn seq_min(s: Seq<i64>) -> int
    recommends
        s.len() > 0,
    decreases s.len(),
{
    if s.len() <= 1 {
        s[0] as int
    } else if seq_min(s.drop_last()) <= s.last() {
        seq_min(s.drop_last())
    } else {
        s.last() as int
    }
}

pub proof fn lemma_hilo_bounds(s: Seq<i64>)
    requires
        s.len() >= 1,
        in_px_range(s),
    ensures
        0 <= seq_max(s) <= PX_CAP,
        0 <= seq_min(s) <= PX_CAP,
    decreases s.len(),
{
    if s.len() > 1 {
        assert(in_px_range(s.drop_last())) by {
            assert(forall|i: int|
                0 <= i < s.len() - 1 ==> s.drop_last()[i] == #[trigger] s[i]);
        }
        lemma_hilo_bounds(s.drop_last());
    }
}

pub struct VolBreakoutState {
    pub w: usize,
    pub edge: i64,
    pub window: VecDeque<i64>,
    pub rolling_high: i64,
    pub rolling_low: i64,
    pub cooldown_ticks: u32,
    pub since_last: u32,
}

impl VolBreakoutState {
    pub open spec fn wf(&self) -> bool {
        &&& 1 <= self.w <= MAX_WINDOW
        &&& 0 <= self.edge <= PX_CAP
        &&& self.window@.len() <= self.w
        &&& in_px_range(self.window@)
    }

    pub fn new(w: usize, edge: i64, cooldown_ticks: u32) -> (r: VolBreakoutState)
        requires
            1 <= w <= MAX_WINDOW,
            0 <= edge <= PX_CAP,
        ensures
            r.wf(),
            r.w == w,
            r.edge == edge,
            r.cooldown_ticks == cooldown_ticks,
            r.since_last == cooldown_ticks,
            r.window@.len() == 0,
    {
        VolBreakoutState {
            w,
            edge,
            window: VecDeque::with_capacity(w),
            rolling_high: i64::MIN / 4,
            rolling_low: i64::MAX / 4,
            cooldown_ticks,
            since_last: cooldown_ticks,
        }
    }

    /// The high and low of a nonempty window of prices.
    pub fn recompute_hilo(win: &VecDeque<i64>) -> (r: (i64, i64))
        requires
            win@.len() >= 1,
            in_px_range(win@),
        ensures
            r.0 == seq_max(win@),
            r.1 == seq_min(win@),
    {
        let mut hi: i64 = i64::MIN / 4;
        let mut lo: i64 = i64::MAX / 4;
        let n = win.len();
        let mut i: usize = 0;
        while i < n
            invariant
                n == win@.len(),
                0 <= i <= n,
                in_px_range(win@),
                i > 0 ==> hi == seq_max(win@.take(i as int)) && lo == seq_min(
                    win@.take(i as int),
                ),
                i == 0 ==> hi == i64::MIN / 4 && lo == i64::MAX / 4,
            decreases n - i,
        {
            let v = win[i];
            proof {
                let t = win@.take(i as int + 1);
                assert(t.drop_last() =~= win@.take(i as int));
                assert(t.last() == win@[i as int]);
            }
            if v > hi {
                hi = v;
            }
            if v < lo {
                lo = v;
            }
            proof {
                if i == 0 {
                    assert(win@.take(1).len() == 1);
                    assert(seq_max(win@.take(1)) == win@[0]);
                    assert(seq_min(win@.take(1)) == win@[0]);
                }
            }
            i = i + 1;
        }
        proof {
            assert(win@.take(n as int) =~= win@);
        }
        (hi, lo)
    }

    /// Absorb one tick. The window takes the mid (dropping the oldest when
    /// full); once full, the rolling high and low are recomputed over the
    /// window (which includes the new mid), and, after the cooldown, a mid
    /// above `high + edge` emits a Buy at the ask, one below `low - edge`
    /// a Sell at the bid, either resetting the cooldown.
    pub fn on_tick(&mut self, md: &MdTick) -> (r: Option<Signal>)
        requires
            old(self).wf(),
            md.wf(),
        ensures
            final(self).wf(),
            final(self).w == old(self).w,
            final(self).edge == old(self).edge,
            final(self).cooldown_ticks == old(self).cooldown_ticks,
            ({
                let m = spec_mid(md.best_bid as int, md.best_ask as int) as i64;
                let nw = spec_next_window(old(self).window@, old(self).w as int, m);
                let bumped = if old(self).since_last == u32::MAX {
                    u32::MAX
                } else {
                    (old(self).since_last + 1) as u32
                };
                let full = nw.len() >= old(self).w;
                let breaks_up = full && bumped >= old(self).cooldown_ticks && m > seq_max(nw)
                    + old(self).edge;
                let breaks_down = full && bumped >= old(self).cooldown_ticks && !breaks_up && m
                    < seq_min(nw) - old(self).edge;
                &&& final(self).window@ == nw
                &&& full ==> final(self).rolling_high == seq_max(nw) && final(self).rolling_low
                    == seq_min(nw)
                &&& final(self).since_last == if breaks_up || breaks_down {
                    0
                } else {
                    bumped
                }
                &&& (if breaks_up {
                    r matches Some(s) && s.side == Side::Buy && s.px == md.best_ask && s.qty
                        == SIGNAL_QTY && s.ts_ns == md.ts_ns && s.symbol@ == md.symbol@
                } else if breaks_down {
                    r matches Some(s) && s.side == Side::Sell && s.px == md.best_bid && s.qty
                        == SIGNAL_QTY && s.ts_ns == md.ts_ns && s.symbol@ == md.symbol@
                } else {
                    r is None
                })
            }),
    {
        self.since_last = self.since_last.saturating_add(1);

        let m = mid_price(md);
        if self.window.len() == self.w {
            self.window.pop_front();
        }
        self.window.push_back(m);

        if self.window.len() < self.w {
            return None;
        }

        let (hi, lo) = Self::recompute_hilo(&self.window);
        proof {
            lemma_hilo_bounds(self.window@);
        }
        self.rolling_high = hi;
        self.rolling_low = lo;

        if self.since_last >= self.cooldown_ticks {
            if m > self.rolling_high + self.edge {
                self.since_last = 0;
                return Some(
                    Signal {
                        ts_ns: md.ts_ns,
                        symbol: md.symbol.clone(),
                        side: Side::Buy,
                        px: md.best_ask,
                        qty: SIGNAL_QTY,
                    },
                );
            }
            if m < self.rolling_low - self.edge {
                self.since_last = 0;
                return Some(
                    Signal {
                        ts_ns: md.ts_ns,
                        symbol: md.symbol.clone(),
                        side: Side::Sell,
                        px: md.best_bid,
                        qty: SIGNAL_QTY,
                    },
                );
            }
        }
        None
    }
}

} // verus!
