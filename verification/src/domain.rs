//! Core data model of the trading engine: market-data ticks, trade signals,
//! risk-approved orders, per-venue child orders, execution reports, and the
//! per-symbol inventory/PnL state.
//!
//! All prices and quantities are integers in the internal tick scale
//! (two decimal places): a price of 100.00 is stored as 10000.

use vstd::prelude::*;

verus! {

/// Upper bound on prices admitted by the contracts, in tick scale
/// (10^12 ticks = 10^10 currency units). Keeps window sums and
/// price-quantity products inside the machine integer ranges.
pub const PX_CAP: i64 = 1_000_000_000_000;

/// Upper bound on quantities admitted by the contracts, in tick scale.
pub const QTY_CAP: i64 = 1_000_000_000;

/// Direction of a trade intent.
#[derive(Debug, Clone, Copy, PartialEq, Eq, Structural)]
pub enum Side {
    Buy,
    Sell,
}

impl Side {
    /// +1 for a buy, -1 for a sell: the factor that turns an unsigned
    /// fill quantity into a signed inventory change.
    pub fn sign(&self) -> (s: i64)
        ensures
            s == self.spec_sign(),
    {
        match self {
            Side::Buy => 1,
            Side::Sell => -1,
        }
    }

    pub open spec fn spec_sign(&self) -> int {
        match self {
            Side::Buy => 1,
            Side::Sell => -1,
        }
    }
}

/// One best-bid/best-ask observation for a symbol.
#[derive(Debug, Clone, PartialEq, Eq)]
pub struct MdTick {
    pub ts_ns: i128,
    pub symbol: String,
    pub best_bid: i64,
    pub best_ask: i64,
}

impl MdTick {
    /// Every tick a feed emits satisfies this: prices are positive,
    /// the bid does not exceed the ask, and both stay under `PX_CAP`.
    pub open spec fn wf(&self) -> bool {
        0 < self.best_bid <= self.best_ask <= PX_CAP
    }
}

/// The midpoint of a tick, `(best_bid + best_ask) / 2`, in integer division.
pub open spec fn spec_mid(bid: int, ask: int) -> int {
    (bid + ask) / 2
}

/// A trade intent produced by a strategy, before any risk check.
#[derive(Debug, Clone, PartialEq, Eq)]
pub struct Signal {
    pub ts_ns: i128,
    pub symbol: String,
    pub side: Side,
    pub px: i64,
    pub qty: i64,
}

/// A risk-approved signal, carrying a client order id that is unique
/// over the process lifetime.
#[derive(Debug, Clone, PartialEq, Eq)]
pub struct Order {
    pub cl_id: String,
    pub ts_ns: i128,
    pub symbol: String,
    pub side: Side,
    pub px: i64,
    pub qty: i64,
}

/// A child order destined for one venue. Its client order id is the
/// parent's id with `-<venue>` appended.
#[derive(Debug, Clone, PartialEq, Eq)]
pub struct VenueOrder {
    pub venue: String,
    pub order: Order,
}

/// Status carried by an execution report.
#[derive(Debug, Clone, PartialEq, Eq)]
pub enum ExecStatus {
    Ack,
    PartialFill,
    Filled,
    Rejected(String),
}

impl ExecStatus {
    /// Short lowercase label of the status, as used for per-status counters.
    pub fn label(&self) -> (r: &'static str)
        ensures
            r@ == self.spec_label(),
    {
        match self {
            ExecStatus::Ack => "ack",
            ExecStatus::PartialFill => "partial",
            ExecStatus::Filled => "filled",
            ExecStatus::Rejected(_) => "rejected",
        }
    }

    pub open spec fn spec_label(&self) -> Seq<char> {
        match self {
            ExecStatus::Ack => "ack"@,
            ExecStatus::PartialFill => "partial"@,
            ExecStatus::Filled => "filled"@,
            ExecStatus::Rejected(_) => "rejected"@,
        }
    }
}

/// Status update for a client order id. For fill states `filled_qty` is the
/// cumulative filled quantity and `avg_px` the cumulative average fill price.
#[derive(Debug, Clone, PartialEq, Eq)]
pub struct ExecReport {
    pub cl_id: String,
    pub symbol: String,
    pub status: ExecStatus,
    pub filled_qty: i64,
    pub avg_px: i64,
    pub ts_ns: i128,
}

/// Anything the event recorder can write out, one tagged line each.
#[derive(Debug, Clone, PartialEq, Eq)]
pub enum Event {
    Md(MdTick),
    Sig(Signal),
    Ord(Order),
    Exec(ExecReport),
    Note(String),
}

/// Net position at one venue: signed quantity, average cost of the open
/// position, and the profit realized by closing fills.
#[derive(Debug, Clone, Copy, PartialEq, Eq, Structural)]
pub struct VenuePosition {
    pub qty: i64,
    pub avg_cost_px: i64,
    pub realized_pnl: i64,
}

impl VenuePosition {
    pub fn new() -> (r: VenuePosition)
        ensures
            r.qty == 0 && r.avg_cost_px == 0 && r.realized_pnl == 0,
    {
        VenuePosition { qty: 0, avg_cost_px: 0, realized_pnl: 0 }
    }
}

/// Per-symbol inventory: the latest mid, venue positions keyed by venue
/// name, and the aggregates over them.
#[derive(Debug, Clone, PartialEq, Eq)]
pub struct SymbolState {
    pub last_mid: i64,
    pub total_qty: i64,
    pub realized_pnl: i64,
    pub unrealized_pnl: i64,
    /// Association list of venue name to position; venue names are unique.
    pub by_venue: Vec<(String, VenuePosition)>,
}

/// Sum of the signed quantities of the positions in `s`.
pub open spec fn sum_qty(s: Seq<(String, VenuePosition)>) -> int
    decreases s.len(),
{
    if s.len() == 0 {
        0
    } else {
        sum_qty(s.drop_last()) + s.last().1.qty
    }
}

/// Sum of the realized PnL of the positions in `s`.
pub open spec fn sum_realized(s: Seq<(String, VenuePosition)>) -> int
    decreases s.len(),
{
    if s.len() == 0 {
        0
    } else {
        sum_realized(s.drop_last()) + s.last().1.realized_pnl
    }
}

impl SymbolState {
    /// Venue names are pairwise distinct, the stored aggregates equal the
    /// sums over the venue positions, every average cost is a price in
    /// `[0, PX_CAP]`, and the venue table stays small enough for the
    /// aggregation arithmetic.
    pub open spec fn wf(&self) -> bool {
        &&& self.by_venue@.len() <= 10_000
        &&& forall|i: int, j: int|
            0 <= i < j < self.by_venue@.len() ==> self.by_venue@[i].0@ != self.by_venue@[j].0@
        &&& (forall|i: int|
            0 <= i < self.by_venue@.len() ==> 0 <= (#[trigger] self.by_venue@[i]).1.avg_cost_px
                <= PX_CAP)
        &&& self.total_qty == sum_qty(self.by_venue@)
        &&& self.realized_pnl == sum_realized(self.by_venue@)
    }

    pub fn new() -> (r: SymbolState)
        ensures
            r.wf(),
            r.by_venue@.len() == 0,
            r.last_mid == 0 && r.total_qty == 0 && r.realized_pnl == 0 && r.unrealized_pnl == 0,
    {
        SymbolState {
            last_mid: 0,
            total_qty: 0,
            realized_pnl: 0,
            unrealized_pnl: 0,
            by_venue: Vec::new(),
        }
    }
}

/// A timestamped copy of a symbol's state, published through the
/// latest-value inventory channel.
#[derive(Debug, Clone, PartialEq, Eq)]
pub struct InvSnapshot {
    pub ts_ns: i128,
    pub symbol: String,
    pub state: SymbolState,
}

} // verus!
