//! The simulated venue gateway's report making: every accepted child
//! order is acknowledged at once and filled in full after a configured
//! delay. The surrounding task does the waiting and the channel work.

use vstd::prelude::*;
use crate::domain::{ExecReport, ExecStatus, Order};

verus! {

/// The immediate acknowledgement of a received order: no quantity
/// filled yet, same id and symbol.
pub fn ack_report(o: &Order, ts_ns: i128) -> (r: ExecReport)
    ensures
        r.cl_id@ == o.cl_id@,
        r.symbol@ == o.symbol@,
        r.status == ExecStatus::Ack,
        r.filled_qty == 0,
        r.avg_px == 0,
        r.ts_ns == ts_ns,
{
    ExecReport {
        cl_id: o.cl_id.clone(),
        symbol: o.symbol.clone(),
        status: ExecStatus::Ack,
        filled_qty: 0,
        avg_px: 0,
        ts_ns,
    }
}

/// The simulated full fill of an order: the whole quantity at the
/// order's own price, same id and symbol.
pub fn fill_report(o: &Order, ts_ns: i128) -> (r: ExecReport)
    ensures
        r.cl_id@ == o.cl_id@,
        r.symbol@ == o.symbol@,
        r.status == ExecStatus::Filled,
        r.filled_qty == o.qty,
        r.avg_px == o.px,
        r.ts_ns == ts_ns,
{
    ExecReport {
        cl_id: o.cl_id.clone(),
        symbol: o.symbol.clone(),
        status: ExecStatus::Filled,
        filled_qty: o.qty,
        avg_px: o.px,
        ts_ns,
    }
}

/// The rejection emitted when a venue refuses a submission, carrying
/// the venue's reason.
pub fn reject_report(o: &Order, reason: String, ts_ns: i128) -> (r: ExecReport)
    ensures
        r.cl_id@ == o.cl_id@,
        r.symbol@ == o.symbol@,
        r.status matches ExecStatus::Rejected(m) && m@ == reason@,
        r.filled_qty == 0,
        r.avg_px == 0,
        r.ts_ns == ts_ns,
{
    ExecReport {
        cl_id: o.cl_id.clone(),
        symbol: o.symbol.clone(),
        status: ExecStatus::Rejected(reason),
        filled_qty: 0,
        avg_px: 0,
        ts_ns,
    }
}

} // verus!
