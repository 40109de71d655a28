use dma_bot::domain::{ExecReport, ExecStatus, Side};
use dma_bot::positions::{infer_side, venue_of_cl_id, PositionsTask};

fn fill(cl_id: &str, qty: i64, px: i64) -> ExecReport {
    ExecReport {
        cl_id: String::from(cl_id),
        symbol: String::from("BTCUSDT"),
        status: ExecStatus::Filled,
        filled_qty: qty,
        avg_px: px,
        ts_ns: 9,
    }
}

#[test]
fn venue_comes_from_cl_id_suffix() {
    assert_eq!(venue_of_cl_id("CL-123-77-A"), "A");
    assert_eq!(venue_of_cl_id("CL-1-2"), "2");
    assert_eq!(venue_of_cl_id("nodash"), "?");
}

#[test]
fn buy_opens_position_with_average_cost() {
    let mut task = PositionsTask::new(String::from("BTCUSDT"));
    task.on_fill(&fill("CL-1-A", 10, 100), Side::Buy);
    assert_eq!(task.state.by_venue.len(), 1);
    let (venue, pos) = &task.state.by_venue[0];
    assert_eq!(venue, "A");
    assert_eq!(pos.qty, 10);
    assert_eq!(pos.avg_cost_px, 100);
    assert_eq!(pos.realized_pnl, 0);
    assert_eq!(task.state.total_qty, 10);
    assert_eq!(task.state.realized_pnl, 0);
}

#[test]
fn same_direction_fills_blend_average_cost() {
    let mut task = PositionsTask::new(String::from("BTCUSDT"));
    task.on_fill(&fill("CL-1-A", 10, 100), Side::Buy);
    task.on_fill(&fill("CL-2-A", 10, 110), Side::Buy);
    let pos = &task.state.by_venue[0].1;
    assert_eq!(pos.qty, 20);
    // (100 * 10 + 110 * 10) / 20
    assert_eq!(pos.avg_cost_px, 105);
    assert_eq!(task.state.total_qty, 20);
}

#[test]
fn position_flip_realizes_on_closed_quantity() {
    // Buy 10 at 100, then Sell 15 at 110 at the same venue.
    let mut task = PositionsTask::new(String::from("BTCUSDT"));
    task.on_fill(&fill("CL-1-A", 10, 100), Side::Buy);
    task.on_fill(&fill("CL-2-A", 15, 110), Side::Sell);
    let pos = &task.state.by_venue[0].1;
    assert_eq!(pos.qty, -5);
    // (110 - 100) * 10 closed units.
    assert_eq!(pos.realized_pnl, 100);
    // A flip keeps the prior average cost while the position is open.
    assert_eq!(pos.avg_cost_px, 100);
    assert_eq!(task.state.total_qty, -5);
    assert_eq!(task.state.realized_pnl, 100);
}

#[test]
fn opposite_equal_fills_flatten() {
    // A fill of size Q and an opposite fill of size Q at the same
    // price leave no position, no cost and no PnL.
    let mut task = PositionsTask::new(String::from("BTCUSDT"));
    task.on_fill(&fill("CL-1-A", 10, 100), Side::Buy);
    task.on_fill(&fill("CL-2-A", 10, 100), Side::Sell);
    let pos = &task.state.by_venue[0].1;
    assert_eq!(pos.qty, 0);
    assert_eq!(pos.avg_cost_px, 0);
    assert_eq!(pos.realized_pnl, 0);
    assert_eq!(task.state.total_qty, 0);
    assert_eq!(task.state.realized_pnl, 0);
}

#[test]
fn totals_sum_over_venues() {
    let mut task = PositionsTask::new(String::from("BTCUSDT"));
    task.on_fill(&fill("CL-1-A", 10, 100), Side::Buy);
    task.on_fill(&fill("CL-2-B", 4, 100), Side::Sell);
    task.on_fill(&fill("CL-3-B", 7, 110), Side::Sell);
    assert_eq!(task.state.by_venue.len(), 2);
    assert_eq!(task.state.total_qty, 10 - 4 - 7);
    let sum: i64 = task.state.by_venue.iter().map(|(_, p)| p.qty).sum();
    assert_eq!(task.state.total_qty, sum);
}

#[test]
fn mark_to_market_computes_unrealized() {
    let mut task = PositionsTask::new(String::from("BTCUSDT"));
    task.on_fill(&fill("CL-1-A", 10, 100), Side::Buy);
    task.mark_to_market(110);
    assert_eq!(task.state.last_mid, 110);
    assert_eq!(task.state.unrealized_pnl, (110 - 100) * 10);
    // Positions and realized PnL are untouched.
    assert_eq!(task.state.total_qty, 10);
    assert_eq!(task.state.realized_pnl, 0);
}

#[test]
fn side_inferred_from_last_mid() {
    assert!(matches!(infer_side(100, 100), Side::Buy));
    assert!(matches!(infer_side(100, 105), Side::Buy));
    assert!(matches!(infer_side(105, 100), Side::Sell));
}
