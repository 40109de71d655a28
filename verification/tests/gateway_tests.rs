use dma_bot::domain::{ExecStatus, Order, Side};
use dma_bot::gateway::{ack_report, fill_report, reject_report};
use dma_bot::metrics::{init, LabelMap};

fn child() -> Order {
    Order {
        cl_id: String::from("CL-9-C"),
        ts_ns: 4,
        symbol: String::from("BTCUSDT"),
        side: Side::Buy,
        px: 10000,
        qty: 6,
    }
}

#[test]
fn ack_carries_order_identity() {
    let er = ack_report(&child(), 50);
    assert_eq!(er.cl_id, "CL-9-C");
    assert_eq!(er.symbol, "BTCUSDT");
    assert!(matches!(er.status, ExecStatus::Ack));
    assert_eq!(er.filled_qty, 0);
    assert_eq!(er.avg_px, 0);
    assert_eq!(er.ts_ns, 50);
}

#[test]
fn simulated_fill_is_full_at_order_price() {
    let er = fill_report(&child(), 51);
    assert!(matches!(er.status, ExecStatus::Filled));
    assert_eq!(er.filled_qty, 6);
    assert_eq!(er.avg_px, 10000);
    assert_eq!(er.symbol, "BTCUSDT");
}

#[test]
fn reject_carries_venue_reason() {
    let er = reject_report(&child(), String::from("HTTP 400: bad price"), 52);
    match er.status {
        ExecStatus::Rejected(m) => assert_eq!(m, "HTTP 400: bad price"),
        other => panic!("wrong status: {:?}", other),
    }
    assert_eq!(er.filled_qty, 0);
}

#[test]
fn metrics_start_at_zero() {
    let m = init();
    assert_eq!(m.ticks, 0);
    assert_eq!(m.signals, 0);
    assert_eq!(m.orders, 0);
    assert_eq!(m.execs.entries.len(), 0);
    assert_eq!(m.inv_total_qty, 0);
}

#[test]
fn label_map_counts_and_overwrites() {
    let mut lm = LabelMap::new();
    assert_eq!(lm.get("filled", "A"), 0);
    lm.add("filled", "A", 1);
    lm.add("filled", "A", 1);
    lm.add("rejected", "A", 1);
    assert_eq!(lm.get("filled", "A"), 2);
    assert_eq!(lm.get("rejected", "A"), 1);
    lm.set("filled", "A", 10);
    assert_eq!(lm.get("filled", "A"), 10);
    assert_eq!(lm.entries.len(), 2);
}
