use dma_bot::domain::{Order, Side, SymbolState, VenuePosition};
use dma_bot::router::{route, score_base, RouterCfg, VenueCfg};

fn order(qty: i64, px: i64) -> Order {
    Order {
        cl_id: String::from("CL-1-2"),
        ts_ns: 7,
        symbol: String::from("BTCUSDT"),
        side: Side::Buy,
        px,
        qty,
    }
}

#[test]
fn score_base_formula() {
    let v = VenueCfg { fee_bps: 5, est_latency_ms: 3, liq_score: 70 };
    // 70 - 5 * 10000 / 10000 - 3
    assert_eq!(score_base(&v, 10000), 62);
}

#[test]
fn default_router_splits_top_two_by_liquidity() {
    let cfg = RouterCfg::default();
    let (kids, scores) = route(&cfg, None, &order(10, 10000));
    // Scores: A = 62, B = 41, C = 82; the best two are C then A.
    assert_eq!(scores.len(), 3);
    assert_eq!(scores[0], (String::from("A"), 62));
    assert_eq!(scores[1], (String::from("B"), 41));
    assert_eq!(scores[2], (String::from("C"), 82));
    assert_eq!(kids.len(), 2);
    assert_eq!(kids[0].venue, "C");
    // C's share: max(10 * 90 / 160, 2) = 5; A takes the rest.
    assert_eq!(kids[0].order.qty, 5);
    assert_eq!(kids[1].venue, "A");
    assert_eq!(kids[1].order.qty, 5);
    // The split conserves the parent quantity.
    assert_eq!(kids.iter().map(|k| k.order.qty).sum::<i64>(), 10);
    // Children trace back to the parent.
    assert_eq!(kids[0].order.cl_id, "CL-1-2-C");
    assert_eq!(kids[1].order.cl_id, "CL-1-2-A");
    assert_eq!(kids[0].order.symbol, "BTCUSDT");
    assert_eq!(kids[0].order.px, 10000);
    assert_eq!(kids[0].order.ts_ns, 7);
}

#[test]
fn inventory_bias_reorders_venues() {
    // A long position at C pushes its score below A's: the selection
    // becomes [A, C] with shares 4 and 6.
    let mut cfg = RouterCfg::default();
    cfg.inv_bias_weight = 30;
    let mut st = SymbolState::new();
    st.by_venue.push((
        String::from("C"),
        VenuePosition { qty: 100, avg_cost_px: 10000, realized_pnl: 0 },
    ));
    let (kids, _scores) = route(&cfg, Some(&st), &order(10, 10000));
    assert_eq!(kids.len(), 2);
    assert_eq!(kids[0].venue, "A");
    assert_eq!(kids[0].order.qty, 4);
    assert_eq!(kids[1].venue, "C");
    assert_eq!(kids[1].order.qty, 6);
    assert_eq!(kids.iter().map(|k| k.order.qty).sum::<i64>(), 10);
}

#[test]
fn min_child_floor_applies() {
    let cfg = RouterCfg::default();
    let (kids, _) = route(&cfg, None, &order(3, 10000));
    // C's proportional share 3*90/160 = 1 is floored at 2; A takes 1.
    assert_eq!(kids.len(), 2);
    assert_eq!(kids[0].order.qty, 2);
    assert_eq!(kids[1].order.qty, 1);
}

#[test]
fn negative_leftover_is_skipped() {
    let cfg = RouterCfg::default();
    let (kids, _) = route(&cfg, None, &order(0, 10000));
    // C is floored to 2, which exhausts more than the whole quantity:
    // the last venue's negative share is dropped.
    assert_eq!(kids.len(), 1);
    assert_eq!(kids[0].venue, "C");
    assert_eq!(kids[0].order.qty, 2);
}
