use dma_bot::config::Limits;
use dma_bot::domain::{Side, Signal};
use dma_bot::risk::{check, check_at, Positions, RiskError, ThrottleState};

fn limits() -> Limits {
    Limits { max_notional: 2_000_000_000, px_min: 1_000, px_max: 200_000, max_qps: 50 }
}

fn signal(px: i64, qty: i64) -> Signal {
    Signal { ts_ns: 5, symbol: String::from("BTCUSDT"), side: Side::Buy, px, qty }
}

#[test]
fn accepted_signal_becomes_order_with_cl_id() {
    let lim = limits();
    let pos = Positions::default();
    let mut thr = ThrottleState::default();
    let r = check_at(&signal(10_000, 10), &lim, &pos, &mut thr, 123, 77);
    let o = r.expect("should pass");
    assert_eq!(o.cl_id, "CL-123-77");
    assert_eq!(o.px, 10_000);
    assert_eq!(o.qty, 10);
    assert_eq!(o.ts_ns, 5);
    assert_eq!(o.symbol, "BTCUSDT");
    assert!(matches!(o.side, Side::Buy));
}

#[test]
fn notional_limit_rejects_first() {
    let lim = limits();
    let pos = Positions::default();
    let mut thr = ThrottleState::default();
    // 200_000 * 10_001 exceeds the notional cap (and the band, but the
    // notional check comes first).
    let r = check_at(&signal(200_000, 10_001), &lim, &pos, &mut thr, 1, 1);
    assert_eq!(r.unwrap_err(), RiskError::Notional);
}

#[test]
fn price_band_rejects_out_of_band() {
    let lim = limits();
    let pos = Positions::default();
    let mut thr = ThrottleState::default();
    assert_eq!(
        check_at(&signal(999, 1), &lim, &pos, &mut thr, 1, 1).unwrap_err(),
        RiskError::PriceBand
    );
    assert_eq!(
        check_at(&signal(200_001, 1), &lim, &pos, &mut thr, 1, 1).unwrap_err(),
        RiskError::PriceBand
    );
}

#[test]
fn throttle_caps_orders_per_window() {
    // 100 signals inside one 20 ms window with max_qps = 50: at most 50
    // orders come out, the rest are throttled.
    let lim = limits();
    let pos = Positions::default();
    let mut thr = ThrottleState::default();
    let mut accepted = 0;
    let mut throttled = 0;
    for i in 0..100 {
        match check_at(&signal(10_000, 10), &lim, &pos, &mut thr, 1_000 + i, 7) {
            Ok(_) => accepted += 1,
            Err(RiskError::Throttle) => throttled += 1,
            Err(e) => panic!("unexpected rejection: {:?}", e),
        }
    }
    assert_eq!(accepted, 50);
    assert_eq!(throttled, 50);
}

#[test]
fn fresh_window_resets_counter() {
    let lim = limits();
    let pos = Positions::default();
    let mut thr = ThrottleState::default();
    for i in 0..60 {
        let _ = check_at(&signal(10_000, 10), &lim, &pos, &mut thr, 1_000 + i, 7);
    }
    // 20 ms later the window reopens.
    let r = check_at(&signal(10_000, 10), &lim, &pos, &mut thr, 1_000 + 20_000_000, 7);
    assert!(r.is_ok());
    assert_eq!(thr.counter, 0);
    assert_eq!(thr.last_ns, 1_000 + 20_000_000);
}

#[test]
fn wall_clock_check_accepts_good_signal() {
    let lim = limits();
    let pos = Positions::default();
    let mut thr = ThrottleState::default();
    let r = check(&signal(10_000, 10), &lim, &pos, &mut thr);
    let o = r.expect("first signal should pass");
    assert_eq!(o.px, 10_000);
    assert!(o.cl_id.starts_with("CL-"));
}

#[test]
fn risk_error_messages() {
    assert_eq!(RiskError::Notional.message(), "Notional limit exceeded");
    assert_eq!(RiskError::PriceBand.message(), "Price out of band");
    assert_eq!(RiskError::Throttle.message(), "Throttle exceeded");
}
