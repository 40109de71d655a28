use dma_bot::domain::{MdTick, Side};
use dma_bot::strategy::{MACrossState, StratState, VolBreakoutState};

fn tick(bid: i64, ask: i64, ts: i128) -> MdTick {
    MdTick { ts_ns: ts, symbol: String::from("BTCUSDT"), best_bid: bid, best_ask: ask }
}

#[test]
fn mean_reversion_buys_below_fair() {
    let mut st = StratState::new(64, 3);
    for i in 0..64 {
        let s = st.on_tick(&tick(10000, 10000, i as i128));
        assert!(s.is_none());
    }
    // A tick with the ask well below the rolling fair value emits a Buy.
    let s = st.on_tick(&tick(9985, 9990, 64)).expect("expected a signal");
    assert_eq!(s.px, 9990);
    assert_eq!(s.qty, 10);
    assert!(matches!(s.side, Side::Buy));
    assert_eq!(s.ts_ns, 64);
    assert_eq!(s.symbol, "BTCUSDT");
}

#[test]
fn mean_reversion_sells_above_fair() {
    let mut st = StratState::new(64, 3);
    for i in 0..64 {
        assert!(st.on_tick(&tick(10000, 10000, i as i128)).is_none());
    }
    let s = st.on_tick(&tick(10010, 10012, 64)).expect("expected a signal");
    assert_eq!(s.px, 10010);
    assert!(matches!(s.side, Side::Sell));
}

#[test]
fn mean_reversion_quiet_inside_band() {
    let mut st = StratState::new(8, 3);
    for i in 0..32 {
        assert!(st.on_tick(&tick(10000, 10002, i as i128)).is_none());
    }
}

#[test]
fn ma_crossover_first_cross_emits_one_buy() {
    // 64 mids at 10000, then 16 at 10200: the first tick where the fast
    // mean pulls ahead of the slow one by the edge is a cross and emits
    // exactly one Buy at that tick's ask; nothing follows while the
    // sign holds.
    let mut st = MACrossState::new(16, 64, 2, 16);
    for i in 0..64 {
        assert!(st.on_tick(&tick(10000, 10000, i as i128)).is_none());
    }
    let mut buys = 0;
    let mut others = 0;
    for i in 64..80 {
        if let Some(s) = st.on_tick(&tick(10199, 10201, i as i128)) {
            if matches!(s.side, Side::Buy) {
                assert_eq!(s.px, 10201);
                assert_eq!(s.qty, 10);
                assert_eq!(s.symbol, "BTCUSDT");
                buys += 1;
            } else {
                others += 1;
            }
        }
    }
    assert_eq!(buys, 1);
    assert_eq!(others, 0);
}

#[test]
fn ma_crossover_emits_once_per_crossing() {
    let mut st = MACrossState::new(16, 64, 2, 16);
    for i in 0..64 {
        assert!(st.on_tick(&tick(10000, 10000, i as i128)).is_none());
    }
    // Push the fast mean up: one Buy on the first significant tick.
    let mut buys = 0;
    for i in 64..128 {
        if let Some(s) = st.on_tick(&tick(10200, 10200, i as i128)) {
            assert!(matches!(s.side, Side::Buy));
            buys += 1;
        }
    }
    assert_eq!(buys, 1);
    // Now cross downward: exactly one Sell.
    let mut sells = 0;
    let mut others = 0;
    for i in 128..192 {
        if let Some(s) = st.on_tick(&tick(9800, 9800, i as i128)) {
            if matches!(s.side, Side::Sell) {
                assert_eq!(s.px, 9800);
                sells += 1;
            } else {
                others += 1;
            }
        }
    }
    assert_eq!(sells, 1);
    assert_eq!(others, 0);
}

#[test]
fn vol_breakout_mid_stays_inside_recomputed_range() {
    // The new mid enters the window before the range is recomputed, so
    // a single spike never exceeds the rolling high by the buffer.
    let mut st = VolBreakoutState::new(5, 5, 0);
    for i in 0..5 {
        assert!(st.on_tick(&tick(10000, 10000, i as i128)).is_none());
    }
    assert!(st.on_tick(&tick(10100, 10100, 5)).is_none());
    assert!(st.on_tick(&tick(9000, 9000, 6)).is_none());
}
