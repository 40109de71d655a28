use dma_bot::config::{Limits, MarketMode, StrategyMode};

#[test]
fn strategy_tokens_parse_ignoring_case_and_space() {
    assert_eq!(StrategyMode::parse_one("mean_reversion"), Some(StrategyMode::MeanReversion));
    assert_eq!(StrategyMode::parse_one("meanreversion"), Some(StrategyMode::MeanReversion));
    assert_eq!(StrategyMode::parse_one("  MR "), Some(StrategyMode::MeanReversion));
    assert_eq!(StrategyMode::parse_one("ma_crossover"), Some(StrategyMode::MACrossover));
    assert_eq!(StrategyMode::parse_one("MACrossover"), Some(StrategyMode::MACrossover));
    assert_eq!(StrategyMode::parse_one("ma"), Some(StrategyMode::MACrossover));
    assert_eq!(StrategyMode::parse_one("vol_breakout"), Some(StrategyMode::VolBreakout));
    assert_eq!(StrategyMode::parse_one("VB"), Some(StrategyMode::VolBreakout));
    assert_eq!(StrategyMode::parse_one("unknown"), None);
    assert_eq!(StrategyMode::parse_one(""), None);
}

#[test]
fn strategy_list_skips_unknown_and_collapses_repeats() {
    assert_eq!(
        StrategyMode::parse_list("mean_reversion,ma_crossover"),
        vec![StrategyMode::MeanReversion, StrategyMode::MACrossover]
    );
    assert_eq!(
        StrategyMode::parse_list("mr, mr, vb"),
        vec![StrategyMode::MeanReversion, StrategyMode::VolBreakout]
    );
    assert_eq!(
        StrategyMode::parse_list("nope,,ma, junk ,mr"),
        vec![StrategyMode::MACrossover, StrategyMode::MeanReversion]
    );
    assert_eq!(
        StrategyMode::parse_list("mr,vb,mr"),
        vec![StrategyMode::MeanReversion, StrategyMode::VolBreakout, StrategyMode::MeanReversion]
    );
    assert_eq!(StrategyMode::parse_list(""), vec![]);
    assert_eq!(StrategyMode::parse_list("junk,also junk"), vec![]);
}

#[test]
fn strategy_selection_prefers_list_then_single_then_default() {
    let default_list = vec![StrategyMode::MeanReversion];
    assert_eq!(
        StrategyMode::parse_many(Some("vb,ma"), Some("mr"), default_list.clone()),
        vec![StrategyMode::VolBreakout, StrategyMode::MACrossover]
    );
    assert_eq!(
        StrategyMode::parse_many(Some("junk"), Some("vb"), default_list.clone()),
        vec![StrategyMode::VolBreakout]
    );
    assert_eq!(
        StrategyMode::parse_many(None, Some("ma_crossover"), default_list.clone()),
        vec![StrategyMode::MACrossover]
    );
    assert_eq!(
        StrategyMode::parse_many(None, Some("junk"), default_list.clone()),
        vec![StrategyMode::MeanReversion]
    );
    assert_eq!(
        StrategyMode::parse_many(None, None, default_list.clone()),
        vec![StrategyMode::MeanReversion]
    );
}

#[test]
fn market_mode_tokens_fall_back_to_default() {
    assert!(matches!(MarketMode::from_token("mock", MarketMode::BinanceMainnet), MarketMode::Mock));
    assert!(matches!(
        MarketMode::from_token("BINANCE_SANDBOX", MarketMode::Mock),
        MarketMode::BinanceSandbox
    ));
    assert!(matches!(
        MarketMode::from_token("binance_mainnet", MarketMode::Mock),
        MarketMode::BinanceMainnet
    ));
    assert!(matches!(MarketMode::from_token("", MarketMode::Mock), MarketMode::Mock));
    assert!(matches!(
        MarketMode::from_token("garbage", MarketMode::BinanceSandbox),
        MarketMode::BinanceSandbox
    ));
}

#[test]
fn default_endpoints_per_mode() {
    assert_eq!(MarketMode::Mock.default_ws_url(), "wss://testnet.binance.vision/ws");
    assert_eq!(MarketMode::BinanceSandbox.default_ws_url(), "wss://testnet.binance.vision/ws");
    assert_eq!(MarketMode::BinanceMainnet.default_ws_url(), "wss://stream.binance.com:9443/ws");
    assert_eq!(MarketMode::Mock.default_rest_url(), "https://testnet.binance.vision");
    assert_eq!(MarketMode::BinanceSandbox.default_rest_url(), "https://testnet.binance.vision");
    assert_eq!(MarketMode::BinanceMainnet.default_rest_url(), "https://api.binance.com");
}

#[test]
fn limits_hold_their_fields() {
    let lim = Limits { max_notional: 2_000_000_000, px_min: 1_000, px_max: 200_000, max_qps: 50 };
    assert_eq!(lim.max_notional, 2_000_000_000);
    assert_eq!(lim.px_min, 1_000);
    assert_eq!(lim.px_max, 200_000);
    assert_eq!(lim.max_qps, 50);
}
