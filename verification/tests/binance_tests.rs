use dma_bot::binance::{
    build_submit_query, build_submit_url, exec_report_of_update, px_to_display, sign_query,
    timestamp_ms, OrderTradeUpdate,
};
use dma_bot::domain::{ExecStatus, Order, Side};

#[test]
fn hmac_sha256_hex_known_vector() {
    // The well-known HMAC-SHA256 test vector.
    let sig = sign_query("key", "The quick brown fox jumps over the lazy dog");
    assert_eq!(sig, "f7bc83f430538424b13298e6aa6fb143ef4d59a14946175997479dbc2d1a3cd8");
}

#[test]
fn px_display_drops_trailing_zeros() {
    assert_eq!(px_to_display(2500), "25");
    assert_eq!(px_to_display(2530), "25.3");
    assert_eq!(px_to_display(2501), "25.01");
    assert_eq!(px_to_display(50), "0.5");
    assert_eq!(px_to_display(5), "0.05");
    assert_eq!(px_to_display(0), "0");
}

#[test]
fn submit_query_canonical_order() {
    let o = Order {
        cl_id: String::from("CL-1-A"),
        ts_ns: 5,
        symbol: String::from("btcusdt"),
        side: Side::Buy,
        px: 1234567,
        qty: 10,
    };
    let q = build_submit_query(&o, 111, 5000);
    assert_eq!(
        q,
        "symbol=BTCUSDT&side=BUY&type=LIMIT&timeInForce=GTC&quantity=10&price=12345.67\
         &timestamp=111&recvWindow=5000&newClientOrderId=CL-1-A"
    );
}

#[test]
fn submit_query_percent_encodes_values() {
    let o = Order {
        cl_id: String::from("a b&c"),
        ts_ns: 5,
        symbol: String::from("x/y"),
        side: Side::Sell,
        px: 100,
        qty: 1,
    };
    let q = build_submit_query(&o, 1, 2);
    assert!(q.contains("symbol=X%2FY"));
    assert!(q.contains("side=SELL"));
    assert!(q.contains("newClientOrderId=a%20b%26c"));
}

#[test]
fn submit_url_appends_signature() {
    let u = build_submit_url("https://example.test", "a=1", "beef");
    assert_eq!(u, "https://example.test/api/v3/order?a=1&signature=beef");
}

#[test]
fn order_update_maps_statuses() {
    let base = OrderTradeUpdate {
        s: String::from("BTCUSDT"),
        c: String::from("CL-1-A"),
        X: String::from("FILLED"),
        x: String::from("TRADE"),
        L: Some(String::from("25.35")),
        l: Some(String::from("1")),
        z: Some(String::from("12.9")),
        ap: Some(String::from("25.355")),
    };
    let er = exec_report_of_update(&base, 77);
    assert_eq!(er.cl_id, "CL-1-A");
    assert_eq!(er.symbol, "BTCUSDT");
    assert!(matches!(er.status, ExecStatus::Filled));
    // Cumulative quantity truncates; the average price scales by 100
    // with rounding.
    assert_eq!(er.filled_qty, 12);
    assert_eq!(er.avg_px, 2536);
    assert_eq!(er.ts_ns, 77);

    let mut u = base;
    u.X = String::from("NEW");
    assert!(matches!(exec_report_of_update(&u, 0).status, ExecStatus::Ack));
    u.X = String::from("PARTIALLY_FILLED");
    assert!(matches!(exec_report_of_update(&u, 0).status, ExecStatus::PartialFill));
    u.X = String::from("CANCELED");
    match exec_report_of_update(&u, 0).status {
        ExecStatus::Rejected(m) => assert_eq!(m, "CANCELED"),
        other => panic!("wrong status: {:?}", other),
    }
    u.X = String::from("EXPIRED");
    match exec_report_of_update(&u, 0).status {
        ExecStatus::Rejected(m) => assert_eq!(m, "EXPIRED"),
        other => panic!("wrong status: {:?}", other),
    }
    u.X = String::from("REJECTED");
    match exec_report_of_update(&u, 0).status {
        ExecStatus::Rejected(m) => assert_eq!(m, "REJECTED"),
        other => panic!("wrong status: {:?}", other),
    }
    u.X = String::from("SOMETHING_ELSE");
    assert!(matches!(exec_report_of_update(&u, 0).status, ExecStatus::Ack));
}

#[test]
fn order_update_missing_fields_default_to_zero() {
    let u = OrderTradeUpdate {
        s: String::from("BTCUSDT"),
        c: String::from("CL-1-A"),
        X: String::from("NEW"),
        x: String::from("NEW"),
        L: None,
        l: None,
        z: None,
        ap: None,
    };
    let er = exec_report_of_update(&u, 0);
    assert_eq!(er.filled_qty, 0);
    assert_eq!(er.avg_px, 0);
}

#[test]
fn timestamp_ms_is_callable() {
    let a = timestamp_ms();
    let b = timestamp_ms();
    assert!(b >= a);
}
