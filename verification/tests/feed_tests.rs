use dma_bot::feed::{extract_str_field, mock_next, parse_book_ticker};

#[test]
fn mock_feed_walks_and_clamps() {
    let (px, tick) = mock_next(10000, 3, 7, "BTCUSDT");
    assert_eq!(px, 10003);
    assert_eq!(tick.best_bid, 10003);
    assert_eq!(tick.best_ask, 10004);
    assert_eq!(tick.ts_ns, 7);
    assert_eq!(tick.symbol, "BTCUSDT");

    let (clamped, _) = mock_next(5000, -3, 8, "BTCUSDT");
    assert_eq!(clamped, 5000);
}

#[test]
fn book_ticker_frame_parses_and_scales() {
    let frame = "{\"u\":400900217,\"s\":\"BNBUSDT\",\"b\":\"25.35190000\",\"B\":\"31.21000000\",\
                 \"a\":\"25.36520000\",\"A\":\"40.66000000\"}";
    let (bid, ask) = parse_book_ticker(frame).expect("frame should parse");
    assert_eq!(bid, 2535);
    assert_eq!(ask, 2537);
}

#[test]
fn book_ticker_rejects_nonpositive_and_malformed() {
    assert_eq!(parse_book_ticker("{\"b\":\"0\",\"a\":\"25.3\"}"), None);
    assert_eq!(parse_book_ticker("{\"b\":\"25.3\"}"), None);
    assert_eq!(parse_book_ticker("not json"), None);
    assert_eq!(parse_book_ticker("{\"b\":\"x\",\"a\":\"25.3\"}"), None);
}

#[test]
fn extract_reads_listen_key() {
    let body = "{\"listenKey\":\"pqia91ma19a5s61cv6a81va65sdf19v8a65a1a5s61cv6a81va65sdf19v8a65a1\"}";
    let k = extract_str_field(body, "listenKey").expect("key present");
    assert_eq!(k, "pqia91ma19a5s61cv6a81va65sdf19v8a65a1a5s61cv6a81va65sdf19v8a65a1");
    assert_eq!(extract_str_field(body, "other"), None);
}
