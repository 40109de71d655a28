use dma_bot::codec::{decode_event, encode_event};
use dma_bot::domain::{Event, ExecReport, ExecStatus, MdTick, Order, Side, Signal};

#[test]
fn md_tick_encodes_to_tagged_line() {
    let e = Event::Md(MdTick {
        ts_ns: 1,
        symbol: String::from("BTCUSDT"),
        best_bid: 10000,
        best_ask: 10001,
    });
    assert_eq!(
        encode_event(&e),
        "{\"Md\":{\"ts_ns\":1,\"symbol\":\"BTCUSDT\",\"best_bid\":10000,\"best_ask\":10001}}"
    );
}

#[test]
fn note_escapes_specials() {
    let e = Event::Note(String::from("a\"b\\c\nd\u{1}e"));
    assert_eq!(encode_event(&e), "{\"Note\":\"a\\\"b\\\\c\\nd\\u0001e\"}");
}

#[test]
fn md_round_trips() {
    let e = Event::Md(MdTick {
        ts_ns: -5,
        symbol: String::from("ETHUSDT"),
        best_bid: 0,
        best_ask: 42,
    });
    assert_eq!(decode_event(&encode_event(&e)), Some(e));
}

#[test]
fn sig_round_trips() {
    let e = Event::Sig(Signal {
        ts_ns: 170000000000,
        symbol: String::from("BTCUSDT"),
        side: Side::Sell,
        px: 9990,
        qty: 10,
    });
    assert_eq!(decode_event(&encode_event(&e)), Some(e));
}

#[test]
fn ord_round_trips() {
    let e = Event::Ord(Order {
        cl_id: String::from("CL-123-77-A"),
        ts_ns: 5,
        symbol: String::from("BTCUSDT"),
        side: Side::Buy,
        px: 10000,
        qty: 10,
    });
    assert_eq!(decode_event(&encode_event(&e)), Some(e));
}

#[test]
fn exec_round_trips_with_reject_reason() {
    let e = Event::Exec(ExecReport {
        cl_id: String::from("CL-1-B"),
        symbol: String::from("BTCUSDT"),
        status: ExecStatus::Rejected(String::from("bad \"px\"\r\n\ttail\\")),
        filled_qty: 0,
        avg_px: 0,
        ts_ns: -1,
    });
    assert_eq!(decode_event(&encode_event(&e)), Some(e));
}

#[test]
fn exec_round_trips_each_status() {
    for status in [ExecStatus::Ack, ExecStatus::PartialFill, ExecStatus::Filled] {
        let e = Event::Exec(ExecReport {
            cl_id: String::from("CL-9-C"),
            symbol: String::from("SOLUSDT"),
            status,
            filled_qty: 3,
            avg_px: 12345,
            ts_ns: 8,
        });
        assert_eq!(decode_event(&encode_event(&e)), Some(e));
    }
}

#[test]
fn note_round_trips_with_controls() {
    let e = Event::Note(String::from("hb \u{0}\u{1f}\u{8}\u{c} ok"));
    assert_eq!(decode_event(&encode_event(&e)), Some(e));
}

#[test]
fn decode_rejects_trailing_garbage() {
    let e = Event::Note(String::from("x"));
    let mut line = encode_event(&e);
    line.push('!');
    assert_eq!(decode_event(&line), None);
}

#[test]
fn decode_rejects_unknown_tag() {
    assert_eq!(decode_event("{\"Foo\":1}"), None);
}

#[test]
fn decode_rejects_non_canonical_spellings() {
    // A parseable but non-canonical line is refused: the decoder only
    // accepts the encoder's exact output.
    assert_eq!(decode_event("{\"Note\":\"\\u0041\"}"), None);
    let canonical = "{\"Md\":{\"ts_ns\":7,\"symbol\":\"X\",\"best_bid\":1,\"best_ask\":2}}";
    assert!(decode_event(canonical).is_some());
    let padded = "{\"Md\":{\"ts_ns\":007,\"symbol\":\"X\",\"best_bid\":1,\"best_ask\":2}}";
    assert_eq!(decode_event(padded), None);
}
