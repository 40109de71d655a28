//! The exchange gateway's pure side: signing of REST submissions,
//! canonical query building, and the translation of user-data-stream
//! order updates into execution reports. The HTTP and websocket work
//! around these lives outside the library.

use vstd::prelude::*;
use vstd::string::*;
use vstd::utf8::encode_utf8;
use hmac::{KeyInit, Mac};
use crate::domain::{ExecReport, ExecStatus, Order, Side};
use crate::numtext::{
    dec_nat, dec_val, dec_valid, digit_char, hex_chars, int_part, parse_px_2dp, parse_qty_trunc,
    push_dec_u128, scaled_2dp, str_eq, u128_to_string, PARSE_INT_CAP,
};

verus! {

/// Relies on std::time::SystemTime::now and duration_since(UNIX_EPOCH)
/// for the wall clock in milliseconds since the epoch; a clock before
/// the epoch is reported as 0. Nothing is assumed of the result.
#[verifier::external_body]
pub fn timestamp_ms() -> u64 {
    match std::time::SystemTime::now().duration_since(std::time::UNIX_EPOCH) {
        Ok(d) => d.as_millis() as u64,
        Err(_) => 0,
    }
}

/// The HMAC-SHA256 tag of `msg` under `key`: a function of the two
/// byte strings alone.
pub uninterp spec fn hmac_sha256_of(key: Seq<u8>, msg: Seq<u8>) -> Seq<u8>;

/// Relies on hmac's Hmac<Sha256> (new_from_slice, update, finalize):
/// the 32-byte HMAC-SHA256 tag of `msg` under `key`. HMAC accepts keys
/// of any length, so construction cannot fail.
#[verifier::external_body]
fn hmac_sha256(key: &str, msg: &str) -> (r: Vec<u8>)
    ensures
        r@ == hmac_sha256_of(key.spec_bytes(), msg.spec_bytes()),
        r@.len() == 32,
{
    let mut mac = hmac::Hmac::<sha2::Sha256>::new_from_slice(key.as_bytes())
        .expect("HMAC accepts keys of any length");
    mac.update(msg.as_bytes());
    mac.finalize().into_bytes().to_vec()
}

/// Relies on hex::encode: each byte becomes two lowercase hex digits,
/// high nibble first, in order.
#[verifier::external_body]
fn hex_encode(b: Vec<u8>) -> (r: String)
    ensures
        r@ == hex_chars(b@),
{
    hex::encode(b)
}

/// Signs a canonical query string: the lowercase hex of its
/// HMAC-SHA256 tag under the API secret, 64 characters for the
/// 32-byte tag.
pub fn sign_query(secret: &str, query: &str) -> (r: String)
    ensures
        r@ == hex_chars(hmac_sha256_of(secret.spec_bytes(), query.spec_bytes())),
        r@.len() == 64,
{
    let mac = hmac_sha256(secret, query);
    proof {
        crate::numtext::lemma_hex_chars_len(mac@);
    }
    hex_encode(mac)
}

/// A byte percent-encoding leaves alone: ASCII alphanumerics and
/// '-', '.', '_', '~'.
pub open spec fn is_url_unreserved(b: u8) -> bool {
    (48 <= b <= 57) || (65 <= b <= 90) || (97 <= b <= 122) || b == 45 || b == 46 || b == 95 || b
        == 126
}

/// The uppercase hexadecimal digit character for `d` in `0..16`.
pub open spec fn hex_upper_char(d: int) -> char {
    if d < 10 {
        digit_char(d)
    } else if d == 10 {
        'A'
    } else if d == 11 {
        'B'
    } else if d == 12 {
        'C'
    } else if d == 13 {
        'D'
    } else if d == 14 {
        'E'
    } else {
        'F'
    }
}

/// Percent-encoding of one byte: itself if unreserved, else `%XX` in
/// uppercase hex.
pub open spec fn urlencode_byte(b: u8) -> Seq<char> {
    if is_url_unreserved(b) {
        seq![b as char]
    } else {
        seq!['%', hex_upper_char(b as int / 16), hex_upper_char(b as int % 16)]
    }
}

/// Percent-encoding of a byte string, byte for byte.
pub open spec fn urlencode_chars(b: Seq<u8>) -> Seq<char>
    decreases b.len(),
{
    if b.len() == 0 {
        Seq::empty()
    } else {
        urlencode_chars(b.drop_last()) + urlencode_byte(b.last())
    }
}

/// Relies on urlencoding::encode: percent-encodes every UTF-8 byte
/// except ASCII alphanumerics and '-', '.', '_', '~', using uppercase
/// hex digits.
#[verifier::external_body]
fn urlencode(s: &str) -> (r: String)
    ensures
        r@ == urlencode_chars(s.spec_bytes()),
{
    urlencoding::encode(s).into_owned()
}

/// The ASCII-uppercased form of a character sequence.
pub open spec fn upper_char(c: char) -> char {
    if 'a' as int <= c as int <= 'z' as int {
        ((c as u8) - 32) as char
    } else {
        c
    }
}

pub open spec fn upper_of(s: Seq<char>) -> Seq<char> {
    s.map_values(|c: char| upper_char(c))
}

/// Relies on str::to_ascii_uppercase: each ASCII lowercase letter is
/// replaced by its uppercase counterpart, every other character kept.
#[verifier::external_body]
fn ascii_upper(s: &str) -> (r: String)
    ensures
        r@ == upper_of(s@),
{
    s.to_ascii_uppercase()
}

/// The venue's decimal rendering of a tick-scaled price: the value
/// divided by 100, with trailing fraction zeros (and a bare '.')
/// dropped.
pub open spec fn px_display(px: int) -> Seq<char> {
    if px % 100 == 0 {
        dec_nat(px / 100)
    } else if px % 10 == 0 {
        dec_nat(px / 100) + seq!['.', digit_char(px / 10 % 10)]
    } else {
        dec_nat(px / 100) + seq!['.', digit_char(px / 10 % 10), digit_char(px % 10)]
    }
}

pub fn px_to_display(px: i64) -> (r: String)
    requires
        0 <= px,
    ensures
        r@ == px_display(px as int),
{
    let mut s = String::new();
    push_dec_u128(&mut s, (px / 100) as u128);
    let r2 = px % 100;
    if r2 != 0 {
        proof {
            reveal_strlit(".");
        }
        s.append(".");
        crate::numtext::push_digit(&mut s, (r2 / 10) as u8);
        if r2 % 10 != 0 {
            crate::numtext::push_digit(&mut s, (r2 % 10) as u8);
        }
    }
    proof {
        assert(s@ =~= px_display(px as int));
    }
    s
}

/// The side strings the venue understands.
pub open spec fn spec_side_str(side: Side) -> Seq<char> {
    match side {
        Side::Buy => "BUY"@,
        Side::Sell => "SELL"@,
    }
}

pub fn side_str(side: Side) -> (r: &'static str)
    ensures
        r@ == spec_side_str(side),
{
    match side {
        Side::Buy => "BUY",
        Side::Sell => "SELL",
    }
}

/// The canonical LIMIT-GTC submission query for an order: URL-encoded
/// `k=v` pairs joined by `&`, in this fixed field order, with the
/// symbol uppercased and the price and quantity in venue units.
pub open spec fn spec_submit_query(
    symbol: Seq<char>,
    side: Side,
    px: int,
    qty: int,
    ts: int,
    recv_window: int,
    cl_id: Seq<char>,
) -> Seq<char> {
    "symbol="@ + urlencode_chars(encode_utf8(upper_of(symbol))) + "&side="@ + urlencode_chars(
        encode_utf8(spec_side_str(side)),
    ) + "&type="@ + urlencode_chars(encode_utf8("LIMIT"@)) + "&timeInForce="@ + urlencode_chars(
        encode_utf8("GTC"@),
    ) + "&quantity="@ + urlencode_chars(encode_utf8(dec_nat(qty))) + "&price="@ + urlencode_chars(
        encode_utf8(px_display(px)),
    ) + "&timestamp="@ + urlencode_chars(encode_utf8(dec_nat(ts))) + "&recvWindow="@
        + urlencode_chars(encode_utf8(dec_nat(recv_window))) + "&newClientOrderId="@
        + urlencode_chars(encode_utf8(cl_id))
}

/// Builds the canonical submission query for an order.
pub fn build_submit_query(o: &Order, ts: u64, recv_window: u64) -> (q: String)
    requires
        0 <= o.px,
        0 <= o.qty,
    ensures
        q@ == spec_submit_query(
            o.symbol@,
            o.side,
            o.px as int,
            o.qty as int,
            ts as int,
            recv_window as int,
            o.cl_id@,
        ),
{
    proof {
        reveal_strlit("symbol=");
        reveal_strlit("&side=");
        reveal_strlit("&type=");
        reveal_strlit("&timeInForce=");
        reveal_strlit("&quantity=");
        reveal_strlit("&price=");
        reveal_strlit("&timestamp=");
        reveal_strlit("&recvWindow=");
        reveal_strlit("&newClientOrderId=");
    }
    let mut q = String::new();
    q.append("symbol=");
    let up = ascii_upper(o.symbol.as_str());
    let v1 = urlencode(up.as_str());
    q.append(v1.as_str());
    q.append("&side=");
    let v2 = urlencode(side_str(o.side));
    q.append(v2.as_str());
    q.append("&type=");
    let v3 = urlencode("LIMIT");
    q.append(v3.as_str());
    q.append("&timeInForce=");
    let v4 = urlencode("GTC");
    q.append(v4.as_str());
    q.append("&quantity=");
    let qty_s = u128_to_string(o.qty as u128);
    let v5 = urlencode(qty_s.as_str());
    q.append(v5.as_str());
    q.append("&price=");
    let px_s = px_to_display(o.px);
    let v6 = urlencode(px_s.as_str());
    q.append(v6.as_str());
    q.append("&timestamp=");
    let ts_s = u128_to_string(ts as u128);
    let v7 = urlencode(ts_s.as_str());
    q.append(v7.as_str());
    q.append("&recvWindow=");
    let rw_s = u128_to_string(recv_window as u128);
    let v8 = urlencode(rw_s.as_str());
    q.append(v8.as_str());
    q.append("&newClientOrderId=");
    let v9 = urlencode(o.cl_id.as_str());
    q.append(v9.as_str());
    proof {
        assert(q@ =~= spec_submit_query(
            o.symbol@,
            o.side,
            o.px as int,
            o.qty as int,
            ts as int,
            recv_window as int,
            o.cl_id@,
        ));
    }
    q
}

/// The full submission URL: the REST base, the fixed order path, the
/// canonical query, and the signature appended last.
pub fn build_submit_url(rest_base: &str, query: &str, signature: &str) -> (u: String)
    ensures
        u@ == rest_base@ + "/api/v3/order?"@ + query@ + "&signature="@ + signature@,
{
    proof {
        reveal_strlit("/api/v3/order?");
        reveal_strlit("&signature=");
    }
    let mut u = String::new();
    u.append(rest_base);
    u.append("/api/v3/order?");
    u.append(query);
    u.append("&signature=");
    u.append(signature);
    proof {
        assert(u@ =~= rest_base@ + "/api/v3/order?"@ + query@ + "&signature="@ + signature@);
    }
    u
}

/// The envelope of a user-data-stream frame.
#[allow(non_snake_case)]
#[derive(Debug, Clone)]
pub struct WsEnvelope {
    /// Event type; order updates carry "ORDER_TRADE_UPDATE".
    pub e: Option<String>,
    /// Event time.
    pub E: Option<u64>,
    /// The embedded order update, when the event carries one.
    pub o: Option<OrderTradeUpdate>,
}

/// The order-update payload of a user-data-stream frame, in the
/// venue's field names.
#[allow(non_snake_case)]
#[derive(Debug, Clone)]
pub struct OrderTradeUpdate {
    /// Symbol.
    pub s: String,
    /// Client order id.
    pub c: String,
    /// Order status: NEW, PARTIALLY_FILLED, FILLED, CANCELED, REJECTED, EXPIRED.
    pub X: String,
    /// Execution type.
    pub x: String,
    /// Last filled price.
    pub L: Option<String>,
    /// Last filled quantity.
    pub l: Option<String>,
    /// Cumulative filled quantity.
    pub z: Option<String>,
    /// Average fill price.
    pub ap: Option<String>,
}

/// The cumulative filled quantity reported in an update, truncated to
/// an integer; 0 when absent or unreadable. Unreadable covers exponent
/// forms and integer parts beyond `PARSE_INT_CAP`, which the venue's
/// plain decimal quantities never carry.
pub open spec fn spec_cum_qty(z: Option<String>) -> int {
    match z {
        Option::Some(s) => if dec_valid(s@) && dec_val(int_part(s@)) <= PARSE_INT_CAP {
            dec_val(int_part(s@))
        } else {
            0
        },
        Option::None => 0,
    }
}

/// The average fill price reported in an update, scaled by 100 and
/// rounded; 0 when absent or unreadable. Unreadable covers exponent
/// forms and integer parts beyond `PARSE_INT_CAP`, which the venue's
/// plain decimal prices never carry.
pub open spec fn spec_avg_px_of(ap: Option<String>) -> int {
    match ap {
        Option::Some(s) => if dec_valid(s@) && dec_val(int_part(s@)) <= PARSE_INT_CAP {
            scaled_2dp(s@)
        } else {
            0
        },
        Option::None => 0,
    }
}

/// Translates a venue order update into an execution report: NEW maps
/// to Ack, PARTIALLY_FILLED and FILLED to the fill states, CANCELED,
/// EXPIRED and REJECTED to rejections carrying the venue status, and
/// anything else, defensively, to Ack.
pub fn exec_report_of_update(u: &OrderTradeUpdate, ts_ns: i128) -> (r: ExecReport)
    ensures
        r.cl_id@ == u.c@,
        r.symbol@ == u.s@,
        r.ts_ns == ts_ns,
        r.filled_qty == spec_cum_qty(u.z),
        r.avg_px == spec_avg_px_of(u.ap),
        u.X@ == "NEW"@ ==> r.status == ExecStatus::Ack,
        u.X@ == "PARTIALLY_FILLED"@ ==> r.status == ExecStatus::PartialFill,
        u.X@ == "FILLED"@ ==> r.status == ExecStatus::Filled,
        u.X@ == "CANCELED"@ || u.X@ == "EXPIRED"@ || u.X@ == "REJECTED"@ ==> (r.status matches
            ExecStatus::Rejected(m) && m@ == u.X@),
        (u.X@ != "NEW"@ && u.X@ != "PARTIALLY_FILLED"@ && u.X@ != "FILLED"@ && u.X@ != "CANCELED"@
            && u.X@ != "EXPIRED"@ && u.X@ != "REJECTED"@) ==> r.status == ExecStatus::Ack,
{
    proof {
        reveal_strlit("NEW");
        reveal_strlit("PARTIALLY_FILLED");
        reveal_strlit("FILLED");
        reveal_strlit("CANCELED");
        reveal_strlit("EXPIRED");
        reveal_strlit("REJECTED");
        assert("NEW"@.len() == 3 && "PARTIALLY_FILLED"@.len() == 16 && "FILLED"@.len() == 6
            && "CANCELED"@.len() == 8 && "EXPIRED"@.len() == 7 && "REJECTED"@.len() == 8);
        assert("CANCELED"@[0] == 'C' && "REJECTED"@[0] == 'R');
        assert("NEW"@ != "PARTIALLY_FILLED"@ && "NEW"@ != "FILLED"@ && "NEW"@ != "CANCELED"@
            && "NEW"@ != "EXPIRED"@ && "NEW"@ != "REJECTED"@);
        assert("PARTIALLY_FILLED"@ != "FILLED"@ && "PARTIALLY_FILLED"@ != "CANCELED"@
            && "PARTIALLY_FILLED"@ != "EXPIRED"@ && "PARTIALLY_FILLED"@ != "REJECTED"@);
        assert("FILLED"@ != "CANCELED"@ && "FILLED"@ != "EXPIRED"@ && "FILLED"@ != "REJECTED"@);
        assert("CANCELED"@ != "REJECTED"@);
    }
    let status: ExecStatus = if str_eq(u.X.as_str(), "NEW") {
        ExecStatus::Ack
    } else if str_eq(u.X.as_str(), "PARTIALLY_FILLED") {
        ExecStatus::PartialFill
    } else if str_eq(u.X.as_str(), "FILLED") {
        ExecStatus::Filled
    } else if str_eq(u.X.as_str(), "CANCELED") || str_eq(u.X.as_str(), "EXPIRED") || str_eq(
        u.X.as_str(),
        "REJECTED",
    ) {
        ExecStatus::Rejected(u.X.clone())
    } else {
        ExecStatus::Ack
    };

    let cum_filled: i64 = match &u.z {
        Option::Some(s) => match parse_qty_trunc(s.as_str()) {
            Option::Some(v) => v,
            Option::None => 0,
        },
        Option::None => 0,
    };
    let avg_px: i64 = match &u.ap {
        Option::Some(s) => match parse_px_2dp(s.as_str()) {
            Option::Some(v) => v,
            Option::None => 0,
        },
        Option::None => 0,
    };

    ExecReport {
        cl_id: u.c.clone(),
        symbol: u.s.clone(),
        status,
        filled_qty: cum_filled,
        avg_px,
        ts_ns,
    }
}

} // verus!
