//! The JSONL event codec: every recorded event is one line of JSON
//! with a tagged variant shape `{Md|Sig|Ord|Exec|Note: payload}`,
//! fields in declaration order, strings escaped the way the recorder's
//! consumers expect them.

use vstd::prelude::*;
use vstd::string::*;
use crate::domain::{Event, ExecReport, ExecStatus, MdTick, Order, Side, Signal};
use crate::numtext::{
    dec_int, dec_nat, digit_char, hex_digit_char, push_dec_i128, str_eq,
};

verus! {

/// The escape of one character inside a JSON string: quote and
/// backslash get a backslash, the named control characters their short
/// forms, other control characters a `\u00XX` form, everything else
/// stands for itself.
pub open spec fn esc_char(c: char) -> Seq<char> {
    if c == '"' {
        seq!['\\', '"']
    } else if c == '\\' {
        seq!['\\', '\\']
    } else if c == '\u{8}' {
        seq!['\\', 'b']
    } else if c == '\t' {
        seq!['\\', 't']
    } else if c == '\n' {
        seq!['\\', 'n']
    } else if c == '\u{c}' {
        seq!['\\', 'f']
    } else if c == '\r' {
        seq!['\\', 'r']
    } else if (c as int) < 32 {
        seq!['\\', 'u', '0', '0'] + seq![
            hex_digit_char((c as int) / 16),
            hex_digit_char((c as int) % 16),
        ]
    } else {
        seq![c]
    }
}

/// The escaped form of a whole string.
pub open spec fn escape(s: Seq<char>) -> Seq<char>
    decreases s.len(),
{
    if s.len() == 0 {
        Seq::empty()
    } else {
        escape(s.drop_last()) + esc_char(s.last())
    }
}

/// A JSON string token: the escaped text in double quotes.
pub open spec fn enc_str(s: Seq<char>) -> Seq<char> {
    seq!['"'] + escape(s) + seq!['"']
}

pub open spec fn enc_side(side: Side) -> Seq<char> {
    match side {
        Side::Buy => "\"Buy\""@,
        Side::Sell => "\"Sell\""@,
    }
}

pub open spec fn enc_status(st: ExecStatus) -> Seq<char> {
    match st {
        ExecStatus::Ack => "\"Ack\""@,
        ExecStatus::PartialFill => "\"PartialFill\""@,
        ExecStatus::Filled => "\"Filled\""@,
        ExecStatus::Rejected(m) => "{\"Rejected\":"@ + enc_str(m@) + "}"@,
    }
}

pub open spec fn enc_md(t: MdTick) -> Seq<char> {
    "{\"ts_ns\":"@ + dec_int(t.ts_ns as int) + ",\"symbol\":"@ + enc_str(t.symbol@)
        + ",\"best_bid\":"@ + dec_int(t.best_bid as int) + ",\"best_ask\":"@ + dec_int(
        t.best_ask as int,
    ) + "}"@
}

pub open spec fn enc_sig(g: Signal) -> Seq<char> {
    "{\"ts_ns\":"@ + dec_int(g.ts_ns as int) + ",\"symbol\":"@ + enc_str(g.symbol@) + ",\"side\":"@
        + enc_side(g.side) + ",\"px\":"@ + dec_int(g.px as int) + ",\"qty\":"@ + dec_int(
        g.qty as int,
    ) + "}"@
}

pub open spec fn enc_ord(o: Order) -> Seq<char> {
    "{\"cl_id\":"@ + enc_str(o.cl_id@) + ",\"ts_ns\":"@ + dec_int(o.ts_ns as int) + ",\"symbol\":"@
        + enc_str(o.symbol@) + ",\"side\":"@ + enc_side(o.side) + ",\"px\":"@ + dec_int(
        o.px as int,
    ) + ",\"qty\":"@ + dec_int(o.qty as int) + "}"@
}

pub open spec fn enc_exec(er: ExecReport) -> Seq<char> {
    "{\"cl_id\":"@ + enc_str(er.cl_id@) + ",\"symbol\":"@ + enc_str(er.symbol@) + ",\"status\":"@
        + enc_status(er.status) + ",\"filled_qty\":"@ + dec_int(er.filled_qty as int)
        + ",\"avg_px\":"@ + dec_int(er.avg_px as int) + ",\"ts_ns\":"@ + dec_int(er.ts_ns as int)
        + "}"@
}

/// The one-line JSON encoding of an event.
pub open spec fn spec_encode(e: Event) -> Seq<char> {
    match e {
        Event::Md(t) => "{\"Md\":"@ + enc_md(t) + "}"@,
        Event::Sig(g) => "{\"Sig\":"@ + enc_sig(g) + "}"@,
        Event::Ord(o) => "{\"Ord\":"@ + enc_ord(o) + "}"@,
        Event::Exec(er) => "{\"Exec\":"@ + enc_exec(er) + "}"@,
        Event::Note(n) => "{\"Note\":"@ + enc_str(n@) + "}"@,
    }
}

/// Appends one hexadecimal digit character (lowercase).
fn push_hex_digit(s: &mut String, d: u8)
    requires
        d < 16,
    ensures
        final(s)@ == old(s)@ + seq![hex_digit_char(d as int)],
{
    if d < 10 {
        crate::numtext::push_digit(s, d);
    } else {
        proof {
            reveal_strlit("a");
            reveal_strlit("b");
            reveal_strlit("c");
            reveal_strlit("d");
            reveal_strlit("e");
            reveal_strlit("f");
        }
        match d {
            10 => s.append("a"),
            11 => s.append("b"),
            12 => s.append("c"),
            13 => s.append("d"),
            14 => s.append("e"),
            _ => s.append("f"),
        }
        proof {
            assert(final(s)@ =~= old(s)@ + seq![hex_digit_char(d as int)]);
        }
    }
}

/// Appends the escaped form of `v` to `out`.
fn push_escaped(out: &mut String, v: &str)
    ensures
        final(out)@ == old(out)@ + escape(v@),
{
    let n = v.unicode_len();
    let mut i: usize = 0;
    proof {
        assert(escape(v@.take(0)) =~= Seq::<char>::empty());
        assert(old(out)@ + escape(v@.take(0)) =~= old(out)@);
    }
    while i < n
        invariant
            0 <= i <= n,
            n == v@.len(),
            out@ == old(out)@ + escape(v@.take(i as int)),
        decreases n - i,
    {
        let c = v.get_char(i);
        let u = c as u32;
        proof {
            assert(v@.take(i as int + 1).drop_last() =~= v@.take(i as int));
            assert(v@.take(i as int + 1).last() == v@[i as int]);
            reveal_strlit("\\\"");
            reveal_strlit("\\\\");
            reveal_strlit("\\b");
            reveal_strlit("\\t");
            reveal_strlit("\\n");
            reveal_strlit("\\f");
            reveal_strlit("\\r");
            reveal_strlit("\\u00");
        }
        let ghost pre = out@;
        if c == '"' {
            out.append("\\\"");
        } else if c == '\\' {
            out.append("\\\\");
        } else if u == 8 {
            out.append("\\b");
        } else if u == 9 {
            out.append("\\t");
        } else if u == 10 {
            out.append("\\n");
        } else if u == 12 {
            out.append("\\f");
        } else if u == 13 {
            out.append("\\r");
        } else if u < 32 {
            out.append("\\u00");
            push_hex_digit(out, (u / 16) as u8);
            push_hex_digit(out, (u % 16) as u8);
        } else {
            let piece = v.substring_char(i, i + 1);
            out.append(piece);
            proof {
                assert(piece@ =~= seq![v@[i as int]]);
            }
        }
        proof {
            assert(out@ =~= pre + esc_char(v@[i as int]));
            assert(out@ =~= old(out)@ + escape(v@.take(i as int + 1)));
        }
        i = i + 1;
    }
    proof {
        assert(v@.take(n as int) =~= v@);
    }
}

/// Appends the JSON string token for `v` to `out`.
fn push_json_str(out: &mut String, v: &str)
    ensures
        final(out)@ == old(out)@ + enc_str(v@),
{
    proof {
        reveal_strlit("\"");
    }
    out.append("\"");
    push_escaped(out, v);
    out.append("\"");
    proof {
        assert(final(out)@ =~= old(out)@ + enc_str(v@));
    }
}

/// Encodes an event as its single JSON line (without the newline).
#[verifier::rlimit(100)]
#[verifier::spinoff_prover]
pub fn encode_event(e: &Event) -> (r: String)
    ensures
        r@ == spec_encode(*e),
{
    proof {
        reveal_strlit("{\"Md\":");
        reveal_strlit("{\"Sig\":");
        reveal_strlit("{\"Ord\":");
        reveal_strlit("{\"Exec\":");
        reveal_strlit("{\"Note\":");
        reveal_strlit("{\"ts_ns\":");
        reveal_strlit("{\"cl_id\":");
        reveal_strlit(",\"ts_ns\":");
        reveal_strlit(",\"symbol\":");
        reveal_strlit(",\"best_bid\":");
        reveal_strlit(",\"best_ask\":");
        reveal_strlit(",\"side\":");
        reveal_strlit(",\"px\":");
        reveal_strlit(",\"qty\":");
        reveal_strlit(",\"status\":");
        reveal_strlit(",\"filled_qty\":");
        reveal_strlit(",\"avg_px\":");
        reveal_strlit("\"Buy\"");
        reveal_strlit("\"Sell\"");
        reveal_strlit("\"Ack\"");
        reveal_strlit("\"PartialFill\"");
        reveal_strlit("\"Filled\"");
        reveal_strlit("{\"Rejected\":");
        reveal_strlit("}");
        reveal_strlit("}}");
    }
    let mut out = String::new();
    match e {
        Event::Md(t) => {
            out.append("{\"Md\":");
            out.append("{\"ts_ns\":");
            push_dec_i128(&mut out, t.ts_ns);
            out.append(",\"symbol\":");
            push_json_str(&mut out, t.symbol.as_str());
            out.append(",\"best_bid\":");
            push_dec_i128(&mut out, t.best_bid as i128);
            out.append(",\"best_ask\":");
            push_dec_i128(&mut out, t.best_ask as i128);
            out.append("}}");
        },
        Event::Sig(g) => {
            out.append("{\"Sig\":");
            out.append("{\"ts_ns\":");
            push_dec_i128(&mut out, g.ts_ns);
            out.append(",\"symbol\":");
            push_json_str(&mut out, g.symbol.as_str());
            out.append(",\"side\":");
            match g.side {
                Side::Buy => out.append("\"Buy\""),
                Side::Sell => out.append("\"Sell\""),
            }
            out.append(",\"px\":");
            push_dec_i128(&mut out, g.px as i128);
            out.append(",\"qty\":");
            push_dec_i128(&mut out, g.qty as i128);
            out.append("}}");
        },
        Event::Ord(o) => {
            out.append("{\"Ord\":");
            out.append("{\"cl_id\":");
            push_json_str(&mut out, o.cl_id.as_str());
            out.append(",\"ts_ns\":");
            push_dec_i128(&mut out, o.ts_ns);
            out.append(",\"symbol\":");
            push_json_str(&mut out, o.symbol.as_str());
            out.append(",\"side\":");
            match o.side {
                Side::Buy => out.append("\"Buy\""),
                Side::Sell => out.append("\"Sell\""),
            }
            out.append(",\"px\":");
            push_dec_i128(&mut out, o.px as i128);
            out.append(",\"qty\":");
            push_dec_i128(&mut out, o.qty as i128);
            out.append("}}");
        },
        Event::Exec(er) => {
            out.append("{\"Exec\":");
            out.append("{\"cl_id\":");
            push_json_str(&mut out, er.cl_id.as_str());
            out.append(",\"symbol\":");
            push_json_str(&mut out, er.symbol.as_str());
            out.append(",\"status\":");
            match &er.status {
                ExecStatus::Ack => out.append("\"Ack\""),
                ExecStatus::PartialFill => out.append("\"PartialFill\""),
                ExecStatus::Filled => out.append("\"Filled\""),
                ExecStatus::Rejected(m) => {
                    out.append("{\"Rejected\":");
                    push_json_str(&mut out, m.as_str());
                    out.append("}");
                },
            }
            out.append(",\"filled_qty\":");
            push_dec_i128(&mut out, er.filled_qty as i128);
            out.append(",\"avg_px\":");
            push_dec_i128(&mut out, er.avg_px as i128);
            out.append(",\"ts_ns\":");
            push_dec_i128(&mut out, er.ts_ns);
            out.append("}}");
        },
        Event::Note(n) => {
            out.append("{\"Note\":");
            push_json_str(&mut out, n.as_str());
            out.append("}");
        },
    }
    proof {
        assert(out@ =~= spec_encode(*e));
    }
    out
}

// ---------------------------------------------------------------------------
// The encoding determines the event: two events with the same encoded
// line agree in every field. Together with `decode_event`'s guarantee
// that a decoded event re-encodes to its line, this is the round-trip
// property of the JSONL format.
// ---------------------------------------------------------------------------

/// Field-wise agreement of two statuses, comparing strings by content.
pub open spec fn status_like(a: ExecStatus, b: ExecStatus) -> bool {
    match (a, b) {
        (ExecStatus::Ack, ExecStatus::Ack) => true,
        (ExecStatus::PartialFill, ExecStatus::PartialFill) => true,
        (ExecStatus::Filled, ExecStatus::Filled) => true,
        (ExecStatus::Rejected(m1), ExecStatus::Rejected(m2)) => m1@ == m2@,
        _ => false,
    }
}

/// Field-wise agreement of two events, comparing strings by content.
pub open spec fn event_like(a: Event, b: Event) -> bool {
    match (a, b) {
        (Event::Md(x), Event::Md(y)) => x.ts_ns == y.ts_ns && x.symbol@ == y.symbol@ && x.best_bid
            == y.best_bid && x.best_ask == y.best_ask,
        (Event::Sig(x), Event::Sig(y)) => x.ts_ns == y.ts_ns && x.symbol@ == y.symbol@ && x.side
            == y.side && x.px == y.px && x.qty == y.qty,
        (Event::Ord(x), Event::Ord(y)) => x.cl_id@ == y.cl_id@ && x.ts_ns == y.ts_ns && x.symbol@
            == y.symbol@ && x.side == y.side && x.px == y.px && x.qty == y.qty,
        (Event::Exec(x), Event::Exec(y)) => x.cl_id@ == y.cl_id@ && x.symbol@ == y.symbol@
            && status_like(x.status, y.status) && x.filled_qty == y.filled_qty && x.avg_px
            == y.avg_px && x.ts_ns == y.ts_ns,
        (Event::Note(x), Event::Note(y)) => x@ == y@,
        _ => false,
    }
}

proof fn lemma_cancel_prefix(x: Seq<char>, u: Seq<char>, v: Seq<char>)
    requires
        x + u == x + v,
    ensures
        u == v,
{
    assert((x + u).len() == (x + v).len());
    assert(u =~= (x + u).subrange(x.len() as int, (x + u).len() as int));
    assert(v =~= (x + v).subrange(x.len() as int, (x + v).len() as int));
}

proof fn lemma_escape_concat(a: Seq<char>, b: Seq<char>)
    ensures
        escape(a + b) == escape(a) + escape(b),
    decreases b.len(),
{
    if b.len() == 0 {
        assert(a + b =~= a);
        assert(escape(a) + escape(b) =~= escape(a));
    } else {
        lemma_escape_concat(a, b.drop_last());
        assert((a + b).drop_last() =~= a + b.drop_last());
        assert((a + b).last() == b.last());
        assert(escape(a + b) == escape(a + b.drop_last()) + esc_char(b.last()));
        assert(escape(a) + escape(b.drop_last()) + esc_char(b.last()) =~= escape(a) + (escape(
            b.drop_last(),
        ) + esc_char(b.last())));
    }
}

proof fn lemma_escape_first(s: Seq<char>)
    requires
        s.len() > 0,
    ensures
        escape(s) == esc_char(s[0]) + escape(s.subrange(1, s.len() as int)),
{
    let h = seq![s[0]];
    let t = s.subrange(1, s.len() as int);
    assert(s =~= h + t);
    lemma_escape_concat(h, t);
    assert(h.drop_last() =~= Seq::<char>::empty());
    assert(h.last() == s[0]);
    assert(escape(h) == escape(h.drop_last()) + esc_char(h.last()));
    assert(Seq::<char>::empty() + esc_char(s[0]) =~= esc_char(s[0]));
}

/// A character the encoder writes as itself.
pub open spec fn plain_char(c: char) -> bool {
    c != '"' && c != '\\' && (c as int) >= 32
}

proof fn lemma_hex_digit_char_val(d: int)
    requires
        0 <= d < 16,
    ensures
        hex_digit_char(d) as int == if d < 10 {
            '0' as int + d
        } else {
            'a' as int + (d - 10)
        },
{
}

/// One escape unit, followed by anything, pins down its character.
#[verifier::rlimit(50)]
#[verifier::spinoff_prover]
proof fn lemma_esc_unit_det(c1: char, c2: char, r1: Seq<char>, r2: Seq<char>)
    requires
        esc_char(c1) + r1 == esc_char(c2) + r2,
    ensures
        c1 == c2,
        r1 == r2,
{
    let e1 = esc_char(c1);
    let e2 = esc_char(c2);
    let t = e1 + r1;
    assert(e1.len() >= 1 && e2.len() >= 1);
    assert(t[0] == e1[0] && t[0] == e2[0]);
    if plain_char(c1) && plain_char(c2) {
        assert(c1 == c2);
    } else if plain_char(c1) {
        assert(e2[0] == '\\');
        assert(e1[0] == c1 && c1 != '\\');
        assert(false);
    } else if plain_char(c2) {
        assert(e1[0] == '\\');
        assert(e2[0] == c2 && c2 != '\\');
        assert(false);
    } else {
        // Both are escapes; the character after the backslash decides.
        assert(e1.len() >= 2 && e2.len() >= 2);
        assert(t[1] == e1[1] && t[1] == e2[1]);
        let k1 = e1[1];
        let k2 = e2[1];
        assert(k1 == k2);
        if k1 == 'u' {
            // Both six-character forms; the two hex digits carry the code.
            assert(e1.len() == 6 && e2.len() == 6);
            assert(t[4] == e1[4] && t[4] == e2[4]);
            assert(t[5] == e1[5] && t[5] == e2[5]);
            lemma_hex_digit_char_val((c1 as int) / 16);
            lemma_hex_digit_char_val((c1 as int) % 16);
            lemma_hex_digit_char_val((c2 as int) / 16);
            lemma_hex_digit_char_val((c2 as int) % 16);
            assert((c1 as int) / 16 == (c2 as int) / 16);
            assert((c1 as int) % 16 == (c2 as int) % 16);
            assert(c1 as int == c2 as int);
            assert(c1 == c2);
        } else {
            // The named two-character escapes map distinct characters to
            // distinct letters.
            assert(c1 == c2);
        }
    }
    assert(esc_char(c1) + r1 == esc_char(c1) + r2);
    lemma_cancel_prefix(esc_char(c1), r1, r2);
}

/// An escaped body with its closing quote pins down the string.
#[verifier::rlimit(50)]
#[verifier::spinoff_prover]
proof fn lemma_escaped_det(a: Seq<char>, b: Seq<char>, r1: Seq<char>, r2: Seq<char>)
    requires
        escape(a) + seq!['"'] + r1 == escape(b) + seq!['"'] + r2,
    ensures
        a == b,
        r1 == r2,
    decreases a.len(),
{
    if a.len() == 0 && b.len() == 0 {
        assert(escape(a) =~= Seq::<char>::empty());
        assert(escape(b) =~= Seq::<char>::empty());
        assert(seq!['"'] + r1 =~= escape(a) + seq!['"'] + r1);
        assert(seq!['"'] + r2 =~= escape(b) + seq!['"'] + r2);
        lemma_cancel_prefix(seq!['"'], r1, r2);
        assert(a =~= b);
    } else if a.len() > 0 && b.len() > 0 {
        lemma_escape_first(a);
        lemma_escape_first(b);
        let ta = a.subrange(1, a.len() as int);
        let tb = b.subrange(1, b.len() as int);
        let ua = escape(ta) + seq!['"'] + r1;
        let ub = escape(tb) + seq!['"'] + r2;
        assert(escape(a) + seq!['"'] + r1 =~= esc_char(a[0]) + ua);
        assert(escape(b) + seq!['"'] + r2 =~= esc_char(b[0]) + ub);
        lemma_esc_unit_det(a[0], b[0], ua, ub);
        lemma_escaped_det(ta, tb, r1, r2);
        assert(a =~= seq![a[0]] + ta);
        assert(b =~= seq![b[0]] + tb);
    } else if a.len() == 0 {
        assert(escape(a) =~= Seq::<char>::empty());
        let t = escape(b) + seq!['"'] + r2;
        assert(t == escape(a) + seq!['"'] + r1);
        assert(t[0] == '"') by {
            assert((escape(a) + seq!['"'] + r1)[0] == '"');
        }
        lemma_escape_first(b);
        assert(t =~= esc_char(b[0]) + (escape(b.subrange(1, b.len() as int)) + seq!['"'] + r2));
        assert(t[0] == esc_char(b[0])[0]);
        if plain_char(b[0]) {
            assert(esc_char(b[0])[0] == b[0] && b[0] != '"');
        } else {
            assert(esc_char(b[0])[0] == '\\');
        }
        assert(false);
    } else {
        assert(escape(b) =~= Seq::<char>::empty());
        let t = escape(a) + seq!['"'] + r1;
        assert(t == escape(b) + seq!['"'] + r2);
        assert(t[0] == '"') by {
            assert((escape(b) + seq!['"'] + r2)[0] == '"');
        }
        lemma_escape_first(a);
        assert(t =~= esc_char(a[0]) + (escape(a.subrange(1, a.len() as int)) + seq!['"'] + r1));
        assert(t[0] == esc_char(a[0])[0]);
        if plain_char(a[0]) {
            assert(esc_char(a[0])[0] == a[0] && a[0] != '"');
        } else {
            assert(esc_char(a[0])[0] == '\\');
        }
        assert(false);
    }
}

/// A quoted string token, followed by anything, pins down its contents.
proof fn lemma_enc_str_det(a: Seq<char>, b: Seq<char>, r1: Seq<char>, r2: Seq<char>)
    requires
        enc_str(a) + r1 == enc_str(b) + r2,
    ensures
        a == b,
        r1 == r2,
{
    let qa = escape(a) + seq!['"'] + r1;
    let qb = escape(b) + seq!['"'] + r2;
    assert(enc_str(a) + r1 =~= seq!['"'] + qa);
    assert(enc_str(b) + r2 =~= seq!['"'] + qb);
    lemma_cancel_prefix(seq!['"'], qa, qb);
    lemma_escaped_det(a, b, r1, r2);
}

/// A decimal number token, followed by a non-digit, pins down its value.
proof fn lemma_dec_nat_det(x: int, y: int, r1: Seq<char>, r2: Seq<char>)
    requires
        x >= 0,
        y >= 0,
        dec_nat(x) + r1 == dec_nat(y) + r2,
        r1.len() > 0,
        r2.len() > 0,
        !crate::numtext::is_dec_digit(r1[0]),
        !crate::numtext::is_dec_digit(r2[0]),
    ensures
        x == y,
        r1 == r2,
{
    crate::numtext::lemma_dec_nat_props(x);
    crate::numtext::lemma_dec_nat_props(y);
    let dx = dec_nat(x);
    let dy = dec_nat(y);
    let lx = dx.len() as int;
    let ly = dy.len() as int;
    let t = dx + r1;
    if lx < ly {
        assert(t[lx] == r1[0]);
        assert((dy + r2)[lx] == dy[lx]);
        assert(crate::numtext::is_dec_digit(dy[lx]));
        assert(false);
    } else if ly < lx {
        assert(t[ly] == r2[0]);
        assert((dx + r1)[ly] == dx[ly]);
        assert(crate::numtext::is_dec_digit(dx[ly]));
        assert(false);
    } else {
        assert(dx =~= dy) by {
            assert(forall|i: int| 0 <= i < lx ==> dx[i] == t[i] && dy[i] == t[i]);
        }
        assert(crate::numtext::dec_val(dx) == crate::numtext::dec_val(dy));
        lemma_cancel_prefix(dx, r1, r2);
    }
}

/// A signed decimal token, followed by a non-digit that is not a sign,
/// pins down its value.
proof fn lemma_dec_int_det(x: int, y: int, r1: Seq<char>, r2: Seq<char>)
    requires
        dec_int(x) + r1 == dec_int(y) + r2,
        r1.len() > 0,
        r2.len() > 0,
        !crate::numtext::is_dec_digit(r1[0]),
        !crate::numtext::is_dec_digit(r2[0]),
    ensures
        x == y,
        r1 == r2,
{
    if x >= 0 && y >= 0 {
        lemma_dec_nat_det(x, y, r1, r2);
    } else if x < 0 && y < 0 {
        let ua = dec_nat(-x) + r1;
        let ub = dec_nat(-y) + r2;
        assert(dec_int(x) + r1 =~= seq!['-'] + ua);
        assert(dec_int(y) + r2 =~= seq!['-'] + ub);
        lemma_cancel_prefix(seq!['-'], ua, ub);
        lemma_dec_nat_det(-x, -y, r1, r2);
    } else if x < 0 {
        crate::numtext::lemma_dec_nat_props(y);
        assert((dec_int(x) + r1)[0] == '-');
        assert((dec_int(y) + r2)[0] == dec_nat(y)[0]);
        assert(crate::numtext::is_dec_digit(dec_nat(y)[0]));
        assert(!crate::numtext::is_dec_digit('-'));
        assert(false);
    } else {
        crate::numtext::lemma_dec_nat_props(x);
        assert((dec_int(y) + r2)[0] == '-');
        assert((dec_int(x) + r1)[0] == dec_nat(x)[0]);
        assert(crate::numtext::is_dec_digit(dec_nat(x)[0]));
        assert(!crate::numtext::is_dec_digit('-'));
        assert(false);
    }
}

/// A side token, followed by anything, pins down the side.
proof fn lemma_side_det(s1: Side, s2: Side, r1: Seq<char>, r2: Seq<char>)
    requires
        enc_side(s1) + r1 == enc_side(s2) + r2,
    ensures
        s1 == s2,
        r1 == r2,
{
    reveal_strlit("\"Buy\"");
    reveal_strlit("\"Sell\"");
    assert("\"Buy\""@.len() == 5 && "\"Buy\""@[1] == 'B');
    assert("\"Sell\""@.len() == 6 && "\"Sell\""@[1] == 'S');
    if s1 == s2 {
        lemma_cancel_prefix(enc_side(s1), r1, r2);
    } else {
        assert((enc_side(s1) + r1)[1] == enc_side(s1)[1]);
        assert((enc_side(s2) + r2)[1] == enc_side(s2)[1]);
        assert(false);
    }
}

/// A status token, followed by anything, pins down the status.
#[verifier::rlimit(50)]
#[verifier::spinoff_prover]
proof fn lemma_status_det(s1: ExecStatus, s2: ExecStatus, r1: Seq<char>, r2: Seq<char>)
    requires
        enc_status(s1) + r1 == enc_status(s2) + r2,
    ensures
        status_like(s1, s2),
        r1 == r2,
{
    reveal_strlit("\"Ack\"");
    reveal_strlit("\"PartialFill\"");
    reveal_strlit("\"Filled\"");
    reveal_strlit("{\"Rejected\":");
    reveal_strlit("}");
    assert("\"Ack\""@.len() == 5 && "\"Ack\""@[0] == '"' && "\"Ack\""@[1] == 'A');
    assert("\"PartialFill\""@.len() == 13 && "\"PartialFill\""@[0] == '"' && "\"PartialFill\""@[1]
        == 'P');
    assert("\"Filled\""@.len() == 8 && "\"Filled\""@[0] == '"' && "\"Filled\""@[1] == 'F');
    assert("{\"Rejected\":"@.len() == 12 && "{\"Rejected\":"@[0] == '{');
    let t = enc_status(s1) + r1;
    match (s1, s2) {
        (ExecStatus::Rejected(m1), ExecStatus::Rejected(m2)) => {
            let u1 = enc_str(m1@) + ("}"@ + r1);
            let u2 = enc_str(m2@) + ("}"@ + r2);
            assert(enc_status(s1) + r1 =~= "{\"Rejected\":"@ + u1);
            assert(enc_status(s2) + r2 =~= "{\"Rejected\":"@ + u2);
            lemma_cancel_prefix("{\"Rejected\":"@, u1, u2);
            lemma_enc_str_det(m1@, m2@, "}"@ + r1, "}"@ + r2);
            lemma_cancel_prefix("}"@, r1, r2);
        },
        (ExecStatus::Rejected(_), _) => {
            assert(t[0] == enc_status(s1)[0] && t[0] == enc_status(s2)[0]);
            assert(false);
        },
        (_, ExecStatus::Rejected(_)) => {
            assert(t[0] == enc_status(s1)[0] && t[0] == enc_status(s2)[0]);
            assert(false);
        },
        _ => {
            if s1 == s2 {
                lemma_cancel_prefix(enc_status(s1), r1, r2);
            } else {
                assert(t[1] == enc_status(s1)[1] && t[1] == enc_status(s2)[1]);
                assert(false);
            }
        },
    }
}

proof fn lemma_comma_not_digit()
    ensures
        !crate::numtext::is_dec_digit(','),
        !crate::numtext::is_dec_digit('}'),
{
}

/// The market-data payload, followed by anything, pins down its fields.
#[verifier::rlimit(100)]
#[verifier::spinoff_prover]
proof fn lemma_enc_md_det(x: MdTick, y: MdTick, r1: Seq<char>, r2: Seq<char>)
    requires
        enc_md(x) + r1 == enc_md(y) + r2,
    ensures
        x.ts_ns == y.ts_ns && x.symbol@ == y.symbol@ && x.best_bid == y.best_bid && x.best_ask
            == y.best_ask,
        r1 == r2,
{
    reveal_strlit("{\"ts_ns\":");
    reveal_strlit(",\"symbol\":");
    reveal_strlit(",\"best_bid\":");
    reveal_strlit(",\"best_ask\":");
    reveal_strlit("}");
    lemma_comma_not_digit();
    let a4 = "}"@ + r1;
    let a3 = ",\"best_ask\":"@ + (dec_int(x.best_ask as int) + a4);
    let a2 = ",\"best_bid\":"@ + (dec_int(x.best_bid as int) + a3);
    let a1 = ",\"symbol\":"@ + (enc_str(x.symbol@) + a2);
    let b4 = "}"@ + r2;
    let b3 = ",\"best_ask\":"@ + (dec_int(y.best_ask as int) + b4);
    let b2 = ",\"best_bid\":"@ + (dec_int(y.best_bid as int) + b3);
    let b1 = ",\"symbol\":"@ + (enc_str(y.symbol@) + b2);
    assert(enc_md(x) + r1 =~= "{\"ts_ns\":"@ + (dec_int(x.ts_ns as int) + a1));
    assert(enc_md(y) + r2 =~= "{\"ts_ns\":"@ + (dec_int(y.ts_ns as int) + b1));
    lemma_cancel_prefix(
        "{\"ts_ns\":"@,
        dec_int(x.ts_ns as int) + a1,
        dec_int(y.ts_ns as int) + b1,
    );
    assert(a1[0] == ',' && b1[0] == ',');
    lemma_dec_int_det(x.ts_ns as int, y.ts_ns as int, a1, b1);
    lemma_cancel_prefix(",\"symbol\":"@, enc_str(x.symbol@) + a2, enc_str(y.symbol@) + b2);
    lemma_enc_str_det(x.symbol@, y.symbol@, a2, b2);
    lemma_cancel_prefix(
        ",\"best_bid\":"@,
        dec_int(x.best_bid as int) + a3,
        dec_int(y.best_bid as int) + b3,
    );
    assert(a3[0] == ',' && b3[0] == ',');
    lemma_dec_int_det(x.best_bid as int, y.best_bid as int, a3, b3);
    lemma_cancel_prefix(
        ",\"best_ask\":"@,
        dec_int(x.best_ask as int) + a4,
        dec_int(y.best_ask as int) + b4,
    );
    assert(a4[0] == '}' && b4[0] == '}');
    lemma_dec_int_det(x.best_ask as int, y.best_ask as int, a4, b4);
    lemma_cancel_prefix("}"@, r1, r2);
}

/// The signal payload, followed by anything, pins down its fields.
#[verifier::rlimit(100)]
#[verifier::spinoff_prover]
proof fn lemma_enc_sig_det(x: Signal, y: Signal, r1: Seq<char>, r2: Seq<char>)
    requires
        enc_sig(x) + r1 == enc_sig(y) + r2,
    ensures
        x.ts_ns == y.ts_ns && x.symbol@ == y.symbol@ && x.side == y.side && x.px == y.px && x.qty
            == y.qty,
        r1 == r2,
{
    reveal_strlit("{\"ts_ns\":");
    reveal_strlit(",\"symbol\":");
    reveal_strlit(",\"side\":");
    reveal_strlit(",\"px\":");
    reveal_strlit(",\"qty\":");
    reveal_strlit("}");
    lemma_comma_not_digit();
    let a5 = "}"@ + r1;
    let a4 = ",\"qty\":"@ + (dec_int(x.qty as int) + a5);
    let a3 = ",\"px\":"@ + (dec_int(x.px as int) + a4);
    let a2 = ",\"side\":"@ + (enc_side(x.side) + a3);
    let a1 = ",\"symbol\":"@ + (enc_str(x.symbol@) + a2);
    let b5 = "}"@ + r2;
    let b4 = ",\"qty\":"@ + (dec_int(y.qty as int) + b5);
    let b3 = ",\"px\":"@ + (dec_int(y.px as int) + b4);
    let b2 = ",\"side\":"@ + (enc_side(y.side) + b3);
    let b1 = ",\"symbol\":"@ + (enc_str(y.symbol@) + b2);
    assert(enc_sig(x) + r1 =~= "{\"ts_ns\":"@ + (dec_int(x.ts_ns as int) + a1));
    assert(enc_sig(y) + r2 =~= "{\"ts_ns\":"@ + (dec_int(y.ts_ns as int) + b1));
    lemma_cancel_prefix(
        "{\"ts_ns\":"@,
        dec_int(x.ts_ns as int) + a1,
        dec_int(y.ts_ns as int) + b1,
    );
    assert(a1[0] == ',' && b1[0] == ',');
    lemma_dec_int_det(x.ts_ns as int, y.ts_ns as int, a1, b1);
    lemma_cancel_prefix(",\"symbol\":"@, enc_str(x.symbol@) + a2, enc_str(y.symbol@) + b2);
    lemma_enc_str_det(x.symbol@, y.symbol@, a2, b2);
    lemma_cancel_prefix(",\"side\":"@, enc_side(x.side) + a3, enc_side(y.side) + b3);
    lemma_side_det(x.side, y.side, a3, b3);
    lemma_cancel_prefix(",\"px\":"@, dec_int(x.px as int) + a4, dec_int(y.px as int) + b4);
    assert(a4[0] == ',' && b4[0] == ',');
    lemma_dec_int_det(x.px as int, y.px as int, a4, b4);
    lemma_cancel_prefix(",\"qty\":"@, dec_int(x.qty as int) + a5, dec_int(y.qty as int) + b5);
    assert(a5[0] == '}' && b5[0] == '}');
    lemma_dec_int_det(x.qty as int, y.qty as int, a5, b5);
    lemma_cancel_prefix("}"@, r1, r2);
}

/// The order payload, followed by anything, pins down its fields.
#[verifier::rlimit(100)]
#[verifier::spinoff_prover]
proof fn lemma_enc_ord_det(x: Order, y: Order, r1: Seq<char>, r2: Seq<char>)
    requires
        enc_ord(x) + r1 == enc_ord(y) + r2,
    ensures
        x.cl_id@ == y.cl_id@ && x.ts_ns == y.ts_ns && x.symbol@ == y.symbol@ && x.side == y.side
            && x.px == y.px && x.qty == y.qty,
        r1 == r2,
{
    reveal_strlit("{\"cl_id\":");
    reveal_strlit(",\"ts_ns\":");
    reveal_strlit(",\"symbol\":");
    reveal_strlit(",\"side\":");
    reveal_strlit(",\"px\":");
    reveal_strlit(",\"qty\":");
    reveal_strlit("}");
    lemma_comma_not_digit();
    let a6 = "}"@ + r1;
    let a5 = ",\"qty\":"@ + (dec_int(x.qty as int) + a6);
    let a4 = ",\"px\":"@ + (dec_int(x.px as int) + a5);
    let a3 = ",\"side\":"@ + (enc_side(x.side) + a4);
    let a2 = ",\"symbol\":"@ + (enc_str(x.symbol@) + a3);
    let a1 = ",\"ts_ns\":"@ + (dec_int(x.ts_ns as int) + a2);
    let b6 = "}"@ + r2;
    let b5 = ",\"qty\":"@ + (dec_int(y.qty as int) + b6);
    let b4 = ",\"px\":"@ + (dec_int(y.px as int) + b5);
    let b3 = ",\"side\":"@ + (enc_side(y.side) + b4);
    let b2 = ",\"symbol\":"@ + (enc_str(y.symbol@) + b3);
    let b1 = ",\"ts_ns\":"@ + (dec_int(y.ts_ns as int) + b2);
    assert(enc_ord(x) + r1 =~= "{\"cl_id\":"@ + (enc_str(x.cl_id@) + a1));
    assert(enc_ord(y) + r2 =~= "{\"cl_id\":"@ + (enc_str(y.cl_id@) + b1));
    lemma_cancel_prefix("{\"cl_id\":"@, enc_str(x.cl_id@) + a1, enc_str(y.cl_id@) + b1);
    lemma_enc_str_det(x.cl_id@, y.cl_id@, a1, b1);
    lemma_cancel_prefix(",\"ts_ns\":"@, dec_int(x.ts_ns as int) + a2, dec_int(y.ts_ns as int) + b2);
    assert(a2[0] == ',' && b2[0] == ',');
    lemma_dec_int_det(x.ts_ns as int, y.ts_ns as int, a2, b2);
    lemma_cancel_prefix(",\"symbol\":"@, enc_str(x.symbol@) + a3, enc_str(y.symbol@) + b3);
    lemma_enc_str_det(x.symbol@, y.symbol@, a3, b3);
    lemma_cancel_prefix(",\"side\":"@, enc_side(x.side) + a4, enc_side(y.side) + b4);
    lemma_side_det(x.side, y.side, a4, b4);
    lemma_cancel_prefix(",\"px\":"@, dec_int(x.px as int) + a5, dec_int(y.px as int) + b5);
    assert(a5[0] == ',' && b5[0] == ',');
    lemma_dec_int_det(x.px as int, y.px as int, a5, b5);
    lemma_cancel_prefix(",\"qty\":"@, dec_int(x.qty as int) + a6, dec_int(y.qty as int) + b6);
    assert(a6[0] == '}' && b6[0] == '}');
    lemma_dec_int_det(x.qty as int, y.qty as int, a6, b6);
    lemma_cancel_prefix("}"@, r1, r2);
}

/// The execution-report payload, followed by anything, pins down its
/// fields.
#[verifier::rlimit(100)]
#[verifier::spinoff_prover]
proof fn lemma_enc_exec_det(x: ExecReport, y: ExecReport, r1: Seq<char>, r2: Seq<char>)
    requires
        enc_exec(x) + r1 == enc_exec(y) + r2,
    ensures
        x.cl_id@ == y.cl_id@ && x.symbol@ == y.symbol@ && status_like(x.status, y.status)
            && x.filled_qty == y.filled_qty && x.avg_px == y.avg_px && x.ts_ns == y.ts_ns,
        r1 == r2,
{
    reveal_strlit("{\"cl_id\":");
    reveal_strlit(",\"symbol\":");
    reveal_strlit(",\"status\":");
    reveal_strlit(",\"filled_qty\":");
    reveal_strlit(",\"avg_px\":");
    reveal_strlit(",\"ts_ns\":");
    reveal_strlit("}");
    lemma_comma_not_digit();
    let a6 = "}"@ + r1;
    let a5 = ",\"ts_ns\":"@ + (dec_int(x.ts_ns as int) + a6);
    let a4 = ",\"avg_px\":"@ + (dec_int(x.avg_px as int) + a5);
    let a3 = ",\"filled_qty\":"@ + (dec_int(x.filled_qty as int) + a4);
    let a2 = ",\"status\":"@ + (enc_status(x.status) + a3);
    let a1 = ",\"symbol\":"@ + (enc_str(x.symbol@) + a2);
    let b6 = "}"@ + r2;
    let b5 = ",\"ts_ns\":"@ + (dec_int(y.ts_ns as int) + b6);
    let b4 = ",\"avg_px\":"@ + (dec_int(y.avg_px as int) + b5);
    let b3 = ",\"filled_qty\":"@ + (dec_int(y.filled_qty as int) + b4);
    let b2 = ",\"status\":"@ + (enc_status(y.status) + b3);
    let b1 = ",\"symbol\":"@ + (enc_str(y.symbol@) + b2);
    assert(enc_exec(x) + r1 =~= "{\"cl_id\":"@ + (enc_str(x.cl_id@) + a1));
    assert(enc_exec(y) + r2 =~= "{\"cl_id\":"@ + (enc_str(y.cl_id@) + b1));
    lemma_cancel_prefix("{\"cl_id\":"@, enc_str(x.cl_id@) + a1, enc_str(y.cl_id@) + b1);
    lemma_enc_str_det(x.cl_id@, y.cl_id@, a1, b1);
    lemma_cancel_prefix(",\"symbol\":"@, enc_str(x.symbol@) + a2, enc_str(y.symbol@) + b2);
    lemma_enc_str_det(x.symbol@, y.symbol@, a2, b2);
    lemma_cancel_prefix(",\"status\":"@, enc_status(x.status) + a3, enc_status(y.status) + b3);
    lemma_status_det(x.status, y.status, a3, b3);
    lemma_cancel_prefix(
        ",\"filled_qty\":"@,
        dec_int(x.filled_qty as int) + a4,
        dec_int(y.filled_qty as int) + b4,
    );
    assert(a4[0] == ',' && b4[0] == ',');
    lemma_dec_int_det(x.filled_qty as int, y.filled_qty as int, a4, b4);
    lemma_cancel_prefix(
        ",\"avg_px\":"@,
        dec_int(x.avg_px as int) + a5,
        dec_int(y.avg_px as int) + b5,
    );
    assert(a5[0] == ',' && b5[0] == ',');
    lemma_dec_int_det(x.avg_px as int, y.avg_px as int, a5, b5);
    lemma_cancel_prefix(",\"ts_ns\":"@, dec_int(x.ts_ns as int) + a6, dec_int(y.ts_ns as int) + b6);
    assert(a6[0] == '}' && b6[0] == '}');
    lemma_dec_int_det(x.ts_ns as int, y.ts_ns as int, a6, b6);
    lemma_cancel_prefix("}"@, r1, r2);
}

/// The variant letter at index 2 of every encoded line.
proof fn lemma_tag_char(e: Event)
    ensures
        spec_encode(e).len() > 2,
        spec_encode(e)[2] == (match e {
            Event::Md(_) => 'M',
            Event::Sig(_) => 'S',
            Event::Ord(_) => 'O',
            Event::Exec(_) => 'E',
            Event::Note(_) => 'N',
        }),
{
    reveal_strlit("{\"Md\":");
    reveal_strlit("{\"Sig\":");
    reveal_strlit("{\"Ord\":");
    reveal_strlit("{\"Exec\":");
    reveal_strlit("{\"Note\":");
    match e {
        Event::Md(t) => {
            assert(spec_encode(e)[2] == "{\"Md\":"@[2]);
        },
        Event::Sig(g) => {
            assert(spec_encode(e)[2] == "{\"Sig\":"@[2]);
        },
        Event::Ord(o) => {
            assert(spec_encode(e)[2] == "{\"Ord\":"@[2]);
        },
        Event::Exec(er) => {
            assert(spec_encode(e)[2] == "{\"Exec\":"@[2]);
        },
        Event::Note(n) => {
            assert(spec_encode(e)[2] == "{\"Note\":"@[2]);
        },
    }
}

/// The encoding determines the event: two events with the same encoded
/// line agree in every field (strings compared by content). The JSONL
/// line of an event is therefore a faithful image of it, and decoding
/// it can recover nothing but the original event.
#[verifier::rlimit(100)]
#[verifier::spinoff_prover]
pub proof fn lemma_encode_determines_event(a: Event, b: Event)
    requires
        spec_encode(a) == spec_encode(b),
    ensures
        event_like(a, b),
{
    lemma_tag_char(a);
    lemma_tag_char(b);
    reveal_strlit("{\"Md\":");
    reveal_strlit("{\"Sig\":");
    reveal_strlit("{\"Ord\":");
    reveal_strlit("{\"Exec\":");
    reveal_strlit("{\"Note\":");
    reveal_strlit("}");
    match (a, b) {
        (Event::Md(x), Event::Md(y)) => {
            assert(spec_encode(a) =~= "{\"Md\":"@ + (enc_md(x) + ("}"@ + Seq::<char>::empty())));
            assert(spec_encode(b) =~= "{\"Md\":"@ + (enc_md(y) + ("}"@ + Seq::<char>::empty())));
            lemma_cancel_prefix(
                "{\"Md\":"@,
                enc_md(x) + ("}"@ + Seq::<char>::empty()),
                enc_md(y) + ("}"@ + Seq::<char>::empty()),
            );
            lemma_enc_md_det(x, y, "}"@ + Seq::<char>::empty(), "}"@ + Seq::<char>::empty());
        },
        (Event::Sig(x), Event::Sig(y)) => {
            assert(spec_encode(a) =~= "{\"Sig\":"@ + (enc_sig(x) + ("}"@ + Seq::<char>::empty())));
            assert(spec_encode(b) =~= "{\"Sig\":"@ + (enc_sig(y) + ("}"@ + Seq::<char>::empty())));
            lemma_cancel_prefix(
                "{\"Sig\":"@,
                enc_sig(x) + ("}"@ + Seq::<char>::empty()),
                enc_sig(y) + ("}"@ + Seq::<char>::empty()),
            );
            lemma_enc_sig_det(x, y, "}"@ + Seq::<char>::empty(), "}"@ + Seq::<char>::empty());
        },
        (Event::Ord(x), Event::Ord(y)) => {
            assert(spec_encode(a) =~= "{\"Ord\":"@ + (enc_ord(x) + ("}"@ + Seq::<char>::empty())));
            assert(spec_encode(b) =~= "{\"Ord\":"@ + (enc_ord(y) + ("}"@ + Seq::<char>::empty())));
            lemma_cancel_prefix(
                "{\"Ord\":"@,
                enc_ord(x) + ("}"@ + Seq::<char>::empty()),
                enc_ord(y) + ("}"@ + Seq::<char>::empty()),
            );
            lemma_enc_ord_det(x, y, "}"@ + Seq::<char>::empty(), "}"@ + Seq::<char>::empty());
        },
        (Event::Exec(x), Event::Exec(y)) => {
            assert(spec_encode(a) =~= "{\"Exec\":"@ + (enc_exec(x) + ("}"@
                + Seq::<char>::empty())));
            assert(spec_encode(b) =~= "{\"Exec\":"@ + (enc_exec(y) + ("}"@
                + Seq::<char>::empty())));
            lemma_cancel_prefix(
                "{\"Exec\":"@,
                enc_exec(x) + ("}"@ + Seq::<char>::empty()),
                enc_exec(y) + ("}"@ + Seq::<char>::empty()),
            );
            lemma_enc_exec_det(x, y, "}"@ + Seq::<char>::empty(), "}"@ + Seq::<char>::empty());
        },
        (Event::Note(x), Event::Note(y)) => {
            assert(spec_encode(a) =~= "{\"Note\":"@ + (enc_str(x@) + ("}"@
                + Seq::<char>::empty())));
            assert(spec_encode(b) =~= "{\"Note\":"@ + (enc_str(y@) + ("}"@
                + Seq::<char>::empty())));
            lemma_cancel_prefix(
                "{\"Note\":"@,
                enc_str(x@) + ("}"@ + Seq::<char>::empty()),
                enc_str(y@) + ("}"@ + Seq::<char>::empty()),
            );
            lemma_enc_str_det(x@, y@, "}"@ + Seq::<char>::empty(), "}"@ + Seq::<char>::empty());
        },
        _ => {
            assert(spec_encode(a)[2] == spec_encode(b)[2]);
            assert(false);
        },
    }
}

/// Whether `t` stands in `s` at position `pos`.
pub open spec fn lit_at(s: Seq<char>, pos: int, t: Seq<char>) -> bool {
    pos + t.len() <= s.len() && s.subrange(pos, pos + t.len()) == t
}

/// Consumes `lit` at `pos`, handing back the next position; succeeds
/// exactly when the literal stands there.
fn eat_lit(s: &str, pos: usize, lit: &str) -> (r: Option<usize>)
    requires
        pos <= s@.len(),
    ensures
        r matches Some(p) ==> pos <= p <= s@.len(),
        r is Some <==> lit_at(s@, pos as int, lit@),
        r matches Some(p) ==> p == pos + lit@.len(),
{
    let n = s.unicode_len();
    let m = lit.unicode_len();
    if m > n - pos {
        proof {
            assert(!lit_at(s@, pos as int, lit@));
        }
        return None;
    }
    let mut k: usize = 0;
    while k < m
        invariant
            0 <= k <= m,
            n == s@.len(),
            m == lit@.len(),
            pos + m <= n,
            forall|t: int| 0 <= t < k ==> s@[pos + t] == lit@[t],
        decreases m - k,
    {
        if s.get_char(pos + k) != lit.get_char(k) {
            proof {
                if lit_at(s@, pos as int, lit@) {
                    assert(s@.subrange(pos as int, pos + lit@.len())[k as int] == lit@[k as int]);
                }
            }
            return None;
        }
        k = k + 1;
    }
    proof {
        assert(s@.subrange(pos as int, pos + lit@.len()) =~= lit@);
    }
    Some(pos + m)
}

/// The hypothesis under which the integer parser is promised to
/// succeed: the decimal token of `x` stands at `pos`, with a non-digit
/// right after it.
pub open spec fn int_tok_at(s: Seq<char>, pos: int, x: int) -> bool {
    let tok = dec_int(x);
    &&& lit_at(s, pos, tok)
    &&& pos + tok.len() < s.len()
    &&& !crate::numtext::is_dec_digit(s[pos + tok.len()])
    &&& i128::MIN as int <= x <= i128::MAX as int
}

/// Parses a signed decimal integer at `pos`, stopping before the first
/// non-digit; on the decimal token of `x` it yields exactly `x`.
#[verifier::rlimit(100)]
#[verifier::spinoff_prover]
fn parse_json_int(s: &str, pos: usize, hint: Ghost<int>) -> (r: Option<(i128, usize)>)
    requires
        pos <= s@.len(),
    ensures
        r matches Some(p) ==> pos <= p.1 <= s@.len(),
        int_tok_at(s@, pos as int, hint@) ==> (r matches Some(p) && p.0 as int == hint@ && p.1
            == pos + dec_int(hint@).len()),
{
    let ghost x = hint@;
    let ghost tok = dec_int(x);
    let ghost hyp = int_tok_at(s@, pos as int, x);
    let ghost m: int = if x < 0 {
        -x
    } else {
        x
    };
    let ghost num = dec_nat(m);
    proof {
        if hyp {
            crate::numtext::lemma_dec_nat_props(m);
            assert forall|t: int| 0 <= t < tok.len() implies s@[pos + t] == #[trigger] tok[t] by {
                assert(s@.subrange(pos as int, pos + tok.len())[t] == s@[pos + t]);
            }
            if x < 0 {
                assert(tok =~= seq!['-'] + num);
                assert(tok[0] == '-');
                assert(s@[pos as int + 0] == tok[0]);
                assert(s@[pos as int] == '-');
            } else {
                assert(tok =~= num);
                assert(tok[0] == num[0]);
                assert(s@[pos as int + 0] == tok[0]);
                assert(crate::numtext::is_dec_digit(s@[pos as int]));
                assert(s@[pos as int] != '-');
            }
        }
    }
    let n = s.unicode_len();
    let mut i = pos;
    let mut neg = false;
    if i < n && s.get_char(i) == '-' {
        neg = true;
        i = i + 1;
    }
    let ghost p0 = i as int;
    proof {
        if hyp {
            assert(pos + tok.len() < n);
            assert(neg <==> x < 0);
            if x < 0 {
                assert(p0 == pos + 1);
                assert forall|j: int| 0 <= j < num.len() implies s@[p0 + j]
                    == #[trigger] num[j] by {
                    assert(tok[j + 1] == (seq!['-'] + num)[j + 1]);
                    assert(s@[pos as int + (j + 1)] == tok[j + 1]);
                }
            } else {
                assert(p0 == pos as int);
                assert forall|j: int| 0 <= j < num.len() implies s@[p0 + j]
                    == #[trigger] num[j] by {
                    assert(s@[pos + j] == tok[j]);
                }
            }
            assert(crate::numtext::all_dec_digits(num));
            assert(s@.len() > p0 + num.len());
            assert(!crate::numtext::is_dec_digit(s@[p0 + num.len()]));
        }
    }
    let mut mag: u128 = 0;
    let mut digits: usize = 0;
    let mut done = false;
    proof {
        if hyp {
            assert(num.take(0) =~= Seq::<char>::empty());
        }
    }
    while i < n && !done
        invariant
            pos <= i <= n,
            p0 <= i,
            n == s@.len(),
            mag <= 0x8000_0000_0000_0000_0000_0000_0000_0000u128,
            digits <= i,
            x == hint@,
            hyp == int_tok_at(s@, pos as int, x),
            tok == dec_int(x),
            m == if x < 0 {
                -x
            } else {
                x
            },
            num == dec_nat(m),
            hyp ==> (neg <==> x < 0),
            hyp ==> p0 == pos + (if x < 0 {
                1int
            } else {
                0int
            }),
            hyp ==> (forall|j: int| 0 <= j < num.len() ==> s@[p0 + j] == #[trigger] num[j]),
            hyp ==> crate::numtext::all_dec_digits(num),
            hyp ==> num.len() >= 1 && crate::numtext::dec_val(num) == m && 0 <= m
                <= 0x8000_0000_0000_0000_0000_0000_0000_0000u128,
            hyp ==> s@.len() > p0 + num.len(),
            hyp ==> !crate::numtext::is_dec_digit(s@[p0 + num.len()]),
            hyp ==> i - p0 <= num.len(),
            hyp ==> mag == crate::numtext::dec_val(num.take(i - p0)),
            hyp ==> digits == i - p0,
            hyp && done ==> i - p0 == num.len(),
        decreases n - i, (if done { 0int } else { 1int }),
    {
        let c = s.get_char(i);
        let u = c as u32;
        if u < 48 || u > 57 {
            proof {
                if hyp {
                    assert(!crate::numtext::is_dec_digit(s@[i as int]));
                    if i - p0 < num.len() {
                        assert(s@[i as int] == num[i - p0]);
                        assert(false);
                    }
                }
            }
            done = true;
        } else {
        proof {
            if hyp {
                assert(crate::numtext::is_dec_digit(s@[i as int]));
                if i - p0 == num.len() {
                    assert(false);
                }
                crate::numtext::lemma_dec_val_step(num, i - p0);
                assert(num.take(i - p0 + 1).drop_last() =~= num.take(i - p0));
                crate::numtext::lemma_dec_val_prefix_mono(num, i - p0 + 1, num.len() as int);
                assert(num.take(num.len() as int) =~= num);
                assert(crate::numtext::dec_val(num.take(i - p0 + 1)) <= m);
                assert(s@[i as int] == num[i - p0]);
                assert((u - 48) as int == crate::numtext::digit_val(num[i - p0]));
            }
        }
        let d = (u - 48) as u128;
        if mag > (0x8000_0000_0000_0000_0000_0000_0000_0000u128 - d) / 10 {
            proof {
                if hyp {
                    assert(mag * 10 + d > 0x8000_0000_0000_0000_0000_0000_0000_0000u128) by (
                    nonlinear_arith)
                        requires
                            mag > (0x8000_0000_0000_0000_0000_0000_0000_0000u128 - d) / 10,
                            d <= 9,
                    ;
                    assert(false);
                }
            }
            return None;
        }
        mag = mag * 10 + d;
        digits = digits + 1;
        i = i + 1;
        }
    }
    proof {
        if hyp {
            if !done {
                assert(i == n);
                assert(false);
            }
            assert(i - p0 == num.len());
            assert(num.take(i - p0) =~= num);
            assert(mag == m);
            assert(digits >= 1);
        }
    }
    if digits == 0 {
        proof {
            if hyp {
                assert(false);
            }
        }
        return None;
    }
    if neg {
        if mag > 0x8000_0000_0000_0000_0000_0000_0000_0000u128 {
            proof {
                if hyp {
                    assert(false);
                }
            }
            return None;
        }
        if mag == 0x8000_0000_0000_0000_0000_0000_0000_0000u128 {
            return Some((i128::MIN, i));
        }
        return Some((-(mag as i128), i));
    }
    if mag >= 0x8000_0000_0000_0000_0000_0000_0000_0000u128 {
        proof {
            if hyp {
                assert(false);
            }
        }
        return None;
    }
    Some((mag as i128, i))
}

/// Parses a JSON int that must fit in i64.
fn parse_json_i64(s: &str, pos: usize, hint: Ghost<int>) -> (r: Option<(i64, usize)>)
    requires
        pos <= s@.len(),
    ensures
        r matches Some(p) ==> pos <= p.1 <= s@.len(),
        (int_tok_at(s@, pos as int, hint@) && i64::MIN as int <= hint@ <= i64::MAX as int) ==> (
        r matches Some(p) && p.0 as int == hint@ && p.1 == pos + dec_int(hint@).len()),
{
    match parse_json_int(s, pos, hint) {
        Option::Some((v, p)) => {
            if v < i64::MIN as i128 || v > i64::MAX as i128 {
                None
            } else {
                Some((v as i64, p))
            }
        },
        Option::None => None,
    }
}

/// Appends the control character with the given code.
fn push_control_char(out: &mut String, code: u32, hint: Ghost<char>)
    requires
        code < 32,
        hint@ as int == code,
    ensures
        final(out)@ == old(out)@ + seq![hint@],
{
    match code {
        0 => {
            out.append("\u{0}");
            proof {
                reveal_strlit("\u{0}");
                assert("\u{0}"@ =~= seq!['\u{0}']);
                assert(hint@ == '\u{0}');
            }
        },
        1 => {
            out.append("\u{1}");
            proof {
                reveal_strlit("\u{1}");
                assert("\u{1}"@ =~= seq!['\u{1}']);
                assert(hint@ == '\u{1}');
            }
        },
        2 => {
            out.append("\u{2}");
            proof {
                reveal_strlit("\u{2}");
                assert("\u{2}"@ =~= seq!['\u{2}']);
                assert(hint@ == '\u{2}');
            }
        },
        3 => {
            out.append("\u{3}");
            proof {
                reveal_strlit("\u{3}");
                assert("\u{3}"@ =~= seq!['\u{3}']);
                assert(hint@ == '\u{3}');
            }
        },
        4 => {
            out.append("\u{4}");
            proof {
                reveal_strlit("\u{4}");
                assert("\u{4}"@ =~= seq!['\u{4}']);
                assert(hint@ == '\u{4}');
            }
        },
        5 => {
            out.append("\u{5}");
            proof {
                reveal_strlit("\u{5}");
                assert("\u{5}"@ =~= seq!['\u{5}']);
                assert(hint@ == '\u{5}');
            }
        },
        6 => {
            out.append("\u{6}");
            proof {
                reveal_strlit("\u{6}");
                assert("\u{6}"@ =~= seq!['\u{6}']);
                assert(hint@ == '\u{6}');
            }
        },
        7 => {
            out.append("\u{7}");
            proof {
                reveal_strlit("\u{7}");
                assert("\u{7}"@ =~= seq!['\u{7}']);
                assert(hint@ == '\u{7}');
            }
        },
        8 => {
            out.append("\u{8}");
            proof {
                reveal_strlit("\u{8}");
                assert("\u{8}"@ =~= seq!['\u{8}']);
                assert(hint@ == '\u{8}');
            }
        },
        9 => {
            out.append("\t");
            proof {
                reveal_strlit("\t");
                assert("\t"@ =~= seq!['\t']);
                assert(hint@ == '\t');
            }
        },
        10 => {
            out.append("\n");
            proof {
                reveal_strlit("\n");
                assert("\n"@ =~= seq!['\n']);
                assert(hint@ == '\n');
            }
        },
        11 => {
            out.append("\u{b}");
            proof {
                reveal_strlit("\u{b}");
                assert("\u{b}"@ =~= seq!['\u{b}']);
                assert(hint@ == '\u{b}');
            }
        },
        12 => {
            out.append("\u{c}");
            proof {
                reveal_strlit("\u{c}");
                assert("\u{c}"@ =~= seq!['\u{c}']);
                assert(hint@ == '\u{c}');
            }
        },
        13 => {
            out.append("\r");
            proof {
                reveal_strlit("\r");
                assert("\r"@ =~= seq!['\r']);
                assert(hint@ == '\r');
            }
        },
        14 => {
            out.append("\u{e}");
            proof {
                reveal_strlit("\u{e}");
                assert("\u{e}"@ =~= seq!['\u{e}']);
                assert(hint@ == '\u{e}');
            }
        },
        15 => {
            out.append("\u{f}");
            proof {
                reveal_strlit("\u{f}");
                assert("\u{f}"@ =~= seq!['\u{f}']);
                assert(hint@ == '\u{f}');
            }
        },
        16 => {
            out.append("\u{10}");
            proof {
                reveal_strlit("\u{10}");
                assert("\u{10}"@ =~= seq!['\u{10}']);
                assert(hint@ == '\u{10}');
            }
        },
        17 => {
            out.append("\u{11}");
            proof {
                reveal_strlit("\u{11}");
                assert("\u{11}"@ =~= seq!['\u{11}']);
                assert(hint@ == '\u{11}');
            }
        },
        18 => {
            out.append("\u{12}");
            proof {
                reveal_strlit("\u{12}");
                assert("\u{12}"@ =~= seq!['\u{12}']);
                assert(hint@ == '\u{12}');
            }
        },
        19 => {
            out.append("\u{13}");
            proof {
                reveal_strlit("\u{13}");
                assert("\u{13}"@ =~= seq!['\u{13}']);
                assert(hint@ == '\u{13}');
            }
        },
        20 => {
            out.append("\u{14}");
            proof {
                reveal_strlit("\u{14}");
                assert("\u{14}"@ =~= seq!['\u{14}']);
                assert(hint@ == '\u{14}');
            }
        },
        21 => {
            out.append("\u{15}");
            proof {
                reveal_strlit("\u{15}");
                assert("\u{15}"@ =~= seq!['\u{15}']);
                assert(hint@ == '\u{15}');
            }
        },
        22 => {
            out.append("\u{16}");
            proof {
                reveal_strlit("\u{16}");
                assert("\u{16}"@ =~= seq!['\u{16}']);
                assert(hint@ == '\u{16}');
            }
        },
        23 => {
            out.append("\u{17}");
            proof {
                reveal_strlit("\u{17}");
                assert("\u{17}"@ =~= seq!['\u{17}']);
                assert(hint@ == '\u{17}');
            }
        },
        24 => {
            out.append("\u{18}");
            proof {
                reveal_strlit("\u{18}");
                assert("\u{18}"@ =~= seq!['\u{18}']);
                assert(hint@ == '\u{18}');
            }
        },
        25 => {
            out.append("\u{19}");
            proof {
                reveal_strlit("\u{19}");
                assert("\u{19}"@ =~= seq!['\u{19}']);
                assert(hint@ == '\u{19}');
            }
        },
        26 => {
            out.append("\u{1a}");
            proof {
                reveal_strlit("\u{1a}");
                assert("\u{1a}"@ =~= seq!['\u{1a}']);
                assert(hint@ == '\u{1a}');
            }
        },
        27 => {
            out.append("\u{1b}");
            proof {
                reveal_strlit("\u{1b}");
                assert("\u{1b}"@ =~= seq!['\u{1b}']);
                assert(hint@ == '\u{1b}');
            }
        },
        28 => {
            out.append("\u{1c}");
            proof {
                reveal_strlit("\u{1c}");
                assert("\u{1c}"@ =~= seq!['\u{1c}']);
                assert(hint@ == '\u{1c}');
            }
        },
        29 => {
            out.append("\u{1d}");
            proof {
                reveal_strlit("\u{1d}");
                assert("\u{1d}"@ =~= seq!['\u{1d}']);
                assert(hint@ == '\u{1d}');
            }
        },
        30 => {
            out.append("\u{1e}");
            proof {
                reveal_strlit("\u{1e}");
                assert("\u{1e}"@ =~= seq!['\u{1e}']);
                assert(hint@ == '\u{1e}');
            }
        },
        _ => {
            out.append("\u{1f}");
            proof {
                reveal_strlit("\u{1f}");
                assert("\u{1f}"@ =~= seq!['\u{1f}']);
                assert(hint@ == '\u{1f}');
            }
        },
    }
}
/// Value of a hex digit character, or 16 if it is none.
fn hex_val(c: char) -> (r: u32)
    ensures
        r <= 16,
        forall|d: int| 0 <= d < 16 && c == hex_digit_char(d) ==> r == d,
{
    proof {
        assert forall|d: int| 0 <= d < 16 && c == hex_digit_char(d) implies (c as int == if d < 10 {
            '0' as int + d
        } else {
            'a' as int + (d - 10)
        }) by {
            lemma_hex_digit_char_val(d);
        }
    }
    let u = c as u32;
    if 48 <= u && u <= 57 {
        u - 48
    } else if 97 <= u && u <= 102 {
        u - 87
    } else if 65 <= u && u <= 70 {
        u - 55
    } else {
        16
    }
}

/// Every character of `v` carries a nonnegative code, as every
/// character of an executable string does.
pub open spec fn scalar_chars(v: Seq<char>) -> bool {
    forall|i: int| 0 <= i < v.len() ==> 0 <= (#[trigger] v[i]) as int
}

/// The hypothesis under which the string parser is promised to
/// succeed: the quoted token of `v` stands at `pos`.
pub open spec fn str_tok_at(s: Seq<char>, pos: int, v: Seq<char>) -> bool {
    lit_at(s, pos, enc_str(v)) && scalar_chars(v)
}

/// Parses a JSON string token (opening quote at `pos`), undoing the
/// escapes the encoder writes; on the quoted token of `v` it yields
/// exactly `v`.
#[verifier::rlimit(100)]
#[verifier::spinoff_prover]
fn parse_json_string(s: &str, pos: usize, hint: Ghost<Seq<char>>) -> (r: Option<(String, usize)>)
    requires
        pos <= s@.len(),
    ensures
        r matches Some(p) ==> pos <= p.1 <= s@.len(),
        str_tok_at(s@, pos as int, hint@) ==> (r matches Some(p) && p.0@ == hint@ && p.1 == pos
            + enc_str(hint@).len()),
{
    let ghost v = hint@;
    let ghost hyp = str_tok_at(s@, pos as int, v);
    let ghost esc = escape(v);
    proof {
        if hyp {
            assert(enc_str(v).len() == esc.len() + 2) by {
                assert(enc_str(v) =~= seq!['"'] + escape(v) + seq!['"']);
            }
            assert forall|t: int| 0 <= t < enc_str(v).len() implies s@[pos + t]
                == #[trigger] enc_str(v)[t] by {
                assert(s@.subrange(pos as int, pos + enc_str(v).len())[t] == s@[pos + t]);
            }
            assert(enc_str(v)[0] == '"');
            assert(s@[pos as int + 0] == enc_str(v)[0]);
        }
    }
    let n = s.unicode_len();
    if pos >= n || s.get_char(pos) != '"' {
        proof {
            if hyp {
                assert(false);
            }
        }
        return None;
    }
    let mut out = String::new();
    let mut i = pos + 1;
    let ghost mut k: int = 0;
    proof {
        if hyp {
            assert(v.take(0) =~= Seq::<char>::empty());
            assert(escape(v.take(0)) =~= Seq::<char>::empty());
            assert(out@ =~= v.take(0));
        }
    }
    while i < n
        invariant
            pos + 1 <= i <= n,
            n == s@.len(),
            v == hint@,
            esc == escape(v),
            hyp == str_tok_at(s@, pos as int, v),
            hyp ==> 0 <= k <= v.len(),
            hyp ==> out@ == v.take(k),
            hyp ==> i == pos + 1 + escape(v.take(k)).len(),
            hyp ==> enc_str(v).len() == esc.len() + 2,
            hyp ==> pos + enc_str(v).len() <= n,
            hyp ==> (forall|t: int|
                0 <= t < enc_str(v).len() ==> s@[pos + t] == #[trigger] enc_str(v)[t]),
        decreases n - i,
    {
        proof {
            if hyp {
                assert(v.take(k) + v.skip(k) =~= v);
                lemma_escape_concat(v.take(k), v.skip(k));
                if k < v.len() {
                    let c0 = v[k];
                    let sk = v.skip(k);
                    assert(sk[0] == c0);
                    lemma_escape_first(sk);
                    assert(sk.subrange(1, sk.len() as int) =~= v.skip(k + 1));
                    assert(esc =~= escape(v.take(k)) + (esc_char(c0) + escape(v.skip(k + 1))));
                    let ofs = escape(v.take(k)).len() as int;
                    assert forall|j: int| 0 <= j < esc_char(c0).len() implies s@[i + j]
                        == #[trigger] esc_char(c0)[j] by {
                        assert(esc[ofs + j] == esc_char(c0)[j]);
                        assert(enc_str(v) =~= seq!['"'] + escape(v) + seq!['"']);
                        assert(enc_str(v)[1 + ofs + j] == esc[ofs + j]);
                        assert(s@[pos + (1 + ofs + j)] == enc_str(v)[1 + ofs + j]);
                    }
                    assert(i + esc_char(c0).len() <= pos + 1 + esc.len());
                } else {
                    assert(v.skip(k) =~= Seq::<char>::empty());
                    assert(escape(v.skip(k)) =~= Seq::<char>::empty());
                    assert(esc =~= escape(v.take(k)));
                    assert(enc_str(v) =~= seq!['"'] + escape(v) + seq!['"']);
                    assert(enc_str(v)[1 + esc.len() as int] == '"');
                    assert(s@[pos + 1 + esc.len() as int] == enc_str(v)[1 + esc.len() as int]);
                    assert(s@[i as int] == '"');
                }
            }
        }
        let c = s.get_char(i);
        if c == '"' {
            proof {
                if hyp {
                    if k < v.len() {
                        let c0 = v[k];
                        assert(s@[i as int + 0] == esc_char(c0)[0]);
                        if plain_char(c0) {
                            assert(esc_char(c0)[0] == c0 && c0 != '"');
                        } else {
                            assert(esc_char(c0)[0] == '\\');
                        }
                        assert(false);
                    }
                    assert(out@ =~= v);
                    assert(i + 1 == pos + enc_str(v).len());
                }
            }
            return Some((out, i + 1));
        }
        proof {
            if hyp {
                assert(k < v.len()) by {
                    if k == v.len() {
                        assert(s@[i as int] == '"');
                    }
                }
            }
        }
        let ghost c0 = if hyp {
            v[k]
        } else {
            c
        };
        proof {
            if hyp {
                assert(s@[i as int + 0] == esc_char(c0)[0]);
                assert(v.take(k + 1) =~= v.take(k) + seq![c0]);
                assert(seq![c0].drop_last() =~= Seq::<char>::empty());
                assert(seq![c0].last() == c0);
                assert(escape(seq![c0]) == escape(seq![c0].drop_last()) + esc_char(c0));
                assert(escape(Seq::<char>::empty()) =~= Seq::<char>::empty());
                assert(Seq::<char>::empty() + esc_char(c0) =~= esc_char(c0));
                assert(escape(seq![c0]) =~= esc_char(c0));
                lemma_escape_concat(v.take(k), seq![c0]);
                assert(escape(v.take(k + 1)) == escape(v.take(k)) + esc_char(c0));
            }
        }
        if c == '\\' {
            proof {
                if hyp {
                    if plain_char(c0) {
                        assert(esc_char(c0)[0] == c0);
                        assert(false);
                    }
                    assert(esc_char(c0).len() >= 2);
                    assert(s@[i as int + 1] == esc_char(c0)[1]);
                }
            }
            if i + 1 >= n {
                proof {
                    if hyp {
                        assert(i + 1 < pos + 1 + esc.len() + 1);
                        assert(false);
                    }
                }
                return None;
            }
            let e = s.get_char(i + 1);
            let ghost pre = out@;
            if e == '"' {
                proof {
                    reveal_strlit("\"");
                    if hyp {
                        assert(c0 == '"');
                        assert("\""@ =~= seq![c0]);
                    }
                }
                out.append("\"");
                i = i + 2;
            } else if e == '\\' {
                proof {
                    reveal_strlit("\\");
                    if hyp {
                        assert(c0 == '\\');
                        assert("\\"@ =~= seq![c0]);
                    }
                }
                out.append("\\");
                i = i + 2;
            } else if e == 'b' {
                proof {
                    reveal_strlit("\u{8}");
                    if hyp {
                        assert(c0 == '\u{8}');
                        assert("\u{8}"@ =~= seq![c0]);
                    }
                }
                out.append("\u{8}");
                i = i + 2;
            } else if e == 't' {
                proof {
                    reveal_strlit("\t");
                    if hyp {
                        assert(c0 == '\t');
                        assert("\t"@ =~= seq![c0]);
                    }
                }
                out.append("\t");
                i = i + 2;
            } else if e == 'n' {
                proof {
                    reveal_strlit("\n");
                    if hyp {
                        assert(c0 == '\n');
                        assert("\n"@ =~= seq![c0]);
                    }
                }
                out.append("\n");
                i = i + 2;
            } else if e == 'f' {
                proof {
                    reveal_strlit("\u{c}");
                    if hyp {
                        assert(c0 == '\u{c}');
                        assert("\u{c}"@ =~= seq![c0]);
                    }
                }
                out.append("\u{c}");
                i = i + 2;
            } else if e == 'r' {
                proof {
                    reveal_strlit("\r");
                    if hyp {
                        assert(c0 == '\r');
                        assert("\r"@ =~= seq![c0]);
                    }
                }
                out.append("\r");
                i = i + 2;
            } else if e == 'u' {
                proof {
                    if hyp {
                        assert((c0 as int) < 32 && c0 != '\u{8}' && c0 != '\t' && c0 != '\n'
                            && c0 != '\u{c}' && c0 != '\r');
                        assert(esc_char(c0).len() == 6);
                        assert(s@[i as int + 2] == esc_char(c0)[2]);
                        assert(s@[i as int + 3] == esc_char(c0)[3]);
                        assert(s@[i as int + 4] == esc_char(c0)[4]);
                        assert(s@[i as int + 5] == esc_char(c0)[5]);
                        assert(i + 6 <= pos + 1 + esc.len());
                    }
                }
                if n - i < 7 {
                    proof {
                        if hyp {
                            assert(false);
                        }
                    }
                    return None;
                }
                if s.get_char(i + 2) != '0' || s.get_char(i + 3) != '0' {
                    proof {
                        if hyp {
                            assert(false);
                        }
                    }
                    return None;
                }
                let h1 = hex_val(s.get_char(i + 4));
                let h2 = hex_val(s.get_char(i + 5));
                proof {
                    if hyp {
                        assert((c0 as int) < 32);
                        assert(0 <= (c0 as int));
                        assert(0 <= (c0 as int) / 16 && (c0 as int) / 16 < 16);
                        assert(0 <= (c0 as int) % 16 && (c0 as int) % 16 < 16);
                        assert(esc_char(c0)[4] == hex_digit_char((c0 as int) / 16));
                        assert(esc_char(c0)[5] == hex_digit_char((c0 as int) % 16));
                        assert(h1 == (c0 as int) / 16);
                        assert(h2 == (c0 as int) % 16);
                    }
                }
                if h1 >= 16 || h2 >= 16 {
                    proof {
                        if hyp {
                            assert(false);
                        }
                    }
                    return None;
                }
                let code = h1 * 16 + h2;
                if code >= 32 {
                    proof {
                        if hyp {
                            assert(code == c0 as int);
                            assert(false);
                        }
                    }
                    return None;
                }
                push_control_char(&mut out, code, Ghost(((code as u8) as char)));
                proof {
                    if hyp {
                        assert(code == c0 as int);
                        assert(((code as u8) as char) == c0);
                    }
                }
                i = i + 6;
            } else {
                proof {
                    if hyp {
                        // every escaped character writes one of the eight forms
                        assert(c0 == '"' || c0 == '\\' || (c0 as int) < 32);
                        assert(false);
                    }
                }
                return None;
            }
            proof {
                if hyp {
                    assert(out@ =~= v.take(k + 1));
                    k = k + 1;
                }
            }
        } else {
            proof {
                if hyp {
                    if !plain_char(c0) {
                        assert(esc_char(c0)[0] == '\\');
                        assert(false);
                    }
                    assert(esc_char(c0) =~= seq![c0]);
                    assert(c == c0);
                }
            }
            let piece = s.substring_char(i, i + 1);
            out.append(piece);
            proof {
                assert(piece@ =~= seq![s@[i as int]]);
                if hyp {
                    assert(out@ =~= v.take(k + 1));
                    k = k + 1;
                }
            }
            i = i + 1;
        }
    }
    proof {
        if hyp {
            assert(escape(v.take(k)).len() <= esc.len()) by {
                assert(v.take(k) + v.skip(k) =~= v);
                lemma_escape_concat(v.take(k), v.skip(k));
            }
            assert(false);
        }
    }
    None
}

/// Parses the `side` token; on the token of `sd` it yields `sd`.
fn parse_side(s: &str, pos: usize, hint: Ghost<Side>) -> (r: Option<(Side, usize)>)
    requires
        pos <= s@.len(),
    ensures
        r matches Some(p) ==> pos <= p.1 <= s@.len(),
        lit_at(s@, pos as int, enc_side(hint@)) ==> (r matches Some(p) && p.0 == hint@ && p.1
            == pos + enc_side(hint@).len()),
{
    proof {
        reveal_strlit("\"Buy\"");
        reveal_strlit("\"Sell\"");
        if hint@ == Side::Sell && lit_at(s@, pos as int, enc_side(Side::Sell)) {
            assert(s@.subrange(pos as int, pos + 6)[1] == s@[pos as int + 1]);
            assert(s@[pos as int + 1] == 'S');
            if lit_at(s@, pos as int, "\"Buy\""@) {
                assert(s@.subrange(pos as int, pos + 5)[1] == s@[pos as int + 1]);
                assert(false);
            }
        }
    }
    match eat_lit(s, pos, "\"Buy\"") {
        Option::Some(p) => Some((Side::Buy, p)),
        Option::None => match eat_lit(s, pos, "\"Sell\"") {
            Option::Some(p) => Some((Side::Sell, p)),
            Option::None => None,
        },
    }
}

/// A status whose reject reason, if any, holds well-formed characters.
pub open spec fn status_scalar(st: ExecStatus) -> bool {
    match st {
        ExecStatus::Rejected(m) => scalar_chars(m@),
        _ => true,
    }
}

/// Parses the `status` token; on the token of `st` it yields a status
/// of the same shape.
#[verifier::rlimit(100)]
#[verifier::spinoff_prover]
fn parse_status(s: &str, pos: usize, hint: Ghost<ExecStatus>) -> (r: Option<(ExecStatus, usize)>)
    requires
        pos <= s@.len(),
    ensures
        r matches Some(p) ==> pos <= p.1 <= s@.len(),
        (lit_at(s@, pos as int, enc_status(hint@)) && status_scalar(hint@)) ==> (r matches Some(p)
            && status_like(p.0, hint@) && p.1 == pos + enc_status(hint@).len()),
{
    let ghost st = hint@;
    let ghost hyp = lit_at(s@, pos as int, enc_status(st)) && status_scalar(st);
    proof {
        reveal_strlit("\"Ack\"");
        reveal_strlit("\"PartialFill\"");
        reveal_strlit("\"Filled\"");
        reveal_strlit("{\"Rejected\":");
        reveal_strlit("}");
        if hyp {
            let t = enc_status(st);
            assert forall|j: int| 0 <= j < t.len() implies s@[pos + j] == #[trigger] t[j] by {
                assert(s@.subrange(pos as int, pos + t.len())[j] == s@[pos + j]);
            }
            match st {
                ExecStatus::Ack => {},
                ExecStatus::PartialFill => {
                    assert(t[1] == 'P');
                    assert(s@[pos as int + 1] == 'P');
                    if lit_at(s@, pos as int, "\"Ack\""@) {
                        assert(s@.subrange(pos as int, pos + 5)[1] == s@[pos as int + 1]);
                        assert(false);
                    }
                },
                ExecStatus::Filled => {
                    assert(t[1] == 'F');
                    assert(s@[pos as int + 1] == 'F');
                    if lit_at(s@, pos as int, "\"Ack\""@) {
                        assert(s@.subrange(pos as int, pos + 5)[1] == s@[pos as int + 1]);
                        assert(false);
                    }
                    if lit_at(s@, pos as int, "\"PartialFill\""@) {
                        assert(s@.subrange(pos as int, pos + 13)[1] == s@[pos as int + 1]);
                        assert(false);
                    }
                },
                ExecStatus::Rejected(m) => {
                    assert(t =~= "{\"Rejected\":"@ + enc_str(m@) + "}"@);
                    assert(t[0] == '{');
                    assert(s@[pos as int + 0] == '{');
                    if lit_at(s@, pos as int, "\"Ack\""@) {
                        assert(s@.subrange(pos as int, pos + 5)[0] == s@[pos as int]);
                        assert(false);
                    }
                    if lit_at(s@, pos as int, "\"PartialFill\""@) {
                        assert(s@.subrange(pos as int, pos + 13)[0] == s@[pos as int]);
                        assert(false);
                    }
                    if lit_at(s@, pos as int, "\"Filled\""@) {
                        assert(s@.subrange(pos as int, pos + 8)[0] == s@[pos as int]);
                        assert(false);
                    }
                    // the opening literal, the quoted reason, the brace
                    assert(lit_at(s@, pos as int, "{\"Rejected\":"@)) by {
                        assert(forall|j: int|
                            0 <= j < 12 ==> #[trigger] t[j] == "{\"Rejected\":"@[j]);
                        assert(s@.subrange(pos as int, pos + 12) =~= "{\"Rejected\":"@);
                    }
                    let me = enc_str(m@);
                    assert(t.len() == 12 + me.len() + 1);
                    assert forall|j: int| 0 <= j < me.len() implies s@[pos + 12 + j]
                        == #[trigger] me[j] by {
                        assert(("{\"Rejected\":"@ + me)[12 + j] == me[j]);
                        assert(t[12 + j] == ("{\"Rejected\":"@ + me)[12 + j]);
                        assert(s@[pos + (12 + j)] == t[12 + j]);
                    }
                    assert(lit_at(s@, pos + 12, me)) by {
                        assert(s@.subrange(pos + 12, pos + 12 + me.len() as int) =~= me);
                    }
                    assert(lit_at(s@, pos + 12 + me.len() as int, "}"@)) by {
                        assert(("{\"Rejected\":"@ + me).len() == 12 + me.len());
                        assert(t[12 + me.len() as int] == "}"@[0]);
                        assert(s@[pos + (12 + me.len() as int)] == t[12 + me.len() as int]);
                        assert(s@.subrange(
                            pos + 12 + me.len() as int,
                            pos + 12 + me.len() as int + 1,
                        ) =~= "}"@);
                    }
                },
            }
        }
    }
    match eat_lit(s, pos, "\"Ack\"") {
        Option::Some(p) => {
            return Some((ExecStatus::Ack, p));
        },
        Option::None => {},
    }
    match eat_lit(s, pos, "\"PartialFill\"") {
        Option::Some(p) => {
            return Some((ExecStatus::PartialFill, p));
        },
        Option::None => {},
    }
    match eat_lit(s, pos, "\"Filled\"") {
        Option::Some(p) => {
            return Some((ExecStatus::Filled, p));
        },
        Option::None => {},
    }
    match eat_lit(s, pos, "{\"Rejected\":") {
        Option::Some(p) => {
            match parse_json_string(
                s,
                p,
                Ghost(
                    match hint@ {
                        ExecStatus::Rejected(m) => m@,
                        _ => Seq::<char>::empty(),
                    },
                ),
            ) {
                Option::Some((m, p2)) => {
                    match eat_lit(s, p2, "}") {
                        Option::Some(p3) => {
                            proof {
                                if hyp {
                                    match st {
                                        ExecStatus::Rejected(mm) => {
                                            assert(enc_status(st).len() == 12 + enc_str(mm@).len()
                                                + 1) by {
                                                assert(enc_status(st) =~= "{\"Rejected\":"@
                                                    + enc_str(mm@) + "}"@);
                                            }
                                        },
                                        _ => {},
                                    }
                                }
                            }
                            Some((ExecStatus::Rejected(m), p3))
                        },
                        Option::None => None,
                    }
                },
                Option::None => None,
            }
        },
        Option::None => None,
    }
}

/// Splits a concatenation at a known offset: the middle piece stands
/// at the end of `x`, and the tail follows it.
proof fn lemma_split_at(s: Seq<char>, x: Seq<char>, t: Seq<char>, rest: Seq<char>)
    requires
        s == x + (t + rest),
    ensures
        lit_at(s, x.len() as int, t),
        s.len() == x.len() + t.len() + rest.len(),
        rest.len() > 0 ==> s[x.len() + t.len() as int] == rest[0],
        s == (x + t) + rest,
{
    assert(s.subrange(x.len() as int, x.len() + t.len() as int) =~= t);
    assert(s =~= (x + t) + rest);
    if rest.len() > 0 {
        assert(s[x.len() + t.len() as int] == rest[0]);
    }
}

/// Everything strings of `e` hold is well-formed characters.
pub open spec fn event_scalar(e: Event) -> bool {
    match e {
        Event::Md(t) => scalar_chars(t.symbol@),
        Event::Sig(g) => scalar_chars(g.symbol@),
        Event::Ord(o) => scalar_chars(o.cl_id@) && scalar_chars(o.symbol@),
        Event::Exec(er) => scalar_chars(er.cl_id@) && scalar_chars(er.symbol@) && status_scalar(
            er.status,
        ),
        Event::Note(n) => scalar_chars(n@),
    }
}

/// Parses a market-data line; on the encoding of `t` (with well-formed
/// symbol characters) it recovers `t`.
#[verifier::rlimit(100)]
#[verifier::spinoff_prover]
fn parse_md_line(line: &str, hint: Ghost<MdTick>) -> (r: Option<Event>)
    ensures
        r matches Some(ev) ==> lit_at(line@, 0, "{\"Md\":{\"ts_ns\":"@),
        (line@ == spec_encode(Event::Md(hint@)) && scalar_chars(hint@.symbol@)) ==> (r matches
            Some(ev) && event_like(ev, Event::Md(hint@))),
{
    let ghost t = hint@;
    let ghost hyp = line@ == spec_encode(Event::Md(t)) && scalar_chars(t.symbol@);
    let ghost l0 = "{\"Md\":{\"ts_ns\":"@;
    let ghost d1 = dec_int(t.ts_ns as int);
    let ghost l1 = ",\"symbol\":"@;
    let ghost sy = enc_str(t.symbol@);
    let ghost l2 = ",\"best_bid\":"@;
    let ghost d2 = dec_int(t.best_bid as int);
    let ghost l3 = ",\"best_ask\":"@;
    let ghost d3 = dec_int(t.best_ask as int);
    let ghost l4 = "}}"@;
    proof {
        reveal_strlit("{\"Md\":{\"ts_ns\":");
        reveal_strlit("{\"Md\":");
        reveal_strlit("{\"ts_ns\":");
        reveal_strlit(",\"symbol\":");
        reveal_strlit(",\"best_bid\":");
        reveal_strlit(",\"best_ask\":");
        reveal_strlit("}}");
        reveal_strlit("}");
        if hyp {
            assert(line@ =~= l0 + (d1 + (l1 + (sy + (l2 + (d2 + (l3 + (d3 + l4))))))));
            let e = Seq::<char>::empty();
            assert(line@ =~= e + (l0 + (d1 + (l1 + (sy + (l2 + (d2 + (l3 + (d3 + l4)))))))));
            lemma_split_at(line@, e, l0, d1 + (l1 + (sy + (l2 + (d2 + (l3 + (d3 + l4)))))));
            lemma_split_at(line@, e + l0, d1, l1 + (sy + (l2 + (d2 + (l3 + (d3 + l4))))));
            lemma_split_at(line@, (e + l0) + d1, l1, sy + (l2 + (d2 + (l3 + (d3 + l4)))));
            lemma_split_at(line@, ((e + l0) + d1) + l1, sy, l2 + (d2 + (l3 + (d3 + l4))));
            lemma_split_at(line@, (((e + l0) + d1) + l1) + sy, l2, d2 + (l3 + (d3 + l4)));
            lemma_split_at(line@, ((((e + l0) + d1) + l1) + sy) + l2, d2, l3 + (d3 + l4));
            lemma_split_at(line@, (((((e + l0) + d1) + l1) + sy) + l2) + d2, l3, d3 + l4);
            lemma_split_at(line@, ((((((e + l0) + d1) + l1) + sy) + l2) + d2) + l3, d3, l4);
            let x8 = (((((((e + l0) + d1) + l1) + sy) + l2) + d2) + l3) + d3;
            assert(line@ =~= x8 + (l4 + Seq::<char>::empty()));
            lemma_split_at(line@, x8, l4, Seq::<char>::empty());
            assert(l1[0] == ',' && l2[0] == ',' && l3[0] == ',' && l4[0] == '}');
            assert(!crate::numtext::is_dec_digit(',') && !crate::numtext::is_dec_digit('}'));
        }
    }
    let n = line.unicode_len();
    let p1 = match eat_lit(line, 0, "{\"Md\":{\"ts_ns\":") {
        Option::Some(v) => v,
        Option::None => {
            proof {
                if hyp {
                    assert(false);
                }
            }
            return None;
        },
    };
    let (ts, p2) = match parse_json_int(
        line,
        p1,
        Ghost(hint@.ts_ns as int),
    ) {
        Option::Some(v) => v,
        Option::None => {
            proof {
                if hyp {
                    assert(int_tok_at(line@, p1 as int, t.ts_ns as int));
                    assert(false);
                }
            }
            return None;
        },
    };
    let p3 = match eat_lit(line, p2, ",\"symbol\":") {
        Option::Some(v) => v,
        Option::None => {
            proof {
                if hyp {
                    assert(false);
                }
            }
            return None;
        },
    };
    let (sym, p4) = match parse_json_string(line, p3, Ghost(hint@.symbol@)) {
        Option::Some(v) => v,
        Option::None => {
            proof {
                if hyp {
                    assert(str_tok_at(line@, p3 as int, t.symbol@));
                    assert(false);
                }
            }
            return None;
        },
    };
    let p5 = match eat_lit(line, p4, ",\"best_bid\":") {
        Option::Some(v) => v,
        Option::None => {
            proof {
                if hyp {
                    assert(false);
                }
            }
            return None;
        },
    };
    let (bb, p6) = match parse_json_i64(line, p5, Ghost(hint@.best_bid as int)) {
        Option::Some(v) => v,
        Option::None => {
            proof {
                if hyp {
                    assert(int_tok_at(line@, p5 as int, t.best_bid as int));
                    assert(false);
                }
            }
            return None;
        },
    };
    let p7 = match eat_lit(line, p6, ",\"best_ask\":") {
        Option::Some(v) => v,
        Option::None => {
            proof {
                if hyp {
                    assert(false);
                }
            }
            return None;
        },
    };
    let (ba, p8) = match parse_json_i64(line, p7, Ghost(hint@.best_ask as int)) {
        Option::Some(v) => v,
        Option::None => {
            proof {
                if hyp {
                    assert(int_tok_at(line@, p7 as int, t.best_ask as int));
                    assert(false);
                }
            }
            return None;
        },
    };
    let p9 = match eat_lit(line, p8, "}}") {
        Option::Some(v) => v,
        Option::None => {
            proof {
                if hyp {
                    assert(false);
                }
            }
            return None;
        },
    };
    if p9 != n {
        proof {
            if hyp {
                assert(false);
            }
        }
        return None;
    }
    Some(Event::Md(MdTick { ts_ns: ts, symbol: sym, best_bid: bb, best_ask: ba }))
}


/// Parses a signal line; on the encoding of `g` (with well-formed
/// symbol characters) it recovers `g`.
#[verifier::rlimit(100)]
#[verifier::spinoff_prover]
fn parse_sig_line(line: &str, hint: Ghost<Signal>) -> (r: Option<Event>)
    ensures
        r matches Some(ev) ==> lit_at(line@, 0, "{\"Sig\":{\"ts_ns\":"@),
        (line@ == spec_encode(Event::Sig(hint@)) && scalar_chars(hint@.symbol@)) ==> (r matches
            Some(ev) && event_like(ev, Event::Sig(hint@))),
{
    let ghost g = hint@;
    let ghost hyp = line@ == spec_encode(Event::Sig(g)) && scalar_chars(g.symbol@);
    let ghost l0 = "{\"Sig\":{\"ts_ns\":"@;
    let ghost d1 = dec_int(g.ts_ns as int);
    let ghost l1 = ",\"symbol\":"@;
    let ghost sy = enc_str(g.symbol@);
    let ghost l2 = ",\"side\":"@;
    let ghost sd = enc_side(g.side);
    let ghost l3 = ",\"px\":"@;
    let ghost d2 = dec_int(g.px as int);
    let ghost l4 = ",\"qty\":"@;
    let ghost d3 = dec_int(g.qty as int);
    let ghost l5 = "}}"@;
    proof {
        reveal_strlit("{\"Sig\":{\"ts_ns\":");
        reveal_strlit("{\"Sig\":");
        reveal_strlit("{\"ts_ns\":");
        reveal_strlit(",\"symbol\":");
        reveal_strlit(",\"side\":");
        reveal_strlit(",\"px\":");
        reveal_strlit(",\"qty\":");
        reveal_strlit("}}");
        reveal_strlit("}");
        if hyp {
            let e = Seq::<char>::empty();
            assert(line@ =~= e + (l0 + (d1 + (l1 + (sy + (l2 + (sd + (l3 + (d2 + (l4 + (d3
                + l5)))))))))));
            lemma_split_at(line@, e, l0, d1 + (l1 + (sy + (l2 + (sd + (l3 + (d2 + (l4 + (d3
                + l5)))))))));
            lemma_split_at(line@, e + l0, d1, l1 + (sy + (l2 + (sd + (l3 + (d2 + (l4 + (d3
                + l5))))))));
            lemma_split_at(line@, (e + l0) + d1, l1, sy + (l2 + (sd + (l3 + (d2 + (l4 + (d3
                + l5)))))));
            lemma_split_at(line@, ((e + l0) + d1) + l1, sy, l2 + (sd + (l3 + (d2 + (l4 + (d3
                + l5))))));
            lemma_split_at(line@, (((e + l0) + d1) + l1) + sy, l2, sd + (l3 + (d2 + (l4 + (d3
                + l5)))));
            lemma_split_at(line@, ((((e + l0) + d1) + l1) + sy) + l2, sd, l3 + (d2 + (l4 + (d3
                + l5))));
            lemma_split_at(line@, (((((e + l0) + d1) + l1) + sy) + l2) + sd, l3, d2 + (l4 + (d3
                + l5)));
            lemma_split_at(line@, ((((((e + l0) + d1) + l1) + sy) + l2) + sd) + l3, d2, l4 + (d3
                + l5));
            lemma_split_at(line@, (((((((e + l0) + d1) + l1) + sy) + l2) + sd) + l3) + d2, l4, d3
                + l5);
            lemma_split_at(
                line@,
                ((((((((e + l0) + d1) + l1) + sy) + l2) + sd) + l3) + d2) + l4,
                d3,
                l5,
            );
            let x10 = (((((((((e + l0) + d1) + l1) + sy) + l2) + sd) + l3) + d2) + l4) + d3;
            assert(line@ =~= x10 + (l5 + Seq::<char>::empty()));
            lemma_split_at(line@, x10, l5, Seq::<char>::empty());
            assert(l1[0] == ',' && l3[0] == ',' && l4[0] == ',' && l5[0] == '}');
            assert(!crate::numtext::is_dec_digit(',') && !crate::numtext::is_dec_digit('}'));
        }
    }
    let n = line.unicode_len();
    let p1 = match eat_lit(line, 0, "{\"Sig\":{\"ts_ns\":") {
        Option::Some(v) => v,
        Option::None => {
            proof {
                if hyp {
                    assert(false);
                }
            }
            return None;
        },
    };
    let (ts, p2) = match parse_json_int(line, p1, Ghost(hint@.ts_ns as int)) {
        Option::Some(v) => v,
        Option::None => {
            proof {
                if hyp {
                    assert(int_tok_at(line@, p1 as int, g.ts_ns as int));
                    assert(false);
                }
            }
            return None;
        },
    };
    let p3 = match eat_lit(line, p2, ",\"symbol\":") {
        Option::Some(v) => v,
        Option::None => {
            proof {
                if hyp {
                    assert(false);
                }
            }
            return None;
        },
    };
    let (sym, p4) = match parse_json_string(line, p3, Ghost(hint@.symbol@)) {
        Option::Some(v) => v,
        Option::None => {
            proof {
                if hyp {
                    assert(str_tok_at(line@, p3 as int, g.symbol@));
                    assert(false);
                }
            }
            return None;
        },
    };
    let p5 = match eat_lit(line, p4, ",\"side\":") {
        Option::Some(v) => v,
        Option::None => {
            proof {
                if hyp {
                    assert(false);
                }
            }
            return None;
        },
    };
    let (side, p6) = match parse_side(line, p5, Ghost(hint@.side)) {
        Option::Some(v) => v,
        Option::None => {
            proof {
                if hyp {
                    assert(false);
                }
            }
            return None;
        },
    };
    let p7 = match eat_lit(line, p6, ",\"px\":") {
        Option::Some(v) => v,
        Option::None => {
            proof {
                if hyp {
                    assert(false);
                }
            }
            return None;
        },
    };
    let (px, p8) = match parse_json_i64(line, p7, Ghost(hint@.px as int)) {
        Option::Some(v) => v,
        Option::None => {
            proof {
                if hyp {
                    assert(int_tok_at(line@, p7 as int, g.px as int));
                    assert(false);
                }
            }
            return None;
        },
    };
    let p9 = match eat_lit(line, p8, ",\"qty\":") {
        Option::Some(v) => v,
        Option::None => {
            proof {
                if hyp {
                    assert(false);
                }
            }
            return None;
        },
    };
    let (qty, p10) = match parse_json_i64(line, p9, Ghost(hint@.qty as int)) {
        Option::Some(v) => v,
        Option::None => {
            proof {
                if hyp {
                    assert(int_tok_at(line@, p9 as int, g.qty as int));
                    assert(false);
                }
            }
            return None;
        },
    };
    let p11 = match eat_lit(line, p10, "}}") {
        Option::Some(v) => v,
        Option::None => {
            proof {
                if hyp {
                    assert(false);
                }
            }
            return None;
        },
    };
    if p11 != n {
        proof {
            if hyp {
                assert(false);
            }
        }
        return None;
    }
    Some(Event::Sig(Signal { ts_ns: ts, symbol: sym, side, px, qty }))
}


/// The layout of an encoded order line: each token stands at its
/// cumulative offset.
#[verifier::rlimit(100)]
#[verifier::spinoff_prover]
proof fn lemma_ord_layout(line: Seq<char>, o: Order)
    requires
        line == spec_encode(Event::Ord(o)),
        scalar_chars(o.cl_id@),
        scalar_chars(o.symbol@),
    ensures
        ({
            let l0 = "{\"Ord\":{\"cl_id\":"@;
            let s1 = enc_str(o.cl_id@);
            let l1 = ",\"ts_ns\":"@;
            let d1 = dec_int(o.ts_ns as int);
            let l2 = ",\"symbol\":"@;
            let s2 = enc_str(o.symbol@);
            let l3 = ",\"side\":"@;
            let sd = enc_side(o.side);
            let l4 = ",\"px\":"@;
            let d2 = dec_int(o.px as int);
            let l5 = ",\"qty\":"@;
            let d3 = dec_int(o.qty as int);
            let l6 = "}}"@;
            let p1 = l0.len() as int;
            let p2 = p1 + s1.len();
            let p3 = p2 + l1.len();
            let p4 = p3 + d1.len();
            let p5 = p4 + l2.len();
            let p6 = p5 + s2.len();
            let p7 = p6 + l3.len();
            let p8 = p7 + sd.len();
            let p9 = p8 + l4.len();
            let p10 = p9 + d2.len();
            let p11 = p10 + l5.len();
            let p12 = p11 + d3.len();
            &&& lit_at(line, 0, l0)
            &&& str_tok_at(line, p1, o.cl_id@)
            &&& lit_at(line, p2, l1)
            &&& int_tok_at(line, p3, o.ts_ns as int)
            &&& lit_at(line, p4, l2)
            &&& str_tok_at(line, p5, o.symbol@)
            &&& lit_at(line, p6, l3)
            &&& lit_at(line, p7, sd)
            &&& lit_at(line, p8, l4)
            &&& int_tok_at(line, p9, o.px as int)
            &&& lit_at(line, p10, l5)
            &&& int_tok_at(line, p11, o.qty as int)
            &&& lit_at(line, p12, l6)
            &&& line.len() == p12 + 2
        }),
{
    let l0 = "{\"Ord\":{\"cl_id\":"@;
    let s1 = enc_str(o.cl_id@);
    let l1 = ",\"ts_ns\":"@;
    let d1 = dec_int(o.ts_ns as int);
    let l2 = ",\"symbol\":"@;
    let s2 = enc_str(o.symbol@);
    let l3 = ",\"side\":"@;
    let sd = enc_side(o.side);
    let l4 = ",\"px\":"@;
    let d2 = dec_int(o.px as int);
    let l5 = ",\"qty\":"@;
    let d3 = dec_int(o.qty as int);
    let l6 = "}}"@;
        reveal_strlit("{\"Ord\":{\"cl_id\":");
        reveal_strlit("{\"Ord\":");
        reveal_strlit("{\"cl_id\":");
        reveal_strlit(",\"ts_ns\":");
        reveal_strlit(",\"symbol\":");
        reveal_strlit(",\"side\":");
        reveal_strlit(",\"px\":");
        reveal_strlit(",\"qty\":");
        reveal_strlit("}}");
        reveal_strlit("}");
    {
            let e = Seq::<char>::empty();
            assert(line =~= e + (l0 + (s1 + (l1 + (d1 + (l2 + (s2 + (l3 + (sd + (l4 + (d2 + (l5
                + (d3 + l6)))))))))))));
            lemma_split_at(line, e, l0, s1 + (l1 + (d1 + (l2 + (s2 + (l3 + (sd + (l4 + (d2 + (l5
                + (d3 + l6)))))))))));
            lemma_split_at(line, e + l0, s1, l1 + (d1 + (l2 + (s2 + (l3 + (sd + (l4 + (d2 + (l5
                + (d3 + l6))))))))));
            lemma_split_at(line, (e + l0) + s1, l1, d1 + (l2 + (s2 + (l3 + (sd + (l4 + (d2 + (l5
                + (d3 + l6)))))))));
            lemma_split_at(line, ((e + l0) + s1) + l1, d1, l2 + (s2 + (l3 + (sd + (l4 + (d2 + (l5
                + (d3 + l6))))))));
            lemma_split_at(line, (((e + l0) + s1) + l1) + d1, l2, s2 + (l3 + (sd + (l4 + (d2 + (
            l5 + (d3 + l6)))))));
            lemma_split_at(line, ((((e + l0) + s1) + l1) + d1) + l2, s2, l3 + (sd + (l4 + (d2 + (
            l5 + (d3 + l6))))));
            lemma_split_at(line, (((((e + l0) + s1) + l1) + d1) + l2) + s2, l3, sd + (l4 + (d2
                + (l5 + (d3 + l6)))));
            lemma_split_at(line, ((((((e + l0) + s1) + l1) + d1) + l2) + s2) + l3, sd, l4 + (d2
                + (l5 + (d3 + l6))));
            lemma_split_at(line, (((((((e + l0) + s1) + l1) + d1) + l2) + s2) + l3) + sd, l4, d2
                + (l5 + (d3 + l6)));
            lemma_split_at(
                line,
                ((((((((e + l0) + s1) + l1) + d1) + l2) + s2) + l3) + sd) + l4,
                d2,
                l5 + (d3 + l6),
            );
            lemma_split_at(
                line,
                (((((((((e + l0) + s1) + l1) + d1) + l2) + s2) + l3) + sd) + l4) + d2,
                l5,
                d3 + l6,
            );
            lemma_split_at(
                line,
                ((((((((((e + l0) + s1) + l1) + d1) + l2) + s2) + l3) + sd) + l4) + d2) + l5,
                d3,
                l6,
            );
            let x12 = (((((((((((e + l0) + s1) + l1) + d1) + l2) + s2) + l3) + sd) + l4) + d2)
                + l5) + d3;
            assert(line =~= x12 + (l6 + Seq::<char>::empty()));
            lemma_split_at(line, x12, l6, Seq::<char>::empty());
            assert(l1[0] == ',' && l4[0] == ',' && l5[0] == ',' && l6[0] == '}');
            assert(!crate::numtext::is_dec_digit(',') && !crate::numtext::is_dec_digit('}'));
        }
}

/// Parses an order line; on the encoding of `o` (with well-formed id
/// and symbol characters) it recovers `o`.
#[verifier::rlimit(100)]
#[verifier::spinoff_prover]
fn parse_ord_line(line: &str, hint: Ghost<Order>) -> (r: Option<Event>)
    ensures
        r matches Some(ev) ==> lit_at(line@, 0, "{\"Ord\":{\"cl_id\":"@),
        (line@ == spec_encode(Event::Ord(hint@)) && scalar_chars(hint@.cl_id@) && scalar_chars(
            hint@.symbol@,
        )) ==> (r matches Some(ev) && event_like(ev, Event::Ord(hint@))),
{
    let ghost o = hint@;
    let ghost hyp = line@ == spec_encode(Event::Ord(o)) && scalar_chars(o.cl_id@) && scalar_chars(
        o.symbol@,
    );
    let ghost l0 = "{\"Ord\":{\"cl_id\":"@;
    let ghost s1 = enc_str(o.cl_id@);
    let ghost l1 = ",\"ts_ns\":"@;
    let ghost d1 = dec_int(o.ts_ns as int);
    let ghost l2 = ",\"symbol\":"@;
    let ghost s2 = enc_str(o.symbol@);
    let ghost l3 = ",\"side\":"@;
    let ghost sd = enc_side(o.side);
    let ghost l4 = ",\"px\":"@;
    let ghost d2 = dec_int(o.px as int);
    let ghost l5 = ",\"qty\":"@;
    let ghost d3 = dec_int(o.qty as int);
    let ghost l6 = "}}"@;
    proof {
        reveal_strlit("{\"Ord\":{\"cl_id\":");
        reveal_strlit(",\"ts_ns\":");
        reveal_strlit(",\"symbol\":");
        reveal_strlit(",\"side\":");
        reveal_strlit(",\"px\":");
        reveal_strlit(",\"qty\":");
        reveal_strlit("}}");
        if hyp {
            lemma_ord_layout(line@, o);
        }
    }
    let n = line.unicode_len();
    let p1 = match eat_lit(line, 0, "{\"Ord\":{\"cl_id\":") {
        Option::Some(v) => v,
        Option::None => {
            proof {
                if hyp {
                    assert(false);
                }
            }
            return None;
        },
    };
    let (cl, p2) = match parse_json_string(line, p1, Ghost(hint@.cl_id@)) {
        Option::Some(v) => v,
        Option::None => {
            proof {
                if hyp {
                    assert(str_tok_at(line@, p1 as int, o.cl_id@));
                    assert(false);
                }
            }
            return None;
        },
    };
    let p3 = match eat_lit(line, p2, ",\"ts_ns\":") {
        Option::Some(v) => v,
        Option::None => {
            proof {
                if hyp {
                    assert(false);
                }
            }
            return None;
        },
    };
    let (ts, p4) = match parse_json_int(line, p3, Ghost(hint@.ts_ns as int)) {
        Option::Some(v) => v,
        Option::None => {
            proof {
                if hyp {
                    assert(int_tok_at(line@, p3 as int, o.ts_ns as int));
                    assert(false);
                }
            }
            return None;
        },
    };
    let p5 = match eat_lit(line, p4, ",\"symbol\":") {
        Option::Some(v) => v,
        Option::None => {
            proof {
                if hyp {
                    assert(false);
                }
            }
            return None;
        },
    };
    let (sym, p6) = match parse_json_string(line, p5, Ghost(hint@.symbol@)) {
        Option::Some(v) => v,
        Option::None => {
            proof {
                if hyp {
                    assert(str_tok_at(line@, p5 as int, o.symbol@));
                    assert(false);
                }
            }
            return None;
        },
    };
    let p7 = match eat_lit(line, p6, ",\"side\":") {
        Option::Some(v) => v,
        Option::None => {
            proof {
                if hyp {
                    assert(false);
                }
            }
            return None;
        },
    };
    let (side, p8) = match parse_side(line, p7, Ghost(hint@.side)) {
        Option::Some(v) => v,
        Option::None => {
            proof {
                if hyp {
                    assert(false);
                }
            }
            return None;
        },
    };
    let p9 = match eat_lit(line, p8, ",\"px\":") {
        Option::Some(v) => v,
        Option::None => {
            proof {
                if hyp {
                    assert(false);
                }
            }
            return None;
        },
    };
    let (px, p10) = match parse_json_i64(line, p9, Ghost(hint@.px as int)) {
        Option::Some(v) => v,
        Option::None => {
            proof {
                if hyp {
                    assert(int_tok_at(line@, p9 as int, o.px as int));
                    assert(false);
                }
            }
            return None;
        },
    };
    let p11 = match eat_lit(line, p10, ",\"qty\":") {
        Option::Some(v) => v,
        Option::None => {
            proof {
                if hyp {
                    assert(false);
                }
            }
            return None;
        },
    };
    let (qty, p12) = match parse_json_i64(line, p11, Ghost(hint@.qty as int)) {
        Option::Some(v) => v,
        Option::None => {
            proof {
                if hyp {
                    assert(int_tok_at(line@, p11 as int, o.qty as int));
                    assert(false);
                }
            }
            return None;
        },
    };
    let p13 = match eat_lit(line, p12, "}}") {
        Option::Some(v) => v,
        Option::None => {
            proof {
                if hyp {
                    assert(false);
                }
            }
            return None;
        },
    };
    if p13 != n {
        proof {
            if hyp {
                assert(false);
            }
        }
        return None;
    }
    Some(Event::Ord(Order { cl_id: cl, ts_ns: ts, symbol: sym, side, px, qty }))
}


/// The layout of an encoded execution-report line: each token stands
/// at its cumulative offset.
#[verifier::rlimit(100)]
#[verifier::spinoff_prover]
proof fn lemma_exec_layout(line: Seq<char>, er: ExecReport)
    requires
        line == spec_encode(Event::Exec(er)),
        scalar_chars(er.cl_id@),
        scalar_chars(er.symbol@),
    ensures
        ({
            let l0 = "{\"Exec\":{\"cl_id\":"@;
            let s1 = enc_str(er.cl_id@);
            let l1 = ",\"symbol\":"@;
            let s2 = enc_str(er.symbol@);
            let l2 = ",\"status\":"@;
            let st = enc_status(er.status);
            let l3 = ",\"filled_qty\":"@;
            let d1 = dec_int(er.filled_qty as int);
            let l4 = ",\"avg_px\":"@;
            let d2 = dec_int(er.avg_px as int);
            let l5 = ",\"ts_ns\":"@;
            let d3 = dec_int(er.ts_ns as int);
            let l6 = "}}"@;
            let p1 = l0.len() as int;
            let p2 = p1 + s1.len();
            let p3 = p2 + l1.len();
            let p4 = p3 + s2.len();
            let p5 = p4 + l2.len();
            let p6 = p5 + st.len();
            let p7 = p6 + l3.len();
            let p8 = p7 + d1.len();
            let p9 = p8 + l4.len();
            let p10 = p9 + d2.len();
            let p11 = p10 + l5.len();
            let p12 = p11 + d3.len();
            &&& lit_at(line, 0, l0)
            &&& str_tok_at(line, p1, er.cl_id@)
            &&& lit_at(line, p2, l1)
            &&& str_tok_at(line, p3, er.symbol@)
            &&& lit_at(line, p4, l2)
            &&& lit_at(line, p5, st)
            &&& lit_at(line, p6, l3)
            &&& int_tok_at(line, p7, er.filled_qty as int)
            &&& lit_at(line, p8, l4)
            &&& int_tok_at(line, p9, er.avg_px as int)
            &&& lit_at(line, p10, l5)
            &&& int_tok_at(line, p11, er.ts_ns as int)
            &&& lit_at(line, p12, l6)
            &&& line.len() == p12 + 2
        }),
{
    let l0 = "{\"Exec\":{\"cl_id\":"@;
    let s1 = enc_str(er.cl_id@);
    let l1 = ",\"symbol\":"@;
    let s2 = enc_str(er.symbol@);
    let l2 = ",\"status\":"@;
    let st = enc_status(er.status);
    let l3 = ",\"filled_qty\":"@;
    let d1 = dec_int(er.filled_qty as int);
    let l4 = ",\"avg_px\":"@;
    let d2 = dec_int(er.avg_px as int);
    let l5 = ",\"ts_ns\":"@;
    let d3 = dec_int(er.ts_ns as int);
    let l6 = "}}"@;
    reveal_strlit("{\"Exec\":{\"cl_id\":");
    reveal_strlit("{\"Exec\":");
    reveal_strlit("{\"cl_id\":");
    reveal_strlit(",\"symbol\":");
    reveal_strlit(",\"status\":");
    reveal_strlit(",\"filled_qty\":");
    reveal_strlit(",\"avg_px\":");
    reveal_strlit(",\"ts_ns\":");
    reveal_strlit("}}");
    reveal_strlit("}");
    let e = Seq::<char>::empty();
    assert(line =~= e + (l0 + (s1 + (l1 + (s2 + (l2 + (st + (l3 + (d1 + (l4 + (d2 + (l5 + (d3
        + l6)))))))))))));
    lemma_split_at(line, e, l0, s1 + (l1 + (s2 + (l2 + (st + (l3 + (d1 + (l4 + (d2 + (l5 + (d3
        + l6)))))))))));
    lemma_split_at(line, e + l0, s1, l1 + (s2 + (l2 + (st + (l3 + (d1 + (l4 + (d2 + (l5 + (d3
        + l6))))))))));
    lemma_split_at(line, (e + l0) + s1, l1, s2 + (l2 + (st + (l3 + (d1 + (l4 + (d2 + (l5 + (d3
        + l6)))))))));
    lemma_split_at(line, ((e + l0) + s1) + l1, s2, l2 + (st + (l3 + (d1 + (l4 + (d2 + (l5 + (d3
        + l6))))))));
    lemma_split_at(line, (((e + l0) + s1) + l1) + s2, l2, st + (l3 + (d1 + (l4 + (d2 + (l5 + (d3
        + l6)))))));
    lemma_split_at(line, ((((e + l0) + s1) + l1) + s2) + l2, st, l3 + (d1 + (l4 + (d2 + (l5 + (d3
        + l6))))));
    lemma_split_at(line, (((((e + l0) + s1) + l1) + s2) + l2) + st, l3, d1 + (l4 + (d2 + (l5 + (
    d3 + l6)))));
    lemma_split_at(line, ((((((e + l0) + s1) + l1) + s2) + l2) + st) + l3, d1, l4 + (d2 + (l5 + (
    d3 + l6))));
    lemma_split_at(line, (((((((e + l0) + s1) + l1) + s2) + l2) + st) + l3) + d1, l4, d2 + (l5 + (
    d3 + l6)));
    lemma_split_at(
        line,
        ((((((((e + l0) + s1) + l1) + s2) + l2) + st) + l3) + d1) + l4,
        d2,
        l5 + (d3 + l6),
    );
    lemma_split_at(
        line,
        (((((((((e + l0) + s1) + l1) + s2) + l2) + st) + l3) + d1) + l4) + d2,
        l5,
        d3 + l6,
    );
    lemma_split_at(
        line,
        ((((((((((e + l0) + s1) + l1) + s2) + l2) + st) + l3) + d1) + l4) + d2) + l5,
        d3,
        l6,
    );
    let x12 = (((((((((((e + l0) + s1) + l1) + s2) + l2) + st) + l3) + d1) + l4) + d2) + l5) + d3;
    assert(line =~= x12 + (l6 + Seq::<char>::empty()));
    lemma_split_at(line, x12, l6, Seq::<char>::empty());
    assert(l1[0] == ',' && l3[0] == ',' && l4[0] == ',' && l5[0] == ',' && l6[0] == '}');
    assert(!crate::numtext::is_dec_digit(',') && !crate::numtext::is_dec_digit('}'));
}

/// Parses an execution-report line; on the encoding of `er` (with
/// well-formed string characters) it recovers a report of the same
/// content.
#[verifier::rlimit(100)]
#[verifier::spinoff_prover]
fn parse_exec_line(line: &str, hint: Ghost<ExecReport>) -> (r: Option<Event>)
    ensures
        r matches Some(ev) ==> lit_at(line@, 0, "{\"Exec\":{\"cl_id\":"@),
        (line@ == spec_encode(Event::Exec(hint@)) && scalar_chars(hint@.cl_id@) && scalar_chars(
            hint@.symbol@,
        ) && status_scalar(hint@.status)) ==> (r matches Some(ev) && event_like(
            ev,
            Event::Exec(hint@),
        )),
{
    let ghost er0 = hint@;
    let ghost hyp = line@ == spec_encode(Event::Exec(er0)) && scalar_chars(er0.cl_id@)
        && scalar_chars(er0.symbol@) && status_scalar(er0.status);
    proof {
        reveal_strlit("{\"Exec\":{\"cl_id\":");
        reveal_strlit(",\"symbol\":");
        reveal_strlit(",\"status\":");
        reveal_strlit(",\"filled_qty\":");
        reveal_strlit(",\"avg_px\":");
        reveal_strlit(",\"ts_ns\":");
        reveal_strlit("}}");
        if hyp {
            lemma_exec_layout(line@, er0);
        }
    }
    let n = line.unicode_len();
    let p1 = match eat_lit(line, 0, "{\"Exec\":{\"cl_id\":") {
        Option::Some(v) => v,
        Option::None => {
            proof {
                if hyp {
                    assert(false);
                }
            }
            return None;
        },
    };
    let (cl, p2) = match parse_json_string(line, p1, Ghost(hint@.cl_id@)) {
        Option::Some(v) => v,
        Option::None => {
            proof {
                if hyp {
                    assert(str_tok_at(line@, p1 as int, er0.cl_id@));
                    assert(false);
                }
            }
            return None;
        },
    };
    let p3 = match eat_lit(line, p2, ",\"symbol\":") {
        Option::Some(v) => v,
        Option::None => {
            proof {
                if hyp {
                    assert(false);
                }
            }
            return None;
        },
    };
    let (sym, p4) = match parse_json_string(line, p3, Ghost(hint@.symbol@)) {
        Option::Some(v) => v,
        Option::None => {
            proof {
                if hyp {
                    assert(str_tok_at(line@, p3 as int, er0.symbol@));
                    assert(false);
                }
            }
            return None;
        },
    };
    let p5 = match eat_lit(line, p4, ",\"status\":") {
        Option::Some(v) => v,
        Option::None => {
            proof {
                if hyp {
                    assert(false);
                }
            }
            return None;
        },
    };
    let (st, p6) = match parse_status(line, p5, Ghost(hint@.status)) {
        Option::Some(v) => v,
        Option::None => {
            proof {
                if hyp {
                    assert(lit_at(line@, p5 as int, enc_status(er0.status)));
                    assert(false);
                }
            }
            return None;
        },
    };
    let p7 = match eat_lit(line, p6, ",\"filled_qty\":") {
        Option::Some(v) => v,
        Option::None => {
            proof {
                if hyp {
                    assert(false);
                }
            }
            return None;
        },
    };
    let (fq, p8) = match parse_json_i64(line, p7, Ghost(hint@.filled_qty as int)) {
        Option::Some(v) => v,
        Option::None => {
            proof {
                if hyp {
                    assert(int_tok_at(line@, p7 as int, er0.filled_qty as int));
                    assert(false);
                }
            }
            return None;
        },
    };
    let p9 = match eat_lit(line, p8, ",\"avg_px\":") {
        Option::Some(v) => v,
        Option::None => {
            proof {
                if hyp {
                    assert(false);
                }
            }
            return None;
        },
    };
    let (ap, p10) = match parse_json_i64(line, p9, Ghost(hint@.avg_px as int)) {
        Option::Some(v) => v,
        Option::None => {
            proof {
                if hyp {
                    assert(int_tok_at(line@, p9 as int, er0.avg_px as int));
                    assert(false);
                }
            }
            return None;
        },
    };
    let p11 = match eat_lit(line, p10, ",\"ts_ns\":") {
        Option::Some(v) => v,
        Option::None => {
            proof {
                if hyp {
                    assert(false);
                }
            }
            return None;
        },
    };
    let (ts, p12) = match parse_json_int(line, p11, Ghost(hint@.ts_ns as int)) {
        Option::Some(v) => v,
        Option::None => {
            proof {
                if hyp {
                    assert(int_tok_at(line@, p11 as int, er0.ts_ns as int));
                    assert(false);
                }
            }
            return None;
        },
    };
    let p13 = match eat_lit(line, p12, "}}") {
        Option::Some(v) => v,
        Option::None => {
            proof {
                if hyp {
                    assert(false);
                }
            }
            return None;
        },
    };
    if p13 != n {
        proof {
            if hyp {
                assert(false);
            }
        }
        return None;
    }
    Some(
        Event::Exec(
            ExecReport { cl_id: cl, symbol: sym, status: st, filled_qty: fq, avg_px: ap, ts_ns: ts },
        ),
    )
}

/// Parses a note line; on the encoding of `v` (with well-formed
/// characters) it recovers `v`.
#[verifier::rlimit(100)]
#[verifier::spinoff_prover]
fn parse_note_line(line: &str, hint: Ghost<Seq<char>>) -> (r: Option<Event>)
    ensures
        r matches Some(ev) ==> lit_at(line@, 0, "{\"Note\":"@),
        (line@ == "{\"Note\":"@ + enc_str(hint@) + "}"@ && scalar_chars(hint@)) ==> (r matches
            Some(ev) && ev matches Event::Note(m) && m@ == hint@),
{
    let ghost v = hint@;
    let ghost hyp = line@ == "{\"Note\":"@ + enc_str(v) + "}"@ && scalar_chars(v);
    proof {
        reveal_strlit("{\"Note\":");
        reveal_strlit("}");
        if hyp {
            let e = Seq::<char>::empty();
            let l0 = "{\"Note\":"@;
            let s1 = enc_str(v);
            let l1 = "}"@;
            assert(line@ =~= e + (l0 + (s1 + l1)));
            lemma_split_at(line@, e, l0, s1 + l1);
            lemma_split_at(line@, e + l0, s1, l1);
            let x2 = ((e + l0) + s1);
            assert(line@ =~= x2 + (l1 + Seq::<char>::empty()));
            lemma_split_at(line@, x2, l1, Seq::<char>::empty());
        }
    }
    let n = line.unicode_len();
    let p1 = match eat_lit(line, 0, "{\"Note\":") {
        Option::Some(v2) => v2,
        Option::None => {
            proof {
                if hyp {
                    assert(false);
                }
            }
            return None;
        },
    };
    let (note, p2) = match parse_json_string(line, p1, Ghost(hint@)) {
        Option::Some(v2) => v2,
        Option::None => {
            proof {
                if hyp {
                    assert(str_tok_at(line@, p1 as int, v));
                    assert(false);
                }
            }
            return None;
        },
    };
    let p3 = match eat_lit(line, p2, "}") {
        Option::Some(v2) => v2,
        Option::None => {
            proof {
                if hyp {
                    assert(false);
                }
            }
            return None;
        },
    };
    if p3 != n {
        proof {
            if hyp {
                assert(false);
            }
        }
        return None;
    }
    Some(Event::Note(note))
}

/// Equal-content events encode to the same line.
proof fn lemma_encode_respects_like(a: Event, b: Event)
    requires
        event_like(a, b),
    ensures
        spec_encode(a) == spec_encode(b),
{
    match (a, b) {
        (Event::Md(x), Event::Md(y)) => {
            assert(enc_md(x) == enc_md(y));
        },
        (Event::Sig(x), Event::Sig(y)) => {
            assert(enc_sig(x) == enc_sig(y));
        },
        (Event::Ord(x), Event::Ord(y)) => {
            assert(enc_ord(x) == enc_ord(y));
        },
        (Event::Exec(x), Event::Exec(y)) => {
            match (x.status, y.status) {
                (ExecStatus::Rejected(m1), ExecStatus::Rejected(m2)) => {
                    assert(enc_status(x.status) == enc_status(y.status));
                },
                _ => {
                    assert(enc_status(x.status) == enc_status(y.status));
                },
            }
            assert(enc_exec(x) == enc_exec(y));
        },
        (Event::Note(x), Event::Note(y)) => {
            assert(enc_str(x@) == enc_str(y@));
        },
        _ => {},
    }
}

/// Decodes one JSONL line back into an event: exactly the shapes
/// `encode_event` writes. A decoded event re-encodes to the given
/// line, and every encoded event is decoded back to an event of the
/// same content: the JSONL format round-trips.
#[verifier::rlimit(100)]
#[verifier::spinoff_prover]
pub fn decode_event(line: &str) -> (r: Option<Event>)
    ensures
        r matches Some(ev) ==> line@ == spec_encode(ev),
        forall|e: Event|
            (line@ == #[trigger] spec_encode(e) && event_scalar(e)) ==> (r matches Some(ev)
                && event_like(ev, e)),
{
    let ghost he = choose|e: Event| line@ == spec_encode(e) && event_scalar(e);
    match decode_candidate(line, Ghost(he)) {
        Option::Some(ev) => {
            let enc = encode_event(&ev);
            if str_eq(enc.as_str(), line) {
                proof {
                    assert forall|e: Event|
                        line@ == #[trigger] spec_encode(e) && event_scalar(e) implies event_like(
                        ev,
                        e,
                    ) by {
                        lemma_encode_determines_event(ev, e);
                    }
                }
                Some(ev)
            } else {
                proof {
                    assert forall|e: Event|
                        !(line@ == #[trigger] spec_encode(e) && event_scalar(e)) by {
                        if line@ == spec_encode(e) && event_scalar(e) {
                            assert(line@ == spec_encode(he) && event_scalar(he));
                            lemma_encode_respects_like(ev, he);
                        }
                    }
                }
                None
            }
        },
        Option::None => {
            proof {
                assert forall|e: Event|
                    !(line@ == #[trigger] spec_encode(e) && event_scalar(e)) by {
                    if line@ == spec_encode(e) && event_scalar(e) {
                        assert(line@ == spec_encode(he) && event_scalar(he));
                    }
                }
            }
            None
        },
    }
}

/// The lenient first pass of `decode_event`: tries each variant's
/// shape in turn; on the encoding of `hint` it recovers an event of
/// the same content.
#[verifier::rlimit(100)]
#[verifier::spinoff_prover]
fn decode_candidate(line: &str, hint: Ghost<Event>) -> (r: Option<Event>)
    ensures
        (line@ == spec_encode(hint@) && event_scalar(hint@)) ==> (r matches Some(ev)
            && event_like(ev, hint@)),
{
    let ghost h = hint@;
    let ghost hyp = line@ == spec_encode(h) && event_scalar(h);
    proof {
        reveal_strlit("{\"Md\":{\"ts_ns\":");
        reveal_strlit("{\"Sig\":{\"ts_ns\":");
        reveal_strlit("{\"Ord\":{\"cl_id\":");
        reveal_strlit("{\"Exec\":{\"cl_id\":");
        reveal_strlit("{\"Note\":");
        if hyp {
            lemma_tag_char(h);
        }
    }
    match parse_md_line(
        line,
        Ghost(
            match h {
                Event::Md(t) => t,
                _ => vstd::pervasive::arbitrary(),
            },
        ),
    ) {
        Option::Some(ev) => {
            proof {
                if hyp {
                    match h {
                        Event::Md(_) => {},
                        _ => {
                            assert(lit_at(line@, 0, "{\"Md\":{\"ts_ns\":"@));
                            assert("{\"Md\":{\"ts_ns\":"@[2] == 'M');
                            assert(line@.subrange(0, 16) == "{\"Md\":{\"ts_ns\":"@);
                            assert(line@.subrange(0, 16)[2] == line@[2]);
                            assert(false);
                        },
                    }
                }
            }
            return Some(ev);
        },
        Option::None => {
            proof {
                if hyp {
                    match h {
                        Event::Md(_) => {
                            assert(false);
                        },
                        _ => {},
                    }
                }
            }
        },
    }
    match parse_sig_line(
        line,
        Ghost(
            match h {
                Event::Sig(g) => g,
                _ => vstd::pervasive::arbitrary(),
            },
        ),
    ) {
        Option::Some(ev) => {
            proof {
                if hyp {
                    match h {
                        Event::Sig(_) => {},
                        _ => {
                            assert(lit_at(line@, 0, "{\"Sig\":{\"ts_ns\":"@));
                            assert("{\"Sig\":{\"ts_ns\":"@[2] == 'S');
                            assert(line@.subrange(0, 17) == "{\"Sig\":{\"ts_ns\":"@);
                            assert(line@.subrange(0, 17)[2] == line@[2]);
                            assert(false);
                        },
                    }
                }
            }
            return Some(ev);
        },
        Option::None => {
            proof {
                if hyp {
                    match h {
                        Event::Sig(_) => {
                            assert(false);
                        },
                        _ => {},
                    }
                }
            }
        },
    }
    match parse_ord_line(
        line,
        Ghost(
            match h {
                Event::Ord(o) => o,
                _ => vstd::pervasive::arbitrary(),
            },
        ),
    ) {
        Option::Some(ev) => {
            proof {
                if hyp {
                    match h {
                        Event::Ord(_) => {},
                        _ => {
                            assert(lit_at(line@, 0, "{\"Ord\":{\"cl_id\":"@));
                            assert("{\"Ord\":{\"cl_id\":"@[2] == 'O');
                            assert(line@.subrange(0, 17) == "{\"Ord\":{\"cl_id\":"@);
                            assert(line@.subrange(0, 17)[2] == line@[2]);
                            assert(false);
                        },
                    }
                }
            }
            return Some(ev);
        },
        Option::None => {
            proof {
                if hyp {
                    match h {
                        Event::Ord(_) => {
                            assert(false);
                        },
                        _ => {},
                    }
                }
            }
        },
    }
    match parse_exec_line(
        line,
        Ghost(
            match h {
                Event::Exec(er) => er,
                _ => vstd::pervasive::arbitrary(),
            },
        ),
    ) {
        Option::Some(ev) => {
            proof {
                if hyp {
                    match h {
                        Event::Exec(_) => {},
                        _ => {
                            assert(lit_at(line@, 0, "{\"Exec\":{\"cl_id\":"@));
                            assert("{\"Exec\":{\"cl_id\":"@[2] == 'E');
                            assert(line@.subrange(0, 18) == "{\"Exec\":{\"cl_id\":"@);
                            assert(line@.subrange(0, 18)[2] == line@[2]);
                            assert(false);
                        },
                    }
                }
            }
            return Some(ev);
        },
        Option::None => {
            proof {
                if hyp {
                    match h {
                        Event::Exec(_) => {
                            assert(false);
                        },
                        _ => {},
                    }
                }
            }
        },
    }
    match parse_note_line(
        line,
        Ghost(
            match h {
                Event::Note(nn) => nn@,
                _ => Seq::<char>::empty(),
            },
        ),
    ) {
        Option::Some(ev) => {
            proof {
                if hyp {
                    match h {
                        Event::Note(_) => {},
                        _ => {
                            assert(lit_at(line@, 0, "{\"Note\":"@));
                            assert("{\"Note\":"@[2] == 'N');
                            assert(line@.subrange(0, 9) == "{\"Note\":"@);
                            assert(line@.subrange(0, 9)[2] == line@[2]);
                            assert(false);
                        },
                    }
                }
            }
            return Some(ev);
        },
        Option::None => {
            proof {
                if hyp {
                    match h {
                        Event::Note(_) => {
                            assert(false);
                        },
                        _ => {},
                    }
                }
            }
        },
    }
    proof {
        if hyp {
            assert(false);
        }
    }
    None
}

} // verus!
