//! Market-data feeds, pure side: the mock random-walk step and the
//! parsing of exchange best-bid/ask frames. Timers, sockets and the
//! broadcast bus live outside the library.

use vstd::prelude::*;
use vstd::string::*;
use crate::domain::{MdTick, PX_CAP};
use crate::numtext::{dec_val, dec_valid, int_part, parse_px_2dp, scaled_2dp, PARSE_INT_CAP};

verus! {

/// The floor the mock feed clamps its bid to: 50.00 in tick scale.
pub const MOCK_PX_FLOOR: i64 = 50_00;

/// One step of the mock random walk: add the step, clamp at the floor.
pub open spec fn spec_mock_step(px_bid: int, step: int) -> int {
    if px_bid + step < MOCK_PX_FLOOR {
        MOCK_PX_FLOOR as int
    } else {
        px_bid + step
    }
}

/// Advances the mock feed by one uniform step in `[-3, 3]` and builds
/// the emitted tick: the new bid, and an ask one tick above it.
pub fn mock_next(px_bid: i64, step: i64, ts_ns: i128, symbol: &str) -> (r: (i64, MdTick))
    requires
        -3 <= step <= 3,
        0 <= px_bid <= PX_CAP - 4,
    ensures
        r.0 == spec_mock_step(px_bid as int, step as int),
        MOCK_PX_FLOOR <= r.0 <= PX_CAP - 1,
        r.1.wf(),
        r.1.best_bid == r.0,
        r.1.best_ask == r.0 + 1,
        r.1.ts_ns == ts_ns,
        r.1.symbol@ == symbol@,
{
    let mut px = px_bid + step;
    if px < MOCK_PX_FLOOR {
        px = MOCK_PX_FLOOR;
    }
    let tick = MdTick { ts_ns, symbol: symbol.to_owned(), best_bid: px, best_ask: px + 1 };
    (px, tick)
}

/// Whether pattern `p` occurs in `s` at position `i`.
pub open spec fn match_at(s: Seq<char>, p: Seq<char>, i: int) -> bool {
    0 <= i && i + p.len() <= s.len() && s.subrange(i, i + p.len()) == p
}

/// The first position at or after `from` where `p` occurs in `s`,
/// or -1.
pub open spec fn first_match(s: Seq<char>, p: Seq<char>, from: int) -> int
    decreases s.len() + 1 - from,
{
    if from < 0 || from + p.len() > s.len() {
        -1
    } else if match_at(s, p, from) {
        from
    } else {
        first_match(s, p, from + 1)
    }
}

/// The first '"' at or after `from`, or -1.
pub open spec fn first_quote(s: Seq<char>, from: int) -> int
    decreases s.len() - from,
{
    if from < 0 || from >= s.len() {
        -1
    } else if s[from] == '"' {
        from
    } else {
        first_quote(s, from + 1)
    }
}

/// The value of the first string-valued field named `key` in a flat
/// JSON text: the characters between `"key":"` and the next '"'.
/// Escape sequences are not interpreted; the exchange's price fields
/// never carry them.
pub open spec fn spec_extract(s: Seq<char>, key: Seq<char>) -> Option<Seq<char>> {
    let p = seq!['"'] + key + seq!['"', ':', '"'];
    let i = first_match(s, p, 0);
    if i == -1 {
        Option::None
    } else {
        let start = i + p.len();
        let j = first_quote(s, start);
        if j == -1 {
            Option::None
        } else {
            Option::Some(s.subrange(start, j))
        }
    }
}

proof fn lemma_first_match_step(s: Seq<char>, p: Seq<char>, from: int, i: int)
    requires
        0 <= from <= i,
        forall|k: int| from <= k < i ==> !match_at(s, p, k),
        i + p.len() <= s.len(),
    ensures
        first_match(s, p, from) == first_match(s, p, i),
    decreases i - from,
{
    if from < i {
        lemma_first_match_step(s, p, from + 1, i);
    }
}

proof fn lemma_first_match_none(s: Seq<char>, p: Seq<char>, from: int)
    requires
        0 <= from,
        forall|k: int| from <= k ==> !match_at(s, p, k),
    ensures
        first_match(s, p, from) == -1,
    decreases s.len() + 1 - from,
{
    if from + p.len() <= s.len() {
        lemma_first_match_none(s, p, from + 1);
    }
}

proof fn lemma_first_quote_step(s: Seq<char>, from: int, i: int)
    requires
        0 <= from <= i <= s.len(),
        forall|k: int| from <= k < i ==> s[k] != '"',
    ensures
        first_quote(s, from) == first_quote(s, i),
    decreases i - from,
{
    if from < i {
        lemma_first_quote_step(s, from + 1, i);
    }
}

proof fn lemma_first_quote_none(s: Seq<char>, from: int)
    requires
        0 <= from,
        forall|k: int| from <= k < s.len() ==> s[k] != '"',
    ensures
        first_quote(s, from) == -1,
    decreases s.len() - from,
{
    if from < s.len() {
        lemma_first_quote_none(s, from + 1);
    }
}

/// Whether `p` occurs in `s` at position `i`, checked character by
/// character.
fn check_match_at(s: &str, n: usize, p: &str, m: usize, i: usize) -> (r: bool)
    requires
        n == s@.len(),
        m == p@.len(),
        i + m <= n,
    ensures
        r == match_at(s@, p@, i as int),
{
    let mut k: usize = 0;
    while k < m
        invariant
            0 <= k <= m,
            n == s@.len(),
            m == p@.len(),
            i + m <= n,
            forall|t: int| 0 <= t < k ==> s@[i + t] == p@[t],
        decreases m - k,
    {
        if s.get_char(i + k) != p.get_char(k) {
            proof {
                assert(s@.subrange(i as int, i as int + m as int)[k as int] != p@[k as int]);
            }
            return false;
        }
        k = k + 1;
    }
    proof {
        assert(s@.subrange(i as int, i as int + m as int) =~= p@);
    }
    true
}

/// Extracts the first string field named `key` from a flat JSON text.
pub fn extract_str_field(s: &str, key: &str) -> (r: Option<String>)
    ensures
        r is Some <==> spec_extract(s@, key@) is Some,
        r matches Some(v) ==> spec_extract(s@, key@) matches Some(w) && v@ == w,
{
    proof {
        reveal_strlit("\"");
        reveal_strlit("\":\"");
    }
    let mut pat = String::new();
    pat.append("\"");
    pat.append(key);
    pat.append("\":\"");
    proof {
        assert(pat@ =~= seq!['"'] + key@ + seq!['"', ':', '"']);
    }
    let n = s.unicode_len();
    let m = pat.as_str().unicode_len();
    if m > n {
        proof {
            assert(forall|k: int| #![trigger match_at(s@, pat@, k)] 0 <= k ==> !match_at(s@, pat@, k));
            lemma_first_match_none(s@, pat@, 0);
        }
        return None;
    }
    let mut i: usize = 0;
    while i <= n - m
        invariant
            m <= n,
            4 <= m,
            0 <= i,
            i <= n - m + 1,
            n == s@.len(),
            m == pat@.len(),
            pat@ == seq!['"'] + key@ + seq!['"', ':', '"'],
            forall|k: int| 0 <= k < i ==> !match_at(s@, pat@, k),
        decreases n - i,
    {
        if check_match_at(s, n, pat.as_str(), m, i) {
            proof {
                lemma_first_match_step(s@, pat@, 0, i as int);
            }
            let start = i + m;
            // Scan for the closing quote.
            let mut j: usize = start;
            while j < n
                invariant
                    start <= j <= n,
                    n == s@.len(),
                    m == pat@.len(),
                    pat@ == seq!['"'] + key@ + seq!['"', ':', '"'],
                    first_match(s@, pat@, 0) == i as int,
                    start == i + m,
                    i + m <= n,
                    forall|k: int| start <= k < j ==> s@[k] != '"',
                decreases n - j,
            {
                if s.get_char(j) == '"' {
                    proof {
                        lemma_first_quote_step(s@, start as int, j as int);
                    }
                    let v = s.substring_char(start, j);
                    return Some(v.to_owned());
                }
                j = j + 1;
            }
            proof {
                lemma_first_quote_none(s@, start as int);
            }
            return None;
        }
        i = i + 1;
    }
    proof {
        assert(forall|k: int| #![trigger match_at(s@, pat@, k)] 0 <= k ==> !match_at(s@, pat@, k))
            by {
            assert(i + m > n);
        }
        lemma_first_match_none(s@, pat@, 0);
    }
    None
}

/// Whether a parsed field is a usable price: a valid decimal with an
/// integer part the parser accepts.
pub open spec fn px_field_ok(v: Seq<char>) -> bool {
    dec_valid(v) && dec_val(int_part(v)) <= PARSE_INT_CAP
}

/// Parses an exchange best-bid/ask frame: reads the string fields `b`
/// (bid) and `a` (ask), scales each by 100 with rounding, and hands
/// back the pair when both parse and both are positive. Everything
/// else is dropped.
pub fn parse_book_ticker(txt: &str) -> (r: Option<(i64, i64)>)
    ensures
        ({
            let bf = spec_extract(txt@, "b"@);
            let af = spec_extract(txt@, "a"@);
            match r {
                Option::Some(p) => bf matches Some(bv) && af matches Some(av) && px_field_ok(bv)
                    && px_field_ok(av) && p.0 == scaled_2dp(bv) && p.1 == scaled_2dp(av) && p.0 > 0
                    && p.1 > 0,
                Option::None => !(bf matches Some(bv) && af matches Some(av) && px_field_ok(bv)
                    && px_field_ok(av) && scaled_2dp(bv) > 0 && scaled_2dp(av) > 0),
            }
        }),
{
    proof {
        reveal_strlit("b");
        reveal_strlit("a");
    }
    let bs = match extract_str_field(txt, "b") {
        Option::Some(v) => v,
        Option::None => {
            return None;
        },
    };
    let asv = match extract_str_field(txt, "a") {
        Option::Some(v) => v,
        Option::None => {
            return None;
        },
    };
    let bid = match parse_px_2dp(bs.as_str()) {
        Option::Some(v) => v,
        Option::None => {
            return None;
        },
    };
    let ask = match parse_px_2dp(asv.as_str()) {
        Option::Some(v) => v,
        Option::None => {
            return None;
        },
    };
    if bid > 0 && ask > 0 {
        Some((bid, ask))
    } else {
        None
    }
}

} // verus!
