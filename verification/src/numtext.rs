//! Decimal and hexadecimal text for the integer types the engine uses:
//! rendering client order ids, query fields and recorded events, and
//! parsing them back.

use vstd::prelude::*;
use vstd::string::*;

verus! {

/// The decimal digit character for `d` in `0..10`.
pub open spec fn digit_char(d: int) -> char {
    if d == 0 {
        '0'
    } else if d == 1 {
        '1'
    } else if d == 2 {
        '2'
    } else if d == 3 {
        '3'
    } else if d == 4 {
        '4'
    } else if d == 5 {
        '5'
    } else if d == 6 {
        '6'
    } else if d == 7 {
        '7'
    } else if d == 8 {
        '8'
    } else {
        '9'
    }
}

pub open spec fn is_dec_digit(c: char) -> bool {
    '0' as int <= c as int <= '9' as int
}

/// Numeric value of a digit character.
pub open spec fn digit_val(c: char) -> int {
    c as int - '0' as int
}

/// The usual decimal rendering of a nonnegative integer: no sign, no
/// leading zeros (except for the single digit of 0 itself).
pub open spec fn dec_nat(n: int) -> Seq<char>
    decreases n,
{
    if n < 10 {
        seq![digit_char(n)]
    } else {
        dec_nat(n / 10).push(digit_char(n % 10))
    }
}

/// Decimal rendering of a signed integer: a leading '-' for negatives.
pub open spec fn dec_int(n: int) -> Seq<char> {
    if n < 0 {
        seq!['-'] + dec_nat(-n)
    } else {
        dec_nat(n)
    }
}

/// Value of a digit string (most significant first). Not defined to
/// reject non-digits; pair it with a digit check.
pub open spec fn dec_val(s: Seq<char>) -> int
    decreases s.len(),
{
    if s.len() == 0 {
        0
    } else {
        dec_val(s.drop_last()) * 10 + digit_val(s.last())
    }
}

pub open spec fn all_dec_digits(s: Seq<char>) -> bool {
    forall|i: int| 0 <= i < s.len() ==> is_dec_digit(#[trigger] s[i])
}

proof fn lemma_digit_char_val(d: int)
    requires
        0 <= d < 10,
    ensures
        is_dec_digit(digit_char(d)),
        digit_val(digit_char(d)) == d,
{
}

/// `dec_nat` produces at least one character, all digits, and the first
/// one is '0' only for the value 0; `dec_val` reads the value back.
pub proof fn lemma_dec_nat_props(n: int)
    requires
        n >= 0,
    ensures
        dec_nat(n).len() >= 1,
        all_dec_digits(dec_nat(n)),
        dec_val(dec_nat(n)) == n,
        n > 0 ==> dec_nat(n)[0] != '0',
        n == 0 ==> dec_nat(n) =~= seq!['0'],
    decreases n,
{
    if n < 10 {
        lemma_digit_char_val(n);
        let s = dec_nat(n);
        assert(s =~= seq![digit_char(n)]);
        assert(s.drop_last() =~= Seq::<char>::empty());
        assert(dec_val(s) == dec_val(s.drop_last()) * 10 + digit_val(s.last()));
    } else {
        lemma_dec_nat_props(n / 10);
        lemma_digit_char_val(n % 10);
        let s = dec_nat(n);
        assert(s =~= dec_nat(n / 10).push(digit_char(n % 10)));
        assert(s.drop_last() =~= dec_nat(n / 10));
        assert(s[0] == dec_nat(n / 10)[0]);
        assert(dec_val(s) == dec_val(dec_nat(n / 10)) * 10 + digit_val(digit_char(n % 10)));
    }
}

/// Appends one decimal digit character to `s`.
pub fn push_digit(s: &mut String, d: u8)
    requires
        d < 10,
    ensures
        final(s)@ == old(s)@ + seq![digit_char(d as int)],
{
    proof {
        reveal_strlit("0");
        reveal_strlit("1");
        reveal_strlit("2");
        reveal_strlit("3");
        reveal_strlit("4");
        reveal_strlit("5");
        reveal_strlit("6");
        reveal_strlit("7");
        reveal_strlit("8");
        reveal_strlit("9");
    }
    match d {
        0 => s.append("0"),
        1 => s.append("1"),
        2 => s.append("2"),
        3 => s.append("3"),
        4 => s.append("4"),
        5 => s.append("5"),
        6 => s.append("6"),
        7 => s.append("7"),
        8 => s.append("8"),
        _ => s.append("9"),
    }
    proof {
        assert(final(s)@ =~= old(s)@ + seq![digit_char(d as int)]);
    }
}

/// Appends the decimal rendering of `n` to `s`.
pub fn push_dec_u128(s: &mut String, n: u128)
    ensures
        final(s)@ == old(s)@ + dec_nat(n as int),
    decreases n,
{
    if n >= 10 {
        push_dec_u128(s, n / 10);
    }
    push_digit(s, (n % 10) as u8);
    proof {
        if n >= 10 {
            assert(old(s)@ + dec_nat((n / 10) as int) + seq![digit_char((n % 10) as int)] =~= old(
                s,
            )@ + dec_nat(n as int));
        } else {
            assert(old(s)@ + seq![digit_char(n as int)] =~= old(s)@ + dec_nat(n as int));
        }
    }
}

/// Appends the decimal rendering of `n`, with a '-' sign if negative.
pub fn push_dec_i128(s: &mut String, n: i128)
    ensures
        final(s)@ == old(s)@ + dec_int(n as int),
{
    if n >= 0 {
        push_dec_u128(s, n as u128);
    } else {
        proof {
            reveal_strlit("-");
        }
        s.append("-");
        let mag: u128 = ((-(n + 1)) as u128) + 1;
        assert(mag == -(n as int));
        push_dec_u128(s, mag);
        proof {
            assert(old(s)@ + "-"@ + dec_nat(mag as int) =~= old(s)@ + dec_int(n as int));
        }
    }
}

pub fn u128_to_string(n: u128) -> (s: String)
    ensures
        s@ == dec_nat(n as int),
{
    let mut s = String::new();
    push_dec_u128(&mut s, n);
    proof {
        assert(s@ =~= dec_nat(n as int));
    }
    s
}

pub fn i128_to_string(n: i128) -> (s: String)
    ensures
        s@ == dec_int(n as int),
{
    let mut s = String::new();
    push_dec_i128(&mut s, n);
    proof {
        assert(s@ =~= dec_int(n as int));
    }
    s
}

pub fn i64_to_string(n: i64) -> (s: String)
    ensures
        s@ == dec_int(n as int),
{
    i128_to_string(n as i128)
}

pub fn u64_to_string(n: u64) -> (s: String)
    ensures
        s@ == dec_nat(n as int),
{
    u128_to_string(n as u128)
}

/// Character-for-character string equality.
pub fn str_eq(a: &str, b: &str) -> (r: bool)
    ensures
        r == (a@ == b@),
{
    let n = a.unicode_len();
    let m = b.unicode_len();
    if n != m {
        return false;
    }
    let mut i: usize = 0;
    while i < n
        invariant
            0 <= i <= n,
            n == a@.len(),
            n == b@.len(),
            forall|k: int| 0 <= k < i ==> a@[k] == b@[k],
        decreases n - i,
    {
        if a.get_char(i) != b.get_char(i) {
            return false;
        }
        i = i + 1;
    }
    proof {
        assert(a@ =~= b@);
    }
    true
}

/// Largest integer part the decimal parsers accept.
pub const PARSE_INT_CAP: i64 = 1_000_000_000_000_000;

/// Index of the first '.' of `s`, or `s.len()` if there is none.
pub open spec fn first_dot(s: Seq<char>) -> int
    decreases s.len(),
{
    if s.len() == 0 {
        0
    } else if s[0] == '.' {
        0
    } else {
        1 + first_dot(s.subrange(1, s.len() as int))
    }
}

/// An unsigned decimal number: a nonempty run of digits, optionally
/// followed by '.' and more digits.
pub open spec fn dec_valid(s: Seq<char>) -> bool {
    let d = first_dot(s);
    &&& d >= 1
    &&& (forall|i: int| 0 <= i < d ==> is_dec_digit(#[trigger] s[i]))
    &&& (forall|i: int| d < i < s.len() ==> is_dec_digit(#[trigger] s[i]))
}

pub open spec fn int_part(s: Seq<char>) -> Seq<char> {
    s.take(first_dot(s))
}

pub open spec fn frac_part(s: Seq<char>) -> Seq<char> {
    if first_dot(s) < s.len() {
        s.subrange(first_dot(s) + 1, s.len() as int)
    } else {
        Seq::empty()
    }
}

/// The i-th fraction digit, 0 beyond the written digits.
pub open spec fn frac_digit(f: Seq<char>, i: int) -> int {
    if i < f.len() {
        digit_val(f[i])
    } else {
        0
    }
}

/// The number multiplied by 100 and rounded half-up (looking at the
/// third fraction digit).
pub open spec fn scaled_2dp(s: Seq<char>) -> int {
    let f = frac_part(s);
    dec_val(int_part(s)) * 100 + frac_digit(f, 0) * 10 + frac_digit(f, 1) + (if frac_digit(f, 2)
        >= 5 {
        1int
    } else {
        0int
    })
}

proof fn lemma_first_dot_at(s: Seq<char>, d: int)
    requires
        0 <= d <= s.len(),
        forall|i: int| 0 <= i < d ==> s[i] != '.',
        d < s.len() ==> s[d] == '.',
    ensures
        first_dot(s) == d,
    decreases s.len(),
{
    if s.len() > 0 && d > 0 {
        let t = s.subrange(1, s.len() as int);
        assert(forall|i: int| 0 <= i < d - 1 ==> t[i] != '.') by {
            assert(forall|i: int| 0 <= i < t.len() ==> t[i] == s[i + 1]);
        }
        lemma_first_dot_at(t, d - 1);
    }
}

pub proof fn lemma_dec_val_step(s: Seq<char>, i: int)
    requires
        0 <= i < s.len(),
    ensures
        dec_val(s.take(i + 1)) == dec_val(s.take(i)) * 10 + digit_val(s[i]),
{
    assert(s.take(i + 1).drop_last() =~= s.take(i));
    assert(s.take(i + 1).last() == s[i]);
}

pub proof fn lemma_dec_val_nonneg(s: Seq<char>)
    requires
        forall|i: int| 0 <= i < s.len() ==> is_dec_digit(#[trigger] s[i]),
    ensures
        dec_val(s) >= 0,
    decreases s.len(),
{
    if s.len() > 0 {
        assert(forall|i: int|
            0 <= i < s.len() - 1 ==> is_dec_digit(#[trigger] s.drop_last()[i])) by {
            assert(forall|i: int| 0 <= i < s.len() - 1 ==> s.drop_last()[i] == #[trigger] s[i]);
        }
        lemma_dec_val_nonneg(s.drop_last());
        assert(dec_val(s) == dec_val(s.drop_last()) * 10 + digit_val(s.last()));
        assert(dec_val(s.drop_last()) * 10 >= 0) by (nonlinear_arith)
            requires
                dec_val(s.drop_last()) >= 0,
        ;
    }
}

/// With only digits, a longer prefix never reads a smaller value.
pub proof fn lemma_dec_val_prefix_mono(s: Seq<char>, i: int, j: int)
    requires
        0 <= i <= j <= s.len(),
        forall|k: int| 0 <= k < j ==> is_dec_digit(#[trigger] s[k]),
    ensures
        dec_val(s.take(i)) <= dec_val(s.take(j)),
    decreases j - i,
{
    if i < j {
        lemma_dec_val_prefix_mono(s, i, j - 1);
        lemma_dec_val_step(s, j - 1);
        assert(forall|k: int|
            0 <= k < j - 1 ==> is_dec_digit(#[trigger] s.take(j - 1)[k]));
        lemma_dec_val_nonneg(s.take(j - 1));
        assert(dec_val(s.take(j - 1)) * 10 >= dec_val(s.take(j - 1))) by (nonlinear_arith)
            requires
                dec_val(s.take(j - 1)) >= 0,
        ;
    }
}

/// Shared decimal scanner: integer part value and the first three
/// fraction digits of a valid decimal string.
fn parse_dec_parts(s: &str) -> (r: Option<(i64, i64, i64, i64)>)
    ensures
        r is Some <==> dec_valid(s@) && dec_val(int_part(s@)) <= PARSE_INT_CAP,
        r matches Some(p) ==> p.0 == dec_val(int_part(s@)) && p.1 == frac_digit(frac_part(s@), 0)
            && p.2 == frac_digit(frac_part(s@), 1) && p.3 == frac_digit(frac_part(s@), 2) && 0
            <= p.0 <= PARSE_INT_CAP && 0 <= p.1 <= 9 && 0 <= p.2 <= 9 && 0 <= p.3 <= 9,
{
    let n = s.unicode_len();
    let mut i: usize = 0;
    let mut acc: i64 = 0;
    let mut saw_dot: bool = false;
    while i < n && !saw_dot
        invariant
            0 <= i <= n,
            n == s@.len(),
            !saw_dot ==> forall|k: int|
                0 <= k < i ==> s@[k] != '.' && is_dec_digit(#[trigger] s@[k]),
            saw_dot ==> i < n && s@[i as int] == '.' && forall|k: int|
                0 <= k < i ==> s@[k] != '.' && is_dec_digit(#[trigger] s@[k]),
            acc == dec_val(s@.take(i as int)),
            0 <= acc <= PARSE_INT_CAP,
        decreases n - i, (if saw_dot { 0int } else { 1int }),
    {
        let c = s.get_char(i);
        if c == '.' {
            saw_dot = true;
        } else {
            let u = c as u32;
            if u < 48 || u > 57 {
                proof {
                    lemma_first_dot_at_least(s@, i as int);
                }
                return None;
            }
            let d = (u - 48) as i64;
            proof {
                lemma_dec_val_step(s@, i as int);
            }
            if acc > (PARSE_INT_CAP - d) / 10 {
                proof {
                    assert(acc * 10 + d > PARSE_INT_CAP) by (nonlinear_arith)
                        requires
                            acc > (PARSE_INT_CAP - d) / 10,
                            0 <= d <= 9,
                            acc >= 0,
                    ;
                    if dec_valid(s@) {
                        assert(s@[i as int] != '.');
                        lemma_first_dot_min(s@, i as int + 1);
                        lemma_dec_val_prefix_mono(s@, i as int + 1, first_dot(s@));
                    }
                }
                return None;
            }
            acc = acc * 10 + d;
            i = i + 1;
        }
    }
    // i is the dot position (or the end of the string).
    proof {
        lemma_first_dot_at(s@, i as int);
    }
    if i == 0 {
        return None;
    }
    let d = i;
    let mut f1: i64 = 0;
    let mut f2: i64 = 0;
    let mut f3: i64 = 0;
    if d < n {
        let mut j: usize = d + 1;
        while j < n
            invariant
                d as int + 1 <= j as int <= n,
                n == s@.len(),
                d < n,
                first_dot(s@) == d as int,
                forall|k: int| d < k < j ==> is_dec_digit(#[trigger] s@[k]),
                if j as int > d as int + 1 {
                    f1 == digit_val(s@[d as int + 1]) && 0 <= f1 <= 9
                } else {
                    f1 == 0
                },
                if j as int > d as int + 2 {
                    f2 == digit_val(s@[d as int + 2]) && 0 <= f2 <= 9
                } else {
                    f2 == 0
                },
                if j as int > d as int + 3 {
                    f3 == digit_val(s@[d as int + 3]) && 0 <= f3 <= 9
                } else {
                    f3 == 0
                },
            decreases n - j,
        {
            let c = s.get_char(j);
            let u = c as u32;
            if u < 48 || u > 57 {
                return None;
            }
            if j == d + 1 {
                f1 = (u - 48) as i64;
            } else if j == d + 2 {
                f2 = (u - 48) as i64;
            } else if j == d + 3 {
                f3 = (u - 48) as i64;
            }
            j = j + 1;
        }
    }
    proof {
        if (d as int) < n as int {
            assert(frac_part(s@) =~= s@.subrange(d as int + 1, n as int));
            let f = frac_part(s@);
            assert(forall|k: int| 0 <= k < f.len() ==> f[k] == s@[d as int + 1 + k]);
        } else {
            assert(frac_part(s@) =~= Seq::<char>::empty());
        }
        assert(int_part(s@) =~= s@.take(d as int));
    }
    Some((acc, f1, f2, f3))
}

/// Parses an unsigned decimal number scaled to two decimal places,
/// rounding half-up on the third fraction digit: the shape the
/// exchange quotes prices in. `None` for anything that is not such a
/// number or whose integer part is beyond `PARSE_INT_CAP`.
pub fn parse_px_2dp(s: &str) -> (r: Option<i64>)
    ensures
        r is Some <==> dec_valid(s@) && dec_val(int_part(s@)) <= PARSE_INT_CAP,
        r matches Some(v) ==> v == scaled_2dp(s@),
{
    match parse_dec_parts(s) {
        Option::Some((acc, f1, f2, f3)) => {
            proof {
                assert(0 <= acc * 100 <= PARSE_INT_CAP * 100) by (nonlinear_arith)
                    requires
                        0 <= acc <= PARSE_INT_CAP,
                ;
            }
            let round: i64 = if f3 >= 5 {
                1
            } else {
                0
            };
            Some(acc * 100 + f1 * 10 + f2 + round)
        },
        Option::None => None,
    }
}

/// Parses an unsigned decimal number truncated to its integer part:
/// the shape cumulative quantities arrive in. `None` outside the same
/// shapes `parse_px_2dp` accepts.
pub fn parse_qty_trunc(s: &str) -> (r: Option<i64>)
    ensures
        r is Some <==> dec_valid(s@) && dec_val(int_part(s@)) <= PARSE_INT_CAP,
        r matches Some(v) ==> v == dec_val(int_part(s@)),
{
    match parse_dec_parts(s) {
        Option::Some((acc, _f1, _f2, _f3)) => Some(acc),
        Option::None => None,
    }
}

/// If no '.' stands before `i`, the first dot is at `i` or later.
proof fn lemma_first_dot_min(s: Seq<char>, i: int)
    requires
        0 <= i <= s.len(),
        forall|k: int| 0 <= k < i ==> s[k] != '.',
    ensures
        first_dot(s) >= i,
        first_dot(s) <= s.len(),
    decreases s.len(),
{
    if s.len() > 0 && i > 0 {
        let t = s.subrange(1, s.len() as int);
        assert(forall|k: int| 0 <= k < i - 1 ==> t[k] != '.') by {
            assert(forall|k: int| 0 <= k < t.len() ==> t[k] == s[k + 1]);
        }
        lemma_first_dot_min(t, i - 1);
    } else if s.len() > 0 {
        lemma_first_dot_min(s.subrange(1, s.len() as int), 0);
    }
}

/// A non-digit, non-dot character at `i`, with no dot before it:
/// either `i` lies before the first dot (so the string is not a valid
/// number) or there is no dot at all.
proof fn lemma_first_dot_at_least(s: Seq<char>, i: int)
    requires
        0 <= i < s.len(),
        forall|k: int| 0 <= k < i ==> s[k] != '.',
        s[i] != '.',
    ensures
        first_dot(s) > i,
        first_dot(s) <= s.len(),
    decreases s.len(),
{
    lemma_first_dot_min(s, i);
    let t = s.subrange(1, s.len() as int);
    if i > 0 {
        assert(forall|k: int| 0 <= k < i - 1 ==> t[k] != '.') by {
            assert(forall|k: int| 0 <= k < t.len() ==> t[k] == s[k + 1]);
        }
        lemma_first_dot_at_least(t, i - 1);
    } else {
        lemma_first_dot_min(t, 0);
    }
}

/// The lowercase hexadecimal digit character for `d` in `0..16`.
pub open spec fn hex_digit_char(d: int) -> char {
    if d < 10 {
        digit_char(d)
    } else if d == 10 {
        'a'
    } else if d == 11 {
        'b'
    } else if d == 12 {
        'c'
    } else if d == 13 {
        'd'
    } else if d == 14 {
        'e'
    } else {
        'f'
    }
}

/// Lowercase hex rendering of a byte string: two digits per byte,
/// high nibble first.
pub open spec fn hex_chars(b: Seq<u8>) -> Seq<char>
    decreases b.len(),
{
    if b.len() == 0 {
        Seq::<char>::empty()
    } else {
        hex_chars(b.drop_last()) + seq![
            hex_digit_char(b.last() as int / 16),
            hex_digit_char(b.last() as int % 16),
        ]
    }
}

/// A hex rendering has two characters per byte.
pub proof fn lemma_hex_chars_len(b: Seq<u8>)
    ensures
        hex_chars(b).len() == 2 * b.len(),
    decreases b.len(),
{
    if b.len() > 0 {
        lemma_hex_chars_len(b.drop_last());
    }
}

} // verus!
