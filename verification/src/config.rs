//! Configuration values the engine runs under: market/venue modes, the
//! strategy selection, and the risk limits. Reading the process
//! environment happens outside the library; the parsing of the values
//! is here.

use vstd::prelude::*;

verus! {

/// Where market data comes from and where orders go.
#[derive(Debug, Clone, Copy, PartialEq, Eq, Structural)]
pub enum MarketMode {
    Mock,
    BinanceSandbox,
    BinanceMainnet,
}

impl MarketMode {
    pub open spec fn spec_ws_url(&self) -> Seq<char> {
        match self {
            MarketMode::Mock => "wss://testnet.binance.vision/ws"@,
            MarketMode::BinanceSandbox => "wss://testnet.binance.vision/ws"@,
            MarketMode::BinanceMainnet => "wss://stream.binance.com:9443/ws"@,
        }
    }

    /// The default websocket endpoint of the mode (unused while mock).
    pub fn default_ws_url(&self) -> (r: &'static str)
        ensures
            r@ == self.spec_ws_url(),
    {
        match self {
            MarketMode::Mock => "wss://testnet.binance.vision/ws",
            MarketMode::BinanceSandbox => "wss://testnet.binance.vision/ws",
            MarketMode::BinanceMainnet => "wss://stream.binance.com:9443/ws",
        }
    }

    pub open spec fn spec_rest_url(&self) -> Seq<char> {
        match self {
            MarketMode::Mock => "https://testnet.binance.vision"@,
            MarketMode::BinanceSandbox => "https://testnet.binance.vision"@,
            MarketMode::BinanceMainnet => "https://api.binance.com"@,
        }
    }

    /// The mode a configuration value names, ignoring case; anything
    /// unrecognized falls back to `default_mode`.
    pub open spec fn spec_from_token(s: Seq<char>, default_mode: MarketMode) -> MarketMode {
        let t = lower_of(s);
        if t == "mock"@ {
            MarketMode::Mock
        } else if t == "binance_sandbox"@ {
            MarketMode::BinanceSandbox
        } else if t == "binance_mainnet"@ {
            MarketMode::BinanceMainnet
        } else {
            default_mode
        }
    }

    /// Reads a mode out of a configuration value.
    pub fn from_token(s: &str, default_mode: MarketMode) -> (r: MarketMode)
        ensures
            r == Self::spec_from_token(s@, default_mode),
    {
        let low = ascii_lower(s);
        if crate::numtext::str_eq(low.as_str(), "mock") {
            MarketMode::Mock
        } else if crate::numtext::str_eq(low.as_str(), "binance_sandbox") {
            MarketMode::BinanceSandbox
        } else if crate::numtext::str_eq(low.as_str(), "binance_mainnet") {
            MarketMode::BinanceMainnet
        } else {
            default_mode
        }
    }

    /// The default REST endpoint of the mode (a placeholder while mock).
    pub fn default_rest_url(&self) -> (r: &'static str)
        ensures
            r@ == self.spec_rest_url(),
    {
        match self {
            MarketMode::Mock => "https://testnet.binance.vision",
            MarketMode::BinanceSandbox => "https://testnet.binance.vision",
            MarketMode::BinanceMainnet => "https://api.binance.com",
        }
    }
}

/// The strategies a worker can run.
#[derive(Debug, Clone, Copy, PartialEq, Eq, Structural)]
pub enum StrategyMode {
    MeanReversion,
    MACrossover,
    VolBreakout,
}

/// The ASCII-lowercased form of a character.
pub open spec fn lower_char(c: char) -> char {
    if 'A' as int <= c as int <= 'Z' as int {
        ((c as u8) + 32) as char
    } else {
        c
    }
}

pub open spec fn lower_of(s: Seq<char>) -> Seq<char> {
    s.map_values(|c: char| lower_char(c))
}

/// Relies on str::to_ascii_lowercase: each ASCII uppercase letter is
/// replaced by its lowercase counterpart, every other character kept.
#[verifier::external_body]
fn ascii_lower(s: &str) -> (r: String)
    ensures
        r@ == lower_of(s@),
{
    s.to_ascii_lowercase()
}

/// ASCII whitespace, as configuration tokens carry it.
pub open spec fn is_ws(c: char) -> bool {
    c == ' ' || c == '\t' || c == '\n' || c == '\r'
}

pub open spec fn trim_front(s: Seq<char>) -> Seq<char>
    decreases s.len(),
{
    if s.len() > 0 && is_ws(s[0]) {
        trim_front(s.subrange(1, s.len() as int))
    } else {
        s
    }
}

pub open spec fn trim_back(s: Seq<char>) -> Seq<char>
    decreases s.len(),
{
    if s.len() > 0 && is_ws(s.last()) {
        trim_back(s.drop_last())
    } else {
        s
    }
}

/// The token with its surrounding whitespace removed.
pub open spec fn spec_trim(s: Seq<char>) -> Seq<char> {
    trim_back(trim_front(s))
}

proof fn lemma_trim_front_at(s: Seq<char>, a: int)
    requires
        0 <= a <= s.len(),
        forall|k: int| 0 <= k < a ==> is_ws(#[trigger] s[k]),
        a < s.len() ==> !is_ws(s[a]),
    ensures
        trim_front(s) == s.subrange(a, s.len() as int),
    decreases s.len(),
{
    if a == 0 {
        assert(s.subrange(0, s.len() as int) =~= s);
    } else {
        let t = s.subrange(1, s.len() as int);
        assert(forall|k: int| 0 <= k < a - 1 ==> is_ws(#[trigger] t[k])) by {
            assert(forall|k: int| 0 <= k < t.len() ==> t[k] == s[k + 1]);
        }
        lemma_trim_front_at(t, a - 1);
        assert(t.subrange(a - 1, t.len() as int) =~= s.subrange(a, s.len() as int));
    }
}

proof fn lemma_trim_back_at(s: Seq<char>, b: int)
    requires
        0 <= b <= s.len(),
        forall|k: int| b <= k < s.len() ==> is_ws(#[trigger] s[k]),
        b > 0 ==> !is_ws(s[b - 1]),
    ensures
        trim_back(s) == s.subrange(0, b),
    decreases s.len(),
{
    if b == s.len() {
        if s.len() > 0 && is_ws(s.last()) {
            assert(false);
        }
        assert(s.subrange(0, s.len() as int) =~= s);
    } else {
        let t = s.drop_last();
        assert(forall|k: int| b <= k < t.len() ==> is_ws(#[trigger] t[k])) by {
            assert(forall|k: int| 0 <= k < t.len() ==> t[k] == s[k]);
        }
        lemma_trim_back_at(t, b);
        assert(t.subrange(0, b) =~= s.subrange(0, b));
    }
}

/// Removes ASCII whitespace from both ends of a token.
pub fn trim_token<'a>(s: &'a str) -> (r: &'a str)
    ensures
        r@ == spec_trim(s@),
{
    let n = s.unicode_len();
    let mut a: usize = 0;
    let mut front_done: bool = false;
    while a < n && !front_done
        invariant
            0 <= a <= n,
            n == s@.len(),
            forall|k: int| 0 <= k < a ==> is_ws(#[trigger] s@[k]),
            front_done ==> a < n && !is_ws(s@[a as int]),
        decreases n - a, (if front_done { 0int } else { 1int }),
    {
        let c = s.get_char(a);
        if c == ' ' || c == '\t' || c == '\n' || c == '\r' {
            a = a + 1;
        } else {
            front_done = true;
        }
    }
    proof {
        lemma_trim_front_at(s@, a as int);
    }
    let mut b: usize = n;
    let mut back_done: bool = false;
    while b > a && !back_done
        invariant
            a <= b <= n,
            n == s@.len(),
            forall|k: int| b <= k < n ==> is_ws(#[trigger] s@[k]),
            back_done ==> b > a && !is_ws(s@[b as int - 1]),
        decreases b, (if back_done { 0int } else { 1int }),
    {
        let c = s.get_char(b - 1);
        if c == ' ' || c == '\t' || c == '\n' || c == '\r' {
            b = b - 1;
        } else {
            back_done = true;
        }
    }
    let r = s.substring_char(a, b);
    proof {
        let t = s@.subrange(a as int, n as int);
        assert(forall|k: int| b - a <= k < t.len() ==> is_ws(#[trigger] t[k])) by {
            assert(forall|k: int| 0 <= k < t.len() ==> t[k] == s@[a + k]);
        }
        if b > a {
            assert(t[b - a - 1] == s@[b as int - 1]);
        }
        lemma_trim_back_at(t, b as int - a as int);
        assert(t.subrange(0, b as int - a as int) =~= s@.subrange(a as int, b as int));
    }
    r
}

impl StrategyMode {
    /// A lowercased, trimmed strategy token: the full name, the name
    /// without the underscore, or the two-letter shorthand.
    pub open spec fn spec_parse_one(s: Seq<char>) -> Option<StrategyMode> {
        let t = lower_of(spec_trim(s));
        if t == "mean_reversion"@ || t == "meanreversion"@ || t == "mr"@ {
            Option::Some(StrategyMode::MeanReversion)
        } else if t == "ma_crossover"@ || t == "macrossover"@ || t == "ma"@ {
            Option::Some(StrategyMode::MACrossover)
        } else if t == "vol_breakout"@ || t == "volbreakout"@ || t == "vb"@ {
            Option::Some(StrategyMode::VolBreakout)
        } else {
            Option::None
        }
    }

    /// Reads one strategy token, ignoring case and surrounding
    /// whitespace.
    pub fn parse_one(s: &str) -> (r: Option<StrategyMode>)
        ensures
            r == Self::spec_parse_one(s@),
    {
        let t = trim_token(s);
        let low = ascii_lower(t);
        if crate::numtext::str_eq(low.as_str(), "mean_reversion") || crate::numtext::str_eq(
            low.as_str(),
            "meanreversion",
        ) || crate::numtext::str_eq(low.as_str(), "mr") {
            Some(StrategyMode::MeanReversion)
        } else if crate::numtext::str_eq(low.as_str(), "ma_crossover") || crate::numtext::str_eq(
            low.as_str(),
            "macrossover",
        ) || crate::numtext::str_eq(low.as_str(), "ma") {
            Some(StrategyMode::MACrossover)
        } else if crate::numtext::str_eq(low.as_str(), "vol_breakout") || crate::numtext::str_eq(
            low.as_str(),
            "volbreakout",
        ) || crate::numtext::str_eq(low.as_str(), "vb") {
            Some(StrategyMode::VolBreakout)
        } else {
            None
        }
    }
}

/// The comma-separated pieces of a string, in order; an empty string is
/// one empty piece, and neighbouring commas enclose an empty piece.
pub open spec fn split_commas(s: Seq<char>) -> Seq<Seq<char>>
    decreases s.len(),
{
    if s.len() == 0 {
        seq![Seq::<char>::empty()]
    } else if s.last() == ',' {
        split_commas(s.drop_last()).push(Seq::<char>::empty())
    } else {
        let r = split_commas(s.drop_last());
        r.update(r.len() - 1, r.last().push(s.last()))
    }
}

/// The strategies the tokens name, in order, with unreadable tokens
/// skipped.
pub open spec fn parsed_modes(toks: Seq<Seq<char>>) -> Seq<StrategyMode>
    decreases toks.len(),
{
    if toks.len() == 0 {
        Seq::<StrategyMode>::empty()
    } else {
        let r = parsed_modes(toks.drop_last());
        match StrategyMode::spec_parse_one(toks.last()) {
            Option::Some(m) => r.push(m),
            Option::None => r,
        }
    }
}

/// The sequence with each run of equal neighbours collapsed to one.
pub open spec fn dedup_runs(s: Seq<StrategyMode>) -> Seq<StrategyMode>
    decreases s.len(),
{
    if s.len() == 0 {
        s
    } else if s.len() >= 2 && s.last() == s[s.len() - 2] {
        dedup_runs(s.drop_last())
    } else {
        dedup_runs(s.drop_last()).push(s.last())
    }
}

/// The strategy selection a comma-separated value yields: each token
/// read on its own, unreadable tokens skipped, runs of repeats
/// collapsed.
pub open spec fn spec_strategy_list(s: Seq<char>) -> Seq<StrategyMode> {
    dedup_runs(parsed_modes(split_commas(s)))
}

/// The selection from a list value, a single value, and a default: a
/// list that yields at least one strategy wins; otherwise a readable
/// single value; otherwise the default.
pub open spec fn spec_parse_many(
    list: Option<Seq<char>>,
    single: Option<Seq<char>>,
    default_list: Seq<StrategyMode>,
) -> Seq<StrategyMode> {
    let from_list = match list {
        Option::Some(v) => spec_strategy_list(v),
        Option::None => Seq::<StrategyMode>::empty(),
    };
    if from_list.len() > 0 {
        from_list
    } else {
        match single {
            Option::Some(v) => match StrategyMode::spec_parse_one(v) {
                Option::Some(m) => seq![m],
                Option::None => default_list,
            },
            Option::None => default_list,
        }
    }
}

impl StrategyMode {
    /// Reads a comma-separated strategy list, skipping unreadable
    /// tokens and collapsing runs of repeats.
    pub fn parse_list(s: &str) -> (r: Vec<StrategyMode>)
        ensures
            r@ == spec_strategy_list(s@),
    {
        let n = s.unicode_len();
        let mut modes: Vec<StrategyMode> = Vec::new();
        let mut start: usize = 0;
        let mut i: usize = 0;
        let ghost mut toks: Seq<Seq<char>> = Seq::empty();
        proof {
            assert(s@.subrange(0, 0) =~= Seq::<char>::empty());
            assert(split_commas(s@.subrange(0, 0)) =~= toks.push(s@.subrange(0, 0)));
        }
        while i < n
            invariant
                0 <= start <= i <= n,
                n == s@.len(),
                split_commas(s@.subrange(0, i as int)) == toks.push(
                    s@.subrange(start as int, i as int),
                ),
                modes@ == parsed_modes(toks),
            decreases n - i,
        {
            let ghost cur = s@.subrange(start as int, i as int);
            let c = s.get_char(i);
            if c == ',' {
                let tok = s.substring_char(start, i);
                proof {
                    assert(s@.subrange(0, i as int + 1).drop_last() =~= s@.subrange(0, i as int));
                    assert(s@.subrange(0, i as int + 1).last() == ',');
                    assert(split_commas(s@.subrange(0, i as int + 1)) == toks.push(cur).push(
                        Seq::<char>::empty(),
                    ));
                    assert(toks.push(cur).drop_last() =~= toks);
                }
                if let Some(m) = Self::parse_one(tok) {
                    modes.push(m);
                }
                proof {
                    toks = toks.push(cur);
                    assert(modes@ == parsed_modes(toks));
                    assert(s@.subrange(i as int + 1, i as int + 1) =~= Seq::<char>::empty());
                }
                start = i + 1;
            } else {
                proof {
                    let p = s@.subrange(0, i as int + 1);
                    assert(p.drop_last() =~= s@.subrange(0, i as int));
                    assert(p.last() == s@[i as int] && p.last() != ',');
                    let r = toks.push(cur);
                    assert(split_commas(p) == r.update(r.len() - 1, r.last().push(s@[i as int])));
                    assert(r.update(r.len() - 1, r.last().push(s@[i as int])) =~= toks.push(
                        s@.subrange(start as int, i as int + 1),
                    )) by {
                        assert(cur.push(s@[i as int]) =~= s@.subrange(start as int, i as int + 1));
                    }
                }
            }
            i = i + 1;
        }
        let tok = s.substring_char(start, n);
        proof {
            assert(s@.subrange(0, n as int) =~= s@);
            assert(toks.push(s@.subrange(start as int, n as int)).drop_last() =~= toks);
        }
        if let Some(m) = Self::parse_one(tok) {
            modes.push(m);
        }
        proof {
            assert(modes@ == parsed_modes(split_commas(s@)));
        }
        let mut out: Vec<StrategyMode> = Vec::new();
        let mut k: usize = 0;
        proof {
            assert(modes@.subrange(0, 0) =~= Seq::<StrategyMode>::empty());
        }
        while k < modes.len()
            invariant
                0 <= k <= modes@.len(),
                out@ == dedup_runs(modes@.subrange(0, k as int)),
                modes@ == parsed_modes(split_commas(s@)),
            decreases modes@.len() - k,
        {
            proof {
                let p = modes@.subrange(0, k as int + 1);
                assert(p.drop_last() =~= modes@.subrange(0, k as int));
                assert(p.last() == modes@[k as int]);
                if k >= 1 {
                    assert(p[p.len() - 2] == modes@[k as int - 1]);
                }
            }
            if k == 0 || modes[k] != modes[k - 1] {
                out.push(modes[k]);
            }
            k = k + 1;
        }
        proof {
            assert(modes@.subrange(0, modes@.len() as int) =~= modes@);
        }
        out
    }

    /// The strategy selection from a list value and a single-strategy
    /// fallback: a list that yields at least one strategy wins;
    /// otherwise a readable single value; otherwise the default.
    pub fn parse_many(
        list: Option<&str>,
        single: Option<&str>,
        default_list: Vec<StrategyMode>,
    ) -> (r: Vec<StrategyMode>)
        ensures
            r@ == spec_parse_many(
                match list {
                    Option::Some(v) => Option::Some(v@),
                    Option::None => Option::<Seq<char>>::None,
                },
                match single {
                    Option::Some(v) => Option::Some(v@),
                    Option::None => Option::<Seq<char>>::None,
                },
                default_list@,
            ),
    {
        if let Some(v) = list {
            let out = Self::parse_list(v);
            if out.len() > 0 {
                return out;
            }
        }
        if let Some(v) = single {
            if let Some(m) = Self::parse_one(v) {
                let mut one: Vec<StrategyMode> = Vec::new();
                one.push(m);
                proof {
                    assert(one@ =~= seq![m]);
                }
                return one;
            }
        }
        default_list
    }
}

/// Everything read from the environment at startup, apart from the
/// risk limits.
#[derive(Debug, Clone)]
pub struct Args {
    pub data_source: String,
    /// Primary symbol, whose inventory snapshot feeds the router.
    pub symbol: String,
    pub symbols: Vec<String>,
    pub record_file: Option<String>,
    pub metrics_port: u16,
    pub feed_mode: MarketMode,
    pub venue_mode: MarketMode,
    pub binance_ws_url: String,
    pub binance_rest_url: String,
    pub strategy_modes: Vec<StrategyMode>,
    pub strategy_workers: u32,
}

/// The pre-trade risk limits.
#[derive(Debug, Clone, Copy, PartialEq, Eq, Structural)]
pub struct Limits {
    pub max_notional: i64,
    pub px_min: i64,
    pub px_max: i64,
    pub max_qps: u32,
}

} // verus!
