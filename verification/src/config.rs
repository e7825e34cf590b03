//! Configuration records of the bot and the rules that read them: defaults,
//! RPC endpoint normalization, strategy and engine toggles, quote parallelism,
//! Jito tip settings and numeric fields written as text.
use vstd::prelude::*;
use vstd::string::*;
use std::collections::BTreeMap;
use crate::text::{
    trim, trim_spec, chars_of, string_from_chars, parse_unsigned, parse_unsigned_spec,
    eq_ignore_ascii_case, eq_ignore_case_spec, to_ascii_lowercase, lower_seq, string_views,
};
pub use crate::wallet::WalletKeyEntry;

verus! {

/// Why a configuration could not be loaded.
pub enum ConfigError {
    /// The file could not be read.
    Io { path: String, message: String },
    /// The file's content was refused.
    Parse { path: String, message: String },
}

/// The quote backend of the engine.
#[derive(PartialEq, Eq, Structural, Clone, Copy, Debug)]
pub enum EngineBackend {
    Dflow,
    Ultra,
    Kamino,
    MultiLegs,
    /// No quote backend (`none` in the configuration).
    Disabled,
}

impl Default for EngineBackend {
    fn default() -> (d: Self)
        ensures
            d == EngineBackend::Dflow,
    {
        EngineBackend::Dflow
    }
}

/// How many quote groups run at once: chosen by the engine, or a fixed positive number.
#[derive(PartialEq, Eq, Structural, Clone, Copy, Debug)]
pub enum QuoteParallelism {
    Auto,
    Fixed(u16),
}

impl Default for QuoteParallelism {
    fn default() -> (d: Self)
        ensures
            d == QuoteParallelism::Auto,
    {
        QuoteParallelism::Auto
    }
}

impl QuoteParallelism {
    /// The fixed number, if there is one.
    pub fn as_option(self) -> (r: Option<u16>)
        ensures
            r == (match self {
                QuoteParallelism::Auto => None,
                QuoteParallelism::Fixed(v) => Some(v),
            }),
    {
        match self {
            QuoteParallelism::Auto => None,
            QuoteParallelism::Fixed(value) => Some(value),
        }
    }
}

/// Why a quote parallelism value was refused.
#[derive(PartialEq, Eq, Structural, Clone, Copy, Debug)]
pub enum ParallelismError {
    /// A text that is neither `auto` nor a number.
    NotANumber,
    /// Zero or a negative number.
    NotPositive,
    /// More than `u16::MAX`.
    TooLarge,
}

/// What a text gives as quote parallelism: `auto` in any ASCII case, or a
/// positive number that fits in 16 bits.
pub open spec fn parallelism_text_spec(value: Seq<char>) -> Result<QuoteParallelism, ParallelismError> {
    if eq_ignore_case_spec(value, seq!['a', 'u', 't', 'o']) {
        Ok(QuoteParallelism::Auto)
    } else {
        match parse_unsigned_spec(value, 0xffff) {
            None => Err(ParallelismError::NotANumber),
            Some(v) => if v == 0 {
                Err(ParallelismError::NotPositive)
            } else {
                Ok(QuoteParallelism::Fixed(v as u16))
            },
        }
    }
}

/// Reads quote parallelism written as text.
pub fn parallelism_from_text(value: &str) -> (r: Result<QuoteParallelism, ParallelismError>)
    ensures
        r == parallelism_text_spec(value@),
{
    let auto = "auto";
    proof {
        reveal_strlit("auto");
    }
    assert(auto@ =~= seq!['a', 'u', 't', 'o']);
    if eq_ignore_ascii_case(value, auto) {
        return Ok(QuoteParallelism::Auto);
    }
    match parse_unsigned(value, 0xffff) {
        None => Err(ParallelismError::NotANumber),
        Some(v) => if v == 0 {
            Err(ParallelismError::NotPositive)
        } else {
            Ok(QuoteParallelism::Fixed(v as u16))
        },
    }
}

/// Reads quote parallelism written as an unsigned number.
pub fn parallelism_from_u64(value: u64) -> (r: Result<QuoteParallelism, ParallelismError>)
    ensures
        value == 0 ==> r == Err::<QuoteParallelism, ParallelismError>(ParallelismError::NotPositive),
        value > 0xffff ==> r == Err::<QuoteParallelism, ParallelismError>(ParallelismError::TooLarge),
        0 < value <= 0xffff ==> r == Ok::<QuoteParallelism, ParallelismError>(QuoteParallelism::Fixed(value as u16)),
{
    if value == 0 {
        return Err(ParallelismError::NotPositive);
    }
    if value > 0xffff {
        return Err(ParallelismError::TooLarge);
    }
    Ok(QuoteParallelism::Fixed(value as u16))
}

/// Reads quote parallelism written as a signed number.
pub fn parallelism_from_i64(value: i64) -> (r: Result<QuoteParallelism, ParallelismError>)
    ensures
        value <= 0 ==> r == Err::<QuoteParallelism, ParallelismError>(ParallelismError::NotPositive),
        value > 0xffff ==> r == Err::<QuoteParallelism, ParallelismError>(ParallelismError::TooLarge),
        0 < value <= 0xffff ==> r == Ok::<QuoteParallelism, ParallelismError>(QuoteParallelism::Fixed(value as u16)),
{
    if value <= 0 {
        return Err(ParallelismError::NotPositive);
    }
    if value > 0xffff {
        return Err(ParallelismError::TooLarge);
    }
    Ok(QuoteParallelism::Fixed(value as u16))
}

/// The side of a two-leg trade that an engine serves.
#[derive(PartialEq, Eq, Structural, Clone, Copy, Debug)]
pub enum LegRole {
    Buy,
    Sell,
}

/// How much the logs say.
#[derive(PartialEq, Eq, Structural, Clone, Copy, Debug)]
pub enum LoggingProfile {
    Lean,
    Verbose,
}

impl Default for LoggingProfile {
    fn default() -> (d: Self)
        ensures
            d == LoggingProfile::Lean,
    {
        LoggingProfile::Lean
    }
}

impl LoggingProfile {
    pub fn is_verbose(self) -> (r: bool)
        ensures
            r == (self == LoggingProfile::Verbose),
    {
        match self {
            LoggingProfile::Verbose => true,
            LoggingProfile::Lean => false,
        }
    }

    pub fn is_lean(self) -> (r: bool)
        ensures
            r == (self == LoggingProfile::Lean),
    {
        match self {
            LoggingProfile::Lean => true,
            LoggingProfile::Verbose => false,
        }
    }
}

/// A strategy that can be switched on.
#[derive(PartialEq, Eq, Structural, Clone, Copy, Debug)]
pub enum StrategyToggle {
    BlindStrategy,
    PureBlindStrategy,
    CopyStrategy,
    BackRunStrategy,
}

/// A backend that can serve a leg of a two-leg trade.
#[derive(PartialEq, Eq, Structural, Clone, Copy, Debug)]
pub enum EngineLegBackend {
    Dflow,
    Ultra,
    Kamino,
    Titan,
}

/// A pair of backends for the buy and the sell leg.
#[derive(PartialEq, Eq, Structural, Clone, Copy, Debug)]
pub struct EngineTogglePair {
    pub buy_leg: EngineLegBackend,
    pub sell_leg: EngineLegBackend,
}

/// A flash loan provider.
#[derive(PartialEq, Eq, Structural, Clone, Copy, Debug)]
pub enum FlashloanProduct {
    Marginfi,
}

/// How the sizes of a lane are spread between its minimum and maximum.
#[derive(PartialEq, Eq, Structural, Clone, Copy, Debug)]
pub enum TradeRangeStrategy {
    Linear,
    Exponential,
    Random,
}

impl Default for TradeRangeStrategy {
    fn default() -> (d: Self)
        ensures
            d == TradeRangeStrategy::Linear,
    {
        TradeRangeStrategy::Linear
    }
}

/// Where the copy strategy reads transactions from.
#[derive(PartialEq, Eq, Structural, Clone, Copy, Debug)]
pub enum CopySourceKind {
    Rpc,
    Grpc,
}

impl Default for CopySourceKind {
    fn default() -> (d: Self)
        ensures
            d == CopySourceKind::Rpc,
    {
        CopySourceKind::Rpc
    }
}

/// Whether copied transactions go out all at once or through a queue.
#[derive(PartialEq, Eq, Structural, Clone, Copy, Debug)]
pub enum CopyDispatchMode {
    Parallel,
    Queued,
}

impl Default for CopyDispatchMode {
    fn default() -> (d: Self)
        ensures
            d == CopyDispatchMode::Parallel,
    {
        CopyDispatchMode::Parallel
    }
}

/// How the Jito tip is chosen.
#[derive(PartialEq, Eq, Structural, Clone, Copy, Debug)]
pub enum TipStrategyKind {
    Fixed,
    Range,
    Stream,
}

impl Default for TipStrategyKind {
    fn default() -> (d: Self)
        ensures
            d == TipStrategyKind::Fixed,
    {
        TipStrategyKind::Fixed
    }
}

/// Which percentile of recently landed tips a streamed tip follows.
#[derive(PartialEq, Eq, Structural, Clone, Copy, Debug)]
pub enum TipStreamLevel {
    Percentile25,
    Percentile50,
    Percentile75,
    Percentile95,
    Percentile99,
    Ema50,
}

/// `a` and `b` hold the same characters.
pub fn same_text(a: &str, b: &str) -> (r: bool)
    ensures
        r == (a@ == b@),
{
    let n = a.unicode_len();
    if n != b.unicode_len() {
        return false;
    }
    let mut i: usize = 0;
    while i < n
        invariant
            n == a@.len() == b@.len(),
            i <= n,
            a@.subrange(0, i as int) == b@.subrange(0, i as int),
        decreases n - i,
    {
        if a.get_char(i) != b.get_char(i) {
            assert(a@[i as int] != b@[i as int]);
            return false;
        }
        assert(a@.subrange(0, i + 1) =~= a@.subrange(0, i as int).push(a@[i as int]));
        assert(b@.subrange(0, i + 1) =~= b@.subrange(0, i as int).push(b@[i as int]));
        i = i + 1;
    }
    assert(a@ =~= a@.subrange(0, n as int));
    assert(b@ =~= b@.subrange(0, n as int));
    true
}

/// The tip strategy a setting names, after trimming and ASCII lowering.
pub open spec fn tip_strategy_spec(value: Seq<char>) -> Option<TipStrategyKind> {
    let k = lower_seq(trim_spec(value));
    if k == "fixed"@ {
        Some(TipStrategyKind::Fixed)
    } else if k == "range"@ {
        Some(TipStrategyKind::Range)
    } else if k == "stream"@ {
        Some(TipStrategyKind::Stream)
    } else {
        None
    }
}

impl TipStrategyKind {
    /// Reads `fixed`, `range` or `stream`, ignoring surrounding whitespace and ASCII case.
    pub fn parse(value: &str) -> (r: Option<TipStrategyKind>)
        ensures
            r == tip_strategy_spec(value@),
    {
        let k = to_ascii_lowercase(trim(value).as_str());
        let ks = k.as_str();
        if same_text(ks, "fixed") {
            Some(TipStrategyKind::Fixed)
        } else if same_text(ks, "range") {
            Some(TipStrategyKind::Range)
        } else if same_text(ks, "stream") {
            Some(TipStrategyKind::Stream)
        } else {
            None
        }
    }
}

/// The tip stream level a setting names, after trimming and ASCII lowering.
pub open spec fn tip_stream_level_spec(value: Seq<char>) -> Option<TipStreamLevel> {
    let k = lower_seq(trim_spec(value));
    if k == "25th"@ {
        Some(TipStreamLevel::Percentile25)
    } else if k == "50th"@ {
        Some(TipStreamLevel::Percentile50)
    } else if k == "75th"@ {
        Some(TipStreamLevel::Percentile75)
    } else if k == "95th"@ {
        Some(TipStreamLevel::Percentile95)
    } else if k == "99th"@ {
        Some(TipStreamLevel::Percentile99)
    } else if k == "ema50"@ {
        Some(TipStreamLevel::Ema50)
    } else {
        None
    }
}

impl TipStreamLevel {
    /// The field of the tip stream that this level reads.
    pub fn field_name(self) -> (r: &'static str)
        ensures
            r@ == (match self {
                TipStreamLevel::Percentile25 => "landed_tips_25th_percentile"@,
                TipStreamLevel::Percentile50 => "landed_tips_50th_percentile"@,
                TipStreamLevel::Percentile75 => "landed_tips_75th_percentile"@,
                TipStreamLevel::Percentile95 => "landed_tips_95th_percentile"@,
                TipStreamLevel::Percentile99 => "landed_tips_99th_percentile"@,
                TipStreamLevel::Ema50 => "ema_landed_tips_50th_percentile"@,
            }),
    {
        match self {
            TipStreamLevel::Percentile25 => "landed_tips_25th_percentile",
            TipStreamLevel::Percentile50 => "landed_tips_50th_percentile",
            TipStreamLevel::Percentile75 => "landed_tips_75th_percentile",
            TipStreamLevel::Percentile95 => "landed_tips_95th_percentile",
            TipStreamLevel::Percentile99 => "landed_tips_99th_percentile",
            TipStreamLevel::Ema50 => "ema_landed_tips_50th_percentile",
        }
    }

    /// The name of the level in the configuration.
    pub fn as_str(self) -> (r: &'static str)
        ensures
            r@ == (match self {
                TipStreamLevel::Percentile25 => "25th"@,
                TipStreamLevel::Percentile50 => "50th"@,
                TipStreamLevel::Percentile75 => "75th"@,
                TipStreamLevel::Percentile95 => "95th"@,
                TipStreamLevel::Percentile99 => "99th"@,
                TipStreamLevel::Ema50 => "ema50"@,
            }),
    {
        match self {
            TipStreamLevel::Percentile25 => "25th",
            TipStreamLevel::Percentile50 => "50th",
            TipStreamLevel::Percentile75 => "75th",
            TipStreamLevel::Percentile95 => "95th",
            TipStreamLevel::Percentile99 => "99th",
            TipStreamLevel::Ema50 => "ema50",
        }
    }

    /// Reads a level by its name, ignoring surrounding whitespace and ASCII case.
    pub fn parse(value: &str) -> (r: Option<TipStreamLevel>)
        ensures
            r == tip_stream_level_spec(value@),
    {
        let k = to_ascii_lowercase(trim(value).as_str());
        let ks = k.as_str();
        if same_text(ks, "25th") {
            Some(TipStreamLevel::Percentile25)
        } else if same_text(ks, "50th") {
            Some(TipStreamLevel::Percentile50)
        } else if same_text(ks, "75th") {
            Some(TipStreamLevel::Percentile75)
        } else if same_text(ks, "95th") {
            Some(TipStreamLevel::Percentile95)
        } else if same_text(ks, "99th") {
            Some(TipStreamLevel::Percentile99)
        } else if same_text(ks, "ema50") {
            Some(TipStreamLevel::Ema50)
        } else {
            None
        }
    }
}

/// Items in their first order of appearance, each kept once.
pub open spec fn unique_in_order<T>(items: Seq<T>) -> Seq<T>
    decreases items.len(),
{
    if items.len() == 0 {
        Seq::<T>::empty()
    } else {
        let acc = unique_in_order(items.drop_last());
        if acc.contains(items.last()) {
            acc
        } else {
            acc.push(items.last())
        }
    }
}

/// No item occurs twice.
pub open spec fn no_duplicates<T>(s: Seq<T>) -> bool {
    forall|i: int, j: int| 0 <= i < j < s.len() ==> s[i] != s[j]
}

/// `unique_in_order` keeps no item twice and keeps every item it was given.
pub proof fn lemma_unique_in_order<T>(items: Seq<T>)
    ensures
        no_duplicates(unique_in_order(items)),
        forall|x: T| items.contains(x) <==> unique_in_order(items).contains(x),
    decreases items.len(),
{
    if items.len() > 0 {
        let pre = items.drop_last();
        lemma_unique_in_order(pre);
        let acc = unique_in_order(pre);
        let u = unique_in_order(items);
        assert forall|x: T| items.contains(x) implies u.contains(x) by {
            let k = choose|k: int| 0 <= k < items.len() && items[k] == x;
            if k < items.len() - 1 {
                assert(pre[k] == items[k]);
                assert(pre.contains(x));
                assert(acc.contains(x));
                let j = choose|j: int| 0 <= j < acc.len() && acc[j] == x;
                if !acc.contains(items.last()) {
                    assert(acc.push(items.last())[j] == x);
                }
            } else {
                if !acc.contains(x) {
                    assert(acc.push(x)[acc.len() as int] == x);
                }
            }
        }
        assert forall|x: T| u.contains(x) implies items.contains(x) by {
            let j = choose|j: int| 0 <= j < u.len() && u[j] == x;
            if j < acc.len() {
                assert(acc[j] == x);
                assert(acc.contains(x));
                assert(pre.contains(x));
                let k = choose|k: int| 0 <= k < pre.len() && pre[k] == x;
                assert(items[k] == pre[k]);
            } else {
                assert(items[items.len() - 1] == x);
            }
        }
        if !acc.contains(items.last()) {
            let r = acc.push(items.last());
            assert forall|i: int, j: int| 0 <= i < j < r.len() implies r[i] != r[j] by {
                if j == r.len() - 1 {
                    assert(acc[i] == r[i]);
                }
            }
        }
    }
}

fn strategy_toggles_contain(v: &Vec<StrategyToggle>, x: StrategyToggle) -> (r: bool)
    ensures
        r == v@.contains(x),
{
    let mut i: usize = 0;
    while i < v.len()
        invariant
            i <= v@.len(),
            forall|k: int| 0 <= k < i ==> v@[k] != x,
        decreases v@.len() - i,
    {
        if v[i] == x {
            assert(v@[i as int] == x);
            return true;
        }
        i = i + 1;
    }
    false
}

fn toggle_pairs_contain(v: &Vec<EngineTogglePair>, x: EngineTogglePair) -> (r: bool)
    ensures
        r == v@.contains(x),
{
    let mut i: usize = 0;
    while i < v.len()
        invariant
            i <= v@.len(),
            forall|k: int| 0 <= k < i ==> v@[k] != x,
        decreases v@.len() - i,
    {
        if v[i] == x {
            assert(v@[i as int] == x);
            return true;
        }
        i = i + 1;
    }
    false
}

/// The strategies that are switched on, and the directory of their configuration files.
pub struct StrategyToggleSet {
    pub enabled: Vec<StrategyToggle>,
    pub config_dir: String,
}

impl Default for StrategyToggleSet {
    fn default() -> (d: Self)
        ensures
            d.enabled@.len() == 0,
            d.config_dir@.len() == 0,
    {
        StrategyToggleSet { enabled: Vec::new(), config_dir: String::new() }
    }
}

impl StrategyToggleSet {
    pub fn is_enabled(&self, strategy: StrategyToggle) -> (r: bool)
        ensures
            r == self.enabled@.contains(strategy),
    {
        strategy_toggles_contain(&self.enabled, strategy)
    }

    /// The set written as a map: both lists merged in order, each strategy once.
    pub fn from_lists(first: &Vec<StrategyToggle>, second: &Vec<StrategyToggle>, config_dir: String) -> (s: Self)
        ensures
            s.enabled@ == unique_in_order(first@ + second@),
            s.config_dir == config_dir,
    {
        let mut all: Vec<StrategyToggle> = Vec::new();
        for i in 0..first.len()
            invariant
                all@ == first@.subrange(0, i as int),
        {
            all.push(first[i]);
            assert(all@ =~= first@.subrange(0, i + 1));
        }
        for j in 0..second.len()
            invariant
                all@ == first@ + second@.subrange(0, j as int),
        {
            all.push(second[j]);
            assert(all@ =~= first@ + second@.subrange(0, j + 1));
        }
        assert(first@.subrange(0, first@.len() as int) =~= first@);
        assert(second@.subrange(0, second@.len() as int) =~= second@);
        let mut merged: Vec<StrategyToggle> = Vec::new();
        for k in 0..all.len()
            invariant
                merged@ == unique_in_order(all@.subrange(0, k as int)),
        {
            let ghost pre = all@.subrange(0, k + 1);
            assert(pre.drop_last() =~= all@.subrange(0, k as int));
            if !strategy_toggles_contain(&merged, all[k]) {
                merged.push(all[k]);
            }
        }
        assert(all@.subrange(0, all@.len() as int) =~= all@);
        StrategyToggleSet { enabled: merged, config_dir }
    }
}

/// The backend pairs that are switched on.
pub struct EngineToggleSet {
    pub pairs: Vec<EngineTogglePair>,
}

impl Default for EngineToggleSet {
    fn default() -> (d: Self)
        ensures
            d.pairs@.len() == 0,
    {
        EngineToggleSet { pairs: Vec::new() }
    }
}

impl EngineToggleSet {
    pub fn is_pair_enabled(&self, buy: EngineLegBackend, sell: EngineLegBackend) -> (r: bool)
        ensures
            r == exists|i: int| 0 <= i < self.pairs@.len() && #[trigger] self.pairs@[i] == (EngineTogglePair { buy_leg: buy, sell_leg: sell }),
    {
        let target = EngineTogglePair { buy_leg: buy, sell_leg: sell };
        let r = toggle_pairs_contain(&self.pairs, target);
        r
    }

    pub fn buy_leg_enabled(&self, backend: EngineLegBackend) -> (r: bool)
        ensures
            r == exists|i: int| 0 <= i < self.pairs@.len() && (#[trigger] self.pairs@[i]).buy_leg == backend,
    {
        let mut i: usize = 0;
        while i < self.pairs.len()
            invariant
                i <= self.pairs@.len(),
                forall|k: int| 0 <= k < i ==> (#[trigger] self.pairs@[k]).buy_leg != backend,
            decreases self.pairs@.len() - i,
        {
            if self.pairs[i].buy_leg == backend {
                return true;
            }
            i = i + 1;
        }
        false
    }

    pub fn sell_leg_enabled(&self, backend: EngineLegBackend) -> (r: bool)
        ensures
            r == exists|i: int| 0 <= i < self.pairs@.len() && (#[trigger] self.pairs@[i]).sell_leg == backend,
    {
        let mut i: usize = 0;
        while i < self.pairs.len()
            invariant
                i <= self.pairs@.len(),
                forall|k: int| 0 <= k < i ==> (#[trigger] self.pairs@[k]).sell_leg != backend,
            decreases self.pairs@.len() - i,
        {
            if self.pairs[i].sell_leg == backend {
                return true;
            }
            i = i + 1;
        }
        false
    }

    /// The set written as a map: both lists merged in order, each pair once.
    pub fn from_lists(first: &Vec<EngineTogglePair>, second: &Vec<EngineTogglePair>) -> (s: Self)
        ensures
            s.pairs@ == unique_in_order(first@ + second@),
    {
        let mut all: Vec<EngineTogglePair> = Vec::new();
        for i in 0..first.len()
            invariant
                all@ == first@.subrange(0, i as int),
        {
            all.push(first[i]);
            assert(all@ =~= first@.subrange(0, i + 1));
        }
        for j in 0..second.len()
            invariant
                all@ == first@ + second@.subrange(0, j as int),
        {
            all.push(second[j]);
            assert(all@ =~= first@ + second@.subrange(0, j + 1));
        }
        assert(first@.subrange(0, first@.len() as int) =~= first@);
        assert(second@.subrange(0, second@.len() as int) =~= second@);
        let mut merged: Vec<EngineTogglePair> = Vec::new();
        for k in 0..all.len()
            invariant
                merged@ == unique_in_order(all@.subrange(0, k as int)),
        {
            let ghost pre = all@.subrange(0, k + 1);
            assert(pre.drop_last() =~= all@.subrange(0, k as int));
            if !toggle_pairs_contain(&merged, all[k]) {
                merged.push(all[k]);
            }
        }
        assert(all@.subrange(0, all@.len() as int) =~= all@);
        EngineToggleSet { pairs: merged }
    }
}

/// The flash loan providers that are switched on.
pub struct BotFlashloanToggle {
    pub products: Vec<FlashloanProduct>,
    pub prefer_wallet_balance: bool,
}

impl Default for BotFlashloanToggle {
    fn default() -> (d: Self)
        ensures
            d.products@.len() == 0,
            !d.prefer_wallet_balance,
    {
        BotFlashloanToggle { products: Vec::new(), prefer_wallet_balance: false }
    }
}

impl BotFlashloanToggle {
    pub fn is_enabled(&self, product: FlashloanProduct) -> (r: bool)
        ensures
            r == self.products@.contains(product),
    {
        let mut i: usize = 0;
        while i < self.products.len()
            invariant
                i <= self.products@.len(),
                forall|k: int| 0 <= k < i ==> self.products@[k] != product,
            decreases self.products@.len() - i,
        {
            if self.products[i] == product {
                assert(self.products@[i as int] == product);
                return true;
            }
            i = i + 1;
        }
        false
    }
}

/// RPC endpoints as configured: trimmed, blank ones dropped, each kept once
/// in its first position.
pub open spec fn normalized_urls(values: Seq<Seq<char>>) -> Seq<Seq<char>>
    decreases values.len(),
{
    if values.len() == 0 {
        Seq::<Seq<char>>::empty()
    } else {
        let acc = normalized_urls(values.drop_last());
        let t = trim_spec(values.last());
        if t.len() == 0 || acc.contains(t) {
            acc
        } else {
            acc.push(t)
        }
    }
}

proof fn lemma_normalized_urls(values: Seq<Seq<char>>)
    ensures
        no_duplicates(normalized_urls(values)),
        forall|i: int| 0 <= i < normalized_urls(values).len() ==> (#[trigger] normalized_urls(values)[i]).len() > 0,
    decreases values.len(),
{
    if values.len() > 0 {
        lemma_normalized_urls(values.drop_last());
        let acc = normalized_urls(values.drop_last());
        let t = trim_spec(values.last());
        if !(t.len() == 0 || acc.contains(t)) {
            let r = acc.push(t);
            assert forall|i: int, j: int| 0 <= i < j < r.len() implies r[i] != r[j] by {
                if j == r.len() - 1 {
                    assert(acc[i] == r[i]);
                }
            }
            assert forall|i: int| 0 <= i < r.len() implies (#[trigger] r[i]).len() > 0 by {
                if i < acc.len() {
                    assert(r[i] == acc[i]);
                }
            }
        }
    }
}

fn strings_contain(v: &Vec<String>, x: &String) -> (r: bool)
    ensures
        r == string_views(v@).contains(x@),
{
    let mut i: usize = 0;
    while i < v.len()
        invariant
            i <= v@.len(),
            forall|k: int| 0 <= k < i ==> v@[k]@ != x@,
        decreases v@.len() - i,
    {
        if same_text(v[i].as_str(), x.as_str()) {
            assert(string_views(v@)[i as int] == x@);
            return true;
        }
        i = i + 1;
    }
    proof {
        if string_views(v@).contains(x@) {
            let k = choose|k: int| 0 <= k < v@.len() && string_views(v@)[k] == x@;
            assert(v@[k]@ == x@);
        }
    }
    false
}

/// Normalizes the configured RPC endpoints: each trimmed, blank ones dropped,
/// and a repeated endpoint kept only where it first appears.
pub fn normalize_rpc_urls(values: &Vec<String>) -> (r: Vec<String>)
    ensures
        string_views(r@) == normalized_urls(string_views(values@)),
        no_duplicates(string_views(r@)),
        forall|i: int| 0 <= i < r@.len() ==> (#[trigger] r@[i])@.len() > 0,
{
    let ghost vs = string_views(values@);
    let mut out: Vec<String> = Vec::new();
    for k in 0..values.len()
        invariant
            vs == string_views(values@),
            string_views(out@) == normalized_urls(vs.subrange(0, k as int)),
    {
        let ghost pre = vs.subrange(0, k + 1);
        assert(pre.drop_last() =~= vs.subrange(0, k as int));
        assert(pre.last() == values@[k as int]@);
        let t = trim(values[k].as_str());
        if t.unicode_len() > 0 && !strings_contain(&out, &t) {
            let ghost before = out@;
            out.push(t);
            assert(string_views(out@) =~= string_views(before).push(t@));
        }
    }
    assert(vs.subrange(0, values@.len() as int) =~= vs);
    proof {
        lemma_normalized_urls(vs);
        assert forall|i: int| 0 <= i < out@.len() implies (#[trigger] out@[i])@.len() > 0 by {
            assert(string_views(out@)[i] == out@[i]@);
        }
    }
    out
}

/// What a numeric field written as text stands for: underscores removed,
/// trimmed, blank meaning zero, otherwise an unsigned 64-bit number.
pub open spec fn u64_text_spec(text: Seq<char>) -> Option<nat> {
    let t = trim_spec(text.filter(|c: char| c != '_'));
    if t.len() == 0 {
        Some(0)
    } else {
        parse_unsigned_spec(t, u64::MAX as nat)
    }
}

/// Reads a numeric field written as text, such as `1_000_000`.
pub fn parse_u64_text(text: &str) -> (r: Option<u64>)
    ensures
        match r {
            Some(v) => u64_text_spec(text@) == Some(v as nat),
            None => u64_text_spec(text@).is_none(),
        },
{
    let chars = chars_of(text);
    let mut kept: Vec<char> = Vec::new();
    for i in 0..chars.len()
        invariant
            chars@ == text@,
            kept@ == text@.subrange(0, i as int).filter(|c: char| c != '_'),
    {
        proof {
            let pre = text@.subrange(0, i + 1);
            assert(pre.drop_last() =~= text@.subrange(0, i as int));
            broadcast use vstd::seq_lib::group_filter_ensures;
        }
        assert(text@.subrange(0, i + 1) =~= text@.subrange(0, i as int).push(chars@[i as int]));
        if chars[i] != '_' {
            kept.push(chars[i]);
        }
        proof {
            reveal(Seq::filter);
        }
    }
    assert(text@.subrange(0, chars@.len() as int) =~= text@);
    let t = trim(string_from_chars(&kept).as_str());
    if t.unicode_len() == 0 {
        return Some(0);
    }
    parse_unsigned(t.as_str(), u64::MAX)
}

impl GlobalConfig {
    /// The configured RPC endpoints.
    pub fn rpc_urls(&self) -> (r: &Vec<String>)
        ensures
            r@ == self.rpc_urls@,
    {
        &self.rpc_urls
    }

    /// The first RPC endpoint, if any.
    pub fn primary_rpc_url(&self) -> (r: Option<&str>)
        ensures
            match r {
                Some(s) => self.rpc_urls@.len() > 0 && s@ == self.rpc_urls@[0]@,
                None => self.rpc_urls@.len() == 0,
            },
    {
        if self.rpc_urls.len() == 0 {
            None
        } else {
            Some(self.rpc_urls[0].as_str())
        }
    }
}

/// `base` joined with `rel` as a Unix path: an absolute `rel` replaces `base`,
/// otherwise a `/` separates them unless `base` is empty or already ends in one.
pub open spec fn join_path_spec(base: Seq<char>, rel: Seq<char>) -> Seq<char> {
    if rel.len() > 0 && rel[0] == '/' {
        rel
    } else if base.len() == 0 {
        rel
    } else if base.last() == '/' {
        base + rel
    } else {
        base + "/"@ + rel
    }
}

/// The directory of the strategy files: the configured directory when it is
/// absolute or when the configuration file's directory is unknown, otherwise
/// the configured directory under the configuration file's directory.
pub open spec fn strategy_dir_spec(config_dir: Seq<char>, base_dir: Option<Seq<char>>) -> Seq<char> {
    if config_dir.len() > 0 && config_dir[0] == '/' {
        config_dir
    } else {
        match base_dir {
            Some(b) => join_path_spec(b, config_dir),
            None => config_dir,
        }
    }
}

/// Joins two Unix paths as `Path::join` does.
pub fn join_path(base: &str, rel: &str) -> (r: String)
    ensures
        r@ == join_path_spec(base@, rel@),
{
    if rel.unicode_len() > 0 && rel.get_char(0) == '/' {
        return String::from_str(rel);
    }
    let n = base.unicode_len();
    if n == 0 {
        return String::from_str(rel);
    }
    let mut s = String::from_str(base);
    if base.get_char(n - 1) != '/' {
        s.append("/");
    }
    s.append(rel);
    s
}

/// Resolves the directory of the strategy files.
pub fn resolve_strategy_dir(config_dir: &str, base_dir: Option<&str>) -> (r: String)
    ensures
        r@ == strategy_dir_spec(config_dir@, match base_dir { Some(b) => Some(b@), None => None }),
{
    if config_dir.unicode_len() > 0 && config_dir.get_char(0) == '/' {
        return String::from_str(config_dir);
    }
    match base_dir {
        Some(b) => join_path(b, config_dir),
        None => String::from_str(config_dir),
    }
}

/// The directory of strategy files when the configuration names none.
pub fn default_strategy_config_dir() -> (s: String)
    ensures
        s@ == "strategies"@,
{
    String::from_str("strategies")
}

/// The `[global.instruction]` section: the memo attached to transactions.
pub struct InstructionConfig {
    pub memo: String,
}

impl Default for InstructionConfig {
    fn default() -> (d: Self)
        ensures
            d.memo@.len() == 0,
    {
        InstructionConfig {
            memo: String::new(),
        }
    }
}

/// Automatic unwrapping of wrapped SOL.
pub struct AutoUnwrapConfig {
    pub enable: bool,
    pub unwrap_amount_lamports: u64,
    pub min_sol_balance_lamports: u64,
    pub compute_unit_price_micro_lamports: u64,
}

impl Default for AutoUnwrapConfig {
    fn default() -> (d: Self)
        ensures
            !d.enable,
            d.unwrap_amount_lamports == 1_000_000_000,
            d.min_sol_balance_lamports == 1_000_000_000,
            d.compute_unit_price_micro_lamports == 0,
    {
        AutoUnwrapConfig {
            enable: false,
            unwrap_amount_lamports: 1_000_000_000,
            min_sol_balance_lamports: 1_000_000_000,
            compute_unit_price_micro_lamports: 0,
        }
    }
}

/// Timeouts of the quote, swap and landing steps, in milliseconds.
pub struct EngineTimeoutConfig {
    pub quote_ms: u64,
    pub swap_ms: u64,
    pub landing_ms: u64,
}

impl Default for EngineTimeoutConfig {
    fn default() -> (d: Self)
        ensures
            d.quote_ms == 2_000,
            d.swap_ms == 10_000,
            d.landing_ms == 5_000,
    {
        EngineTimeoutConfig {
            quote_ms: 2_000,
            swap_ms: 10_000,
            landing_ms: 5_000,
        }
    }
}

/// Quote pacing: how many groups run at once and the pauses between them.
pub struct QuoteCadenceTimings {
    pub group_parallelism: QuoteParallelism,
    pub intra_group_spacing_ms: Option<u64>,
    pub wave_cooldown_ms: Option<u64>,
}

impl Default for QuoteCadenceTimings {
    fn default() -> (d: Self)
        ensures
            d.group_parallelism == QuoteParallelism::Auto,
            d.intra_group_spacing_ms.is_none(),
            d.wave_cooldown_ms.is_none(),
    {
        QuoteCadenceTimings {
            group_parallelism: QuoteParallelism::Auto,
            intra_group_spacing_ms: None,
            wave_cooldown_ms: None,
        }
    }
}

/// Quote pacing by default, per base mint and per label.
pub struct QuoteCadenceConfig {
    pub default: QuoteCadenceTimings,
    pub per_base_mint: BTreeMap<String, QuoteCadenceTimings>,
    pub per_label: BTreeMap<String, QuoteCadenceTimings>,
}

impl Default for QuoteCadenceConfig {
    fn default() -> (d: Self)
        ensures
            d.default.group_parallelism == QuoteParallelism::Auto && d.default.intra_group_spacing_ms.is_none() && d.default.wave_cooldown_ms.is_none(),
            d.per_base_mint@.len() == 0,
            d.per_label@.len() == 0,
    {
        QuoteCadenceConfig {
            default: QuoteCadenceTimings::default(),
            per_base_mint: BTreeMap::new(),
            per_label: BTreeMap::new(),
        }
    }
}

/// Route options of the Titan engine.
pub struct TitanSwapConfig {
    pub dexes: Vec<String>,
    pub exclude_dexes: Vec<String>,
    pub only_direct_routes: Option<bool>,
    pub providers: Vec<String>,
}

impl Default for TitanSwapConfig {
    fn default() -> (d: Self)
        ensures
            d.dexes@.len() == 0,
            d.exclude_dexes@.len() == 0,
            d.only_direct_routes.is_none(),
            d.providers@.len() == 0,
    {
        TitanSwapConfig {
            dexes: Vec::new(),
            exclude_dexes: Vec::new(),
            only_direct_routes: None,
            providers: Vec::new(),
        }
    }
}

/// Transaction options of the Titan engine.
pub struct TitanTxConfig {
    pub user_public_key: Option<String>,
    pub create_output_token_account: Option<bool>,
    pub use_wsol: bool,
}

impl Default for TitanTxConfig {
    fn default() -> (d: Self)
        ensures
            d.user_public_key.is_none(),
            d.create_output_token_account.is_none(),
            !d.use_wsol,
    {
        TitanTxConfig {
            user_public_key: None,
            create_output_token_account: None,
            use_wsol: false,
        }
    }
}

/// The Titan streaming engine.
pub struct TitanEngineConfig {
    pub leg: Option<LegRole>,
    pub ws_url: Option<String>,
    pub ws_proxy: Option<String>,
    pub jwt: Option<String>,
    pub providers: Vec<String>,
    pub interval_ms: Option<u64>,
    pub num_quotes: Option<u32>,
    pub first_quote_timeout_ms: Option<u64>,
    pub swap_config: TitanSwapConfig,
    pub tx_config: TitanTxConfig,
}

impl Default for TitanEngineConfig {
    fn default() -> (d: Self)
        ensures
            d.leg.is_none(),
            d.ws_url.is_none(),
            d.ws_proxy.is_none(),
            d.jwt.is_none(),
            d.providers@.len() == 0,
            d.interval_ms.is_none(),
            d.num_quotes.is_none(),
            d.first_quote_timeout_ms == Some(2_000u64),
            d.swap_config.dexes@.len() == 0,
            !d.tx_config.use_wsol,
    {
        TitanEngineConfig {
            leg: None,
            ws_url: None,
            ws_proxy: None,
            jwt: None,
            providers: Vec::new(),
            interval_ms: None,
            num_quotes: None,
            first_quote_timeout_ms: Some(2_000),
            swap_config: TitanSwapConfig::default(),
            tx_config: TitanTxConfig::default(),
        }
    }
}

/// Quote options of the DFlow engine.
pub struct DflowQuoteConfig {
    pub use_auto_slippage: bool,
    pub only_direct_routes: bool,
    pub max_route_length: Option<u8>,
    pub cadence: QuoteCadenceConfig,
}

impl Default for DflowQuoteConfig {
    fn default() -> (d: Self)
        ensures
            d.use_auto_slippage,
            !d.only_direct_routes,
            d.max_route_length.is_none(),
            d.cadence.per_base_mint@.len() == 0,
    {
        DflowQuoteConfig {
            use_auto_slippage: true,
            only_direct_routes: false,
            max_route_length: None,
            cadence: QuoteCadenceConfig::default(),
        }
    }
}

/// Quote options of the Ultra engine.
pub struct UltraQuoteConfig {
    pub include_routers: Vec<String>,
    pub exclude_routers: Vec<String>,
    pub taker: Option<String>,
    pub use_wsol: bool,
    pub broadcast_fee_type: Option<String>,
    pub jito_tip_lamports: Option<u64>,
    pub priority_fee_lamports: Option<u64>,
    pub cadence: QuoteCadenceConfig,
}

impl Default for UltraQuoteConfig {
    fn default() -> (d: Self)
        ensures
            d.include_routers@.len() == 0,
            d.exclude_routers@.len() == 0,
            d.taker.is_none(),
            !d.use_wsol,
            d.broadcast_fee_type.is_none(),
            d.jito_tip_lamports.is_none(),
            d.priority_fee_lamports == Some(10u64),
            d.cadence.per_label@.len() == 0,
    {
        UltraQuoteConfig {
            include_routers: Vec::new(),
            exclude_routers: Vec::new(),
            taker: None,
            use_wsol: false,
            broadcast_fee_type: None,
            jito_tip_lamports: None,
            priority_fee_lamports: Some(10),
            cadence: QuoteCadenceConfig::default(),
        }
    }
}

/// Logging level, format and profile.
pub struct LoggingConfig {
    pub level: String,
    pub json: bool,
    pub profile: LoggingProfile,
    pub slow_quote_warn_ms: u64,
    pub slow_swap_warn_ms: u64,
    pub timezone_offset_hours: i8,
}

impl Default for LoggingConfig {
    fn default() -> (d: Self)
        ensures
            d.level@ == "info"@,
            !d.json,
            d.profile == LoggingProfile::Lean,
            d.slow_quote_warn_ms == 25,
            d.slow_swap_warn_ms == 200,
            d.timezone_offset_hours == 0,
    {
        LoggingConfig {
            level: String::from_str("info"),
            json: false,
            profile: LoggingProfile::Lean,
            slow_quote_warn_ms: 25,
            slow_swap_warn_ms: 200,
            timezone_offset_hours: 0,
        }
    }
}

/// The intermediate mints that trades route through.
pub struct IntermediumConfig {
    pub load_mints_from_files: Vec<String>,
    pub load_mints_from_url: String,
    pub max_tokens_limit: u32,
    pub mints: Vec<String>,
    pub disable_mints: Vec<String>,
}

impl Default for IntermediumConfig {
    fn default() -> (d: Self)
        ensures
            d.load_mints_from_files@.len() == 0,
            d.load_mints_from_url@.len() == 0,
            d.max_tokens_limit == 20,
            d.mints@.len() == 0,
            d.disable_mints@.len() == 0,
    {
        IntermediumConfig {
            load_mints_from_files: Vec::new(),
            load_mints_from_url: String::new(),
            max_tokens_limit: 20,
            mints: Vec::new(),
            disable_mints: Vec::new(),
        }
    }
}

/// Dry-run mode and the RPC endpoint it sends to.
pub struct DryRunConfig {
    pub enable: bool,
    pub rpc_url: Option<String>,
}

impl Default for DryRunConfig {
    fn default() -> (d: Self)
        ensures
            !d.enable,
            d.rpc_url.is_none(),
    {
        DryRunConfig {
            enable: false,
            rpc_url: None,
        }
    }
}

/// Pinning of worker threads to CPU cores.
pub struct CpuAffinityConfig {
    pub enable: bool,
    pub worker_cores: Vec<usize>,
    pub max_blocking_threads: Option<usize>,
    pub strict: bool,
}

impl Default for CpuAffinityConfig {
    fn default() -> (d: Self)
        ensures
            !d.enable,
            d.worker_cores@.len() == 0,
            d.max_blocking_threads.is_none(),
            !d.strict,
    {
        CpuAffinityConfig {
            enable: false,
            worker_cores: Vec::new(),
            max_blocking_threads: None,
            strict: false,
        }
    }
}

/// How long an IP rests after a rate limit or a timeout, in milliseconds.
pub struct NetworkCooldownConfig {
    pub rate_limited_start: u64,
    pub timeout_start: u64,
}

impl Default for NetworkCooldownConfig {
    fn default() -> (d: Self)
        ensures
            d.rate_limited_start == 500,
            d.timeout_start == 250,
    {
        NetworkCooldownConfig {
            rate_limited_start: 500,
            timeout_start: 250,
        }
    }
}

/// The local IP addresses the bot sends from. Addresses are their text.
pub struct NetworkConfig {
    pub enable_multiple_ip: bool,
    pub manual_ips: Vec<String>,
    pub blacklist_ips: Vec<String>,
    pub allow_loopback: bool,
    pub per_ip_inflight_limit: Option<u32>,
    pub cooldown_ms: NetworkCooldownConfig,
}

impl Default for NetworkConfig {
    fn default() -> (d: Self)
        ensures
            !d.enable_multiple_ip,
            d.manual_ips@.len() == 0,
            d.blacklist_ips@.len() == 0,
            !d.allow_loopback,
            d.per_ip_inflight_limit is None,
            d.cooldown_ms.rate_limited_start == 500,
            d.cooldown_ms.timeout_start == 250,
    {
        NetworkConfig {
            enable_multiple_ip: false,
            manual_ips: Vec::new(),
            blacklist_ips: Vec::new(),
            allow_loopback: false,
            per_ip_inflight_limit: None,
            cooldown_ms: NetworkCooldownConfig::default(),
        }
    }
}

/// What the IP allocator is built from: the addresses to use or avoid, the
/// limit of requests in flight per address, and cool-down times in
/// milliseconds that are never zero.
pub struct IpAllocatorSettings {
    pub enable_multiple_ip: bool,
    pub manual_ips: Vec<String>,
    pub blacklist: Vec<String>,
    pub allow_loopback: bool,
    pub per_ip_inflight_limit: Option<usize>,
    pub rate_limited_start_ms: u64,
    pub timeout_start_ms: u64,
}

/// The settings of the IP allocator from the network configuration: the
/// address lists as configured, each cool-down at least one millisecond.
pub fn build_ip_allocator(cfg: &NetworkConfig) -> (s: IpAllocatorSettings)
    ensures
        s.enable_multiple_ip == cfg.enable_multiple_ip,
        string_views(s.manual_ips@) == string_views(cfg.manual_ips@),
        string_views(s.blacklist@) == string_views(cfg.blacklist_ips@),
        s.allow_loopback == cfg.allow_loopback,
        s.per_ip_inflight_limit == match cfg.per_ip_inflight_limit {
            Some(l) => Some(l as usize),
            None => None::<usize>,
        },
        s.rate_limited_start_ms == if cfg.cooldown_ms.rate_limited_start == 0 { 1 } else { cfg.cooldown_ms.rate_limited_start },
        s.timeout_start_ms == if cfg.cooldown_ms.timeout_start == 0 { 1 } else { cfg.cooldown_ms.timeout_start },
{
    let limit = match cfg.per_ip_inflight_limit {
        Some(l) => Some(l as usize),
        None => None,
    };
    IpAllocatorSettings {
        enable_multiple_ip: cfg.enable_multiple_ip,
        manual_ips: cfg.manual_ips.clone(),
        blacklist: cfg.blacklist_ips.clone(),
        allow_loopback: cfg.allow_loopback,
        per_ip_inflight_limit: limit,
        rate_limited_start_ms: if cfg.cooldown_ms.rate_limited_start == 0 { 1 } else { cfg.cooldown_ms.rate_limited_start },
        timeout_start_ms: if cfg.cooldown_ms.timeout_start == 0 { 1 } else { cfg.cooldown_ms.timeout_start },
    }
}

/// A price feed and how often it is read.
pub struct PriceFeedConfig {
    pub url: String,
    pub refresh_ms: u64,
}

impl Default for PriceFeedConfig {
    fn default() -> (d: Self)
        ensures
            d.url@.len() == 0,
            d.refresh_ms == 1_000,
    {
        PriceFeedConfig {
            url: String::new(),
            refresh_ms: 1_000,
        }
    }
}

/// The Lighthouse profit guard.
pub struct LightHouseBotConfig {
    pub enable: bool,
    pub profit_guard_mints: Vec<String>,
    pub sol_price_feed: Option<PriceFeedConfig>,
    pub memory_slots: Option<u8>,
}

impl Default for LightHouseBotConfig {
    fn default() -> (d: Self)
        ensures
            !d.enable,
            d.profit_guard_mints@.len() == 0,
            d.sol_price_feed.is_none(),
            d.memory_slots.is_none(),
    {
        LightHouseBotConfig {
            enable: false,
            profit_guard_mints: Vec::new(),
            sol_price_feed: None,
            memory_slots: None,
        }
    }
}

/// Marginfi flash loans.
pub struct FlashloanMarginfiConfig {
    pub marginfi_account: Option<String>,
    pub compute_unit_overhead: u32,
}

impl Default for FlashloanMarginfiConfig {
    fn default() -> (d: Self)
        ensures
            d.marginfi_account.is_none(),
            d.compute_unit_overhead == 110_000,
    {
        FlashloanMarginfiConfig {
            marginfi_account: None,
            compute_unit_overhead: 110_000,
        }
    }
}

/// Flash loan providers.
pub struct FlashloanConfig {
    pub marginfi: FlashloanMarginfiConfig,
}

impl Default for FlashloanConfig {
    fn default() -> (d: Self)
        ensures
            d.marginfi.compute_unit_overhead == 110_000 && d.marginfi.marginfi_account.is_none(),
    {
        FlashloanConfig {
            marginfi: FlashloanMarginfiConfig::default(),
        }
    }
}

/// Where the pure-blind market cache lives and what it leaves out.
pub struct PureBlindMarketCacheConfig {
    pub path: String,
    pub download_url: String,
    pub proxy: Option<String>,
    pub auto_refresh_minutes: u64,
    pub exclude_other_dex_program_ids: bool,
    pub exclude_dex_program_ids: Vec<String>,
    pub min_liquidity_usd: u64,
}

impl Default for PureBlindMarketCacheConfig {
    fn default() -> (d: Self)
        ensures
            d.path@.len() == 0,
            d.download_url@.len() == 0,
            d.proxy.is_none(),
            d.auto_refresh_minutes == 0,
            !d.exclude_other_dex_program_ids,
            d.exclude_dex_program_ids@.len() == 0,
            d.min_liquidity_usd == 0,
    {
        PureBlindMarketCacheConfig {
            path: String::new(),
            download_url: String::new(),
            proxy: None,
            auto_refresh_minutes: 0,
            exclude_other_dex_program_ids: false,
            exclude_dex_program_ids: Vec::new(),
            min_liquidity_usd: 0,
        }
    }
}

/// One market of a pure-blind route override.
pub struct PureBlindOverrideLegConfig {
    pub market: String,
}

impl Default for PureBlindOverrideLegConfig {
    fn default() -> (d: Self)
        ensures
            d.market@.len() == 0,
    {
        PureBlindOverrideLegConfig {
            market: String::new(),
        }
    }
}

/// Metrics of the pure-blind strategy.
pub struct PureBlindMonitoringConfig {
    pub enable_metrics: bool,
    pub route_labels: bool,
}

impl Default for PureBlindMonitoringConfig {
    fn default() -> (d: Self)
        ensures
            !d.enable_metrics,
            !d.route_labels,
    {
        PureBlindMonitoringConfig {
            enable_metrics: false,
            route_labels: false,
        }
    }
}

/// Trade sizes of a back-run on a base mint, as basis points or a fixed size.
pub struct BackRunTradeConfig {
    pub min_trade_bp: Option<u64>,
    pub max_trade_bp: Option<u64>,
    pub fixed_size: Option<u64>,
}

/// A base mint of the back-run strategy.
pub struct BackRunBaseMintConfig {
    pub trigger_amount: u64,
    pub mint: String,
    pub min_quote_profit: u64,
    pub min_simulated_profit: u64,
    pub skip_profit_check_for_quote: bool,
    pub min_trade_size: u64,
    pub max_trade_size: u64,
    pub trade_configs: Vec<BackRunTradeConfig>,
}

/// The back-run strategy.
pub struct BackRunStrategyConfig {
    pub enable_dexs: Vec<String>,
    pub enable_landers: Vec<String>,
    pub memo: String,
    pub trigger_memo: String,
    pub base_mints: Vec<BackRunBaseMintConfig>,
}

impl Default for BackRunStrategyConfig {
    fn default() -> (d: Self)
        ensures
            d.enable_dexs@.len() == 0,
            d.enable_landers@.len() == 0,
            d.memo@.len() == 0,
            d.trigger_memo@.len() == 0,
            d.base_mints@.len() == 0,
    {
        BackRunStrategyConfig {
            enable_dexs: Vec::new(),
            enable_landers: Vec::new(),
            memo: String::new(),
            trigger_memo: String::new(),
            base_mints: Vec::new(),
        }
    }
}

/// Polling of copied wallets over RPC.
pub struct CopyRpcConfig {
    pub pull_interval_minutes: u64,
    pub pull_count: u64,
    pub pull_endpoints: Vec<String>,
}

impl Default for CopyRpcConfig {
    fn default() -> (d: Self)
        ensures
            d.pull_interval_minutes == 10,
            d.pull_count == 100,
            d.pull_endpoints@.len() == 0,
    {
        CopyRpcConfig {
            pull_interval_minutes: 10,
            pull_count: 100,
            pull_endpoints: Vec::new(),
        }
    }
}

/// Streaming of copied wallets over Yellowstone gRPC.
pub struct CopyGrpcConfig {
    pub yellowstone_grpc_url: String,
    pub yellowstone_grpc_token: String,
    pub include_program_ids: Vec<String>,
    pub exclude_program_ids: Vec<String>,
}

impl Default for CopyGrpcConfig {
    fn default() -> (d: Self)
        ensures
            d.yellowstone_grpc_url@.len() == 0,
            d.yellowstone_grpc_token@.len() == 0,
            d.include_program_ids@.len() == 0,
            d.exclude_program_ids@.len() == 0,
    {
        CopyGrpcConfig {
            yellowstone_grpc_url: String::new(),
            yellowstone_grpc_token: String::new(),
            include_program_ids: Vec::new(),
            exclude_program_ids: Vec::new(),
        }
    }
}

/// Where the copy strategy learns of a wallet's transactions.
pub struct CopySourceConfig {
    pub kind: CopySourceKind,
    pub rpc: CopyRpcConfig,
    pub grpc: CopyGrpcConfig,
    pub enable_landers: Vec<String>,
}

impl Default for CopySourceConfig {
    fn default() -> (d: Self)
        ensures
            d.kind == CopySourceKind::Rpc,
            d.rpc.pull_interval_minutes == 10 && d.rpc.pull_count == 100,
            d.grpc.include_program_ids@.len() == 0,
            d.enable_landers@.len() == 0,
    {
        CopySourceConfig {
            kind: CopySourceKind::Rpc,
            rpc: CopyRpcConfig::default(),
            grpc: CopyGrpcConfig::default(),
            enable_landers: Vec::new(),
        }
    }
}

/// How copied transactions are dispatched.
pub struct CopyDispatchConfig {
    pub mode: CopyDispatchMode,
    pub max_inflight: u32,
    pub queue_capacity: u32,
    pub queue_worker_count: u32,
    pub replay_interval_ms: u64,
    pub queue_send_interval_ms: u64,
    pub fanout_count: u32,
}

impl Default for CopyDispatchConfig {
    fn default() -> (d: Self)
        ensures
            d.mode == CopyDispatchMode::Parallel,
            d.max_inflight == 32,
            d.queue_capacity == 256,
            d.queue_worker_count == 1,
            d.replay_interval_ms == 100,
            d.queue_send_interval_ms == 0,
            d.fanout_count == 1,
    {
        CopyDispatchConfig {
            mode: CopyDispatchMode::Parallel,
            max_inflight: 32,
            queue_capacity: 256,
            queue_worker_count: 1,
            replay_interval_ms: 100,
            queue_send_interval_ms: 0,
            fanout_count: 1,
        }
    }
}

/// The Prometheus exporter.
pub struct PrometheusConfig {
    pub enable: bool,
    pub listen: String,
}

impl Default for PrometheusConfig {
    fn default() -> (d: Self)
        ensures
            !d.enable,
            d.listen@ == "0.0.0.0:9898"@,
    {
        PrometheusConfig {
            enable: false,
            listen: String::from_str("0.0.0.0:9898"),
        }
    }
}

/// Health checks of a managed process.
pub struct HealthCheckConfig {
    pub interval_secs: u64,
    pub max_wait_secs: u64,
    pub retry_count: u32,
}

/// Jito bundle UUIDs and their rate limits.
pub struct LanderJitoUuidConfig {
    pub uuid: String,
    pub rate_limit: Option<u64>,
}

impl Default for LanderJitoUuidConfig {
    fn default() -> (d: Self)
        ensures
            d.uuid@.len() == 0,
            d.rate_limit.is_none(),
    {
        LanderJitoUuidConfig {
            uuid: String::new(),
            rate_limit: None,
        }
    }
}

/// Endpoints of a landing service.
pub struct LanderEndpointConfig {
    pub endpoints: Vec<String>,
}

impl Default for LanderEndpointConfig {
    fn default() -> (d: Self)
        ensures
            d.endpoints@.len() == 0,
    {
        LanderEndpointConfig {
            endpoints: Vec::new(),
        }
    }
}

/// The Jito landing service and how its tip is chosen.
pub struct LanderJitoConfig {
    pub endpoints: Vec<String>,
    pub tip_strategy: TipStrategyKind,
    pub fixed_tip: Option<u64>,
    pub range_tips: Vec<u64>,
    pub stream_tip_level: Option<TipStreamLevel>,
    pub max_stream_tip_lamports: Option<u64>,
    pub uuid_config: Vec<LanderJitoUuidConfig>,
}

impl Default for LanderJitoConfig {
    fn default() -> (d: Self)
        ensures
            d.endpoints@.len() == 0,
            d.tip_strategy == TipStrategyKind::Fixed,
            d.fixed_tip.is_none(),
            d.range_tips@.len() == 0,
            d.stream_tip_level.is_none(),
            d.max_stream_tip_lamports.is_none(),
            d.uuid_config@.len() == 0,
    {
        LanderJitoConfig {
            endpoints: Vec::new(),
            tip_strategy: TipStrategyKind::Fixed,
            fixed_tip: None,
            range_tips: Vec::new(),
            stream_tip_level: None,
            max_stream_tip_lamports: None,
            uuid_config: Vec::new(),
        }
    }
}

/// How transactions are landed: compute unit price and the landing services.
pub struct LanderSettings {
    pub enable_log: bool,
    pub compute_unit_price_strategy: String,
    pub fixed_compute_unit_price: Option<u64>,
    pub random_compute_unit_price_range: Vec<u64>,
    pub jito: Option<LanderJitoConfig>,
    pub staked: Option<LanderEndpointConfig>,
    pub temporal: Option<LanderEndpointConfig>,
    pub astralane: Option<LanderEndpointConfig>,
    pub skip_preflight: Option<bool>,
    pub max_retries: Option<usize>,
    pub min_context_slot: Option<u64>,
}

impl Default for LanderSettings {
    fn default() -> (d: Self)
        ensures
            !d.enable_log,
            d.compute_unit_price_strategy@ == "fixed"@,
            d.fixed_compute_unit_price.is_none(),
            d.random_compute_unit_price_range@.len() == 0,
            d.jito.is_none(),
            d.staked.is_none(),
            d.temporal.is_none(),
            d.astralane.is_none(),
            d.skip_preflight.is_none(),
            d.max_retries.is_none(),
            d.min_context_slot.is_none(),
    {
        LanderSettings {
            enable_log: false,
            compute_unit_price_strategy: String::from_str("fixed"),
            fixed_compute_unit_price: None,
            random_compute_unit_price_range: Vec::new(),
            jito: None,
            staked: None,
            temporal: None,
            astralane: None,
            skip_preflight: None,
            max_retries: None,
            min_context_slot: None,
        }
    }
}

/// The lander configuration file.
pub struct LanderConfig {
    pub lander: LanderSettings,
}

impl Default for LanderConfig {
    fn default() -> (d: Self)
        ensures
            d.lander.compute_unit_price_strategy@ == "fixed"@,
    {
        LanderConfig {
            lander: LanderSettings::default(),
        }
    }
}

/// The `[global]` section: RPC endpoints, proxy, Yellowstone, memo and logging.
pub struct GlobalConfig {
    pub rpc_urls: Vec<String>,
    pub proxy: Option<String>,
    pub yellowstone_grpc_url: Option<String>,
    pub yellowstone_grpc_token: Option<String>,
    pub instruction: InstructionConfig,
    pub logging: LoggingConfig,
}

impl Default for GlobalConfig {
    fn default() -> (d: Self)
        ensures
            d.rpc_urls@.len() == 0,
            d.proxy.is_none(),
            d.yellowstone_grpc_url.is_none(),
            d.yellowstone_grpc_token.is_none(),
            d.instruction.memo@.len() == 0,
            d.logging.level@ == "info"@ && d.logging.profile == LoggingProfile::Lean,
    {
        GlobalConfig {
            rpc_urls: Vec::new(),
            proxy: None,
            yellowstone_grpc_url: None,
            yellowstone_grpc_token: None,
            instruction: InstructionConfig::default(),
            logging: LoggingConfig::default(),
        }
    }
}

/// How many of the manual addresses are not on the blacklist.
pub open spec fn unlisted_count(manual: Seq<Seq<char>>, blacklist: Seq<Seq<char>>) -> nat
    decreases manual.len(),
{
    if manual.len() == 0 {
        0
    } else {
        unlisted_count(manual.drop_last(), blacklist) + if blacklist.contains(manual.last()) { 0nat } else { 1nat }
    }
}

/// The sending addresses the configuration itself names: with several IPs
/// on, the manual addresses that are not blacklisted; otherwise the one
/// default address.
pub fn configured_ip_slots(settings: &IpAllocatorSettings) -> (r: usize)
    ensures
        r == if settings.enable_multiple_ip {
            unlisted_count(string_views(settings.manual_ips@), string_views(settings.blacklist@))
        } else {
            1
        },
{
    if !settings.enable_multiple_ip {
        return 1;
    }
    let ghost m = string_views(settings.manual_ips@);
    let ghost b = string_views(settings.blacklist@);
    let mut count: usize = 0;
    let mut i: usize = 0;
    while i < settings.manual_ips.len()
        invariant
            i <= settings.manual_ips@.len(),
            m == string_views(settings.manual_ips@),
            b == string_views(settings.blacklist@),
            count == unlisted_count(m.take(i as int), b),
            count <= i,
        decreases settings.manual_ips@.len() - i,
    {
        assert(m.take(i + 1).drop_last() =~= m.take(i as int));
        let ip = settings.manual_ips[i].as_str();
        let mut listed = false;
        let mut k: usize = 0;
        while k < settings.blacklist.len()
            invariant
                k <= settings.blacklist@.len(),
                b == string_views(settings.blacklist@),
                i < settings.manual_ips@.len(),
                m == string_views(settings.manual_ips@),
                ip@ == m[i as int],
                listed == exists|j: int| 0 <= j < k && b[j] == m[i as int],
            decreases settings.blacklist@.len() - k,
        {
            assert(b[k as int] == settings.blacklist@[k as int]@);
            if same_text(settings.blacklist[k].as_str(), ip) {
                listed = true;
            }
            assert(listed == exists|j: int| 0 <= j < k + 1 && b[j] == m[i as int]) by {
                if exists|j: int| 0 <= j < k + 1 && b[j] == m[i as int] {
                    let j = choose|j: int| 0 <= j < k + 1 && b[j] == m[i as int];
                    if j < k {
                        assert(exists|j2: int| 0 <= j2 < k && b[j2] == m[i as int]);
                    }
                }
            }
            k = k + 1;
        }
        proof {
            if listed {
                let j = choose|j: int| 0 <= j < settings.blacklist@.len() && b[j] == m[i as int];
                assert(b.contains(m[i as int]));
            } else if b.contains(m[i as int]) {
                let j = choose|j: int| 0 <= j < b.len() && b[j] == m[i as int];
            }
        }
        if !listed {
            count = count + 1;
        }
        i = i + 1;
    }
    assert(m.take(settings.manual_ips@.len() as int) =~= m);
    count
}


/// The file a strategy's settings are read from when the main
/// configuration leaves them at their defaults.
pub open spec fn strategy_file_spec(strategy: StrategyToggle) -> Seq<char> {
    match strategy {
        StrategyToggle::BlindStrategy => "blind_strategy.yaml"@,
        StrategyToggle::PureBlindStrategy => "pure_blind_strategy.yaml"@,
        StrategyToggle::CopyStrategy => "copy_strategy.yaml"@,
        StrategyToggle::BackRunStrategy => "back_run_strategy.yaml"@,
    }
}

/// The path of a strategy's own settings file: its file name in the
/// strategy directory, which is resolved against the configuration's directory.
pub fn strategy_file_path(config_dir: &str, base_dir: Option<&str>, strategy: StrategyToggle) -> (r: String)
    ensures
        r@ == join_path_spec(strategy_dir_spec(config_dir@, match base_dir { Some(b) => Some(b@), None => None }), strategy_file_spec(strategy)),
{
    let dir = resolve_strategy_dir(config_dir, base_dir);
    proof {
        reveal_strlit("blind_strategy.yaml");
        reveal_strlit("pure_blind_strategy.yaml");
        reveal_strlit("copy_strategy.yaml");
        reveal_strlit("back_run_strategy.yaml");
    }
    let name = match strategy {
        StrategyToggle::BlindStrategy => "blind_strategy.yaml",
        StrategyToggle::PureBlindStrategy => "pure_blind_strategy.yaml",
        StrategyToggle::CopyStrategy => "copy_strategy.yaml",
        StrategyToggle::BackRunStrategy => "back_run_strategy.yaml",
    };
    join_path(dir.as_str(), name)
}


/// `rpc_urls` as the configuration writes it: one URL or a list.
pub enum RpcUrlsField {
    One(String),
    Many(Vec<String>),
}

/// The URLs a field names, before normalizing.
pub open spec fn rpc_field_urls(field: Option<RpcUrlsField>) -> Seq<Seq<char>> {
    match field {
        None => Seq::empty(),
        Some(RpcUrlsField::One(u)) => seq![u@],
        Some(RpcUrlsField::Many(v)) => string_views(v@),
    }
}

/// The RPC endpoints of a `rpc_urls` field, one URL or a list, normalized.
pub fn rpc_urls_of(field: Option<RpcUrlsField>) -> (r: Vec<String>)
    ensures
        string_views(r@) == normalized_urls(rpc_field_urls(field)),
{
    let ghost f = rpc_field_urls(field);
    let values: Vec<String> = match field {
        None => Vec::new(),
        Some(RpcUrlsField::One(u)) => {
            let mut v: Vec<String> = Vec::new();
            v.push(u);
            v
        },
        Some(RpcUrlsField::Many(v)) => v,
    };
    assert(string_views(values@) =~= f);
    normalize_rpc_urls(&values)
}

} // verus!
