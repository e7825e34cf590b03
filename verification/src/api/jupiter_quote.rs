//! The Jupiter `/quote` request.
use vstd::prelude::*;
use vstd::string::*;
use crate::text::{trim, trim_spec, dec_spec};
use crate::keys::{format_pubkey, pubkey_text};
use super::{param_views, push_param, bool_text, bool_string, dec_string};

verus! {

/// Whether the amount is what goes in or what comes out.
#[derive(PartialEq, Eq, Structural, Clone, Copy, Debug)]
pub enum SwapMode {
    ExactIn,
    ExactOut,
}

impl Default for SwapMode {
    fn default() -> (d: Self)
        ensures
            d == SwapMode::ExactIn,
    {
        SwapMode::ExactIn
    }
}

/// The name of a swap mode in requests.
pub open spec fn swap_mode_text(m: SwapMode) -> Seq<char> {
    match m {
        SwapMode::ExactIn => "ExactIn"@,
        SwapMode::ExactOut => "ExactOut"@,
    }
}

impl SwapMode {
    pub fn as_str(self) -> (r: &'static str)
        ensures
            r@ == swap_mode_text(self),
    {
        match self {
            SwapMode::ExactIn => "ExactIn",
            SwapMode::ExactOut => "ExactOut",
        }
    }
}

/// The `/quote` request, sent as query parameters.
pub struct QuoteRequest {
    pub input_mint: Vec<u8>,
    pub output_mint: Vec<u8>,
    pub amount: u64,
    pub swap_mode: SwapMode,
    pub slippage_bps: Option<u16>,
    pub only_direct_routes: Option<bool>,
    pub restrict_intermediate_tokens: Option<bool>,
    pub dexes: Option<String>,
    pub exclude_dexes: Option<String>,
    pub as_legacy_transaction: Option<bool>,
    pub platform_fee_bps: Option<u16>,
    pub max_accounts: Option<u16>,
}

/// A parameter when the value is present.
pub open spec fn opt_param(key: Seq<char>, value: Option<Seq<char>>) -> Seq<(Seq<char>, Seq<char>)> {
    match value {
        Some(v) => seq![(key, v)],
        None => Seq::empty(),
    }
}

/// A parameter with the trimmed text when it is present and not blank.
pub open spec fn trimmed_param(key: Seq<char>, value: Option<Seq<char>>) -> Seq<(Seq<char>, Seq<char>)> {
    match value {
        Some(v) => if trim_spec(v).len() > 0 { seq![(key, trim_spec(v))] } else { Seq::empty() },
        None => Seq::empty(),
    }
}

/// The text of an optional number.
pub open spec fn opt_num(v: Option<u16>) -> Option<Seq<char>> {
    match v {
        Some(n) => Some(dec_spec(n as nat)),
        None => None,
    }
}

/// The text of an optional flag.
pub open spec fn opt_bool(v: Option<bool>) -> Option<Seq<char>> {
    match v {
        Some(b) => Some(bool_text(b)),
        None => None,
    }
}

/// The view of an optional string.
pub open spec fn opt_text(v: Option<String>) -> Option<Seq<char>> {
    match v {
        Some(s) => Some(s@),
        None => None,
    }
}

/// Appends a numeric parameter when it is set.
pub fn push_opt_num(params: &mut Vec<(String, String)>, key: &str, value: Option<u16>)
    ensures
        param_views(final(params)@) == param_views(old(params)@) + opt_param(key@, opt_num(value)),
{
    if let Some(v) = value {
        push_param(params, key, dec_string(v as u64));
    }
    assert(param_views(params@) =~= param_views(old(params)@) + opt_param(key@, opt_num(value)));
}

/// Appends a flag parameter when it is set.
pub fn push_opt_bool(params: &mut Vec<(String, String)>, key: &str, value: Option<bool>)
    ensures
        param_views(final(params)@) == param_views(old(params)@) + opt_param(key@, opt_bool(value)),
{
    if let Some(v) = value {
        push_param(params, key, bool_string(v));
    }
    assert(param_views(params@) =~= param_views(old(params)@) + opt_param(key@, opt_bool(value)));
}

/// Appends a text parameter, trimmed, when it is set and not blank.
pub fn push_trimmed(params: &mut Vec<(String, String)>, key: &str, value: &Option<String>)
    ensures
        param_views(final(params)@) == param_views(old(params)@) + trimmed_param(key@, opt_text(*value)),
{
    if let Some(v) = value {
        let t = trim(v.as_str());
        if t.unicode_len() > 0 {
            push_param(params, key, t);
        }
    }
    assert(param_views(params@) =~= param_views(old(params)@) + trimmed_param(key@, opt_text(*value)));
}

impl QuoteRequest {
    /// A request for an exact input amount with nothing else set.
    pub fn new(input_mint: Vec<u8>, output_mint: Vec<u8>, amount: u64) -> (r: Self)
        ensures
            r.input_mint@ == input_mint@,
            r.output_mint@ == output_mint@,
            r.amount == amount,
            r.swap_mode == SwapMode::ExactIn,
            r.slippage_bps is None && r.only_direct_routes is None && r.restrict_intermediate_tokens is None,
            r.dexes is None && r.exclude_dexes is None && r.as_legacy_transaction is None,
            r.platform_fee_bps is None && r.max_accounts is None,
    {
        QuoteRequest {
            input_mint,
            output_mint,
            amount,
            swap_mode: SwapMode::ExactIn,
            slippage_bps: None,
            only_direct_routes: None,
            restrict_intermediate_tokens: None,
            dexes: None,
            exclude_dexes: None,
            as_legacy_transaction: None,
            platform_fee_bps: None,
            max_accounts: None,
        }
    }

    /// The parameters of the request, in order: mints, amount and swap mode,
    /// then each option that is set (DEX lists only when not blank, trimmed).
    pub open spec fn query_spec(&self) -> Seq<(Seq<char>, Seq<char>)> {
        seq![
            ("inputMint"@, pubkey_text(self.input_mint@)),
            ("outputMint"@, pubkey_text(self.output_mint@)),
            ("amount"@, dec_spec(self.amount as nat)),
            ("swapMode"@, swap_mode_text(self.swap_mode)),
        ]
            + opt_param("slippageBps"@, opt_num(self.slippage_bps))
            + opt_param("onlyDirectRoutes"@, opt_bool(self.only_direct_routes))
            + opt_param("restrictIntermediateTokens"@, opt_bool(self.restrict_intermediate_tokens))
            + trimmed_param("dexes"@, opt_text(self.dexes))
            + trimmed_param("excludeDexes"@, opt_text(self.exclude_dexes))
            + opt_param("asLegacyTransaction"@, opt_bool(self.as_legacy_transaction))
            + opt_param("platformFeeBps"@, opt_num(self.platform_fee_bps))
            + opt_param("maxAccounts"@, opt_num(self.max_accounts))
    }

    pub fn to_query_params(&self) -> (r: Vec<(String, String)>)
        requires
            self.input_mint@.len() == 32,
            self.output_mint@.len() == 32,
        ensures
            param_views(r@) == self.query_spec(),
            r@.len() >= 4,
            r@[0].0@ == "inputMint"@,
            r@[0].1@ == pubkey_text(self.input_mint@),
            r@[1].0@ == "outputMint"@,
            r@[1].1@ == pubkey_text(self.output_mint@),
            r@[2].0@ == "amount"@,
            r@[2].1@ == dec_spec(self.amount as nat),
            r@[3].0@ == "swapMode"@,
            r@[3].1@ == swap_mode_text(self.swap_mode),
    {
        let mut params: Vec<(String, String)> = Vec::new();
        push_param(&mut params, "inputMint", format_pubkey(&self.input_mint));
        push_param(&mut params, "outputMint", format_pubkey(&self.output_mint));
        push_param(&mut params, "amount", dec_string(self.amount));
        push_param(&mut params, "swapMode", String::from_str(self.swap_mode.as_str()));
        let ghost base = param_views(params@);
        push_opt_num(&mut params, "slippageBps", self.slippage_bps);
        push_opt_bool(&mut params, "onlyDirectRoutes", self.only_direct_routes);
        push_opt_bool(&mut params, "restrictIntermediateTokens", self.restrict_intermediate_tokens);
        push_trimmed(&mut params, "dexes", &self.dexes);
        push_trimmed(&mut params, "excludeDexes", &self.exclude_dexes);
        push_opt_bool(&mut params, "asLegacyTransaction", self.as_legacy_transaction);
        push_opt_num(&mut params, "platformFeeBps", self.platform_fee_bps);
        push_opt_num(&mut params, "maxAccounts", self.max_accounts);
        assert(param_views(params@) =~= self.query_spec());
        proof {
            assert(param_views(params@)[0] == (params@[0].0@, params@[0].1@));
            assert(param_views(params@)[1] == (params@[1].0@, params@[1].1@));
            assert(param_views(params@)[2] == (params@[2].0@, params@[2].1@));
            assert(param_views(params@)[3] == (params@[3].0@, params@[3].1@));
        }
        params
    }
}

/// The quote defaults of the Jupiter configuration that a request falls back to.
pub struct JupiterQuoteDefaults {
    pub only_direct_routes: bool,
    pub restrict_intermediate_tokens: bool,
}

/// Completes a request with the configured defaults: direct routes when the
/// configuration asks for them and the request did not, and no restriction of
/// intermediate tokens when the configuration lifts it and the request did not
/// ask for it.
pub fn apply_quote_defaults(request: &mut QuoteRequest, defaults: &JupiterQuoteDefaults)
    ensures
        final(request).only_direct_routes == if !(old(request).only_direct_routes == Some(true)) && defaults.only_direct_routes {
            Some(true)
        } else {
            old(request).only_direct_routes
        },
        final(request).restrict_intermediate_tokens == if !(old(request).restrict_intermediate_tokens == Some(false)) && !defaults.restrict_intermediate_tokens {
            Some(false)
        } else {
            old(request).restrict_intermediate_tokens
        },
        final(request).input_mint == old(request).input_mint,
        final(request).output_mint == old(request).output_mint,
        final(request).amount == old(request).amount,
        final(request).swap_mode == old(request).swap_mode,
        final(request).slippage_bps == old(request).slippage_bps,
        final(request).dexes == old(request).dexes,
        final(request).exclude_dexes == old(request).exclude_dexes,
        final(request).as_legacy_transaction == old(request).as_legacy_transaction,
        final(request).platform_fee_bps == old(request).platform_fee_bps,
        final(request).max_accounts == old(request).max_accounts,
{
    let direct = match request.only_direct_routes {
        Some(v) => v,
        None => false,
    };
    if !direct && defaults.only_direct_routes {
        request.only_direct_routes = Some(true);
    }
    let restrict = match request.restrict_intermediate_tokens {
        Some(v) => v,
        None => true,
    };
    if restrict && !defaults.restrict_intermediate_tokens {
        request.restrict_intermediate_tokens = Some(false);
    }
}

/// Why an extra query parameter was refused.
#[derive(PartialEq, Eq, Structural, Clone, Copy, Debug)]
pub enum KeyValError {
    /// There is no `=`.
    MissingEquals,
}

/// Splits `key=value` at the first `=`.
pub fn parse_key_val(s: &str) -> (r: Result<(String, String), KeyValError>)
    ensures
        match crate::text::first_index_of(s@, '=') {
            Some(i) => r matches Ok((k, v)) && k@ == s@.subrange(0, i) && v@ == s@.subrange(i + 1, s@.len() as int),
            None => r == Err::<(String, String), KeyValError>(KeyValError::MissingEquals),
        },
{
    proof { crate::text::lemma_first_index_of(s@, '='); }
    let n = s.unicode_len();
    let mut i: usize = 0;
    while i < n && s.get_char(i) != '='
        invariant
            n == s@.len(),
            i <= n,
            forall|k: int| 0 <= k < i ==> s@[k] != '=',
        decreases n - i,
    {
        i = i + 1;
    }
    if i == n {
        return Err(KeyValError::MissingEquals);
    }
    let key = String::from_str(s.substring_char(0, i));
    let value = String::from_str(s.substring_char(i + 1, n));
    Ok((key, value))
}

} // verus!
