//! The DFlow `/quote` request and the option types of its swap requests.
use vstd::prelude::*;
use vstd::string::*;
use crate::text::dec_spec;
use crate::keys::{format_pubkey, pubkey_text};
use super::{param_views, push_param, bool_text, bool_string, dec_string};
use super::http::{endpoint, endpoint_spec, path_with_query, path_with_query_spec};
use super::jupiter_quote::{opt_param, opt_num, opt_bool, opt_text, push_opt_num, push_opt_bool};

verus! {

/// The slippage presets DFlow accepts.
#[derive(PartialEq, Eq, Structural, Clone, Copy, Debug)]
pub enum SlippagePreset {
    Auto,
}

/// `slippageBps`: a number of basis points or a preset.
#[derive(PartialEq, Eq, Structural, Clone, Copy, Debug)]
pub enum SlippageBps {
    Fixed(u16),
    Preset(SlippagePreset),
}

/// Which mint the platform fee is taken in.
#[derive(PartialEq, Eq, Structural, Clone, Copy, Debug)]
pub enum PlatformFeeMode {
    OutputMint,
    InputMint,
}

/// The text of a slippage setting: the number, or the preset in lower case.
pub open spec fn slippage_text(s: SlippageBps) -> Seq<char> {
    match s {
        SlippageBps::Fixed(n) => dec_spec(n as nat),
        SlippageBps::Preset(SlippagePreset::Auto) => "auto"@,
    }
}

/// The text of a fee mode, in camel case.
pub open spec fn fee_mode_text(m: PlatformFeeMode) -> Seq<char> {
    match m {
        PlatformFeeMode::OutputMint => "outputMint"@,
        PlatformFeeMode::InputMint => "inputMint"@,
    }
}

impl SlippageBps {
    /// Writes the setting as the request sends it.
    pub fn to_text(self) -> (s: String)
        ensures
            s@ == slippage_text(self),
    {
        match self {
            SlippageBps::Fixed(n) => dec_string(n as u64),
            SlippageBps::Preset(SlippagePreset::Auto) => String::from_str("auto"),
        }
    }
}

impl PlatformFeeMode {
    pub fn as_str(self) -> (r: &'static str)
        ensures
            r@ == fee_mode_text(self),
    {
        match self {
            PlatformFeeMode::OutputMint => "outputMint",
            PlatformFeeMode::InputMint => "inputMint",
        }
    }
}

/// The `/quote` request, sent as query parameters; mints are their 32 bytes.
pub struct QuoteRequest {
    pub input_mint: Vec<u8>,
    pub output_mint: Vec<u8>,
    pub amount: u64,
    pub slippage_bps: Option<SlippageBps>,
    pub dexes: Option<String>,
    pub exclude_dexes: Option<String>,
    pub platform_fee_bps: Option<u16>,
    pub platform_fee_mode: Option<PlatformFeeMode>,
    pub sponsored_swap: Option<bool>,
    pub destination_swap: Option<bool>,
    pub only_direct_routes: Option<bool>,
    pub max_route_length: Option<u8>,
}

/// The text of an optional slippage setting.
pub open spec fn opt_slippage(v: Option<SlippageBps>) -> Option<Seq<char>> {
    match v {
        Some(s) => Some(slippage_text(s)),
        None => None,
    }
}

/// The text of an optional fee mode.
pub open spec fn opt_fee_mode(v: Option<PlatformFeeMode>) -> Option<Seq<char>> {
    match v {
        Some(m) => Some(fee_mode_text(m)),
        None => None,
    }
}

/// The text of an optional small number.
pub open spec fn opt_num8(v: Option<u8>) -> Option<Seq<char>> {
    match v {
        Some(n) => Some(dec_spec(n as nat)),
        None => None,
    }
}

impl QuoteRequest {
    /// A request with nothing but the mints and the amount.
    pub fn new(input_mint: Vec<u8>, output_mint: Vec<u8>, amount: u64) -> (r: Self)
        ensures
            r.input_mint@ == input_mint@,
            r.output_mint@ == output_mint@,
            r.amount == amount,
            r.slippage_bps is None && r.dexes is None && r.exclude_dexes is None,
            r.platform_fee_bps is None && r.platform_fee_mode is None,
            r.sponsored_swap is None && r.destination_swap is None,
            r.only_direct_routes is None && r.max_route_length is None,
    {
        QuoteRequest {
            input_mint,
            output_mint,
            amount,
            slippage_bps: None,
            dexes: None,
            exclude_dexes: None,
            platform_fee_bps: None,
            platform_fee_mode: None,
            sponsored_swap: None,
            destination_swap: None,
            only_direct_routes: None,
            max_route_length: None,
        }
    }

    /// The parameters of the request in field order: the mints in Base58, the
    /// amount in decimal, then every option that is set, as it is.
    pub open spec fn query_spec(&self) -> Seq<(Seq<char>, Seq<char>)> {
        seq![
            ("inputMint"@, pubkey_text(self.input_mint@)),
            ("outputMint"@, pubkey_text(self.output_mint@)),
            ("amount"@, dec_spec(self.amount as nat)),
        ]
            + opt_param("slippageBps"@, opt_slippage(self.slippage_bps))
            + opt_param("dexes"@, opt_text(self.dexes))
            + opt_param("excludeDexes"@, opt_text(self.exclude_dexes))
            + opt_param("platformFeeBps"@, opt_num(self.platform_fee_bps))
            + opt_param("platformFeeMode"@, opt_fee_mode(self.platform_fee_mode))
            + opt_param("sponsoredSwap"@, opt_bool(self.sponsored_swap))
            + opt_param("destinationSwap"@, opt_bool(self.destination_swap))
            + opt_param("onlyDirectRoutes"@, opt_bool(self.only_direct_routes))
            + opt_param("maxRouteLength"@, opt_num8(self.max_route_length))
    }

    /// The query parameters of the request.
    #[verifier::rlimit(30)]
    pub fn to_query_params(&self) -> (r: Vec<(String, String)>)
        requires
            self.input_mint@.len() == 32,
            self.output_mint@.len() == 32,
        ensures
            param_views(r@) == self.query_spec(),
            r@.len() >= 3,
            r@[0].0@ == "inputMint"@,
            r@[0].1@ == pubkey_text(self.input_mint@),
            r@[1].0@ == "outputMint"@,
            r@[1].1@ == pubkey_text(self.output_mint@),
            r@[2].0@ == "amount"@,
            r@[2].1@ == dec_spec(self.amount as nat),
    {
        let mut params: Vec<(String, String)> = Vec::new();
        push_param(&mut params, "inputMint", format_pubkey(&self.input_mint));
        push_param(&mut params, "outputMint", format_pubkey(&self.output_mint));
        push_param(&mut params, "amount", dec_string(self.amount));
        let ghost p0 = param_views(params@);
        push_opt_slippage(&mut params, self.slippage_bps);
        push_opt_text(&mut params, "dexes", &self.dexes);
        push_opt_text(&mut params, "excludeDexes", &self.exclude_dexes);
        push_opt_num(&mut params, "platformFeeBps", self.platform_fee_bps);
        push_opt_fee_mode(&mut params, self.platform_fee_mode);
        push_opt_bool(&mut params, "sponsoredSwap", self.sponsored_swap);
        push_opt_bool(&mut params, "destinationSwap", self.destination_swap);
        push_opt_bool(&mut params, "onlyDirectRoutes", self.only_direct_routes);
        push_opt_num8(&mut params, "maxRouteLength", self.max_route_length);
        proof {
            reveal_strlit("inputMint");
            reveal_strlit("outputMint");
            reveal_strlit("amount");
            assert(p0 =~= seq![
                ("inputMint"@, pubkey_text(self.input_mint@)),
                ("outputMint"@, pubkey_text(self.output_mint@)),
                ("amount"@, dec_spec(self.amount as nat)),
            ]);
        }
        assert(param_views(params@) =~= self.query_spec());
        proof {
            assert(param_views(params@)[0] == (params@[0].0@, params@[0].1@));
            assert(param_views(params@)[1] == (params@[1].0@, params@[1].1@));
            assert(param_views(params@)[2] == (params@[2].0@, params@[2].1@));
        }
        params
    }

    /// The path and encoded query of this request on the quote service at
    /// `quote_base`, over which the `x-client` headers are computed.
    pub fn path_with_query(&self, quote_base: &str) -> (r: Option<String>)
        requires
            self.input_mint@.len() == 32,
            self.output_mint@.len() == 32,
        ensures
            match r {
                Some(s) => path_with_query_spec(endpoint_spec(quote_base@, "/quote"@), self.query_spec()) == Some(s@),
                None => path_with_query_spec(endpoint_spec(quote_base@, "/quote"@), self.query_spec()) is None,
            },
    {
        let url = endpoint(quote_base, "/quote");
        proof {
            reveal_strlit("/quote");
        }
        let pairs = self.to_query_params();
        path_with_query(url.as_str(), &pairs)
    }
}

/// Appends `slippageBps` when it is set.
fn push_opt_slippage(params: &mut Vec<(String, String)>, value: Option<SlippageBps>)
    ensures
        param_views(final(params)@) == param_views(old(params)@) + opt_param("slippageBps"@, opt_slippage(value)),
{
    if let Some(s) = value {
        push_param(params, "slippageBps", s.to_text());
    }
    assert(param_views(params@) =~= param_views(old(params)@) + opt_param("slippageBps"@, opt_slippage(value)));
}

/// Appends a text parameter, as it is, when it is set.
fn push_opt_text(params: &mut Vec<(String, String)>, key: &str, value: &Option<String>)
    ensures
        param_views(final(params)@) == param_views(old(params)@) + opt_param(key@, opt_text(*value)),
{
    if let Some(v) = value {
        push_param(params, key, v.clone());
    }
    assert(param_views(params@) =~= param_views(old(params)@) + opt_param(key@, opt_text(*value)));
}

/// Appends `platformFeeMode` when it is set.
fn push_opt_fee_mode(params: &mut Vec<(String, String)>, value: Option<PlatformFeeMode>)
    ensures
        param_views(final(params)@) == param_views(old(params)@) + opt_param("platformFeeMode"@, opt_fee_mode(value)),
{
    if let Some(m) = value {
        push_param(params, "platformFeeMode", String::from_str(m.as_str()));
    }
    assert(param_views(params@) =~= param_views(old(params)@) + opt_param("platformFeeMode"@, opt_fee_mode(value)));
}

/// Appends a small number when it is set.
fn push_opt_num8(params: &mut Vec<(String, String)>, key: &str, value: Option<u8>)
    ensures
        param_views(final(params)@) == param_views(old(params)@) + opt_param(key@, opt_num8(value)),
{
    if let Some(n) = value {
        push_param(params, key, dec_string(n as u64));
    }
    assert(param_views(params@) =~= param_views(old(params)@) + opt_param(key@, opt_num8(value)));
}

/// `computeUnitPriceMicroLamports` of a swap request.
#[derive(PartialEq, Eq, Structural, Clone, Copy, Debug)]
pub struct ComputeUnitPriceMicroLamports(pub u64);

/// Presets of `prioritizationFeeLamports`.
#[derive(PartialEq, Eq, Structural, Clone, Copy, Debug)]
pub enum PrioritizationFeePreset {
    Auto,
    Disabled,
}

/// The text of a fee preset, in lower case.
pub open spec fn fee_preset_text(p: PrioritizationFeePreset) -> Seq<char> {
    match p {
        PrioritizationFeePreset::Auto => "auto"@,
        PrioritizationFeePreset::Disabled => "disabled"@,
    }
}

impl PrioritizationFeePreset {
    pub fn as_str(self) -> (r: &'static str)
        ensures
            r@ == fee_preset_text(self),
    {
        match self {
            PrioritizationFeePreset::Auto => "auto",
            PrioritizationFeePreset::Disabled => "disabled",
        }
    }
}

/// A priority level, as the service names it, and the most it may cost.
#[derive(Clone, Debug)]
pub struct PriorityLevelWithMaxLamports {
    pub priority_level: String,
    pub max_lamports: u64,
}

/// The object form of `prioritizationFeeLamports`.
#[derive(Clone, Debug)]
pub struct PrioritizationFeeLamportsConfig {
    pub priority_level_with_max_lamports: Option<PriorityLevelWithMaxLamports>,
    pub auto_multiplier: Option<u32>,
}

impl Default for PrioritizationFeeLamportsConfig {
    fn default() -> (d: Self)
        ensures
            d.priority_level_with_max_lamports is None,
            d.auto_multiplier is None,
    {
        PrioritizationFeeLamportsConfig { priority_level_with_max_lamports: None, auto_multiplier: None }
    }
}

/// The forms `prioritizationFeeLamports` takes.
#[derive(Clone, Debug)]
pub enum PrioritizationFeeLamports {
    Fixed(u64),
    Preset(PrioritizationFeePreset),
    Config(PrioritizationFeeLamportsConfig),
}

} // verus!
