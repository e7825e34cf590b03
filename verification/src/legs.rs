//! The checks made on the configuration of each quote engine before its leg
//! is registered with the multi-leg orchestrator, and what the leg is built from.
use vstd::prelude::*;
use vstd::string::*;
use crate::text::{trim, trim_spec, string_views};
use crate::config::{LegRole, EngineLegBackend, EngineToggleSet, TitanEngineConfig};
use crate::context::{ProxySelection, override_proxy_selection};
use crate::keys::{parse_pubkey, pubkey_from_text};
use crate::api::titan::TitanSubscriptionConfig;

verus! {

/// Why a leg could not be registered.
#[derive(PartialEq, Eq, Structural, Clone, Copy, Debug)]
pub enum LegConfigError {
    /// The engine has no `leg`.
    MissingLeg(EngineLegBackend),
    /// The engine has no `api_quote_base`.
    MissingQuoteBase(EngineLegBackend),
    /// The engine's `api_quote_base` is blank.
    EmptyQuoteBase(EngineLegBackend),
    /// `ultra.quote_config.taker` is not a public key.
    InvalidTaker,
    /// Titan is configured for another leg than the buy leg.
    TitanBuyOnly,
    /// `titan.ws_url` is missing.
    MissingWsUrl,
    /// `titan.ws_url` is blank.
    EmptyWsUrl,
    /// `titan.ws_url` is not a URL.
    InvalidWsUrl,
    /// `titan.ws_proxy` is not a URL.
    InvalidWsProxy,
    /// `titan.jwt` is missing.
    MissingJwt,
    /// `titan.jwt` is blank.
    EmptyJwt,
    /// `titan.tx_config.user_public_key` is missing.
    MissingUserPublicKey,
    /// `titan.tx_config.user_public_key` is blank.
    EmptyUserPublicKey,
    /// `titan.tx_config.user_public_key` is not a public key.
    InvalidUserPublicKey,
}

/// The endpoint settings that the Ultra, DFlow and Kamino engines share.
pub struct EngineEndpoints {
    pub leg: Option<LegRole>,
    pub api_quote_base: Option<String>,
    pub api_swap_base: Option<String>,
    pub api_proxy: Option<String>,
}

/// What an HTTP leg is built from: its side, where quotes and swaps are
/// asked for, and the proxy its requests go through.
pub struct LegEndpoints {
    pub side: LegRole,
    pub quote_base: String,
    pub swap_base: String,
    pub proxy: Option<ProxySelection>,
}

/// The leg may be registered on its side.
pub open spec fn leg_allowed(toggles: EngineToggleSet, backend: EngineLegBackend, side: LegRole) -> bool {
    match side {
        LegRole::Buy => exists|i: int| 0 <= i < toggles.pairs@.len() && (#[trigger] toggles.pairs@[i]).buy_leg == backend,
        LegRole::Sell => exists|i: int| 0 <= i < toggles.pairs@.len() && (#[trigger] toggles.pairs@[i]).sell_leg == backend,
    }
}

/// Where swaps are asked for: DFlow takes `api_swap_base` as it is, trimmed,
/// when there is one; Kamino only when it is not blank; Ultra asks the quote base.
pub open spec fn swap_base_spec(backend: EngineLegBackend, swap: Option<Seq<char>>, quote: Seq<char>) -> Seq<char> {
    match backend {
        EngineLegBackend::Dflow => match swap {
            Some(s) => trim_spec(s),
            None => trim_spec(quote),
        },
        EngineLegBackend::Kamino => match swap {
            Some(s) => if trim_spec(s).len() > 0 { trim_spec(s) } else { trim_spec(quote) },
            None => trim_spec(quote),
        },
        _ => trim_spec(quote),
    }
}

/// The text of an optional string.
pub open spec fn opt_view(o: Option<String>) -> Option<Seq<char>> {
    match o {
        Some(s) => Some(s@),
        None => None,
    }
}

/// The proxy a leg's requests go through: the engine's own proxy when it is
/// not blank, else the `quote` proxy profile, else the global proxy.
pub open spec fn leg_proxy_spec(api_proxy: Option<Seq<char>>, module_proxy: Option<ProxySelection>, global_proxy: Option<ProxySelection>) -> Option<(Seq<char>, bool)> {
    match api_proxy {
        Some(p) => if trim_spec(p).len() > 0 {
            Some((trim_spec(p), false))
        } else {
            proxy_view(match module_proxy { Some(m) => Some(m), None => global_proxy })
        },
        None => proxy_view(match module_proxy { Some(m) => Some(m), None => global_proxy }),
    }
}

/// A proxy as its URL text and whether it is used per request.
pub open spec fn proxy_view(p: Option<ProxySelection>) -> Option<(Seq<char>, bool)> {
    match p {
        Some(s) => Some((s.url@, s.per_request)),
        None => None,
    }
}

/// The endpoints of an HTTP leg: the leg must be set; a leg that the engine
/// toggles do not enable is not registered; the quote base must be set and
/// not blank.
pub fn leg_endpoints(
    backend: EngineLegBackend,
    cfg: &EngineEndpoints,
    toggles: &EngineToggleSet,
    module_proxy: Option<ProxySelection>,
    global_proxy: Option<ProxySelection>,
) -> (r: Result<Option<LegEndpoints>, LegConfigError>)
    ensures
        match cfg.leg {
            None => r == Err::<Option<LegEndpoints>, LegConfigError>(LegConfigError::MissingLeg(backend)),
            Some(side) => if !leg_allowed(*toggles, backend, side) {
                r matches Ok(None)
            } else {
                match cfg.api_quote_base {
                    None => r == Err::<Option<LegEndpoints>, LegConfigError>(LegConfigError::MissingQuoteBase(backend)),
                    Some(q) => if trim_spec(q@).len() == 0 {
                        r == Err::<Option<LegEndpoints>, LegConfigError>(LegConfigError::EmptyQuoteBase(backend))
                    } else {
                        r matches Ok(Some(e)) && e.side == side && e.quote_base@ == trim_spec(q@)
                            && e.swap_base@ == swap_base_spec(backend, opt_view(cfg.api_swap_base), q@)
                            && proxy_view(e.proxy) == leg_proxy_spec(opt_view(cfg.api_proxy), module_proxy, global_proxy)
                    },
                }
            },
        },
{
    let side = match cfg.leg {
        Some(s) => s,
        None => return Err(LegConfigError::MissingLeg(backend)),
    };
    let allowed = match side {
        LegRole::Buy => toggles.buy_leg_enabled(backend),
        LegRole::Sell => toggles.sell_leg_enabled(backend),
    };
    if !allowed {
        return Ok(None);
    }
    let q = match &cfg.api_quote_base {
        Some(q) => q,
        None => return Err(LegConfigError::MissingQuoteBase(backend)),
    };
    let quote_base = trim(q.as_str());
    if quote_base.unicode_len() == 0 {
        return Err(LegConfigError::EmptyQuoteBase(backend));
    }
    let swap_base = match backend {
        EngineLegBackend::Dflow => match &cfg.api_swap_base {
            Some(s) => trim(s.as_str()),
            None => trim(q.as_str()),
        },
        EngineLegBackend::Kamino => match &cfg.api_swap_base {
            Some(s) => {
                let t = trim(s.as_str());
                if t.unicode_len() > 0 { t } else { trim(q.as_str()) }
            },
            None => trim(q.as_str()),
        },
        _ => trim(q.as_str()),
    };
    let override_url: Option<String> = match &cfg.api_proxy {
        Some(p) => {
            let t = trim(p.as_str());
            if t.unicode_len() > 0 { Some(t) } else { None }
        },
        None => None,
    };
    let proxy = match &override_url {
        Some(u) => override_proxy_selection(Some(u.as_str()), module_proxy, global_proxy),
        None => override_proxy_selection(None, module_proxy, global_proxy),
    };
    proof {
        if let Some(p) = &cfg.api_proxy {
            crate::text::lemma_trim_idempotent(p@);
        }
    }
    Ok(Some(LegEndpoints { side, quote_base, swap_base, proxy }))
}

/// The taker that Ultra orders name instead of the wallet: none when the
/// setting is missing or blank, else the public key it names.
pub fn ultra_taker_override(taker: &Option<String>) -> (r: Result<Option<Vec<u8>>, LegConfigError>)
    ensures
        match taker {
            None => r matches Ok(None),
            Some(t) => if trim_spec(t@).len() == 0 {
                r matches Ok(None)
            } else {
                match pubkey_from_text(trim_spec(t@)) {
                    Some(k) => r matches Ok(Some(v)) && v@ == k,
                    None => r == Err::<Option<Vec<u8>>, LegConfigError>(LegConfigError::InvalidTaker),
                }
            },
        },
{
    match taker {
        None => Ok(None),
        Some(t) => {
            let s = trim(t.as_str());
            if s.unicode_len() == 0 {
                return Ok(None);
            }
            match parse_pubkey(s.as_str()) {
                Some(k) => Ok(Some(k)),
                None => Err(LegConfigError::InvalidTaker),
            }
        },
    }
}

/// A URL text as `url::Url` writes it back, if it parses.
pub uninterp spec fn url_normalized(text: Seq<char>) -> Option<Seq<char>>;

/// Parses a URL with `url::Url::parse` and writes it back. Trusted: the result
/// is named by `url_normalized`.
#[verifier::external_body]
fn normalize_url(text: &str) -> (r: Option<String>)
    ensures
        match r {
            Some(s) => url_normalized(text@) == Some(s@),
            None => url_normalized(text@) is None,
        },
{
    url::Url::parse(text).ok().map(|u| u.to_string())
}

/// The entries of a list that are not blank, trimmed.
pub open spec fn sanitized(v: Seq<Seq<char>>) -> Seq<Seq<char>>
    decreases v.len(),
{
    if v.len() == 0 {
        Seq::<Seq<char>>::empty()
    } else {
        let rest = sanitized(v.drop_last());
        if trim_spec(v.last()).len() > 0 {
            rest.push(trim_spec(v.last()))
        } else {
            rest
        }
    }
}

/// Trims the entries of a list and drops the blank ones.
pub fn sanitize_list(values: &Vec<String>) -> (r: Vec<String>)
    ensures
        string_views(r@) == sanitized(string_views(values@)),
{
    let mut out: Vec<String> = Vec::new();
    for i in 0..values.len()
        invariant
            string_views(out@) == sanitized(string_views(values@.subrange(0, i as int))),
    {
        let ghost pre = string_views(values@.subrange(0, i + 1));
        proof {
            assert(values@.subrange(0, i + 1) =~= values@.subrange(0, i as int).push(values@[i as int]));
            assert(pre =~= string_views(values@.subrange(0, i as int)).push(values@[i as int]@));
            assert(pre.drop_last() =~= string_views(values@.subrange(0, i as int)));
        }
        let t = trim(values[i].as_str());
        if t.unicode_len() > 0 {
            let ghost before = out@;
            out.push(t);
            assert(string_views(out@) =~= string_views(before).push(t@));
        }
    }
    assert(values@.subrange(0, values@.len() as int) =~= values@);
    out
}

/// What the Titan leg is built from.
pub struct TitanLegSetup {
    pub subscription: TitanSubscriptionConfig,
    pub first_quote_timeout_ms: Option<u64>,
    pub user_pubkey: Vec<u8>,
    pub use_wsol: bool,
}

/// The optional text of an optional string, trimmed, when not blank.
pub open spec fn nonblank_trimmed(o: Option<Seq<char>>) -> Option<Seq<char>> {
    match o {
        Some(s) => if trim_spec(s).len() > 0 { Some(trim_spec(s)) } else { None },
        None => None,
    }
}

/// The checks on the Titan engine, in order, when its buy leg is enabled:
/// Titan serves the buy leg only; the stream URL, the token and the user's
/// public key must be set, not blank and valid, and a proxy that is set must
/// be a URL.
pub open spec fn titan_check(cfg: TitanEngineConfig) -> Option<LegConfigError> {
    if cfg.leg != Some(LegRole::Buy) {
        Some(LegConfigError::TitanBuyOnly)
    } else {
        match cfg.ws_url {
            None => Some(LegConfigError::MissingWsUrl),
            Some(u) => if trim_spec(u@).len() == 0 {
                Some(LegConfigError::EmptyWsUrl)
            } else if url_normalized(trim_spec(u@)) is None {
                Some(LegConfigError::InvalidWsUrl)
            } else if nonblank_trimmed(opt_view(cfg.ws_proxy)) matches Some(p) && url_normalized(p) is None {
                Some(LegConfigError::InvalidWsProxy)
            } else {
                match cfg.jwt {
                    None => Some(LegConfigError::MissingJwt),
                    Some(j) => if trim_spec(j@).len() == 0 {
                        Some(LegConfigError::EmptyJwt)
                    } else {
                        match cfg.tx_config.user_public_key {
                            None => Some(LegConfigError::MissingUserPublicKey),
                            Some(k) => if trim_spec(k@).len() == 0 {
                                Some(LegConfigError::EmptyUserPublicKey)
                            } else if pubkey_from_text(trim_spec(k@)) is None {
                                Some(LegConfigError::InvalidUserPublicKey)
                            } else {
                                None
                            },
                        }
                    },
                }
            },
        }
    }
}

/// Builds what the Titan leg needs: nothing when its buy leg is not enabled,
/// the first failed check of `titan_check`, or the subscription: the
/// normalized URLs, the trimmed token, the user's key, the swap providers
/// (those of `swap_config` when any is left after dropping blanks, else the
/// engine's), the DEX lists without blanks, and a first-quote timeout only
/// when positive.
pub fn titan_leg_setup(cfg: &TitanEngineConfig, buy_leg_enabled: bool) -> (r: Result<Option<TitanLegSetup>, LegConfigError>)
    ensures
        !buy_leg_enabled ==> r matches Ok(None),
        buy_leg_enabled ==> match titan_check(*cfg) {
            Some(e) => r == Err::<Option<TitanLegSetup>, LegConfigError>(e),
            None => r matches Ok(Some(s)) && {
                let sub = s.subscription;
                &&& Some(sub.ws_url@) == url_normalized(trim_spec(cfg.ws_url->0@))
                &&& match nonblank_trimmed(opt_view(cfg.ws_proxy)) {
                        Some(p) => sub.ws_proxy matches Some(w) && Some(w@) == url_normalized(p),
                        None => sub.ws_proxy is None,
                    }
                &&& sub.jwt@ == trim_spec(cfg.jwt->0@)
                &&& Some(sub.user_pubkey@) == pubkey_from_text(trim_spec(cfg.tx_config.user_public_key->0@))
                &&& s.user_pubkey@ == sub.user_pubkey@
                &&& string_views(sub.providers@) == if sanitized(string_views(cfg.swap_config.providers@)).len() > 0 {
                        sanitized(string_views(cfg.swap_config.providers@))
                    } else {
                        sanitized(string_views(cfg.providers@))
                    }
                &&& string_views(sub.dexes@) == sanitized(string_views(cfg.swap_config.dexes@))
                &&& string_views(sub.exclude_dexes@) == sanitized(string_views(cfg.swap_config.exclude_dexes@))
                &&& sub.only_direct_routes == cfg.swap_config.only_direct_routes
                &&& sub.update_interval_ms == cfg.interval_ms
                &&& sub.update_num_quotes == cfg.num_quotes
                &&& !sub.close_input_token_account
                &&& sub.create_output_token_account == cfg.tx_config.create_output_token_account
                &&& sub.idle_resubscribe_timeout_ms is None
                &&& s.first_quote_timeout_ms == match cfg.first_quote_timeout_ms {
                        Some(ms) => if ms > 0 { Some(ms) } else { None::<u64> },
                        None => None::<u64>,
                    }
                &&& s.use_wsol == cfg.tx_config.use_wsol
            },
        },
{
    if !buy_leg_enabled {
        return Ok(None);
    }
    if cfg.leg != Some(LegRole::Buy) {
        return Err(LegConfigError::TitanBuyOnly);
    }
    let ws_raw = match &cfg.ws_url {
        Some(u) => trim(u.as_str()),
        None => return Err(LegConfigError::MissingWsUrl),
    };
    if ws_raw.unicode_len() == 0 {
        return Err(LegConfigError::EmptyWsUrl);
    }
    let ws_url = match normalize_url(ws_raw.as_str()) {
        Some(u) => u,
        None => return Err(LegConfigError::InvalidWsUrl),
    };
    let ws_proxy = match &cfg.ws_proxy {
        Some(p) => {
            let t = trim(p.as_str());
            if t.unicode_len() > 0 {
                match normalize_url(t.as_str()) {
                    Some(u) => Some(u),
                    None => return Err(LegConfigError::InvalidWsProxy),
                }
            } else {
                None
            }
        },
        None => None,
    };
    let jwt = match &cfg.jwt {
        Some(j) => trim(j.as_str()),
        None => return Err(LegConfigError::MissingJwt),
    };
    if jwt.unicode_len() == 0 {
        return Err(LegConfigError::EmptyJwt);
    }
    let key_text = match &cfg.tx_config.user_public_key {
        Some(k) => trim(k.as_str()),
        None => return Err(LegConfigError::MissingUserPublicKey),
    };
    if key_text.unicode_len() == 0 {
        return Err(LegConfigError::EmptyUserPublicKey);
    }
    let user_pubkey = match parse_pubkey(key_text.as_str()) {
        Some(k) => k,
        None => return Err(LegConfigError::InvalidUserPublicKey),
    };
    let from_swap = sanitize_list(&cfg.swap_config.providers);
    let providers = if from_swap.len() > 0 { from_swap } else { sanitize_list(&cfg.providers) };
    let dexes = sanitize_list(&cfg.swap_config.dexes);
    let exclude_dexes = sanitize_list(&cfg.swap_config.exclude_dexes);
    let first_quote_timeout_ms = match cfg.first_quote_timeout_ms {
        Some(ms) => if ms > 0 { Some(ms) } else { None },
        None => None,
    };
    let subscription = TitanSubscriptionConfig {
        ws_url,
        ws_proxy,
        jwt,
        user_pubkey: user_pubkey.clone(),
        providers,
        dexes,
        exclude_dexes,
        only_direct_routes: cfg.swap_config.only_direct_routes,
        update_interval_ms: cfg.interval_ms,
        update_num_quotes: cfg.num_quotes,
        close_input_token_account: false,
        create_output_token_account: cfg.tx_config.create_output_token_account,
        idle_resubscribe_timeout_ms: None,
    };
    Ok(Some(TitanLegSetup { subscription, first_quote_timeout_ms, user_pubkey, use_wsol: cfg.tx_config.use_wsol }))
}


/// Where the single quote backend of a run sends its requests.
pub struct AggregatorEndpoints {
    pub quote_base: String,
    pub swap_base: String,
    /// The engine's own proxy, trimmed, when it is not blank.
    pub proxy_override: Option<String>,
}

/// The trimmed text, unless blank.
pub open spec fn nonblank_spec(v: Option<Seq<char>>) -> Option<Seq<char>> {
    match v {
        Some(t) => if trim_spec(t).len() > 0 { Some(trim_spec(t)) } else { None },
        None => None,
    }
}

/// The quote base a run uses: it must be configured; DFlow takes it as it
/// is, the others trimmed and not blank.
pub open spec fn aggregator_quote_base(backend: EngineLegBackend, q: Option<Seq<char>>) -> Result<Seq<char>, LegConfigError> {
    match q {
        None => Err(LegConfigError::MissingQuoteBase(backend)),
        Some(t) => if backend == EngineLegBackend::Dflow {
            Ok(t)
        } else if trim_spec(t).len() == 0 {
            Err(LegConfigError::EmptyQuoteBase(backend))
        } else {
            Ok(trim_spec(t))
        },
    }
}

/// The endpoints of the quote backend a run starts with (DFlow, Kamino or
/// Ultra): the quote base as `aggregator_quote_base` says, the swap base as
/// configured or else the quote base (Ultra has one base for both), and the
/// engine's own proxy when not blank.
pub fn aggregator_endpoints(backend: EngineLegBackend, cfg: &EngineEndpoints) -> (r: Result<AggregatorEndpoints, LegConfigError>)
    requires
        backend != EngineLegBackend::Titan,
    ensures
        match aggregator_quote_base(backend, opt_view(cfg.api_quote_base)) {
            Err(e) => r == Err::<AggregatorEndpoints, LegConfigError>(e),
            Ok(q) => r matches Ok(a) && a.quote_base@ == q
                && a.swap_base@ == (if backend == EngineLegBackend::Ultra { q } else {
                    match cfg.api_swap_base { Some(sb) => sb@, None => q } })
                && opt_view(a.proxy_override) == nonblank_spec(opt_view(cfg.api_proxy)),
        },
{
    let quote_base = match &cfg.api_quote_base {
        None => return Err(LegConfigError::MissingQuoteBase(backend)),
        Some(q) => if backend == EngineLegBackend::Dflow {
            q.clone()
        } else {
            let t = trim(q.as_str());
            if t.unicode_len() == 0 {
                return Err(LegConfigError::EmptyQuoteBase(backend));
            }
            t
        },
    };
    let swap_base = if backend == EngineLegBackend::Ultra {
        quote_base.clone()
    } else {
        match &cfg.api_swap_base {
            Some(sb) => sb.clone(),
            None => quote_base.clone(),
        }
    };
    let proxy_override = match &cfg.api_proxy {
        Some(p) => {
            let t = trim(p.as_str());
            if t.unicode_len() > 0 { Some(t) } else { None }
        },
        None => None,
    };
    Ok(AggregatorEndpoints { quote_base, swap_base, proxy_override })
}

} // verus!
