use galileo::api::titan::{
    build_authenticated_endpoint, build_referer, build_subscription_request, prepare_subscription, EndpointError,
    SubscriptionError, SwapMode as TitanSwapMode, TitanLeg, TitanSubscriptionConfig,
};
use galileo::api::titan_jwt::{
    accept_jwt_response, compute_expiry, expiry_at_time, ttl_from_expires_in, ttl_from_remaining, JwtApiResponse,
    JwtResponseProblem,
};
use galileo::cache::{batch_keys, split_cached, Cache, CacheBackend, FetchOutcome, InMemoryBackend, LoadStep, ALT_BATCH_LIMIT};
use galileo::cli::{
    command_needs_jupiter, configured_thread_count, handle_wallet_command, parallelism_override, resolve_config_path,
    Command, ConfigPathError, InitCmd, LanderSendArgs, WalletAddArgs, WalletCmd, WalletTask,
};
use galileo::config::{EngineLegBackend, EngineTogglePair, EngineToggleSet, LegRole, QuoteParallelism, TitanEngineConfig};
use galileo::context::ProxySelection;
use galileo::legs::{aggregator_endpoints, leg_endpoints, sanitize_list, titan_leg_setup, ultra_taker_override, EngineEndpoints, LegConfigError};
use galileo::strategy::TradePair;
use solana_sdk::pubkey::Pubkey;
use std::str::FromStr;
use std::sync::Arc;

const SOL: &str = "So11111111111111111111111111111111111111112";
const USDC: &str = "EPjFWdd5AufqSSqeM2qN1xzybapC8G4wEGGkZwyTDt1v";

fn key(text: &str) -> Vec<u8> {
    Pubkey::from_str(text).unwrap().to_bytes().to_vec()
}

fn pair() -> TradePair {
    TradePair {
        input_mint: SOL.to_string(),
        output_mint: USDC.to_string(),
        input_key: key(SOL),
        output_key: key(USDC),
    }
}

fn subscription() -> TitanSubscriptionConfig {
    TitanSubscriptionConfig {
        ws_url: "wss://api.titan.exchange/api/v1/ws?old=1".to_string(),
        ws_proxy: None,
        jwt: String::new(),
        user_pubkey: key(USDC),
        providers: vec![],
        dexes: vec!["Raydium".to_string()],
        exclude_dexes: vec![],
        only_direct_routes: None,
        update_interval_ms: None,
        update_num_quotes: Some(3),
        close_input_token_account: false,
        create_output_token_account: Some(true),
        idle_resubscribe_timeout_ms: None,
    }
}

#[test]
fn forward_leg_quotes_input_to_output_exact_in() {
    let r = build_subscription_request(&subscription(), &pair(), TitanLeg::Forward, 1_000);
    assert_eq!(r.swap.input_mint, key(SOL));
    assert_eq!(r.swap.output_mint, key(USDC));
    assert_eq!(r.swap.amount, 1_000);
    assert_eq!(r.swap.swap_mode, Some(TitanSwapMode::ExactIn));
    assert_eq!(r.swap.slippage_bps, Some(0));
    assert_eq!(r.swap.dexes, Some(vec!["Raydium".to_string()]));
    assert_eq!(r.swap.exclude_dexes, None);
    assert_eq!(r.swap.providers, None);
    assert_eq!(r.swap.only_direct_routes, Some(false));
    assert_eq!(r.transaction.user_public_key, key(USDC));
    assert_eq!(r.transaction.close_input_token_account, Some(false));
    assert_eq!(r.transaction.create_output_token_account, Some(true));
    let update = r.update.expect("num_quotes is set");
    assert_eq!(update.interval_ms, None);
    assert_eq!(update.num_quotes, Some(3));
}

#[test]
fn reverse_leg_swaps_mints_and_is_exact_out() {
    let mut cfg = subscription();
    cfg.update_num_quotes = None;
    cfg.only_direct_routes = Some(true);
    let r = build_subscription_request(&cfg, &pair(), TitanLeg::Reverse, 7);
    assert_eq!(r.swap.input_mint, key(USDC));
    assert_eq!(r.swap.output_mint, key(SOL));
    assert_eq!(r.swap.swap_mode, Some(TitanSwapMode::ExactOut));
    assert_eq!(r.swap.only_direct_routes, Some(true));
    assert!(r.update.is_none());
}

#[test]
fn referer_names_the_pair() {
    assert_eq!(build_referer(&pair()), format!("https://titan.exchange/swap?{SOL}-{USDC}"));
}

#[test]
fn endpoint_replaces_query_with_token() {
    let cfg = subscription();
    assert_eq!(
        build_authenticated_endpoint(&cfg, "abc.def"),
        Ok("wss://api.titan.exchange/api/v1/ws?auth=abc.def".to_string())
    );
    assert_eq!(build_authenticated_endpoint(&cfg, "   "), Err(EndpointError::MissingAuthToken));
    let mut bad = subscription();
    bad.ws_url = "not a url".to_string();
    assert_eq!(build_authenticated_endpoint(&bad, "t"), Err(EndpointError::InvalidUrl));
}

#[test]
fn token_kept_thirty_seconds_less_but_at_least_a_minute() {
    assert_eq!(ttl_from_expires_in(3_600), 3_570);
    assert_eq!(ttl_from_expires_in(80), 60);
    assert_eq!(ttl_from_expires_in(0), 60);
    assert_eq!(ttl_from_remaining(0), None);
    assert_eq!(ttl_from_remaining(-5), None);
    assert_eq!(ttl_from_remaining(1), Some(30));
    assert_eq!(ttl_from_remaining(600_500_000_000), Some(570));
}

fn response(token: &str, expires_at: Option<&str>, expires_in: Option<u64>) -> JwtApiResponse {
    JwtApiResponse { token: token.to_string(), expires_at: expires_at.map(|s| s.to_string()), expires_in }
}

#[test]
fn expiry_from_expires_at_counts_from_now() {
    let now: i128 = 1_700_000_000 * 1_000_000_000;
    let at = "2023-11-14T22:23:20Z";
    assert_eq!(expiry_at_time(&response("t", Some(at), None), now), Ok(570));
    assert_eq!(expiry_at_time(&response("t", Some("2020-01-01T00:00:00Z"), None), now), Err(JwtResponseProblem::Expired));
    assert_eq!(expiry_at_time(&response("t", Some("tomorrow"), None), now), Err(JwtResponseProblem::MalformedExpiresAt));
    assert_eq!(expiry_at_time(&response("t", None, None), now), Err(JwtResponseProblem::MissingExpiry));
    assert_eq!(expiry_at_time(&response("t", Some("tomorrow"), Some(120)), now), Ok(90));
    assert_eq!(compute_expiry(&response("t", None, Some(3_600))), Ok(3_570));
}

#[test]
fn blank_token_refused() {
    let now: i128 = 0;
    assert_eq!(accept_jwt_response(&response("  ", None, Some(100)), now), Err(JwtResponseProblem::MissingToken));
    assert_eq!(accept_jwt_response(&response("tok", None, Some(100)), now), Ok(("tok".to_string(), 70)));
}

#[test]
fn cache_reads_back_what_was_written_until_it_lapses() {
    let mut backend: InMemoryBackend<u32> = InMemoryBackend::new();
    let k = vec![1u8, 2, 3];
    backend.insert(k.clone(), Arc::new(7), Some(100), 1_000);
    assert_eq!(backend.get(&k, 1_050).map(|a| *a), Some(7));
    assert_eq!(backend.get(&k, 1_100).map(|a| *a), None);
    assert_eq!(backend.get(&k, 1_050).map(|a| *a), None);
    backend.insert(k.clone(), Arc::new(8), None, 5);
    backend.insert(vec![9u8], Arc::new(9), None, 5);
    assert_eq!(backend.get(&k, u64::MAX).map(|a| *a), Some(8));
    backend.remove(&k);
    assert_eq!(backend.get(&k, 6).map(|a| *a), None);
    assert_eq!(backend.get(&vec![9u8], 6).map(|a| *a), Some(9));
}

#[test]
fn load_fetches_once_then_hits() {
    let mut cache: Cache<String> = Cache::new();
    let k = vec![4u8; 32];
    assert!(matches!(cache.begin_load(&k, 0), LoadStep::Fetch));
    let v = cache.finish_load(k.clone(), FetchOutcome::new("table".to_string(), Some(10)), 0);
    assert_eq!(*v, "table");
    match cache.begin_load(&k, 9) {
        LoadStep::Hit(a) => assert_eq!(*a, "table"),
        LoadStep::Fetch => panic!("expected a hit"),
    }
    assert!(matches!(cache.begin_load(&k, 10), LoadStep::Fetch));
}

#[test]
fn split_cached_keeps_order() {
    let mut cache: Cache<u8> = Cache::new();
    cache.finish_load(vec![2u8], FetchOutcome::new(20, None), 0);
    let keys = vec![vec![1u8], vec![2u8], vec![3u8]];
    let (hits, missing) = split_cached(&mut cache, &keys, 0);
    assert_eq!(hits.iter().map(|a| **a).collect::<Vec<u8>>(), vec![20]);
    assert_eq!(missing, vec![vec![1u8], vec![3u8]]);
}

#[test]
fn batches_of_one_hundred() {
    let keys: Vec<Vec<u8>> = (0..250u32).map(|i| i.to_le_bytes().to_vec()).collect();
    let batches = batch_keys(&keys);
    assert_eq!(batches.iter().map(|b| b.len()).collect::<Vec<usize>>(), vec![ALT_BATCH_LIMIT, ALT_BATCH_LIMIT, 50]);
    assert_eq!(batches.concat(), keys);
    assert!(batch_keys(&Vec::new()).is_empty());
}

#[test]
fn cli_choices() {
    assert!(command_needs_jupiter(&Command::Run, true));
    assert!(!command_needs_jupiter(&Command::StrategyDryRun, false));
    assert!(!command_needs_jupiter(&Command::Init(InitCmd { output: None, force: false }), true));
    assert_eq!(configured_thread_count(Some(" 8 ")), Some(8));
    assert_eq!(configured_thread_count(Some("0")), None);
    assert_eq!(configured_thread_count(Some("   ")), None);
    assert_eq!(configured_thread_count(Some("eight")), None);
    assert_eq!(configured_thread_count(None), None);
    assert_eq!(parallelism_override(QuoteParallelism::Fixed(0)), Some(1));
    assert_eq!(parallelism_override(QuoteParallelism::Fixed(4)), Some(4));
    assert_eq!(parallelism_override(QuoteParallelism::Auto), None);
    let args = LanderSendArgs::with_defaults("ix.json".to_string());
    assert_eq!(args.deadline_ms, 5_000);
    assert_eq!(args.tip_lamports, 0);
}

#[test]
fn config_path_choice() {
    assert_eq!(resolve_config_path(Some("my.yaml".to_string()), true, &vec![false, false]).unwrap(), "my.yaml");
    assert!(matches!(
        resolve_config_path(Some("my.yaml".to_string()), false, &vec![true, true]),
        Err(ConfigPathError::MissingOverride(p)) if p == "my.yaml"
    ));
    assert_eq!(resolve_config_path(None, false, &vec![false, true]).unwrap(), "config/galileo.yaml");
    assert_eq!(resolve_config_path(None, false, &vec![true, true]).unwrap(), "galileo.yaml");
    assert!(matches!(resolve_config_path(None, false, &vec![false, false]), Err(ConfigPathError::NotFound)));
    match handle_wallet_command(&WalletCmd::Add(WalletAddArgs {}), Some("x.yaml".to_string())) {
        WalletTask::AddWallet { config_override } => assert_eq!(config_override, Some("x.yaml".to_string())),
    }
}

fn toggles() -> EngineToggleSet {
    EngineToggleSet {
        pairs: vec![EngineTogglePair { buy_leg: EngineLegBackend::Dflow, sell_leg: EngineLegBackend::Kamino }],
    }
}

#[test]
fn leg_endpoints_checks_and_defaults() {
    let global = Some(ProxySelection { url: "http://global:1".to_string(), per_request: false });
    let cfg = EngineEndpoints {
        leg: Some(LegRole::Buy),
        api_quote_base: Some(" https://quote.dflow.net ".to_string()),
        api_swap_base: None,
        api_proxy: Some("  ".to_string()),
    };
    let e = leg_endpoints(EngineLegBackend::Dflow, &cfg, &toggles(), None, global.clone()).unwrap().unwrap();
    assert_eq!(e.quote_base, "https://quote.dflow.net");
    assert_eq!(e.swap_base, "https://quote.dflow.net");
    assert_eq!(e.proxy.unwrap().url, "http://global:1");

    let sell = EngineEndpoints {
        leg: Some(LegRole::Sell),
        api_quote_base: Some("https://k".to_string()),
        api_swap_base: Some("   ".to_string()),
        api_proxy: Some(" http://mine:2 ".to_string()),
    };
    let e = leg_endpoints(EngineLegBackend::Kamino, &sell, &toggles(), None, global.clone()).unwrap().unwrap();
    assert_eq!(e.swap_base, "https://k");
    assert_eq!(e.proxy.unwrap().url, "http://mine:2");

    assert!(leg_endpoints(EngineLegBackend::Ultra, &cfg, &toggles(), None, None).unwrap().is_none());
    let no_leg = EngineEndpoints { leg: None, api_quote_base: None, api_swap_base: None, api_proxy: None };
    assert_eq!(
        leg_endpoints(EngineLegBackend::Dflow, &no_leg, &toggles(), None, None).err(),
        Some(LegConfigError::MissingLeg(EngineLegBackend::Dflow))
    );
    let blank = EngineEndpoints { leg: Some(LegRole::Buy), api_quote_base: Some(" ".to_string()), api_swap_base: None, api_proxy: None };
    assert_eq!(
        leg_endpoints(EngineLegBackend::Dflow, &blank, &toggles(), None, None).err(),
        Some(LegConfigError::EmptyQuoteBase(EngineLegBackend::Dflow))
    );
}

#[test]
fn ultra_taker_parsing() {
    assert_eq!(ultra_taker_override(&None), Ok(None));
    assert_eq!(ultra_taker_override(&Some("  ".to_string())), Ok(None));
    assert_eq!(ultra_taker_override(&Some(format!(" {SOL} "))), Ok(Some(key(SOL))));
    assert_eq!(ultra_taker_override(&Some("nope".to_string())), Err(LegConfigError::InvalidTaker));
}

#[test]
fn titan_leg_setup_checks_in_order() {
    let mut cfg = TitanEngineConfig::default();
    assert!(titan_leg_setup(&cfg, false).unwrap().is_none());
    assert_eq!(titan_leg_setup(&cfg, true).err(), Some(LegConfigError::TitanBuyOnly));
    cfg.leg = Some(LegRole::Buy);
    assert_eq!(titan_leg_setup(&cfg, true).err(), Some(LegConfigError::MissingWsUrl));
    cfg.ws_url = Some("wss://titan.example/ws".to_string());
    assert_eq!(titan_leg_setup(&cfg, true).err(), Some(LegConfigError::MissingJwt));
    cfg.jwt = Some(" tok ".to_string());
    assert_eq!(titan_leg_setup(&cfg, true).err(), Some(LegConfigError::MissingUserPublicKey));
    cfg.tx_config.user_public_key = Some("bad".to_string());
    assert_eq!(titan_leg_setup(&cfg, true).err(), Some(LegConfigError::InvalidUserPublicKey));
    cfg.tx_config.user_public_key = Some(USDC.to_string());
    cfg.providers = vec!["a".to_string()];
    cfg.swap_config.providers = vec![" ".to_string()];
    cfg.swap_config.dexes = vec![" Orca ".to_string(), "".to_string()];
    cfg.first_quote_timeout_ms = Some(0);
    let s = titan_leg_setup(&cfg, true).unwrap().unwrap();
    assert_eq!(s.subscription.jwt, "tok");
    assert_eq!(s.subscription.ws_url, "wss://titan.example/ws");
    assert_eq!(s.subscription.providers, vec!["a".to_string()]);
    assert_eq!(s.subscription.dexes, vec!["Orca".to_string()]);
    assert_eq!(s.user_pubkey, key(USDC));
    assert_eq!(s.first_quote_timeout_ms, None);
    cfg.ws_proxy = Some("::".to_string());
    assert_eq!(titan_leg_setup(&cfg, true).err(), Some(LegConfigError::InvalidWsProxy));
    assert_eq!(sanitize_list(&vec![" x ".to_string(), " ".to_string()]), vec!["x".to_string()]);
}

#[test]
fn subscription_refuses_zero_amount_before_the_token() {
    assert_eq!(prepare_subscription(&subscription(), &pair(), TitanLeg::Forward, 0, "").unwrap_err(), SubscriptionError::ZeroAmount);
    assert_eq!(prepare_subscription(&subscription(), &pair(), TitanLeg::Forward, 0, "tok").unwrap_err(), SubscriptionError::ZeroAmount);
    assert_eq!(
        prepare_subscription(&subscription(), &pair(), TitanLeg::Forward, 5, "  ").unwrap_err(),
        SubscriptionError::Endpoint(EndpointError::MissingAuthToken)
    );
    let (endpoint, request) = prepare_subscription(&subscription(), &pair(), TitanLeg::Reverse, 5, "tok").unwrap();
    assert_eq!(endpoint, "wss://api.titan.exchange/api/v1/ws?auth=tok");
    assert_eq!(request.swap.amount, 5);
    assert_eq!(request.swap.input_mint, key(USDC));
}

#[test]
fn run_backend_needs_a_quote_base() {
    let cfg = |q: Option<&str>, sb: Option<&str>, p: Option<&str>| EngineEndpoints {
        leg: None,
        api_quote_base: q.map(|v| v.to_string()),
        api_swap_base: sb.map(|v| v.to_string()),
        api_proxy: p.map(|v| v.to_string()),
    };
    assert_eq!(
        aggregator_endpoints(EngineLegBackend::Kamino, &cfg(None, None, None)).err(),
        Some(LegConfigError::MissingQuoteBase(EngineLegBackend::Kamino))
    );
    assert_eq!(
        aggregator_endpoints(EngineLegBackend::Ultra, &cfg(Some("  "), None, None)).err(),
        Some(LegConfigError::EmptyQuoteBase(EngineLegBackend::Ultra))
    );
    let k = aggregator_endpoints(EngineLegBackend::Kamino, &cfg(Some(" https://k.io "), None, Some(" http://p:1 "))).unwrap();
    assert_eq!(k.quote_base, "https://k.io");
    assert_eq!(k.swap_base, "https://k.io");
    assert_eq!(k.proxy_override, Some("http://p:1".to_string()));
    let d = aggregator_endpoints(EngineLegBackend::Dflow, &cfg(Some(" https://q "), Some("https://s"), Some(" "))).unwrap();
    assert_eq!(d.quote_base, " https://q ");
    assert_eq!(d.swap_base, "https://s");
    assert_eq!(d.proxy_override, None);
    let u = aggregator_endpoints(EngineLegBackend::Ultra, &cfg(Some("https://u"), Some("https://x"), None)).unwrap();
    assert_eq!(u.swap_base, "https://u");
}
