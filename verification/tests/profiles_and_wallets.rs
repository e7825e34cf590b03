use galileo::api::dflow_quote::{PlatformFeeMode, QuoteRequest as DflowQuoteRequest, SlippageBps, SlippagePreset};
use galileo::api::kamino_tables::{parse_lookup_table_accounts, parse_u64};
use galileo::json::{prune_nulls, Json};
use galileo::api::ultra_order::ExecuteStatus;
use galileo::config::{build_ip_allocator, NetworkConfig, TradeRangeStrategy};
use galileo::strategy::{
    build_blind_trade_profiles, build_pure_trade_profiles, upsert_profile, BasePlan, LanePlan, LanePlanSet, PureBase,
    StrategyError, TradeProfile,
};
use galileo::wallet::{
    add_wallet_entry_interactive, decode_wallet_entry, frame_wallet_blob, open_wallet_entry, process_wallet, unlock_attempt, UnlockStep,
    WalletConfig, WalletError, WalletKeyEntry, WalletSetupError, WalletStart,
};
use solana_sdk::pubkey::Pubkey;
use std::str::FromStr;

const SOL: &str = "So11111111111111111111111111111111111111112";
const USDC: &str = "EPjFWdd5AufqSSqeM2qN1xzybapC8G4wEGGkZwyTDt1v";

fn key(text: &str) -> Vec<u8> {
    Pubkey::from_str(text).unwrap().to_bytes().to_vec()
}

fn lane() -> LanePlan {
    LanePlan { min: 1, max: 10, strategy: TradeRangeStrategy::Linear, final_count: 2, max_count: 2, allow_scale: true }
}

fn within_shave(amount: u64, shaved: u64) -> bool {
    shaved <= amount && shaved * 1000 >= amount * 930
}

#[test]
fn blind_profiles_shave_each_base_sizes() {
    let plan = LanePlanSet {
        bases: vec![
            BasePlan { mint: SOL.to_string(), key: key(SOL), first_lane: 0, lane_count: 2 },
            BasePlan { mint: USDC.to_string(), key: key(USDC), first_lane: 2, lane_count: 1 },
        ],
        lanes: vec![lane(), lane(), lane()],
    };
    let amounts = vec![vec![1_000_000, 0, 2_000_000], vec![2_000_000], vec![0]];
    let profiles = build_blind_trade_profiles(&plan, &amounts).unwrap();
    assert_eq!(profiles.len(), 1);
    assert_eq!(profiles[0].mint, SOL);
    assert_eq!(profiles[0].amounts.len(), 2);
    assert!(within_shave(1_000_000, profiles[0].amounts[0]));
    assert!(within_shave(2_000_000, profiles[0].amounts[1]));

    let none = build_blind_trade_profiles(&plan, &vec![vec![0], vec![], vec![]]);
    assert!(matches!(none, Err(StrategyError::NoTradeSize)));

    let dup = LanePlanSet {
        bases: vec![
            BasePlan { mint: SOL.to_string(), key: key(SOL), first_lane: 0, lane_count: 1 },
            BasePlan { mint: format!(" {SOL}"), key: key(SOL), first_lane: 1, lane_count: 1 },
        ],
        lanes: vec![lane(), lane()],
    };
    assert!(matches!(
        build_blind_trade_profiles(&dup, &vec![vec![5], vec![6]]),
        Err(StrategyError::DuplicateBaseMint(m)) if m == format!(" {SOL}")
    ));
    // the same mint twice with the same sizes, which the shave leaves alone
    let same = LanePlanSet {
        bases: vec![
            BasePlan { mint: SOL.to_string(), key: key(SOL), first_lane: 0, lane_count: 1 },
            BasePlan { mint: SOL.to_string(), key: key(SOL), first_lane: 1, lane_count: 1 },
        ],
        lanes: vec![lane(), lane()],
    };
    assert!(matches!(
        build_blind_trade_profiles(&same, &vec![vec![5], vec![5]]),
        Err(StrategyError::DuplicateBaseMint(m)) if m == SOL
    ));
}

#[test]
fn pure_profiles_last_base_wins_and_blacklist_applies() {
    let bases = vec![
        PureBase { mint: SOL.to_string(), lane_amounts: vec![vec![100]] },
        PureBase { mint: format!(" {USDC} "), lane_amounts: vec![vec![500]] },
        PureBase { mint: SOL.to_string(), lane_amounts: vec![vec![0, 300_000]] },
        PureBase { mint: "   ".to_string(), lane_amounts: vec![vec![1]] },
    ];
    let profiles = build_pure_trade_profiles(&bases, &vec![format!("  {USDC}")]).unwrap();
    assert_eq!(profiles.len(), 1);
    assert_eq!(profiles[0].key, key(SOL));
    assert_eq!(profiles[0].amounts.len(), 1);
    assert!(within_shave(300_000, profiles[0].amounts[0]));

    let bad = vec![PureBase { mint: "nope".to_string(), lane_amounts: vec![vec![1]] }];
    assert!(matches!(build_pure_trade_profiles(&bad, &vec![]), Err(StrategyError::InvalidMint(m)) if m == "nope"));
    let listed = vec![PureBase { mint: "nope".to_string(), lane_amounts: vec![vec![1]] }];
    assert!(matches!(build_pure_trade_profiles(&listed, &vec!["nope".to_string()]), Err(StrategyError::NoTradeSize)));
}

#[test]
fn upsert_replaces_the_profile_under_a_key() {
    let mut v: Vec<TradeProfile> = Vec::new();
    upsert_profile(&mut v, TradeProfile { mint: "a".to_string(), key: vec![2], amounts: vec![1] });
    upsert_profile(&mut v, TradeProfile { mint: "b".to_string(), key: vec![1], amounts: vec![2] });
    upsert_profile(&mut v, TradeProfile { mint: "c".to_string(), key: vec![2], amounts: vec![3] });
    assert_eq!(v.iter().map(|p| p.mint.clone()).collect::<Vec<String>>(), vec!["b".to_string(), "c".to_string()]);
}

#[test]
fn wallet_setup_start() {
    let mut w = WalletConfig { private_key: " key ".to_string(), wallet_keys: vec![], legacy_wallet_keys: true };
    assert!(matches!(process_wallet(&w), Err(WalletSetupError::DeprecatedPrivateKey)));
    w.private_key = "  ".to_string();
    assert!(matches!(process_wallet(&w), Err(WalletSetupError::LegacyWalletKeys)));
    w.legacy_wallet_keys = false;
    assert_eq!(process_wallet(&w).unwrap(), WalletStart::AddFirstWallet);
    w.wallet_keys.push(WalletKeyEntry { remark: "main".to_string(), encrypted: "x".to_string() });
    assert_eq!(process_wallet(&w).unwrap(), WalletStart::ChooseWallet);
}

#[test]
fn added_wallet_opens_with_its_password() {
    let mut w = WalletConfig { private_key: String::new(), wallet_keys: vec![], legacy_wallet_keys: false };
    let res = add_wallet_entry_interactive(&mut w, "secret-key".to_string(), "Main".to_string(), "pw").unwrap();
    assert!(res.config_updated);
    assert_eq!(res.selected_remark, Some("Main".to_string()));
    assert_eq!(w.private_key, "secret-key");
    assert_eq!(w.wallet_keys.len(), 1);
    assert!(w.wallet_keys[0].encrypted.starts_with("R0xXQUxMRVQB"));

    let taken = add_wallet_entry_interactive(&mut w, "other".to_string(), "mAIN".to_string(), "pw");
    assert!(matches!(taken, Err(WalletSetupError::RemarkTaken(r)) if r == "mAIN"));
    assert_eq!(w.wallet_keys.len(), 1);
    assert_eq!(w.private_key, "secret-key");
}

/// `secret-key` sealed under the password `pw` by `seal_wallet_entry`.
const SEALED_SECRET_KEY: &str = "R0xXQUxMRVQBu0u2JUb+AMsKF3Sryrbnh3ttGuy2qntU0X6Gtz7NxT90FxWrxibfxK0eRXbMdClO2NAvfNIY";

/// `k` sealed under the password `right` by `seal_wallet_entry`.
const SEALED_K: &str = "R0xXQUxMRVQBF1RIEfLaM2XZXi5+ZmcUCbBtfeCSkhV401OfpwisLL9FYQ1jQpZQ8CzsPvGF";

#[test]
fn stored_wallet_text_opens_with_its_password() {
    assert_eq!(open_wallet_entry(&format!(" {SEALED_SECRET_KEY}\n"), "pw").unwrap(), "secret-key");
}

fn sealed_wallet() -> (WalletConfig, Vec<u8>) {
    let w = WalletConfig { private_key: String::new(), wallet_keys: vec![], legacy_wallet_keys: false };
    let cipher = decode_wallet_entry(&format!("  {SEALED_K}  ")).unwrap();
    (w, cipher)
}

/// A well-formed envelope that no password opens: the key is derived, then
/// authentication fails.
fn foreign_envelope() -> (WalletConfig, Vec<u8>) {
    let w = WalletConfig { private_key: String::new(), wallet_keys: vec![], legacy_wallet_keys: false };
    (w, frame_wallet_blob(&vec![7u8; 16], &vec![9u8; 12], &vec![1u8; 40]))
}

#[test]
fn unlocking_retries_after_a_wrong_password() {
    let (mut w, cipher) = foreign_envelope();
    assert!(matches!(unlock_attempt(&mut w, &cipher, "wrong", 1), UnlockStep::Retry { remaining: 2, .. }));
    assert_eq!(w.private_key, "");
}

#[test]
fn unlocking_with_the_right_password_sets_the_key() {
    let (mut w, cipher) = sealed_wallet();
    assert!(matches!(unlock_attempt(&mut w, &cipher, "right", 2), UnlockStep::Unlocked));
    assert_eq!(w.private_key, "k");
}

#[test]
fn unlocking_gives_up_after_the_third_wrong_password() {
    let (mut w, cipher) = foreign_envelope();
    assert!(matches!(unlock_attempt(&mut w, &cipher, "wrong", 3), UnlockStep::GiveUp(WalletError::WrongPasswordOrCorrupt)));
    assert_eq!(w.private_key, "");
    assert!(matches!(decode_wallet_entry("***"), Err(WalletError::InvalidBase64)));
}

#[test]
fn dflow_quote_parameters_in_field_order() {
    let mut req = DflowQuoteRequest::new(key(SOL), key(USDC), 1_000);
    req.slippage_bps = Some(SlippageBps::Preset(SlippagePreset::Auto));
    req.platform_fee_mode = Some(PlatformFeeMode::InputMint);
    req.only_direct_routes = Some(true);
    req.max_route_length = Some(3);
    let params = req.to_query_params();
    let expected: Vec<(String, String)> = vec![
        ("inputMint", SOL),
        ("outputMint", USDC),
        ("amount", "1000"),
        ("slippageBps", "auto"),
        ("platformFeeMode", "inputMint"),
        ("onlyDirectRoutes", "true"),
        ("maxRouteLength", "3"),
    ]
    .into_iter()
    .map(|(k, v)| (k.to_string(), v.to_string()))
    .collect();
    assert_eq!(params, expected);
    req.slippage_bps = Some(SlippageBps::Fixed(50));
    assert_eq!(req.to_query_params()[3], ("slippageBps".to_string(), "50".to_string()));
}

#[test]
fn amounts_read_from_numbers_or_text() {
    assert_eq!(parse_u64(&Json::Int(42)), Some(42));
    assert_eq!(parse_u64(&Json::Int(-1)), None);
    assert_eq!(parse_u64(&Json::Str("18446744073709551615".to_string())), Some(u64::MAX));
    assert_eq!(parse_u64(&Json::Str("1.5".to_string())), None);
    assert_eq!(parse_u64(&Json::Float), None);
}

#[test]
fn lookup_entries_keep_addresses_and_first_key() {
    let obj = Json::Object(vec![
        ("addresses".to_string(), Json::Array(vec![Json::Str("B".to_string()), Json::Str(" A ".to_string())])),
        ("key".to_string(), Json::Str(" T1 ".to_string())),
        ("state".to_string(), Json::Object(vec![("addresses".to_string(), Json::Array(vec![Json::Str("A".to_string())]))])),
    ]);
    let entries = parse_lookup_table_accounts(&Some(Json::Array(vec![obj, Json::Str("T1".to_string())])));
    assert_eq!(entries.len(), 1);
    assert_eq!(entries[0].key, "T1");
    assert_eq!(entries[0].addresses, vec!["A".to_string(), "B".to_string()]);
    assert!(parse_lookup_table_accounts(&None).is_empty());
}

#[test]
fn execute_status_names() {
    assert_eq!(ExecuteStatus::parse("Success"), Some(ExecuteStatus::Success));
    assert_eq!(ExecuteStatus::parse("Failed"), Some(ExecuteStatus::Failed));
    assert_eq!(ExecuteStatus::parse("success"), None);
}

#[test]
fn ip_allocator_cooldowns_never_zero() {
    let mut cfg = NetworkConfig::default();
    cfg.cooldown_ms.rate_limited_start = 0;
    cfg.per_ip_inflight_limit = Some(4);
    let s = build_ip_allocator(&cfg);
    assert_eq!(s.rate_limited_start_ms, 1);
    assert_eq!(s.timeout_start_ms, 250);
    assert_eq!(s.per_ip_inflight_limit, Some(4));
}

#[test]
fn nulls_pruned_at_every_depth() {
    let v = Json::Object(vec![
        ("a".to_string(), Json::Null),
        ("b".to_string(), Json::Array(vec![Json::Null, Json::Int(1), Json::Object(vec![("c".to_string(), Json::Null)])])),
        ("d".to_string(), Json::Str("x".to_string())),
    ]);
    match prune_nulls(&v) {
        Json::Object(fields) => {
            assert_eq!(fields.len(), 2);
            assert_eq!(fields[0].0, "b");
            match &fields[0].1 {
                Json::Array(items) => {
                    assert_eq!(items.len(), 2);
                    assert!(matches!(items[0], Json::Int(1)));
                    assert!(matches!(&items[1], Json::Object(f) if f.is_empty()));
                },
                _ => panic!("expected an array"),
            }
            assert!(matches!(&fields[1].1, Json::Str(s) if s == "x"));
        },
        _ => panic!("expected an object"),
    }
    assert!(matches!(prune_nulls(&Json::Null), Json::Null));
}

#[test]
fn dflow_signature_path_carries_the_encoded_query() {
    let req = DflowQuoteRequest::new(key(SOL), key(USDC), 1_000);
    let path = req.path_with_query("https://quote-api.dflow.net/").unwrap();
    let joined: Vec<String> = req.to_query_params().iter().map(|(k, v)| format!("{k}={v}")).collect();
    assert!(path.starts_with(&format!("/quote?inputMint={SOL}&outputMint={USDC}&amount=1000")));
    assert_eq!(path, format!("/quote?{}", joined.join("&")));
    assert!(req.path_with_query("not a url").is_none());
}
