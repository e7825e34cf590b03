use galileo::api::dflow_headers::{build_header_values, build_header_values_with_parts, compute_values};
use galileo::api::kamino_quote::{QuoteRequest as KaminoQuoteRequest, SwapType};
use galileo::api::kamino_tables::parse_lookup_table_accounts;
use galileo::json::Json;
use galileo::api::ultra_order::{OrderRequest, Router};
use galileo::config::{resolve_strategy_dir, rpc_urls_of, RpcUrlsField};
use galileo::context::{resolve_self_hosted_jupiter_api_proxy, rpc_origin_header, JupiterSelfHostedEngineConfig};
use solana_sdk::pubkey::Pubkey;
use std::collections::HashMap;
use std::str::FromStr;

fn params_map(params: &[(String, String)]) -> HashMap<&str, Vec<String>> {
    let mut map: HashMap<&str, Vec<String>> = HashMap::new();
    for (key, value) in params {
        map.entry(key.as_str()).or_default().push(value.clone());
    }
    map
}

fn key_bytes(key: &Pubkey) -> Vec<u8> {
    key.to_bytes().to_vec()
}

const DEFAULT_ROUTER_TYPES: &[&str] = &[
    "dflow",
    "jupiter",
    "jupiterSelfHosted",
    "jupiterEuropa",
    "per",
    "fluxbeam",
    "raydium",
    "hashflow",
    "okx",
    "clover",
    "zeroEx",
    "spur",
    "lifi",
];

#[test]
fn generates_expected_headers_for_get() {
    let timestamp_ms = 1_708_000_000_123_u64;
    let uuid = "12345678-1234-5678-9abc-def012345678";
    let path = "/quote?foo=bar";
    let body = "";

    let values = compute_values(timestamp_ms, uuid, path, body);
    assert_eq!(values.timestamp, timestamp_ms.to_string());
    assert_eq!(values.request_id, "ccc5e450-5682-5890-96fc-8ecce499ddf7");
}

#[test]
fn generates_expected_headers_for_post() {
    let timestamp_ms = 1_708_000_000_456_u64;
    let uuid = "123e4567-e89b-12d3-a456-426614174000";
    let path = "/swap-instructions";
    let body = "{\"foo\":\"bar\"}";

    let values = compute_values(timestamp_ms, uuid, path, body);
    assert_eq!(values.timestamp, timestamp_ms.to_string());
    assert_eq!(values.request_id, "3a77738f-6550-1d5c-ad91-e22de7164188");
}

#[test]
fn appends_static_headers() {
    let headers = build_header_values_with_parts(
        1_708_000_000_123_u64,
        "12345678-1234-5678-9abc-def012345678",
        "/quote",
        "",
    );
    let get = |name: &str| {
        headers
            .iter()
            .find(|(k, _)| k == name)
            .map(|(_, v)| v.clone())
    };

    assert_eq!(get("sec-fetch-mode").as_deref(), Some("cors"));
    assert_eq!(
        get("user-agent").map(|s| s.contains("Chrome/141.0.0.0")),
        Some(true)
    );
    assert_eq!(get("origin").as_deref(), Some("https://dflow.net"));
}

#[test]
fn quote_request_uses_defaults_when_not_overridden() {
    let token_in = Pubkey::new_unique();
    let token_out = Pubkey::new_unique();
    let request = KaminoQuoteRequest::new(key_bytes(&token_in), key_bytes(&token_out), 1_000_000, 50);
    let params = request.to_query_params();
    let map = params_map(&params);

    assert_eq!(map.get("tokenIn"), Some(&vec![token_in.to_string()]));
    assert_eq!(map.get("tokenOut"), Some(&vec![token_out.to_string()]));
    assert_eq!(
        map.get("swapType"),
        Some(&vec![SwapType::ExactIn.as_str().to_string()])
    );
    assert_eq!(
        map.get("includeSetupIxs"),
        Some(&vec![request.include_setup_ixs.to_string()])
    );
    assert_eq!(
        map.get("wrapAndUnwrapSol"),
        Some(&vec![request.wrap_and_unwrap_sol.to_string()])
    );

    let routers = map.get("routerTypes[]").expect("default routers missing");
    assert_eq!(routers.len(), DEFAULT_ROUTER_TYPES.len());
    for (expected, actual) in DEFAULT_ROUTER_TYPES.iter().zip(routers.iter()) {
        assert_eq!(*expected, actual);
    }

    assert_eq!(map.get("includeLimoLogs"), Some(&vec!["false".to_string()]));
    assert_eq!(map.get("includeRfq"), Some(&vec!["true".to_string()]));
    assert_eq!(map.get("timeoutMs"), Some(&vec!["200".to_string()]));
    assert_eq!(
        map.get("perMinimumQuoteLifetimeSeconds"),
        Some(&vec!["3".to_string()])
    );
}

#[test]
fn quote_request_trims_overrides_and_routes() {
    let token_in = Pubkey::new_unique();
    let token_out = Pubkey::new_unique();
    let mut request = KaminoQuoteRequest::new(key_bytes(&token_in), key_bytes(&token_out), 42, 0);
    request.executor = Some("  Executor42  ".to_string());
    request.referrer_pda = Some(" ReferrerPDA ".to_string());
    request.include_setup_ixs = false;
    request.wrap_and_unwrap_sol = true;
    request.routes = vec!["alpha".to_string(), " beta ".to_string()];

    let params = request.to_query_params();
    let map = params_map(&params);

    assert_eq!(map.get("executor"), Some(&vec!["Executor42".to_string()]));
    assert_eq!(
        map.get("referrerPda"),
        Some(&vec!["ReferrerPDA".to_string()])
    );
    assert_eq!(map.get("includeSetupIxs"), Some(&vec!["false".to_string()]));
    assert_eq!(map.get("wrapAndUnwrapSol"), Some(&vec!["true".to_string()]));

    let routers = map.get("routerTypes[]").expect("custom routers missing");
    assert_eq!(routers, &vec!["alpha".to_string(), "beta".to_string()]);
}

#[test]
fn serialize_order_request_exclude_routers() {
    let mut req = OrderRequest::new(
        key_bytes(&Pubkey::from_str("So11111111111111111111111111111111111111112").unwrap()),
        key_bytes(&Pubkey::from_str("Es9vMFrzaCERz7GosCNtvyWxirBM8dEjFCP4F9juF2Nv").unwrap()),
        1_234_567,
    );
    req.exclude_routers
        .extend([Router::metis(), Router::dflow(), Router::jupiterz()]);

    let encoded = url::form_urlencoded::Serializer::new(String::new())
        .extend_pairs(req.to_query_params())
        .finish();
    assert!(encoded.contains("excludeRouters=metis%2Cdflow%2Cjupiterz"));
}

#[test]
fn test_rpc_default_headers_adds_origin_for_pump_fun() {
    let origin = rpc_origin_header("https://pump-fe.helius-rpc.com/?api-key=test-key-placeholder");
    assert_eq!(origin.as_deref(), Some("https://swap.pump.fun"));
}

#[test]
fn test_rpc_default_headers_no_origin_on_other_hosts() {
    let origin = rpc_origin_header("https://api.mainnet-beta.solana.com");
    assert!(origin.is_none());
}

#[test]
fn test_resolve_self_hosted_proxy_none_on_empty() {
    let cfg = JupiterSelfHostedEngineConfig {
        api_proxy: Some("   ".to_string()),
        args_included_dexes: Vec::new(),
    };
    assert!(resolve_self_hosted_jupiter_api_proxy(&cfg).is_none());
}

#[test]
fn test_resolve_self_hosted_proxy_trims_value() {
    let cfg = JupiterSelfHostedEngineConfig {
        api_proxy: Some("  http://127.0.0.1:8888  ".to_string()),
        args_included_dexes: Vec::new(),
    };
    assert_eq!(
        resolve_self_hosted_jupiter_api_proxy(&cfg).as_deref(),
        Some("http://127.0.0.1:8888")
    );
}

#[test]
fn test_resolve_strategy_dir_absolute() {
    let path = resolve_strategy_dir("/absolute/path", None);
    assert_eq!(std::path::PathBuf::from(path), std::path::PathBuf::from("/absolute/path"));
}

#[test]
fn test_resolve_strategy_dir_relative_with_base() {
    let path = resolve_strategy_dir("strategies", Some("/config"));
    assert_eq!(std::path::PathBuf::from(path), std::path::PathBuf::from("/config/strategies"));
}

#[test]
fn test_resolve_strategy_dir_relative_without_base() {
    let path = resolve_strategy_dir("strategies", None);
    assert_eq!(std::path::PathBuf::from(path), std::path::PathBuf::from("strategies"));
}

/// The `global.rpc_urls` field of a YAML configuration, one URL or a list.
fn rpc_field(yaml: &str) -> Option<RpcUrlsField> {
    let value: serde_yaml::Value = serde_yaml::from_str(yaml).expect("parse yaml");
    match value.get("global").and_then(|g| g.get("rpc_urls")) {
        Some(serde_yaml::Value::String(u)) => Some(RpcUrlsField::One(u.clone())),
        Some(serde_yaml::Value::Sequence(items)) => Some(RpcUrlsField::Many(
            items.iter().map(|i| i.as_str().expect("url text").to_string()).collect(),
        )),
        _ => None,
    }
}

#[test]
fn deserialize_single_rpc_url_string() {
    let yaml = "global:\n  rpc_urls: http://localhost:8899\n";
    let urls = rpc_urls_of(rpc_field(yaml));
    assert_eq!(urls, vec!["http://localhost:8899".to_string()]);
}

#[test]
fn deserialize_multiple_rpc_urls_dedup() {
    let yaml = "global:\n  rpc_urls:\n    - http://a:8899\n    - http://b:8899\n    - http://a:8899\n";
    let urls = rpc_urls_of(rpc_field(yaml));
    assert_eq!(urls, vec!["http://a:8899".to_string(), "http://b:8899".to_string()]);
}

fn s(v: &str) -> Json {
    Json::Str(v.to_string())
}

fn obj(fields: Vec<(&str, Json)>) -> Json {
    let mut v: Vec<(String, Json)> = fields.into_iter().map(|(k, j)| (k.to_string(), j)).collect();
    v.sort_by(|a, b| a.0.cmp(&b.0));
    Json::Object(v)
}

#[test]
fn route_parses_lookup_table_accounts_in_mixed_forms() {
    let accounts = Json::Array(vec![
        s(" 5abc "),
        obj(vec![("address", s("6def"))]),
        obj(vec![("lookupTable", s("7ghi"))]),
        obj(vec![("lookupTableAddress", s("8jkl"))]),
        obj(vec![("lookupTableAccount", obj(vec![("address", s("9mno"))]))]),
        obj(vec![("lookupTableAccount", obj(vec![("addresses", Json::Array(vec![s("A1"), s("B2")]))]))]),
        obj(vec![("addresses", Json::Array(vec![s("C3"), Json::Null]))]),
        obj(vec![("pubkey", s("D4"))]),
        Json::Null,
    ]);
    let entries = parse_lookup_table_accounts(&Some(accounts));
    let keys: Vec<String> = entries.iter().map(|e| e.key.clone()).collect();
    assert_eq!(
        keys,
        vec![
            "5abc".to_string(),
            "6def".to_string(),
            "7ghi".to_string(),
            "8jkl".to_string(),
            "9mno".to_string(),
            "A1".to_string(),
            "B2".to_string(),
            "C3".to_string(),
            "D4".to_string(),
        ]
    );
}

#[test]
fn live_headers_are_signed_now_with_a_version_four_id() {
    let a = build_header_values("/quote?amount=1", "").unwrap();
    let fixed = build_header_values_with_parts(1, "00000000-0000-0000-0000-000000000000", "/quote?amount=1", "");
    assert_eq!(a.len(), fixed.len());
    assert_eq!(a[0].0, "x-client-timestamp");
    assert!(a[0].1.parse::<u64>().unwrap() > 1_600_000_000_000);
    assert_eq!(a[1].0, "x-client-request-id");
    assert_eq!(a[1].1.len(), 36);
    assert_eq!(a[1].1.chars().nth(14), Some('4'));
    assert_eq!(a[2..], fixed[2..]);
}
