use galileo::api::jupiter_quote::{parse_key_val, KeyValError, QuoteRequest as JupiterQuoteRequest};
use galileo::api::swap_instructions::{find_compute_unit_limit, parse_compute_budget_limit, AccountMetaData, InstructionData};
use galileo::api::titan_jwt::build_headers;
use galileo::api::apply_kamino_headers;
use galileo::config::{
    parallelism_from_i64, parallelism_from_text, parallelism_from_u64, parse_u64_text, ParallelismError,
    QuoteParallelism, TipStrategyKind, TipStreamLevel,
};
use galileo::context::{host_header_from_url, rpc_origin_header, should_bypass_proxy};
use solana_sdk::pubkey::Pubkey;
use std::str::FromStr;

const SOL: &str = "So11111111111111111111111111111111111111112";
const USDC: &str = "EPjFWdd5AufqSSqeM2qN1xzybapC8G4wEGGkZwyTDt1v";

fn key(text: &str) -> Vec<u8> {
    Pubkey::from_str(text).unwrap().to_bytes().to_vec()
}

#[test]
fn parallelism_in_each_form() {
    assert_eq!(parallelism_from_text("AUTO"), Ok(QuoteParallelism::Auto));
    assert_eq!(parallelism_from_text("8"), Ok(QuoteParallelism::Fixed(8)));
    assert_eq!(parallelism_from_text("0"), Err(ParallelismError::NotPositive));
    assert_eq!(parallelism_from_text("many"), Err(ParallelismError::NotANumber));
    assert_eq!(parallelism_from_u64(70_000), Err(ParallelismError::TooLarge));
    assert_eq!(parallelism_from_i64(-3), Err(ParallelismError::NotPositive));
    assert_eq!(parallelism_from_i64(65_535), Ok(QuoteParallelism::Fixed(65_535)));
}

#[test]
fn numbers_with_separators() {
    assert_eq!(parse_u64_text("1_000_000"), Some(1_000_000));
    assert_eq!(parse_u64_text("  "), Some(0));
    assert_eq!(parse_u64_text("12a"), None);
    assert_eq!(parse_u64_text("18446744073709551616"), None);
}

#[test]
fn tip_names_read_back() {
    assert_eq!(TipStrategyKind::parse(" Stream "), Some(TipStrategyKind::Stream));
    assert_eq!(TipStrategyKind::parse("auto"), None);
    for level in [
        TipStreamLevel::Percentile25,
        TipStreamLevel::Percentile50,
        TipStreamLevel::Percentile75,
        TipStreamLevel::Percentile95,
        TipStreamLevel::Percentile99,
        TipStreamLevel::Ema50,
    ] {
        assert_eq!(TipStreamLevel::parse(level.as_str()), Some(level));
    }
    assert_eq!(TipStreamLevel::Ema50.field_name(), "ema_landed_tips_50th_percentile");
    assert_eq!(TipStreamLevel::parse("60th"), None);
}

#[test]
fn jupiter_quote_trims_dex_lists() {
    let mut req = JupiterQuoteRequest::new(key(SOL), key(USDC), 5);
    req.slippage_bps = Some(30);
    req.dexes = Some("  Raydium,Orca ".to_string());
    req.exclude_dexes = Some("   ".to_string());
    let params = req.to_query_params();
    let keys: Vec<&str> = params.iter().map(|(k, _)| k.as_str()).collect();
    assert_eq!(keys, vec!["inputMint", "outputMint", "amount", "swapMode", "slippageBps", "dexes"]);
    assert_eq!(params[5].1, "Raydium,Orca");
    assert_eq!(params[3].1, "ExactIn");
}

#[test]
fn key_value_split_at_first_equals() {
    assert_eq!(parse_key_val("a=b=c"), Ok(("a".to_string(), "b=c".to_string())));
    assert_eq!(parse_key_val("=x"), Ok(("".to_string(), "x".to_string())));
    assert_eq!(parse_key_val("abc"), Err(KeyValError::MissingEquals));
}

fn budget_ix(data: Vec<u8>) -> InstructionData {
    InstructionData { program_id: key("ComputeBudget111111111111111111111111111111"), accounts: vec![], data }
}

#[test]
fn compute_unit_limit_read_from_budget_instruction() {
    assert_eq!(parse_compute_budget_limit(&budget_ix(vec![2, 0x40, 0x0d, 0x03, 0x00])), Some(200_000));
    assert_eq!(parse_compute_budget_limit(&budget_ix(vec![3, 1, 0, 0, 0, 0, 0, 0, 0])), None);
    assert_eq!(parse_compute_budget_limit(&budget_ix(vec![2, 1])), None);
    let other = InstructionData {
        program_id: key(SOL),
        accounts: vec![AccountMetaData { pubkey: key(USDC), is_signer: false, is_writable: true }],
        data: vec![2, 1, 0, 0, 0],
    };
    assert_eq!(parse_compute_budget_limit(&other), None);
    assert_eq!(find_compute_unit_limit(&vec![other, budget_ix(vec![2, 10, 0, 0, 0])]), Some(10));
}

#[test]
fn request_headers_in_order() {
    let kamino = apply_kamino_headers();
    assert_eq!(kamino.len(), 13);
    assert_eq!(kamino[2], ("origin".to_string(), "https://kamino.com".to_string()));
    assert_eq!(kamino[4], ("host".to_string(), "api.kamino.finance".to_string()));
    let titan = build_headers("https://titan.exchange/swap?a-b");
    assert_eq!(titan.len(), 12);
    assert_eq!(titan[10], ("referer".to_string(), "https://titan.exchange/swap?a-b".to_string()));
    assert_eq!(titan[11].0, "user-agent");
    assert_eq!(titan[5], ("sec-fetch-site".to_string(), "same-origin".to_string()));
}

#[test]
fn host_header_keeps_explicit_port() {
    assert_eq!(host_header_from_url("https://quote.dflow.net:8443/quote"), Some("quote.dflow.net:8443".to_string()));
    assert_eq!(host_header_from_url("https://quote.dflow.net/quote"), Some("quote.dflow.net".to_string()));
    assert_eq!(host_header_from_url("https://quote.dflow.net:443/quote"), Some("quote.dflow.net".to_string()));
    assert_eq!(host_header_from_url("not a url"), None);
    assert_eq!(rpc_origin_header("https://PUMP-FE.helius-rpc.com/"), Some("https://swap.pump.fun".to_string()));
    assert!(should_bypass_proxy("http://LocalHost:8080", false));
    assert!(should_bypass_proxy("http://127.0.0.1:8080", true));
    assert!(!should_bypass_proxy("https://api.example.com", false));
}
