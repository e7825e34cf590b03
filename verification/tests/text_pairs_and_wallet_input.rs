use galileo::context::{override_proxy_selection, ProxySelection, RpcEndpointRotator};
use galileo::order::insert_sorted_u64;
use galileo::strategy::{
    build_blind_trade_pairs, build_pure_trade_pairs, collect_positive, insert_profile, scale_target, top_up_round_robin,
    tweak_amount, tweak_amounts_with, LanePlan, StrategyError, TradeProfile,
};
use galileo::config::TradeRangeStrategy;
use galileo::text::{parse_unsigned, split_char, text_lines, trim, u64_to_dec};
use galileo::wallet::{
    accept_segment, combine_segments, frame_wallet_blob, menu_step, parse_keypair_bytes, parse_segment, password_step,
    remaining_password_attempts, rewrite_wallet_keys, split_wallet_blob, wallet_magic, KeypairError, MenuAction, MenuKey,
    MenuState, PasswordEcho, SegmentError, SegmentOutcome, SegmentState, WalletError,
};

const SOL: &str = "So11111111111111111111111111111111111111112";
const USDC: &str = "EPjFWdd5AufqSSqeM2qN1xzybapC8G4wEGGkZwyTDt1v";
const USDT: &str = "Es9vMFrzaCERz7GosCNtvyWxirBM8dEjFCP4F9juF2Nv";

#[test]
fn trimming_follows_unicode_whitespace() {
    assert_eq!(trim("\u{3000} a b \t\n"), "a b");
    assert_eq!(trim("   "), "");
    assert_eq!(u64_to_dec(0), "0");
    assert_eq!(u64_to_dec(u64::MAX), "18446744073709551615");
    assert_eq!(parse_unsigned("+42", 100), Some(42));
    assert_eq!(parse_unsigned("101", 100), None);
    assert_eq!(parse_unsigned("", 100), None);
    assert_eq!(parse_unsigned("-1", 100), None);
    assert_eq!(split_char("a,,b", ','), vec!["a".to_string(), "".to_string(), "b".to_string()]);
    assert_eq!(text_lines("x\r\ny\n"), vec!["x".to_string(), "y".to_string()]);
}

#[test]
fn pairs_sorted_without_repeats() {
    let pairs = build_blind_trade_pairs(
        &vec![SOL.to_string(), format!(" {SOL} ")],
        &vec![USDT.to_string(), USDC.to_string(), SOL.to_string(), USDC.to_string()],
        &vec![],
    )
    .unwrap();
    let names: Vec<(String, String)> = pairs.iter().map(|p| (p.input_mint.clone(), p.output_mint.clone())).collect();
    assert_eq!(names, vec![(SOL.to_string(), USDC.to_string()), (SOL.to_string(), USDT.to_string())]);
    assert!(matches!(
        build_blind_trade_pairs(&vec![SOL.to_string()], &vec![USDC.to_string()], &vec![format!(" {USDC}")]),
        Err(StrategyError::NoIntermediates)
    ));
    assert!(matches!(build_blind_trade_pairs(&vec![], &vec![USDC.to_string()], &vec![]), Err(StrategyError::NoBaseMints)));
    assert!(matches!(
        build_blind_trade_pairs(&vec!["bad".to_string()], &vec![USDC.to_string()], &vec![]),
        Err(StrategyError::InvalidPair { .. })
    ));
    assert!(matches!(
        build_pure_trade_pairs(&vec![USDC.to_string()], &vec![SOL.to_string()], &vec![USDC.to_string()]),
        Err(StrategyError::NoPairs)
    ));
}

fn lane(final_count: usize, max_count: usize, allow_scale: bool) -> LanePlan {
    LanePlan { min: 1, max: 100, strategy: TradeRangeStrategy::Linear, final_count, max_count, allow_scale }
}

#[test]
fn top_up_fills_lanes_in_turn_up_to_their_maximum() {
    let mut lanes = vec![lane(1, 3, true), lane(1, 1, true), lane(2, 5, false), lane(0, 2, true)];
    let target = scale_target(&lanes, 8, true);
    assert_eq!(target, 8);
    top_up_round_robin(&mut lanes, target);
    assert_eq!(lanes.iter().map(|l| l.final_count).collect::<Vec<usize>>(), vec![3, 1, 2, 2]);
    let mut more = vec![lane(1, 4, true), lane(1, 4, true)];
    top_up_round_robin(&mut more, 5);
    assert_eq!(more.iter().map(|l| l.final_count).collect::<Vec<usize>>(), vec![3, 2]);
    assert_eq!(scale_target(&more, 3, false), 5);
}

#[test]
fn shaving_rounds_up_and_never_reaches_zero() {
    assert_eq!(tweak_amount(1_000, 930), 930);
    assert_eq!(tweak_amount(1, 930), 1);
    assert_eq!(tweak_amount(0, 999), 1);
    assert_eq!(tweak_amount(1_001, 999), 1_000);
    assert_eq!(tweak_amounts_with(&vec![1_000, 1_001, 10], &vec![999, 999, 930]), vec![10, 999, 1_000]);
    let mut set = vec![2u64, 5];
    collect_positive(&mut set, &vec![0, 5, 3, 9]);
    assert_eq!(set, vec![2, 3, 5, 9]);
    let mut v = vec![1u64, 4];
    insert_sorted_u64(&mut v, 3);
    insert_sorted_u64(&mut v, 4);
    assert_eq!(v, vec![1, 3, 4]);
}

#[test]
fn profiles_keyed_once() {
    let mut v: Vec<TradeProfile> = Vec::new();
    assert!(insert_profile(&mut v, TradeProfile { mint: "b".to_string(), key: vec![2], amounts: vec![1] }));
    assert!(insert_profile(&mut v, TradeProfile { mint: "a".to_string(), key: vec![1], amounts: vec![1] }));
    assert!(!insert_profile(&mut v, TradeProfile { mint: "c".to_string(), key: vec![2], amounts: vec![1] }));
    assert_eq!(v.iter().map(|p| p.mint.clone()).collect::<Vec<String>>(), vec!["a".to_string(), "b".to_string()]);
}

#[test]
fn rotator_hands_out_endpoints_in_turn() {
    let r = RpcEndpointRotator::new(vec!["a".to_string(), "b".to_string()]).unwrap();
    assert_eq!(r.primary_url(), "a");
    assert_eq!(r.next(), (0, "a"));
    assert_eq!(r.next(), (1, "b"));
    assert_eq!(r.next(), (0, "a"));
    assert!(RpcEndpointRotator::new(vec![]).is_err());
}

#[test]
fn proxy_override_wins_and_blank_means_none() {
    let module = Some(ProxySelection { url: "http://m".to_string(), per_request: true });
    let global = Some(ProxySelection { url: "http://g".to_string(), per_request: false });
    assert_eq!(override_proxy_selection(Some(" http://o "), module.clone(), global.clone()).unwrap().url, "http://o");
    assert!(override_proxy_selection(Some("  "), module.clone(), global.clone()).is_none());
    assert_eq!(override_proxy_selection(None, module, global.clone()).unwrap().url, "http://m");
    assert_eq!(override_proxy_selection(None, None, global).unwrap().url, "http://g");
}

#[test]
fn envelope_splits_back_into_its_parts() {
    let salt = vec![1u8; 16];
    let nonce = vec![2u8; 12];
    let ct = vec![3u8, 4, 5];
    let framed = frame_wallet_blob(&salt, &nonce, &ct);
    assert_eq!(&framed[..8], &wallet_magic()[..]);
    let parts = split_wallet_blob(&framed).unwrap();
    assert_eq!((parts.salt, parts.nonce, parts.ciphertext), (salt, nonce, ct));
    assert!(matches!(split_wallet_blob(&vec![0u8; 10]), Err(WalletError::Malformed)));
    let mut bad = frame_wallet_blob(&vec![0u8; 16], &vec![0u8; 12], &vec![]);
    bad[0] = b'X';
    assert!(matches!(split_wallet_blob(&bad), Err(WalletError::UnknownFormat)));
    bad[0] = b'G';
    bad[8] = 9;
    assert!(matches!(split_wallet_blob(&bad), Err(WalletError::UnsupportedVersion(9))));
}

#[test]
fn keypair_texts_in_three_forms() {
    assert_eq!(parse_keypair_bytes("  "), Err(KeypairError::Empty));
    assert_eq!(parse_keypair_bytes("1, 2 ,3"), Ok(vec![1, 2, 3]));
    assert_eq!(parse_keypair_bytes("1,256"), Err(KeypairError::InvalidNumber));
    assert_eq!(parse_keypair_bytes("[1,2]"), Ok(vec![1, 2]));
    assert_eq!(parse_keypair_bytes("[1,"), Err(KeypairError::InvalidJson));
    assert_eq!(parse_keypair_bytes("0OIl"), Err(KeypairError::InvalidBase58));
    assert_eq!(parse_keypair_bytes("2j"), Ok(vec![100]));
}

#[test]
fn segments_are_joined_in_order() {
    assert_eq!(parse_segment(" abc : 2 "), Ok((2, "abc".to_string())));
    assert_eq!(parse_segment("abc"), Err(SegmentError::MissingOrder));
    assert_eq!(parse_segment("abc:x"), Err(SegmentError::OrderNotNumber));
    assert_eq!(parse_segment(" :1"), Err(SegmentError::EmptyContent));
    let mut st = SegmentState::new();
    assert_eq!(accept_segment(&mut st, "ccc:3"), SegmentOutcome::Accepted);
    assert_eq!(accept_segment(&mut st, "   "), SegmentOutcome::Blank);
    assert_eq!(accept_segment(&mut st, "x:4"), SegmentOutcome::OrderOutOfRange);
    assert_eq!(accept_segment(&mut st, "d:3"), SegmentOutcome::DuplicateOrder(3));
    assert_eq!(accept_segment(&mut st, "aaa:1"), SegmentOutcome::Accepted);
    assert_eq!(accept_segment(&mut st, "bbb:2"), SegmentOutcome::Accepted);
    assert!(st.is_complete());
    assert_eq!(combine_segments(&st), "aaabbbccc");
}

#[test]
fn menu_keys_move_and_choose() {
    let mut st = MenuState { current: 0, typed: vec![] };
    assert_eq!(menu_step(&mut st, MenuKey::ArrowUp, 3), MenuAction::Redraw);
    assert_eq!(st.current, 2);
    assert_eq!(menu_step(&mut st, MenuKey::Char('j'), 3), MenuAction::Redraw);
    assert_eq!(st.current, 0);
    assert_eq!(menu_step(&mut st, MenuKey::Char('2'), 3), MenuAction::Redraw);
    assert_eq!(st.current, 1);
    assert_eq!(menu_step(&mut st, MenuKey::Enter, 3), MenuAction::Choose(1));
    assert_eq!(menu_step(&mut st, MenuKey::Char('q'), 3), MenuAction::Cancel);
}

#[test]
fn password_prompt_masks_and_erases() {
    let mut buf: Vec<char> = vec![];
    assert_eq!(password_step(&mut buf, 'a'), PasswordEcho::Mask);
    assert_eq!(password_step(&mut buf, 'b'), PasswordEcho::Mask);
    assert_eq!(password_step(&mut buf, '\u{7f}'), PasswordEcho::Erase);
    assert_eq!(password_step(&mut buf, '\u{1}'), PasswordEcho::Ignore);
    assert_eq!(password_step(&mut buf, '\r'), PasswordEcho::Submit);
    assert_eq!(buf, vec!['a']);
    assert_eq!(remaining_password_attempts(1), 2);
    assert_eq!(remaining_password_attempts(5), 0);
}

#[test]
fn wallet_keys_section_is_replaced_in_place() {
    let section = vec!["wallet_keys:".to_string(), "  - main: abc".to_string()];
    let text = "global:\n  x: 1\nwallet_keys:\n  - old: zz\n\nbot:\n  y: 2";
    assert_eq!(
        rewrite_wallet_keys(text, &section),
        "global:\n  x: 1\nwallet_keys:\n  - main: abc\nbot:\n  y: 2\n"
    );
    assert_eq!(rewrite_wallet_keys("a: 1\n", &section), "a: 1\n\nwallet_keys:\n  - main: abc\n");
}
