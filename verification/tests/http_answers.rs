use galileo::strategy::{complete_scaling, plan_blind_lanes, scaling_target, BaseLanes, LanePlan, LaneSpec, StrategyError};
use galileo::config::{configured_ip_slots, strategy_file_path, IpAllocatorSettings, StrategyToggle, TradeRangeStrategy};
use galileo::strategy::ip_capacity_hint;
use galileo::api::http::{
    answer_failure, classify_status, describe_error_chain, endpoint, outcome_label, summarize_error_body, ApiFailure,
    StatusClass,
};

#[test]
fn endpoint_joins_with_one_slash() {
    assert_eq!(endpoint("https://quote-api.dflow.net/", "/quote"), "https://quote-api.dflow.net/quote");
    assert_eq!(endpoint("https://a.example//", "swap-instructions"), "https://a.example/swap-instructions");
    assert_eq!(endpoint("https://a.example", "//order"), "https://a.example/order");
    assert_eq!(endpoint("", ""), "/");
}

#[test]
fn error_body_is_trimmed_onto_one_line() {
    assert_eq!(summarize_error_body("  bad\nrequest\r\nnow  "), "bad request  now");
    assert_eq!(summarize_error_body(" \n\t "), "(empty response body)");
    assert_eq!(summarize_error_body(""), "(empty response body)");
}

#[test]
fn long_error_body_is_cut_at_512_bytes() {
    let long = "a".repeat(600);
    let summary = summarize_error_body(&long);
    assert_eq!(summary, format!("{}…", "a".repeat(512)));
    let exact = "b".repeat(512);
    assert_eq!(summarize_error_body(&exact), exact);
    // two-byte characters: 256 of them fill 512 bytes exactly
    let wide = "é".repeat(300);
    assert_eq!(summarize_error_body(&wide), format!("{}…", "é".repeat(256)));
}

#[test]
fn status_classes_and_their_metric_labels() {
    assert_eq!(classify_status(200, true), StatusClass::Success);
    assert_eq!(classify_status(204, false), StatusClass::Success);
    assert_eq!(classify_status(429, true), StatusClass::RateLimited);
    assert_eq!(classify_status(429, false), StatusClass::Failed);
    assert_eq!(classify_status(500, true), StatusClass::Failed);
    assert_eq!(classify_status(199, true), StatusClass::Failed);
    assert_eq!(classify_status(300, true), StatusClass::Failed);
    assert_eq!(outcome_label(StatusClass::Success), "success");
    assert_eq!(outcome_label(StatusClass::RateLimited), "rate_limited");
    assert_eq!(outcome_label(StatusClass::Failed), "http_error");
}

#[test]
fn failed_answers_become_errors() {
    assert!(answer_failure("u".to_string(), 200, "ok", true, true).is_none());
    match answer_failure("https://x/quote".to_string(), 429, " slow\ndown ", true, true) {
        Some(ApiFailure::RateLimited { endpoint, status, body }) => {
            assert_eq!(endpoint, "https://x/quote");
            assert_eq!(status, 429);
            assert_eq!(body, "slow down");
        }
        other => panic!("unexpected {other:?}"),
    }
    match answer_failure("e".to_string(), 503, " raw\nbody ", true, false) {
        Some(ApiFailure::ApiStatus { status, body, .. }) => {
            assert_eq!(status, 503);
            assert_eq!(body, " raw\nbody ");
        }
        other => panic!("unexpected {other:?}"),
    }
    assert!(matches!(answer_failure("e".to_string(), 429, "", false, true), Some(ApiFailure::ApiStatus { .. })));
}

#[test]
fn error_chain_skips_repeated_causes() {
    let texts: Vec<String> = vec!["request failed".into(), "request failed".into(), "timed out".into(), "request failed".into()];
    assert_eq!(describe_error_chain(&texts), "request failed | caused by: timed out | caused by: request failed");
    assert_eq!(describe_error_chain(&vec!["only".to_string()]), "only");
    assert_eq!(describe_error_chain(&Vec::new()), "");
}

#[test]
fn ip_capacity_is_slots_times_per_ip_limit() {
    assert_eq!(ip_capacity_hint(0, None), 1);
    assert_eq!(ip_capacity_hint(4, Some(0)), 4);
    assert_eq!(ip_capacity_hint(4, Some(3)), 12);
    assert_eq!(ip_capacity_hint(usize::MAX, Some(2)), usize::MAX);
}

fn plan_lane(final_count: usize, max_count: usize, allow_scale: bool) -> LanePlan {
    LanePlan { min: 1, max: 100, strategy: TradeRangeStrategy::Linear, final_count, max_count, allow_scale }
}

#[test]
fn scaling_aims_between_the_total_and_the_maximum() {
    let lanes = vec![plan_lane(2, 6, true), plan_lane(1, 1, false)];
    assert_eq!(scaling_target(&lanes, 5, true), Some(5));
    assert_eq!(scaling_target(&lanes, 50, true), Some(7));
    assert_eq!(scaling_target(&lanes, 3, true), None);
    assert_eq!(scaling_target(&lanes, 50, false), None);
    let mut grown = lanes;
    complete_scaling(&mut grown, 5);
    assert_eq!(grown[0].final_count, 4);
    assert_eq!(grown[1].final_count, 1);
    complete_scaling(&mut grown, 3);
    assert_eq!(grown[0].final_count, 4);
}

#[test]
fn configured_slots_leave_out_blacklisted_addresses() {
    let mut s = IpAllocatorSettings {
        enable_multiple_ip: true,
        manual_ips: vec!["10.0.0.1".into(), "10.0.0.2".into(), "10.0.0.3".into()],
        blacklist: vec!["10.0.0.2".into()],
        allow_loopback: false,
        per_ip_inflight_limit: None,
        rate_limited_start_ms: 1,
        timeout_start_ms: 1,
    };
    assert_eq!(configured_ip_slots(&s), 2);
    s.enable_multiple_ip = false;
    assert_eq!(configured_ip_slots(&s), 1);
}

#[test]
fn strategy_files_sit_in_the_strategy_directory() {
    assert_eq!(strategy_file_path("strategies", Some("/etc/galileo"), StrategyToggle::BlindStrategy), "/etc/galileo/strategies/blind_strategy.yaml");
    assert_eq!(strategy_file_path("/abs", Some("/etc"), StrategyToggle::PureBlindStrategy), "/abs/pure_blind_strategy.yaml");
    assert_eq!(strategy_file_path("s", None, StrategyToggle::CopyStrategy), "s/copy_strategy.yaml");
}

fn spec_lane(min: u64, max: u64, count: u32) -> LaneSpec {
    LaneSpec { min, max, count, strategy: TradeRangeStrategy::Linear, scaled_count: count as usize * 3 }
}

const SOL_MINT: &str = "So11111111111111111111111111111111111111112";

#[test]
fn lane_plans_refuse_the_first_fault() {
    let base = |mint: &str, lanes: Vec<LaneSpec>| BaseLanes { mint: mint.to_string(), lanes };
    let plan = plan_blind_lanes(&vec![base("  ", vec![]), base(SOL_MINT, vec![spec_lane(10, 20, 2), spec_lane(5, 5, 1)])], true).unwrap();
    assert_eq!(plan.bases.len(), 1);
    assert_eq!(plan.lanes.len(), 2);
    assert_eq!(plan.lanes[0].max_count, 6);
    assert_eq!(plan.lanes[1].max_count, 1);
    let zero_count = plan_blind_lanes(&vec![base(SOL_MINT, vec![spec_lane(1, 2, 1), spec_lane(1, 2, 0)]), base("bad", vec![])], false);
    assert!(matches!(zero_count, Err(StrategyError::ZeroLaneCount(m)) if m == SOL_MINT));
    let zero_range = plan_blind_lanes(&vec![base(SOL_MINT, vec![spec_lane(0, 0, 1)])], false);
    assert!(matches!(zero_range, Err(StrategyError::ZeroLaneRange(_))));
    assert!(matches!(plan_blind_lanes(&vec![base(" bad ", vec![spec_lane(1, 2, 1)])], false), Err(StrategyError::InvalidMint(m)) if m == "bad"));
    assert!(matches!(plan_blind_lanes(&vec![base(SOL_MINT, vec![])], false), Err(StrategyError::NoLanes(_))));
    assert!(matches!(plan_blind_lanes(&vec![base(" ", vec![])], false), Err(StrategyError::NoValidBaseMint)));
}
