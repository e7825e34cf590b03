use galileo::api::kamino_quote::{
    AmountsExactIn, AmountsExactOut, LookupTableEntry, QuoteResponse, QuoteResponsePayload, Route, RouteInstructions,
};
use galileo::api::swap_instructions::{
    build_lookup_accounts, AccountMetaData, InstructionData, LookupTableAccount, SwapInstructionsResponse,
};
use std::str::FromStr;
use galileo::cache::{collect_accounts, deserialize_lookup_table, finish_fetch_many, split_cached, Cache};
use galileo::api::kamino_tables::non_empty;

fn ix(tag: u8) -> InstructionData {
    InstructionData {
        program_id: vec![tag; 32],
        accounts: vec![AccountMetaData { pubkey: vec![tag; 32], is_signer: tag % 2 == 0, is_writable: true }],
        data: vec![tag],
    }
}

fn tags(v: &[InstructionData]) -> Vec<u8> {
    v.iter().map(|i| i.data[0]).collect()
}

fn stages(create_in: &[u8], wrap: &[u8], swap: &[u8], unwrap: &[u8], create_out: &[u8]) -> RouteInstructions {
    let mk = |t: &[u8]| t.iter().map(|&x| ix(x)).collect::<Vec<_>>();
    RouteInstructions {
        create_in_ata_ixs: mk(create_in),
        create_out_ata_ixs: mk(create_out),
        wrap_sol_ixs: mk(wrap),
        limo_logs_start_ixs: vec![],
        limo_ledger_start_ixs: vec![],
        swap_ixs: mk(swap),
        limo_ledger_end_ixs: vec![],
        limo_logs_end_ixs: vec![],
        unwrap_sol_ixs: mk(unwrap),
    }
}

fn route(router: &str, amount_out: u64, tables: Vec<LookupTableEntry>) -> Route {
    Route {
        router_type: router.to_string(),
        response_time_get_quote_ms: 12,
        price_impact_bps: Some(3),
        guaranteed_price_impact_bps: None,
        price_impact_amount: None,
        guaranteed_price_impact_amount: None,
        lookup_table_accounts_bs58: tables,
        amounts_exact_in: AmountsExactIn { amount_in: 1_000, amount_out_guaranteed: amount_out - 1, amount_out },
        amounts_exact_out: AmountsExactOut { amount_out, amount_in_guaranteed: 1_001, amount_in: 1_000 },
        instructions: stages(&[1], &[2], &[3, 4], &[5], &[6]),
    }
}

#[test]
fn route_runs_account_creation_then_swap() {
    let r = stages(&[1], &[2], &[3, 4], &[5], &[6]);
    assert_eq!(tags(&r.flatten()), vec![1, 3, 4]);
    let mut target = vec![ix(9)];
    r.extend_into(&mut target);
    assert_eq!(tags(&target), vec![9, 1, 3, 4]);
    assert_eq!(tags(r.create_out_ata_ixs()), vec![6]);
}

#[test]
fn route_takes_on_another_routes_swap_stages() {
    let mut a = stages(&[1], &[2], &[3], &[4], &[5]);
    let b = stages(&[11], &[12], &[13], &[14], &[15]);
    a.append_from(&b);
    assert_eq!(tags(&a.wrap_sol_ixs), vec![2, 12]);
    assert_eq!(tags(&a.swap_ixs), vec![3, 13]);
    assert_eq!(tags(&a.unwrap_sol_ixs), vec![4, 14]);
    assert_eq!(tags(&a.create_in_ata_ixs), vec![1]);
    assert_eq!(tags(&a.create_out_ata_ixs), vec![5]);
}

#[test]
fn best_route_is_the_first_and_tables_lose_their_addresses() {
    let tables = vec![
        LookupTableEntry { key: "T1".into(), addresses: vec!["A".into(), "B".into()] },
        LookupTableEntry { key: "T2".into(), addresses: vec!["C".into()] },
    ];
    let mut quote = QuoteResponse {
        payload: QuoteResponsePayload { data: vec![route("dflow", 990, tables), route("okx", 995, vec![])] },
    };
    let best = quote.best_route().unwrap();
    assert_eq!(best.router_type, "dflow");
    assert_eq!(best.amount_in(), 1_000);
    assert_eq!(best.amount_out(), 990);
    assert_eq!(quote.routes().len(), 2);
    quote.strip_lookup_addresses();
    let first = &quote.routes()[0];
    assert_eq!(first.lookup_table_accounts_bs58.len(), 2);
    assert_eq!(first.lookup_table_accounts_bs58[1].key, "T2");
    assert!(first.lookup_table_accounts_bs58.iter().all(|t| t.addresses.is_empty()));
    assert_eq!(quote.routes()[1].router_type, "okx");
    let empty = QuoteResponse { payload: QuoteResponsePayload { data: vec![] } };
    assert!(empty.best_route().is_none());
}

fn table_data(addresses: &[[u8; 32]]) -> Vec<u8> {
    let mut data = vec![1u8, 0, 0, 0];
    data.extend_from_slice(&u64::MAX.to_le_bytes());
    data.extend_from_slice(&7u64.to_le_bytes());
    data.push(0);
    data.push(0);
    data.resize(56, 0);
    for a in addresses {
        data.extend_from_slice(a);
    }
    data
}

#[test]
fn lookup_table_account_data_is_read() {
    let key = vec![9u8; 32];
    let table = deserialize_lookup_table(&key, &table_data(&[[1u8; 32], [2u8; 32]])).unwrap();
    assert_eq!(table.key, key);
    assert_eq!(table.addresses, vec![vec![1u8; 32], vec![2u8; 32]]);
    let mut uninitialized = table_data(&[]);
    uninitialized[0] = 0;
    assert!(deserialize_lookup_table(&key, &uninitialized).is_none());
    let mut ragged = table_data(&[[3u8; 32]]);
    ragged.push(4);
    assert!(deserialize_lookup_table(&key, &ragged).is_none());
}

#[test]
fn fetched_tables_are_cached_and_bad_ones_dropped() {
    let mut cache: Cache<LookupTableAccount> = Cache::new();
    let a1 = vec![1u8; 32];
    let a2 = vec![2u8; 32];
    let a3 = vec![3u8; 32];
    let accounts = vec![Some(table_data(&[[5u8; 32]])), None, Some(vec![0u8; 3])];
    let found = collect_accounts(&mut cache, &vec![a1.clone(), a2.clone(), a3.clone()], &accounts, 10);
    assert_eq!(found.len(), 1);
    assert_eq!(found[0].key, a1);
    assert_eq!(found[0].addresses, vec![vec![5u8; 32]]);
    let (hits, misses) = split_cached(&mut cache, &vec![a1.clone(), a2.clone(), a3.clone()], 1_000_000);
    assert_eq!(hits.len(), 1);
    assert_eq!(hits[0].addresses, vec![vec![5u8; 32]]);
    assert_eq!(misses, vec![a2, a3]);
}

#[test]
fn blank_texts_are_left_out() {
    assert_eq!(non_empty("  key \n".to_string()), Some("key".to_string()));
    assert_eq!(non_empty(" \t ".to_string()), None);
    assert_eq!(non_empty(String::new()), None);
}

fn compute_budget_id() -> Vec<u8> {
    solana_sdk::pubkey::Pubkey::from_str("ComputeBudget111111111111111111111111111111").unwrap().to_bytes().to_vec()
}

fn budget_ix(data: Vec<u8>) -> InstructionData {
    InstructionData { program_id: compute_budget_id(), accounts: vec![], data }
}

fn response_with_budget(budget: Vec<InstructionData>) -> SwapInstructionsResponse {
    SwapInstructionsResponse::from_parts(budget, vec![], ix(7), vec![], vec![], vec![], None, Some(200_000), None, None, None, None)
}

#[test]
fn new_limit_replaces_only_the_limit_instruction() {
    let price = budget_ix(vec![3, 1, 0, 0, 0, 0, 0, 0, 0]);
    let mut resp = response_with_budget(vec![budget_ix(vec![3, 1, 0, 0, 0, 0, 0, 0, 0]), budget_ix(vec![2, 0x40, 0x0d, 0x03, 0x00])]);
    assert_eq!(resp.apply_compute_unit_limit(300_000), 300_000);
    assert_eq!(resp.compute_budget_instructions.len(), 2);
    assert_eq!(resp.compute_budget_instructions[0].data, price.data);
    assert_eq!(resp.compute_budget_instructions[1].data, vec![2, 0xe0, 0x93, 0x04, 0x00]);
    assert_eq!(resp.compute_unit_limit, 300_000);
}

#[test]
fn new_limit_goes_first_when_none_was_set() {
    let price = budget_ix(vec![3, 5, 0, 0, 0, 0, 0, 0, 0]);
    let mut resp = response_with_budget(vec![budget_ix(vec![3, 5, 0, 0, 0, 0, 0, 0, 0])]);
    assert_eq!(resp.apply_compute_unit_limit(0), 1);
    assert_eq!(resp.compute_budget_instructions.len(), 2);
    assert_eq!(resp.compute_budget_instructions[0].data, vec![2, 1, 0, 0, 0]);
    assert_eq!(resp.compute_budget_instructions[0].program_id, compute_budget_id());
    assert_eq!(resp.compute_budget_instructions[1].data, price.data);
    let mut same = response_with_budget(vec![price]);
    assert_eq!(same.apply_compute_unit_limit(200_000), 200_000);
    assert_eq!(same.compute_budget_instructions.len(), 1);
}

#[test]
fn lookup_accounts_keep_each_address() {
    let a = "So11111111111111111111111111111111111111112";
    let b = "EPjFWdd5AufqSSqeM2qN1xzybapC8G4wEGGkZwyTDt1v";
    let tables = build_lookup_accounts(&vec![(b.to_string(), vec![a.to_string(), b.to_string()])]).unwrap();
    let bytes = |t: &str| solana_sdk::pubkey::Pubkey::from_str(t).unwrap().to_bytes().to_vec();
    assert_eq!(tables[0].key, bytes(b));
    assert_eq!(tables[0].addresses, vec![bytes(a), bytes(b)]);
    assert!(build_lookup_accounts(&vec![(b.to_string(), vec!["nope".to_string()])]).is_none());
}

#[test]
fn fetch_many_puts_cached_tables_before_fetched_ones() {
    let mut cache: Cache<LookupTableAccount> = Cache::new();
    let a1 = vec![1u8; 32];
    let a2 = vec![2u8; 32];
    collect_accounts(&mut cache, &vec![a1.clone()], &vec![Some(table_data(&[[7u8; 32]]))], 0);
    let (hits, missing) = split_cached(&mut cache, &vec![a2.clone(), a1.clone()], 5);
    assert_eq!(missing, vec![a2.clone()]);
    let all = finish_fetch_many(&mut cache, &hits, &missing, &vec![Some(table_data(&[[8u8; 32]]))], 5);
    assert_eq!(all.len(), 2);
    assert_eq!(all[0].key, a1);
    assert_eq!(all[1].key, a2);
    assert_eq!(all[1].addresses, vec![vec![8u8; 32]]);
    let (hits_after, missing_after) = split_cached(&mut cache, &vec![a2.clone()], 6);
    assert_eq!(hits_after.len(), 1);
    assert!(missing_after.is_empty());
}
