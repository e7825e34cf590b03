//! The Kamino quote request and the amounts of its routes.
use vstd::prelude::*;
use vstd::string::*;
use crate::text::{trim, trim_spec, dec_spec, string_views};
use crate::keys::{format_pubkey, pubkey_text};
use super::{param_views, push_param, bool_text, bool_string, dec_string};
use super::swap_instructions::{InstructionData, ixs_view, extend_instructions};

verus! {

/// Whether the amount is what goes in or what comes out.
#[derive(PartialEq, Eq, Structural, Clone, Copy, Debug)]
pub enum SwapType {
    ExactIn,
    ExactOut,
}

impl Default for SwapType {
    fn default() -> (d: Self)
        ensures
            d == SwapType::ExactIn,
    {
        SwapType::ExactIn
    }
}

/// The name of a swap type in requests.
pub open spec fn swap_type_text(t: SwapType) -> Seq<char> {
    match t {
        SwapType::ExactIn => "exactIn"@,
        SwapType::ExactOut => "exactOut"@,
    }
}

impl SwapType {
    pub fn as_str(self) -> (r: &'static str)
        ensures
            r@ == swap_type_text(self),
    {
        match self {
            SwapType::ExactIn => "exactIn",
            SwapType::ExactOut => "exactOut",
        }
    }
}

/// The routers asked when the request names none.
pub open spec fn default_router_types() -> Seq<Seq<char>> {
    seq![
        "dflow"@, "jupiter"@, "jupiterSelfHosted"@, "jupiterEuropa"@, "per"@, "fluxbeam"@, "raydium"@,
        "hashflow"@, "okx"@, "clover"@, "zeroEx"@, "spur"@, "lifi"@,
    ]
}

/// The routers asked when the request names none, in order.
pub fn default_router_type_names() -> (v: Vec<&'static str>)
    ensures
        v@.map_values(|s: &'static str| s@) == default_router_types(),
{
    let v: Vec<&'static str> = vec![
        "dflow", "jupiter", "jupiterSelfHosted", "jupiterEuropa", "per", "fluxbeam", "raydium",
        "hashflow", "okx", "clover", "zeroEx", "spur", "lifi",
    ];
    assert(v@.map_values(|s: &'static str| s@) =~= default_router_types());
    v
}

/// Milliseconds a router is given to answer.
pub const DEFAULT_TIMEOUT_MS: u64 = 200;
/// Milliseconds after which at least one answer is taken.
pub const DEFAULT_AT_LEAST_ONE_TIMEOUT_MS: u64 = 2000;
/// Seconds a quote must stay valid.
pub const DEFAULT_MIN_QUOTE_LIFETIME_SECONDS: u64 = 3;

/// The fixed flags and timings sent with every quote.
pub open spec fn fixed_params() -> Seq<(Seq<char>, Seq<char>)> {
    seq![
        ("includeLimoLogs"@, "false"@),
        ("includeRfq"@, "true"@),
        ("timeoutMs"@, dec_spec(DEFAULT_TIMEOUT_MS as nat)),
        ("atLeastOneNoMoreThanTimeoutMS"@, dec_spec(DEFAULT_AT_LEAST_ONE_TIMEOUT_MS as nat)),
        ("withSimulation"@, "false"@),
        ("filterFailedSimulations"@, "false"@),
        ("requestPriceImpact"@, "false"@),
        ("perMinimumQuoteLifetimeSeconds"@, dec_spec(DEFAULT_MIN_QUOTE_LIFETIME_SECONDS as nat)),
        ("assertSwapBalances"@, "false"@),
        ("simulateWithMockInputAmount"@, "false"@),
    ]
}

/// The Kamino quote request.
pub struct QuoteRequest {
    pub token_in: Vec<u8>,
    pub token_out: Vec<u8>,
    pub amount: u64,
    pub swap_type: SwapType,
    pub max_slippage_bps: u16,
    pub executor: Option<String>,
    pub referrer_pda: Option<String>,
    pub include_setup_ixs: bool,
    pub wrap_and_unwrap_sol: bool,
    pub routes: Vec<String>,
}

/// `routerTypes[]` parameters: the default routers when none are named,
/// otherwise the named ones, trimmed, blank ones skipped.
pub open spec fn router_params(routes: Seq<Seq<char>>) -> Seq<(Seq<char>, Seq<char>)> {
    if routes.len() == 0 {
        default_router_types().map_values(|r: Seq<char>| ("routerTypes[]"@, r))
    } else {
        routes.filter(|r: Seq<char>| trim_spec(r).len() > 0).map_values(|r: Seq<char>| ("routerTypes[]"@, trim_spec(r)))
    }
}

/// A parameter with the trimmed text when it is present and not blank.
pub open spec fn trimmed_param(key: Seq<char>, value: Option<String>) -> Seq<(Seq<char>, Seq<char>)> {
    match value {
        Some(v) => if trim_spec(v@).len() > 0 { seq![(key, trim_spec(v@))] } else { Seq::empty() },
        None => Seq::empty(),
    }
}

impl QuoteRequest {
    /// A request for an exact input amount that includes setup instructions.
    pub fn new(token_in: Vec<u8>, token_out: Vec<u8>, amount: u64, max_slippage_bps: u16) -> (r: Self)
        ensures
            r.token_in@ == token_in@,
            r.token_out@ == token_out@,
            r.amount == amount,
            r.swap_type == SwapType::ExactIn,
            r.max_slippage_bps == max_slippage_bps,
            r.executor is None,
            r.referrer_pda is None,
            r.include_setup_ixs,
            !r.wrap_and_unwrap_sol,
            r.routes@.len() == 0,
    {
        QuoteRequest {
            token_in,
            token_out,
            amount,
            swap_type: SwapType::ExactIn,
            max_slippage_bps,
            executor: None,
            referrer_pda: None,
            include_setup_ixs: true,
            wrap_and_unwrap_sol: false,
            routes: Vec::new(),
        }
    }

    /// The parameters of the request, in order.
    pub open spec fn query_spec(&self) -> Seq<(Seq<char>, Seq<char>)> {
        seq![
            ("tokenIn"@, pubkey_text(self.token_in@)),
            ("tokenOut"@, pubkey_text(self.token_out@)),
            ("amount"@, dec_spec(self.amount as nat)),
            ("swapType"@, swap_type_text(self.swap_type)),
            ("maxSlippageBps"@, dec_spec(self.max_slippage_bps as nat)),
            ("includeSetupIxs"@, bool_text(self.include_setup_ixs)),
            ("wrapAndUnwrapSol"@, bool_text(self.wrap_and_unwrap_sol)),
        ]
            + trimmed_param("executor"@, self.executor)
            + trimmed_param("referrerPda"@, self.referrer_pda)
            + router_params(string_views(self.routes@))
            + fixed_params()
    }

    pub fn to_query_params(&self) -> (r: Vec<(String, String)>)
        requires
            self.token_in@.len() == 32,
            self.token_out@.len() == 32,
        ensures
            param_views(r@) == self.query_spec(),
            r@.len() >= 3,
            r@[0].0@ == "tokenIn"@,
            r@[0].1@ == pubkey_text(self.token_in@),
            r@[1].0@ == "tokenOut"@,
            r@[1].1@ == pubkey_text(self.token_out@),
            r@[2].0@ == "amount"@,
            r@[2].1@ == dec_spec(self.amount as nat),
    {
        let mut params: Vec<(String, String)> = Vec::new();
        push_param(&mut params, "tokenIn", format_pubkey(&self.token_in));
        push_param(&mut params, "tokenOut", format_pubkey(&self.token_out));
        push_param(&mut params, "amount", dec_string(self.amount));
        push_param(&mut params, "swapType", String::from_str(self.swap_type.as_str()));
        push_param(&mut params, "maxSlippageBps", dec_string(self.max_slippage_bps as u64));
        push_param(&mut params, "includeSetupIxs", bool_string(self.include_setup_ixs));
        push_param(&mut params, "wrapAndUnwrapSol", bool_string(self.wrap_and_unwrap_sol));
        let ghost head = param_views(params@);
        push_trimmed(&mut params, "executor", &self.executor);
        push_trimmed(&mut params, "referrerPda", &self.referrer_pda);
        push_routes(&mut params, &self.routes);
        push_fixed(&mut params);
        assert(param_views(params@) =~= self.query_spec());
        proof {
            assert(param_views(params@)[0] == (params@[0].0@, params@[0].1@));
            assert(param_views(params@)[1] == (params@[1].0@, params@[1].1@));
            assert(param_views(params@)[2] == (params@[2].0@, params@[2].1@));
        }
        params
    }
}

fn push_trimmed(params: &mut Vec<(String, String)>, key: &str, value: &Option<String>)
    ensures
        param_views(final(params)@) == param_views(old(params)@) + trimmed_param(key@, *value),
{
    if let Some(v) = value {
        let t = trim(v.as_str());
        if t.unicode_len() > 0 {
            push_param(params, key, t);
        }
    }
    assert(param_views(params@) =~= param_views(old(params)@) + trimmed_param(key@, *value));
}

fn push_routes(params: &mut Vec<(String, String)>, routes: &Vec<String>)
    ensures
        param_views(final(params)@) == param_views(old(params)@) + router_params(string_views(routes@)),
{
    let ghost start = param_views(params@);
    if routes.len() == 0 {
        let names = default_router_type_names();
        let ghost d = default_router_types();
        for i in 0..names.len()
            invariant
                names@.map_values(|s: &'static str| s@) == d,
                d == default_router_types(),
                param_views(params@) == start + d.subrange(0, i as int).map_values(|r: Seq<char>| ("routerTypes[]"@, r)),
        {
            assert(names@[i as int]@ == d[i as int]);
            push_param(params, "routerTypes[]", String::from_str(names[i]));
            assert(d.subrange(0, i + 1).map_values(|r: Seq<char>| ("routerTypes[]"@, r))
                =~= d.subrange(0, i as int).map_values(|r: Seq<char>| ("routerTypes[]"@, r)).push(("routerTypes[]"@, d[i as int])));
        }
        assert(d.subrange(0, d.len() as int) =~= d);
        assert(string_views(routes@) =~= Seq::<Seq<char>>::empty());
    } else {
        let ghost rv = string_views(routes@);
        for i in 0..routes.len()
            invariant
                rv == string_views(routes@),
                param_views(params@) == start + rv.subrange(0, i as int).filter(|r: Seq<char>| trim_spec(r).len() > 0)
                    .map_values(|r: Seq<char>| ("routerTypes[]"@, trim_spec(r))),
        {
            let t = trim(routes[i].as_str());
            proof {
                let pre = rv.subrange(0, i + 1);
                assert(pre.drop_last() =~= rv.subrange(0, i as int));
                assert(pre.last() == routes@[i as int]@);
                broadcast use vstd::seq_lib::group_filter_ensures;
                reveal(Seq::filter);
            }
            if t.unicode_len() > 0 {
                push_param(params, "routerTypes[]", t);
            }
            proof {
                let pre = rv.subrange(0, i + 1);
                let f0 = rv.subrange(0, i as int).filter(|r: Seq<char>| trim_spec(r).len() > 0);
                let f1 = pre.filter(|r: Seq<char>| trim_spec(r).len() > 0);
                reveal(Seq::filter);
                assert(f1 == if trim_spec(pre.last()).len() > 0 { f0.push(pre.last()) } else { f0 });
                assert(f1.map_values(|r: Seq<char>| ("routerTypes[]"@, trim_spec(r)))
                    =~= if trim_spec(pre.last()).len() > 0 {
                        f0.map_values(|r: Seq<char>| ("routerTypes[]"@, trim_spec(r))).push(("routerTypes[]"@, t@))
                    } else {
                        f0.map_values(|r: Seq<char>| ("routerTypes[]"@, trim_spec(r)))
                    });
            }
        }
        assert(rv.subrange(0, rv.len() as int) =~= rv);
    }
}

fn push_fixed(params: &mut Vec<(String, String)>)
    ensures
        param_views(final(params)@) == param_views(old(params)@) + fixed_params(),
{
    push_param(params, "includeLimoLogs", bool_string(false));
    push_param(params, "includeRfq", bool_string(true));
    push_param(params, "timeoutMs", dec_string(DEFAULT_TIMEOUT_MS));
    push_param(params, "atLeastOneNoMoreThanTimeoutMS", dec_string(DEFAULT_AT_LEAST_ONE_TIMEOUT_MS));
    push_param(params, "withSimulation", bool_string(false));
    push_param(params, "filterFailedSimulations", bool_string(false));
    push_param(params, "requestPriceImpact", bool_string(false));
    push_param(params, "perMinimumQuoteLifetimeSeconds", dec_string(DEFAULT_MIN_QUOTE_LIFETIME_SECONDS));
    push_param(params, "assertSwapBalances", bool_string(false));
    push_param(params, "simulateWithMockInputAmount", bool_string(false));
    assert(param_views(params@) =~= param_views(old(params)@) + fixed_params());
}

/// Amounts of a route quoted for an exact input.
pub struct AmountsExactIn {
    pub amount_in: u64,
    pub amount_out_guaranteed: u64,
    pub amount_out: u64,
}

/// Amounts of a route quoted for an exact output.
pub struct AmountsExactOut {
    pub amount_out: u64,
    pub amount_in_guaranteed: u64,
    pub amount_in: u64,
}

/// An address lookup table a route needs, with the addresses it is known to hold.
pub struct LookupTableEntry {
    pub key: String,
    pub addresses: Vec<String>,
}

/// The instructions of a route, by the stage they belong to.
pub struct RouteInstructions {
    pub create_in_ata_ixs: Vec<InstructionData>,
    pub create_out_ata_ixs: Vec<InstructionData>,
    pub wrap_sol_ixs: Vec<InstructionData>,
    pub limo_logs_start_ixs: Vec<InstructionData>,
    pub limo_ledger_start_ixs: Vec<InstructionData>,
    pub swap_ixs: Vec<InstructionData>,
    pub limo_ledger_end_ixs: Vec<InstructionData>,
    pub limo_logs_end_ixs: Vec<InstructionData>,
    pub unwrap_sol_ixs: Vec<InstructionData>,
}

impl RouteInstructions {
    /// The instructions a transaction runs: those creating the input token
    /// account, then the swap.
    pub open spec fn runnable(&self) -> Seq<(Seq<u8>, Seq<(Seq<u8>, bool, bool)>, Seq<u8>)> {
        ixs_view(self.create_in_ata_ixs@) + ixs_view(self.swap_ixs@)
    }

    /// The instructions a transaction runs, in order.
    pub fn flatten(&self) -> (r: Vec<InstructionData>)
        ensures
            ixs_view(r@) == self.runnable(),
    {
        let mut result: Vec<InstructionData> = Vec::new();
        self.extend_into(&mut result);
        assert(ixs_view(Seq::<InstructionData>::empty()) =~= Seq::empty());
        result
    }

    /// Appends the instructions a transaction runs.
    pub fn extend_into(&self, target: &mut Vec<InstructionData>)
        ensures
            ixs_view(final(target)@) == ixs_view(old(target)@) + self.runnable(),
    {
        extend_instructions(target, &self.create_in_ata_ixs);
        extend_instructions(target, &self.swap_ixs);
        assert(ixs_view(target@) =~= ixs_view(old(target)@) + self.runnable());
    }

    /// Takes on another route's wrapping, swap and unwrapping instructions
    /// after its own; the other stages stay as they are.
    pub fn append_from(&mut self, other: &RouteInstructions)
        ensures
            ixs_view(final(self).wrap_sol_ixs@) == ixs_view(old(self).wrap_sol_ixs@) + ixs_view(other.wrap_sol_ixs@),
            ixs_view(final(self).swap_ixs@) == ixs_view(old(self).swap_ixs@) + ixs_view(other.swap_ixs@),
            ixs_view(final(self).unwrap_sol_ixs@) == ixs_view(old(self).unwrap_sol_ixs@) + ixs_view(other.unwrap_sol_ixs@),
            final(self).create_in_ata_ixs@ == old(self).create_in_ata_ixs@,
            final(self).create_out_ata_ixs@ == old(self).create_out_ata_ixs@,
            final(self).limo_logs_start_ixs@ == old(self).limo_logs_start_ixs@,
            final(self).limo_ledger_start_ixs@ == old(self).limo_ledger_start_ixs@,
            final(self).limo_ledger_end_ixs@ == old(self).limo_ledger_end_ixs@,
            final(self).limo_logs_end_ixs@ == old(self).limo_logs_end_ixs@,
    {
        extend_instructions(&mut self.wrap_sol_ixs, &other.wrap_sol_ixs);
        extend_instructions(&mut self.swap_ixs, &other.swap_ixs);
        extend_instructions(&mut self.unwrap_sol_ixs, &other.unwrap_sol_ixs);
    }

    /// The instructions creating the output token account.
    pub fn create_out_ata_ixs(&self) -> (r: &Vec<InstructionData>)
        ensures
            r@ == self.create_out_ata_ixs@,
    {
        &self.create_out_ata_ixs
    }
}

/// A route Kamino quoted.
pub struct Route {
    pub router_type: String,
    pub response_time_get_quote_ms: u64,
    pub price_impact_bps: Option<i64>,
    pub guaranteed_price_impact_bps: Option<i64>,
    pub price_impact_amount: Option<String>,
    pub guaranteed_price_impact_amount: Option<String>,
    pub lookup_table_accounts_bs58: Vec<LookupTableEntry>,
    pub amounts_exact_in: AmountsExactIn,
    pub amounts_exact_out: AmountsExactOut,
    pub instructions: RouteInstructions,
}

/// The lookup tables with their addresses forgotten, keys kept.
pub open spec fn tables_stripped(after: Seq<LookupTableEntry>, before: Seq<LookupTableEntry>) -> bool {
    &&& after.len() == before.len()
    &&& forall|i: int| 0 <= i < after.len() ==> (#[trigger] after[i]).key@ == before[i].key@ && after[i].addresses@.len() == 0
}

impl Route {
    /// What goes in, quoted for an exact input.
    pub fn amount_in(&self) -> (r: u64)
        ensures
            r == self.amounts_exact_in.amount_in,
    {
        self.amounts_exact_in.amount_in
    }

    /// What comes out, quoted for an exact input.
    pub fn amount_out(&self) -> (r: u64)
        ensures
            r == self.amounts_exact_in.amount_out,
    {
        self.amounts_exact_in.amount_out
    }

    /// Forgets the addresses of the route's lookup tables, which are fetched
    /// again when needed; everything else stays.
    pub fn strip_lookup_addresses(&mut self)
        ensures
            tables_stripped(final(self).lookup_table_accounts_bs58@, old(self).lookup_table_accounts_bs58@),
            final(self).router_type@ == old(self).router_type@,
            final(self).amounts_exact_in == old(self).amounts_exact_in,
            final(self).amounts_exact_out == old(self).amounts_exact_out,
            final(self).instructions == old(self).instructions,
    {
        let n = self.lookup_table_accounts_bs58.len();
        let mut tables: Vec<LookupTableEntry> = Vec::new();
        for i in 0..n
            invariant
                n == self.lookup_table_accounts_bs58@.len(),
                tables_stripped(tables@, self.lookup_table_accounts_bs58@.take(i as int)),
        {
            let key = self.lookup_table_accounts_bs58[i].key.clone();
            tables.push(LookupTableEntry { key, addresses: Vec::new() });
        }
        assert(self.lookup_table_accounts_bs58@.take(n as int) =~= self.lookup_table_accounts_bs58@);
        self.lookup_table_accounts_bs58 = tables;
    }
}

/// The routes of a Kamino quote answer.
pub struct QuoteResponsePayload {
    pub data: Vec<Route>,
}

/// A Kamino quote answer.
pub struct QuoteResponse {
    pub payload: QuoteResponsePayload,
}

impl QuoteResponse {
    /// The routes, best first.
    pub fn routes(&self) -> (r: &Vec<Route>)
        ensures
            r@ == self.payload.data@,
    {
        &self.payload.data
    }

    /// The best route: the first one, if any.
    pub fn best_route(&self) -> (r: Option<&Route>)
        ensures
            match r {
                Some(route) => self.payload.data@.len() > 0 && *route == self.payload.data@[0],
                None => self.payload.data@.len() == 0,
            },
    {
        if self.payload.data.len() > 0 {
            Some(&self.payload.data[0])
        } else {
            None
        }
    }

    /// Forgets the lookup table addresses of every route.
    pub fn strip_lookup_addresses(&mut self)
        ensures
            final(self).payload.data@.len() == old(self).payload.data@.len(),
            forall|i: int| 0 <= i < old(self).payload.data@.len() ==> {
                &&& tables_stripped((#[trigger] final(self).payload.data@[i]).lookup_table_accounts_bs58@, old(self).payload.data@[i].lookup_table_accounts_bs58@)
                &&& final(self).payload.data@[i].router_type@ == old(self).payload.data@[i].router_type@
                &&& final(self).payload.data@[i].amounts_exact_in == old(self).payload.data@[i].amounts_exact_in
                &&& final(self).payload.data@[i].amounts_exact_out == old(self).payload.data@[i].amounts_exact_out
                &&& final(self).payload.data@[i].instructions == old(self).payload.data@[i].instructions
            },
    {
        let ghost before = self.payload.data@;
        let n = self.payload.data.len();
        let mut routes: Vec<Route> = Vec::new();
        let mut rest: Vec<Route> = Vec::new();
        std::mem::swap(&mut rest, &mut self.payload.data);
        assert(rest@ =~= before.subrange(0, n as int));
        let mut k: usize = 0;
        while k < n
            invariant
                n == before.len(),
                k <= n,
                rest@ == before.subrange(k as int, n as int),
                routes@.len() == k,
                forall|i: int| 0 <= i < k ==> {
                    &&& tables_stripped((#[trigger] routes@[i]).lookup_table_accounts_bs58@, before[i].lookup_table_accounts_bs58@)
                    &&& routes@[i].router_type@ == before[i].router_type@
                    &&& routes@[i].amounts_exact_in == before[i].amounts_exact_in
                    &&& routes@[i].amounts_exact_out == before[i].amounts_exact_out
                    &&& routes@[i].instructions == before[i].instructions
                },
            decreases n - k,
        {
            let mut route = rest.remove(0);
            assert(route == before[k as int]);
            route.strip_lookup_addresses();
            routes.push(route);
            assert(rest@ =~= before.subrange(k + 1, n as int));
            k = k + 1;
        }
        self.payload.data = routes;
    }
}

} // verus!
