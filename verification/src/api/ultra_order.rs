//! The Ultra `/order` request: its query parameters and the routers it excludes.
use vstd::prelude::*;
use vstd::string::*;
use crate::text::dec_spec;
use crate::keys::{format_pubkey, pubkey_text};
use super::{param_views, push_param, bool_text, bool_string, dec_string};
use super::jupiter_quote::{SwapMode, swap_mode_text};

verus! {

/// Router names joined for display.
pub struct RouterLabels(String);

impl RouterLabels {
    pub fn new(labels: String) -> (r: Self)
        ensures
            r.as_str_spec() == labels@,
    {
        RouterLabels(labels)
    }

    /// The labels.
    pub closed spec fn as_str_spec(&self) -> Seq<char> {
        self.0@
    }

    pub fn as_str(&self) -> (r: &str)
        ensures
            r@ == self.as_str_spec(),
    {
        self.0.as_str()
    }
}

/// A router of the Ultra API.
#[derive(PartialEq, Eq, Structural, Clone, Copy, Debug)]
pub enum RouterParam {
    Metis,
    Jupiterz,
    Dflow,
    Okx,
}

/// The name of a router in requests.
pub open spec fn router_text(r: RouterParam) -> Seq<char> {
    match r {
        RouterParam::Metis => "metis"@,
        RouterParam::Jupiterz => "jupiterz"@,
        RouterParam::Dflow => "dflow"@,
        RouterParam::Okx => "okx"@,
    }
}

impl RouterParam {
    pub fn as_str(&self) -> (r: &'static str)
        ensures
            r@ == router_text(*self),
    {
        match self {
            RouterParam::Metis => "metis",
            RouterParam::Jupiterz => "jupiterz",
            RouterParam::Dflow => "dflow",
            RouterParam::Okx => "okx",
        }
    }
}

/// A router to exclude from an order.
#[derive(PartialEq, Eq, Structural, Clone, Copy, Debug)]
pub struct Router(pub RouterParam);

impl Router {
    pub fn metis() -> (r: Self)
        ensures
            r.0 == RouterParam::Metis,
    {
        Router(RouterParam::Metis)
    }

    pub fn jupiterz() -> (r: Self)
        ensures
            r.0 == RouterParam::Jupiterz,
    {
        Router(RouterParam::Jupiterz)
    }

    pub fn dflow() -> (r: Self)
        ensures
            r.0 == RouterParam::Dflow,
    {
        Router(RouterParam::Dflow)
    }

    pub fn okx() -> (r: Self)
        ensures
            r.0 == RouterParam::Okx,
    {
        Router(RouterParam::Okx)
    }

    pub fn as_str(&self) -> (r: &'static str)
        ensures
            r@ == router_text(self.0),
    {
        self.0.as_str()
    }
}

/// Router names joined with commas.
pub open spec fn join_routers(rs: Seq<Router>) -> Seq<char>
    decreases rs.len(),
{
    if rs.len() == 0 {
        Seq::empty()
    } else if rs.len() == 1 {
        router_text(rs[0].0)
    } else {
        join_routers(rs.drop_last()) + ","@ + router_text(rs.last().0)
    }
}

fn join_router_names(routers: &Vec<Router>) -> (s: String)
    ensures
        s@ == join_routers(routers@),
{
    let mut s = String::new();
    for i in 0..routers.len()
        invariant
            s@ == join_routers(routers@.subrange(0, i as int)),
    {
        let ghost pre = routers@.subrange(0, i + 1);
        assert(pre.drop_last() =~= routers@.subrange(0, i as int));
        if i > 0 {
            s.append(",");
        }
        s.append(routers[i].as_str());
        proof {
            if i == 0 {
                assert(s@ =~= join_routers(pre));
            } else {
                assert(s@ =~= join_routers(routers@.subrange(0, i as int)) + ","@ + router_text(routers@[i as int].0));
            }
        }
    }
    assert(routers@.subrange(0, routers@.len() as int) =~= routers@);
    s
}

/// An Ultra order request.
pub struct OrderRequest {
    pub input_mint: Vec<u8>,
    pub output_mint: Vec<u8>,
    pub amount: u64,
    pub swap_mode: SwapMode,
    pub slippage_bps: u16,
    pub use_wsol: bool,
    pub broadcast_fee_type: Option<String>,
    pub jito_tip_lamports: Option<u64>,
    pub priority_fee_lamports: Option<u64>,
    pub exclude_dexes: Option<String>,
    pub taker: Option<Vec<u8>>,
    pub referral_account: Option<Vec<u8>>,
    pub referral_fee: Option<u8>,
    pub exclude_routers: Vec<Router>,
    pub payer: Option<Vec<u8>>,
}

/// A text parameter when it is set.
pub open spec fn text_param(key: Seq<char>, v: Option<String>) -> Seq<(Seq<char>, Seq<char>)> {
    match v {
        Some(s) => seq![(key, s@)],
        None => Seq::empty(),
    }
}

/// A numeric parameter when it is set.
pub open spec fn num_param(key: Seq<char>, v: Option<u64>) -> Seq<(Seq<char>, Seq<char>)> {
    match v {
        Some(n) => seq![(key, dec_spec(n as nat))],
        None => Seq::empty(),
    }
}

/// A public key parameter when it is set.
pub open spec fn key_param(key: Seq<char>, v: Option<Vec<u8>>) -> Seq<(Seq<char>, Seq<char>)> {
    match v {
        Some(k) => seq![(key, pubkey_text(k@))],
        None => Seq::empty(),
    }
}

/// Every public key that is set has 32 bytes.
pub open spec fn key_ok(v: Option<Vec<u8>>) -> bool {
    match v {
        Some(k) => k@.len() == 32,
        None => true,
    }
}

fn push_text(params: &mut Vec<(String, String)>, key: &str, v: &Option<String>)
    ensures
        param_views(final(params)@) == param_views(old(params)@) + text_param(key@, *v),
{
    if let Some(s) = v {
        push_param(params, key, s.clone());
    }
    assert(param_views(params@) =~= param_views(old(params)@) + text_param(key@, *v));
}

fn push_num(params: &mut Vec<(String, String)>, key: &str, v: Option<u64>)
    ensures
        param_views(final(params)@) == param_views(old(params)@) + num_param(key@, v),
{
    if let Some(n) = v {
        push_param(params, key, dec_string(n));
    }
    assert(param_views(params@) =~= param_views(old(params)@) + num_param(key@, v));
}

fn push_key(params: &mut Vec<(String, String)>, key: &str, v: &Option<Vec<u8>>)
    requires
        key_ok(*v),
    ensures
        param_views(final(params)@) == param_views(old(params)@) + key_param(key@, *v),
{
    if let Some(k) = v {
        push_param(params, key, format_pubkey(k));
    }
    assert(param_views(params@) =~= param_views(old(params)@) + key_param(key@, *v));
}

impl OrderRequest {
    /// An order for an exact input amount, without slippage, unwrapped SOL or options.
    pub fn new(input_mint: Vec<u8>, output_mint: Vec<u8>, amount: u64) -> (r: Self)
        ensures
            r.input_mint@ == input_mint@,
            r.output_mint@ == output_mint@,
            r.amount == amount,
            r.swap_mode == SwapMode::ExactIn,
            r.slippage_bps == 0,
            !r.use_wsol,
            r.broadcast_fee_type is None && r.jito_tip_lamports is None && r.priority_fee_lamports is None,
            r.exclude_dexes is None && r.taker is None && r.referral_account is None,
            r.referral_fee is None && r.payer is None,
            r.exclude_routers@.len() == 0,
    {
        OrderRequest {
            input_mint,
            output_mint,
            amount,
            swap_mode: SwapMode::ExactIn,
            slippage_bps: 0,
            use_wsol: false,
            broadcast_fee_type: None,
            jito_tip_lamports: None,
            priority_fee_lamports: None,
            exclude_dexes: None,
            taker: None,
            referral_account: None,
            referral_fee: None,
            exclude_routers: Vec::new(),
            payer: None,
        }
    }

    /// The routers excluded, joined with commas, or `<none>`.
    pub fn exclude_routers_label(&self) -> (r: RouterLabels)
        ensures
            r.as_str_spec() == if self.exclude_routers@.len() == 0 {
                "<none>"@
            } else {
                join_routers(self.exclude_routers@)
            },
    {
        if self.exclude_routers.len() == 0 {
            return RouterLabels::new(String::from_str("<none>"));
        }
        RouterLabels::new(join_router_names(&self.exclude_routers))
    }

    /// The parameters of the order in the order of its fields; unset options
    /// and an empty router list are left out.
    pub open spec fn query_spec(&self) -> Seq<(Seq<char>, Seq<char>)> {
        self.head_spec() + self.options_spec() + self.tail_spec()
    }

    /// The parameters that are always sent.
    pub open spec fn head_spec(&self) -> Seq<(Seq<char>, Seq<char>)> {
        seq![
            ("inputMint"@, pubkey_text(self.input_mint@)),
            ("outputMint"@, pubkey_text(self.output_mint@)),
            ("amount"@, dec_spec(self.amount as nat)),
            ("swapMode"@, swap_mode_text(self.swap_mode)),
            ("slippageBps"@, dec_spec(self.slippage_bps as nat)),
            ("useWsol"@, bool_text(self.use_wsol)),
        ]
    }

    /// The optional fee and account parameters.
    pub open spec fn options_spec(&self) -> Seq<(Seq<char>, Seq<char>)> {
        text_param("broadcastFeeType"@, self.broadcast_fee_type)
            + num_param("jitoTipLamports"@, self.jito_tip_lamports)
            + num_param("priorityFeeLamports"@, self.priority_fee_lamports)
            + text_param("excludeDexes"@, self.exclude_dexes)
            + key_param("taker"@, self.taker)
            + key_param("referralAccount"@, self.referral_account)
            + num_param("referralFee"@, match self.referral_fee { Some(f) => Some(f as u64), None => None })
    }

    /// The excluded routers, when there are any, and the payer.
    pub open spec fn tail_spec(&self) -> Seq<(Seq<char>, Seq<char>)> {
        (if self.exclude_routers@.len() == 0 {
            Seq::empty()
        } else {
            seq![("excludeRouters"@, join_routers(self.exclude_routers@))]
        }) + key_param("payer"@, self.payer)
    }

    fn push_head(&self, params: &mut Vec<(String, String)>)
        requires
            self.input_mint@.len() == 32,
            self.output_mint@.len() == 32,
        ensures
            param_views(final(params)@) == param_views(old(params)@) + self.head_spec(),
    {
        push_param(params, "inputMint", format_pubkey(&self.input_mint));
        push_param(params, "outputMint", format_pubkey(&self.output_mint));
        push_param(params, "amount", dec_string(self.amount));
        push_param(params, "swapMode", String::from_str(self.swap_mode.as_str()));
        push_param(params, "slippageBps", dec_string(self.slippage_bps as u64));
        push_param(params, "useWsol", bool_string(self.use_wsol));
        assert(param_views(params@) =~= param_views(old(params)@) + self.head_spec());
    }

    fn push_options(&self, params: &mut Vec<(String, String)>)
        requires
            key_ok(self.taker),
            key_ok(self.referral_account),
        ensures
            param_views(final(params)@) == param_views(old(params)@) + self.options_spec(),
    {
        push_text(params, "broadcastFeeType", &self.broadcast_fee_type);
        push_num(params, "jitoTipLamports", self.jito_tip_lamports);
        push_num(params, "priorityFeeLamports", self.priority_fee_lamports);
        push_text(params, "excludeDexes", &self.exclude_dexes);
        push_key(params, "taker", &self.taker);
        push_key(params, "referralAccount", &self.referral_account);
        let fee = match self.referral_fee {
            Some(f) => Some(f as u64),
            None => None,
        };
        push_num(params, "referralFee", fee);
        assert(param_views(params@) =~= param_views(old(params)@) + self.options_spec());
    }

    fn push_tail(&self, params: &mut Vec<(String, String)>)
        requires
            key_ok(self.payer),
        ensures
            param_views(final(params)@) == param_views(old(params)@) + self.tail_spec(),
    {
        if self.exclude_routers.len() > 0 {
            push_param(params, "excludeRouters", join_router_names(&self.exclude_routers));
        }
        push_key(params, "payer", &self.payer);
        assert(param_views(params@) =~= param_views(old(params)@) + self.tail_spec());
    }

    /// The query parameters of the order.
    pub fn to_query_params(&self) -> (r: Vec<(String, String)>)
        requires
            self.input_mint@.len() == 32,
            self.output_mint@.len() == 32,
            key_ok(self.taker),
            key_ok(self.referral_account),
            key_ok(self.payer),
        ensures
            param_views(r@) == self.query_spec(),
            r@.len() >= 4,
            r@[0].0@ == "inputMint"@,
            r@[0].1@ == pubkey_text(self.input_mint@),
            r@[1].0@ == "outputMint"@,
            r@[1].1@ == pubkey_text(self.output_mint@),
            r@[2].0@ == "amount"@,
            r@[2].1@ == dec_spec(self.amount as nat),
            r@[3].0@ == "swapMode"@,
            r@[3].1@ == swap_mode_text(self.swap_mode),
    {
        let mut params: Vec<(String, String)> = Vec::new();
        self.push_head(&mut params);
        self.push_options(&mut params);
        self.push_tail(&mut params);
        assert(param_views(params@) =~= self.query_spec());
        proof {
            assert(param_views(params@)[0] == (params@[0].0@, params@[0].1@));
            assert(param_views(params@)[1] == (params@[1].0@, params@[1].1@));
            assert(param_views(params@)[2] == (params@[2].0@, params@[2].1@));
            assert(param_views(params@)[3] == (params@[3].0@, params@[3].1@));
        }
        params
    }
}

/// The platform fee of an Ultra order.
pub struct UltraPlatformFee {
    pub amount: Option<u64>,
    pub fee_bps: Option<u16>,
}

/// The request that executes a signed Ultra order.
#[derive(Clone, Debug)]
pub struct ExecuteRequest {
    pub signed_transaction: String,
    pub request_id: String,
}

/// Whether an executed order landed.
#[derive(PartialEq, Eq, Structural, Clone, Copy, Debug)]
pub enum ExecuteStatus {
    Success,
    Failed,
}

/// The name of a status in answers.
pub open spec fn execute_status_text(s: ExecuteStatus) -> Seq<char> {
    match s {
        ExecuteStatus::Success => "Success"@,
        ExecuteStatus::Failed => "Failed"@,
    }
}

impl ExecuteStatus {
    /// Reads a status as the service writes it.
    pub fn parse(text: &str) -> (r: Option<ExecuteStatus>)
        ensures
            match r {
                Some(s) => execute_status_text(s) == text@,
                None => text@ != "Success"@ && text@ != "Failed"@,
            },
    {
        proof {
            reveal_strlit("Success");
            reveal_strlit("Failed");
        }
        if crate::config::same_text(text, "Success") {
            Some(ExecuteStatus::Success)
        } else if crate::config::same_text(text, "Failed") {
            Some(ExecuteStatus::Failed)
        } else {
            None
        }
    }
}

} // verus!
