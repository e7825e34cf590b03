//! The Titan quote stream: the messages exchanged over its WebSocket and the
//! subscription request that the bot sends for one leg of a trade pair.
use vstd::prelude::*;
use vstd::string::*;
use crate::text::{trim, trim_spec, string_views};
use crate::strategy::TradePair;

verus! {

/// Which way a leg of a trade pair is quoted.
#[derive(PartialEq, Eq, Structural, Clone, Copy, Debug, Hash)]
pub enum TitanLeg {
    /// From the pair's input mint to its output mint, the amount going in.
    Forward,
    /// From the pair's output mint back to its input mint, the amount coming out.
    Reverse,
}

/// Whether a quote fixes the amount that goes in or the amount that comes out.
#[derive(PartialEq, Eq, Structural, Clone, Copy, Debug)]
pub enum SwapMode {
    ExactIn,
    ExactOut,
}

/// Asks the server for its settings.
#[derive(Clone, Debug, Default)]
pub struct GetInfoRequest {}

/// How often a stream sends quotes and how many.
#[derive(PartialEq, Eq, Structural, Clone, Copy, Debug)]
pub struct QuoteUpdateParams {
    pub interval_ms: Option<u64>,
    pub num_quotes: Option<u32>,
}

/// Stops a stream.
#[derive(PartialEq, Eq, Structural, Clone, Copy, Debug)]
pub struct StopStreamRequest {
    pub id: u32,
}

/// Asks for the venues the server routes through.
#[derive(PartialEq, Eq, Structural, Clone, Copy, Debug)]
pub struct GetVenuesRequest {
    pub include_program_ids: Option<bool>,
}

/// Asks for the quote providers.
#[derive(PartialEq, Eq, Structural, Clone, Copy, Debug)]
pub struct ListProvidersRequest {
    pub include_icons: Option<bool>,
}

/// A request the server refused.
#[derive(Clone, Debug)]
pub struct ResponseError {
    pub request_id: u32,
    pub code: i32,
    pub message: String,
}

/// What a stream carries.
#[derive(PartialEq, Eq, Structural, Clone, Copy, Debug)]
pub enum StreamDataType {
    SwapQuotes,
}

/// A stream the server opened in answer to a request.
#[derive(PartialEq, Eq, Structural, Clone, Copy, Debug)]
pub struct StreamStart {
    pub id: u32,
    pub data_type: StreamDataType,
}

/// The end of a stream, with the error that ended it if any.
#[derive(Clone, Debug)]
pub struct StreamEnd {
    pub id: u32,
    pub error_code: Option<i32>,
    pub error_message: Option<String>,
}

/// The protocol version of the server.
#[derive(PartialEq, Eq, Structural, Clone, Copy, Debug)]
pub struct VersionInfo {
    pub major: u16,
    pub minor: u16,
    pub patch: u16,
}

/// A setting's bounds and its default.
#[derive(Clone, Copy, Debug)]
pub struct BoundedValueWithDefault<T> {
    pub min: T,
    pub max: T,
    pub default: T,
}

/// Bounds on how quotes are streamed.
#[derive(Clone, Copy, Debug)]
pub struct QuoteUpdateSettings {
    pub interval_ms: BoundedValueWithDefault<u64>,
    pub num_quotes: BoundedValueWithDefault<u32>,
}

/// Bounds on swap parameters.
#[derive(Clone, Copy, Debug)]
pub struct SwapSettings {
    pub slippage_bps: BoundedValueWithDefault<u16>,
    pub only_direct_routes: bool,
    pub add_size_constraint: bool,
}

/// Defaults of the transactions the server builds.
#[derive(PartialEq, Eq, Structural, Clone, Copy, Debug)]
pub struct TransactionSettings {
    pub close_input_token_account: bool,
    pub create_output_token_account: bool,
}

/// Limits of one connection.
#[derive(PartialEq, Eq, Structural, Clone, Copy, Debug)]
pub struct ConnectionSettings {
    pub concurrent_streams: u32,
}

/// All settings of the server.
#[derive(Clone, Copy, Debug)]
pub struct ServerSettings {
    pub quote_update: QuoteUpdateSettings,
    pub swap: SwapSettings,
    pub transaction: TransactionSettings,
    pub connection: ConnectionSettings,
}

/// The server's answer to `GetInfoRequest`.
#[derive(Clone, Copy, Debug)]
pub struct ServerInfo {
    pub protocol_version: VersionInfo,
    pub settings: ServerSettings,
}

/// The server's answer to a new quote stream.
#[derive(PartialEq, Eq, Structural, Clone, Copy, Debug)]
pub struct QuoteSwapStreamResponse {
    pub interval_ms: u64,
}

/// The server's answer to `StopStreamRequest`.
#[derive(PartialEq, Eq, Structural, Clone, Copy, Debug)]
pub struct StopStreamResponse {
    pub id: u32,
}

/// The kind of a quote provider.
#[derive(PartialEq, Eq, Structural, Clone, Copy, Debug)]
pub enum ProviderKind {
    DexAggregator,
    Rfq,
}

/// A quote provider.
#[derive(Clone, Debug)]
pub struct ProviderInfo {
    pub id: String,
    pub name: String,
    pub kind: ProviderKind,
    pub icon_uri48: Option<String>,
}

/// The swap part of a quote stream request; public keys are their 32 bytes.
#[derive(Clone, Debug)]
pub struct SwapParams {
    pub input_mint: Vec<u8>,
    pub output_mint: Vec<u8>,
    pub amount: u64,
    pub swap_mode: Option<SwapMode>,
    pub slippage_bps: Option<u16>,
    pub dexes: Option<Vec<String>>,
    pub exclude_dexes: Option<Vec<String>>,
    pub only_direct_routes: Option<bool>,
    pub add_size_constraint: Option<bool>,
    pub size_constraint: Option<u32>,
    pub providers: Option<Vec<String>>,
    pub accounts_limit_total: Option<u16>,
    pub accounts_limit_writable: Option<u16>,
}

/// The transaction part of a quote stream request.
#[derive(Clone, Debug)]
pub struct TransactionParams {
    pub user_public_key: Vec<u8>,
    pub close_input_token_account: Option<bool>,
    pub create_output_token_account: Option<bool>,
    pub fee_account: Option<Vec<u8>>,
    pub fee_bps: Option<u16>,
    pub fee_from_input_mint: Option<bool>,
    pub output_account: Option<Vec<u8>>,
}

/// A request for a new quote stream.
#[derive(Clone, Debug)]
pub struct SwapQuoteRequest {
    pub swap: SwapParams,
    pub transaction: TransactionParams,
    pub update: Option<QuoteUpdateParams>,
}

/// How the bot subscribes to Titan quotes. The WebSocket address and its
/// proxy are URL texts; the idle time before subscribing again is in milliseconds.
#[derive(Clone, Debug)]
pub struct TitanSubscriptionConfig {
    pub ws_url: String,
    pub ws_proxy: Option<String>,
    pub jwt: String,
    pub user_pubkey: Vec<u8>,
    pub providers: Vec<String>,
    pub dexes: Vec<String>,
    pub exclude_dexes: Vec<String>,
    pub only_direct_routes: Option<bool>,
    pub update_interval_ms: Option<u64>,
    pub update_num_quotes: Option<u32>,
    pub close_input_token_account: bool,
    pub create_output_token_account: Option<bool>,
    pub idle_resubscribe_timeout_ms: Option<u64>,
}

/// A configured list is sent only when it is not empty.
pub open spec fn list_when_nonempty(v: Seq<Seq<char>>) -> Option<Seq<Seq<char>>> {
    if v.len() == 0 {
        None
    } else {
        Some(v)
    }
}

/// The texts of an optional list.
pub open spec fn opt_string_views(o: Option<Vec<String>>) -> Option<Seq<Seq<char>>> {
    match o {
        Some(v) => Some(string_views(v@)),
        None => None,
    }
}

/// The mints a leg quotes from and to.
pub open spec fn leg_mints(pair: TradePair, leg: TitanLeg) -> (Seq<u8>, Seq<u8>) {
    match leg {
        TitanLeg::Forward => (pair.input_key@, pair.output_key@),
        TitanLeg::Reverse => (pair.output_key@, pair.input_key@),
    }
}

/// The swap mode of a leg.
pub open spec fn leg_mode(leg: TitanLeg) -> SwapMode {
    match leg {
        TitanLeg::Forward => SwapMode::ExactIn,
        TitanLeg::Reverse => SwapMode::ExactOut,
    }
}

/// Streaming parameters are sent when either of them is configured.
pub open spec fn update_params_spec(interval_ms: Option<u64>, num_quotes: Option<u32>) -> Option<QuoteUpdateParams> {
    if interval_ms is None && num_quotes is None {
        None
    } else {
        Some(QuoteUpdateParams { interval_ms, num_quotes })
    }
}

/// A list sent only when the configuration holds entries.
fn list_if_nonempty(v: &Vec<String>) -> (r: Option<Vec<String>>)
    ensures
        opt_string_views(r) == list_when_nonempty(string_views(v@)),
{
    if v.len() == 0 {
        None
    } else {
        Some(v.clone())
    }
}

/// The request for the quote stream of one leg of a pair: the forward leg
/// quotes the pair's input mint into its output mint with the amount going in,
/// the reverse leg the other way with the amount coming out. Slippage is zero,
/// configured lists are sent only when not empty, direct routes only when the
/// configuration asks for them, and streaming parameters when either is set.
pub fn build_subscription_request(
    config: &TitanSubscriptionConfig,
    pair: &TradePair,
    leg: TitanLeg,
    amount: u64,
) -> (r: SwapQuoteRequest)
    ensures
        (r.swap.input_mint@, r.swap.output_mint@) == leg_mints(*pair, leg),
        r.swap.amount == amount,
        r.swap.swap_mode == Some(leg_mode(leg)),
        r.swap.slippage_bps == Some(0u16),
        opt_string_views(r.swap.dexes) == list_when_nonempty(string_views(config.dexes@)),
        opt_string_views(r.swap.exclude_dexes) == list_when_nonempty(string_views(config.exclude_dexes@)),
        opt_string_views(r.swap.providers) == list_when_nonempty(string_views(config.providers@)),
        r.swap.only_direct_routes == Some(config.only_direct_routes == Some(true)),
        r.swap.add_size_constraint is None,
        r.swap.size_constraint is None,
        r.swap.accounts_limit_total is None,
        r.swap.accounts_limit_writable is None,
        r.transaction.user_public_key@ == config.user_pubkey@,
        r.transaction.close_input_token_account == Some(config.close_input_token_account),
        r.transaction.create_output_token_account == config.create_output_token_account,
        r.transaction.fee_account is None,
        r.transaction.fee_bps is None,
        r.transaction.fee_from_input_mint is None,
        r.transaction.output_account is None,
        r.update == update_params_spec(config.update_interval_ms, config.update_num_quotes),
{
    let (input_mint, output_mint) = match leg {
        TitanLeg::Forward => (pair.input_key.clone(), pair.output_key.clone()),
        TitanLeg::Reverse => (pair.output_key.clone(), pair.input_key.clone()),
    };
    let providers = list_if_nonempty(&config.providers);
    let dexes = list_if_nonempty(&config.dexes);
    let exclude_dexes = list_if_nonempty(&config.exclude_dexes);
    let only_direct_routes = match config.only_direct_routes {
        Some(b) => b,
        None => false,
    };
    let update = if config.update_interval_ms.is_none() && config.update_num_quotes.is_none() {
        None
    } else {
        Some(QuoteUpdateParams { interval_ms: config.update_interval_ms, num_quotes: config.update_num_quotes })
    };
    let swap_mode = match leg {
        TitanLeg::Forward => SwapMode::ExactIn,
        TitanLeg::Reverse => SwapMode::ExactOut,
    };
    let swap = SwapParams {
        input_mint,
        output_mint,
        amount,
        swap_mode: Some(swap_mode),
        slippage_bps: Some(0),
        dexes,
        exclude_dexes,
        only_direct_routes: Some(only_direct_routes),
        add_size_constraint: None,
        size_constraint: None,
        providers,
        accounts_limit_total: None,
        accounts_limit_writable: None,
    };
    let transaction = TransactionParams {
        user_public_key: config.user_pubkey.clone(),
        close_input_token_account: Some(config.close_input_token_account),
        create_output_token_account: config.create_output_token_account,
        fee_account: None,
        fee_bps: None,
        fee_from_input_mint: None,
        output_account: None,
    };
    SwapQuoteRequest { swap, transaction, update }
}

/// The page of the Titan site that trades a pair, sent as the referer of
/// token requests.
pub open spec fn referer_spec(input_mint: Seq<char>, output_mint: Seq<char>) -> Seq<char> {
    "https://titan.exchange/swap?"@ + input_mint + "-"@ + output_mint
}

/// Builds the referer of a pair's token requests.
pub fn build_referer(pair: &TradePair) -> (s: String)
    ensures
        s@ == referer_spec(pair.input_mint@, pair.output_mint@),
{
    let mut s = String::from_str("https://titan.exchange/swap?");
    s.append(pair.input_mint.as_str());
    s.append("-");
    s.append(pair.output_mint.as_str());
    proof {
        reveal_strlit("https://titan.exchange/swap?");
        reveal_strlit("-");
    }
    s
}

/// Why the authenticated address of the stream could not be built.
#[derive(PartialEq, Eq, Structural, Clone, Copy, Debug)]
pub enum EndpointError {
    /// The token is blank.
    MissingAuthToken,
    /// The configured WebSocket address is not a URL.
    InvalidUrl,
}

/// A URL with its query removed, if the text parses as a URL.
pub uninterp spec fn url_without_query(url: Seq<char>) -> Option<Seq<char>>;

/// A URL with one more `key=value` pair in its query, if the text parses as a URL.
pub uninterp spec fn url_with_query_pair(url: Seq<char>, key: Seq<char>, value: Seq<char>) -> Option<Seq<char>>;

/// Parses a URL with `url::Url::parse`, removes its query with
/// `set_query(None)` and writes it back. Trusted: the result is named by
/// `url_without_query`.
#[verifier::external_body]
fn clear_url_query(url: &str) -> (r: Option<String>)
    ensures
        match r {
            Some(s) => url_without_query(url@) == Some(s@),
            None => url_without_query(url@) is None,
        },
{
    let mut parsed = url::Url::parse(url).ok()?;
    parsed.set_query(None);
    Some(parsed.to_string())
}

/// Parses a URL with `url::Url::parse`, appends one pair with
/// `query_pairs_mut().append_pair` and writes it back. Trusted: the result is
/// named by `url_with_query_pair`.
#[verifier::external_body]
fn append_url_query_pair(url: &str, key: &str, value: &str) -> (r: Option<String>)
    ensures
        match r {
            Some(s) => url_with_query_pair(url@, key@, value@) == Some(s@),
            None => url_with_query_pair(url@, key@, value@) is None,
        },
{
    let mut parsed = url::Url::parse(url).ok()?;
    parsed.query_pairs_mut().append_pair(key, value);
    Some(parsed.to_string())
}

/// The stream address with the token as its only query parameter `auth`.
pub open spec fn authenticated_endpoint_spec(ws_url: Seq<char>, jwt: Seq<char>) -> Result<Seq<char>, EndpointError> {
    if trim_spec(jwt).len() == 0 {
        Err(EndpointError::MissingAuthToken)
    } else {
        match url_without_query(ws_url) {
            None => Err(EndpointError::InvalidUrl),
            Some(base) => match url_with_query_pair(base, "auth"@, jwt) {
                None => Err(EndpointError::InvalidUrl),
                Some(u) => Ok(u),
            },
        }
    }
}

/// Builds the address the stream is opened on: a blank token is refused,
/// otherwise the configured address loses its query and gets `auth=<token>`.
pub fn build_authenticated_endpoint(config: &TitanSubscriptionConfig, jwt: &str) -> (r: Result<String, EndpointError>)
    ensures
        match r {
            Ok(s) => authenticated_endpoint_spec(config.ws_url@, jwt@) == Ok::<Seq<char>, EndpointError>(s@),
            Err(e) => authenticated_endpoint_spec(config.ws_url@, jwt@) == Err::<Seq<char>, EndpointError>(e),
        },
{
    let t = trim(jwt);
    if t.unicode_len() == 0 {
        return Err(EndpointError::MissingAuthToken);
    }
    let base = match clear_url_query(config.ws_url.as_str()) {
        Some(b) => b,
        None => return Err(EndpointError::InvalidUrl),
    };
    proof {
        reveal_strlit("auth");
    }
    match append_url_query_pair(base.as_str(), "auth", jwt) {
        Some(u) => Ok(u),
        None => Err(EndpointError::InvalidUrl),
    }
}


/// Why a quote stream cannot be opened.
#[derive(PartialEq, Eq, Structural, Clone, Copy, Debug)]
pub enum SubscriptionError {
    /// The amount to quote is zero.
    ZeroAmount,
    /// The authenticated address could not be built.
    Endpoint(EndpointError),
}

/// What `subscribe_quote_stream` checks and builds before it connects: a
/// zero amount is refused first, then the authenticated address is built
/// (a blank token or a bad URL is refused), then the subscription request.
pub fn prepare_subscription(
    config: &TitanSubscriptionConfig,
    pair: &TradePair,
    leg: TitanLeg,
    amount: u64,
    jwt: &str,
) -> (r: Result<(String, SwapQuoteRequest), SubscriptionError>)
    ensures
        amount == 0 ==> r == Err::<(String, SwapQuoteRequest), SubscriptionError>(SubscriptionError::ZeroAmount),
        amount > 0 ==> match authenticated_endpoint_spec(config.ws_url@, jwt@) {
            Err(e) => r == Err::<(String, SwapQuoteRequest), SubscriptionError>(SubscriptionError::Endpoint(e)),
            Ok(u) => r matches Ok((s, req)) && s@ == u
                && (req.swap.input_mint@, req.swap.output_mint@) == leg_mints(*pair, leg)
                && req.swap.amount == amount
                && req.swap.swap_mode == Some(leg_mode(leg))
                && req.transaction.user_public_key@ == config.user_pubkey@
                && req.update == update_params_spec(config.update_interval_ms, config.update_num_quotes),
        },
{
    if amount == 0 {
        return Err(SubscriptionError::ZeroAmount);
    }
    let endpoint = match build_authenticated_endpoint(config, jwt) {
        Ok(e) => e,
        Err(e) => return Err(SubscriptionError::Endpoint(e)),
    };
    let request = build_subscription_request(config, pair, leg, amount);
    Ok((endpoint, request))
}

} // verus!
