//! Decisions taken while the command line sets up the bot: RPC endpoint
//! rotation, dry-run mode, proxy selection, the overrides handed to the
//! self-hosted Jupiter binary and the defaults it is started with.
use vstd::prelude::*;
use vstd::string::*;
use std::sync::atomic::AtomicUsize;
use crate::text::{trim, trim_spec, string_views, eq_ignore_ascii_case, eq_ignore_case_spec, u64_to_dec, dec_spec};
use crate::order::{insert_sorted, strictly_sorted, views};
use crate::config::{DryRunConfig, GlobalConfig, IntermediumConfig, InstructionConfig};

verus! {

/// Why the command line could not set up the bot.
#[derive(PartialEq, Eq, Structural, Clone, Copy, Debug)]
pub enum ContextError {
    /// `global.rpc_urls` holds no endpoint.
    NoRpcEndpoints,
    /// Dry-run mode is on but `bot.dry_run.rpc_url` is missing or blank.
    DryRunRpcMissing,
    /// The dry-run RPC endpoint given is blank.
    EmptyDryRunRpc,
    /// Neither the Jupiter configuration nor `global.rpc_urls` names an RPC endpoint.
    JupiterRpcMissing,
}

/// Hands out the configured RPC endpoints in turn.
pub struct RpcEndpointRotator {
    endpoints: Vec<String>,
    cursor: AtomicUsize,
}

impl View for RpcEndpointRotator {
    type V = Seq<Seq<char>>;

    closed spec fn view(&self) -> Seq<Seq<char>> {
        string_views(self.endpoints@)
    }
}

impl RpcEndpointRotator {
    #[verifier::type_invariant]
    spec fn has_endpoint(&self) -> bool {
        self.endpoints@.len() > 0
    }

    /// The endpoint at an index.
    pub open spec fn endpoint_at(&self, i: usize) -> Seq<char> {
        self@[i as int]
    }

    /// A rotator over the endpoints, of which there must be at least one.
    pub fn new(endpoints: Vec<String>) -> (r: Result<Self, ContextError>)
        ensures
            match r {
                Ok(rot) => rot@ == string_views(endpoints@),
                Err(e) => e == ContextError::NoRpcEndpoints && endpoints@.len() == 0,
            },
    {
        if endpoints.len() == 0 {
            return Err(ContextError::NoRpcEndpoints);
        }
        Ok(RpcEndpointRotator { endpoints, cursor: AtomicUsize::new(0) })
    }

    /// The first endpoint.
    pub fn primary_url(&self) -> (r: &str)
        ensures
            self@.len() > 0,
            r@ == self@[0],
    {
        proof {
            use_type_invariant(self);
        }
        self.endpoints[0].as_str()
    }

    /// The next endpoint in turn, with its index. A single endpoint is always chosen.
    pub fn next(&self) -> (r: (usize, &str))
        ensures
            r.0 < self@.len(),
            r.1@ == self.endpoint_at(r.0),
            self@.len() == 1 ==> r.0 == 0,
    {
        proof {
            use_type_invariant(self);
        }
        let len = self.endpoints.len();
        let index = if len == 1 {
            0
        } else {
            self.cursor.fetch_add(1, std::sync::atomic::Ordering::Relaxed) % len
        };
        (index, self.endpoints[index].as_str())
    }

    /// All endpoints.
    pub fn endpoints(&self) -> (r: &Vec<String>)
        ensures
            string_views(r@) == self@,
    {
        &self.endpoints
    }
}

/// Dry-run mode and the endpoint it sends to.
pub struct DryRunMode {
    pub enabled: bool,
    rpc_url: Option<String>,
}

impl DryRunMode {
    /// Whether dry-run mode is on.
    pub closed spec fn enabled_spec(&self) -> bool {
        self.enabled
    }

    /// The endpoint dry-run mode sends to, as configured.
    pub closed spec fn rpc_url_spec(&self) -> Option<Seq<char>> {
        match self.rpc_url {
            Some(u) => Some(u@),
            None => None,
        }
    }

    /// Dry-run mode from the command line flag and the configuration: on when
    /// either asks for it, and then the configured endpoint, trimmed, must not
    /// be blank.
    pub fn from_sources(cli_enabled: bool, config: &DryRunConfig) -> (r: Result<Self, ContextError>)
        ensures
            ({
                let url = match config.rpc_url {
                    Some(u) => if trim_spec(u@).len() > 0 { Some(trim_spec(u@)) } else { None },
                    None => None,
                };
                let enabled = cli_enabled || config.enable;
                match r {
                    Ok(m) => m.enabled_spec() == enabled && m.rpc_url_spec() == url && (enabled ==> url is Some),
                    Err(e) => e == ContextError::DryRunRpcMissing && enabled && url is None,
                }
            }),
    {
        let url = match &config.rpc_url {
            Some(u) => {
                let t = trim(u.as_str());
                if t.unicode_len() > 0 { Some(t) } else { None }
            },
            None => None,
        };
        let enabled = cli_enabled || config.enable;
        if enabled && url.is_none() {
            return Err(ContextError::DryRunRpcMissing);
        }
        Ok(DryRunMode { enabled, rpc_url: url })
    }

    /// The endpoint to send to instead of the configured ones, in dry-run mode only.
    pub fn rpc_override(&self) -> (r: Option<&str>)
        ensures
            match r {
                Some(s) => self.enabled_spec() && self.rpc_url_spec() == Some(s@),
                None => !self.enabled_spec() || self.rpc_url_spec() is None,
            },
    {
        if self.enabled {
            match &self.rpc_url {
                Some(u) => Some(u.as_str()),
                None => None,
            }
        } else {
            None
        }
    }

    pub fn is_enabled(&self) -> (r: bool)
        ensures
            r == self.enabled_spec(),
    {
        self.enabled
    }
}

/// A proxy and whether each request should use a fresh connection through it.
#[derive(Clone, Debug)]
pub struct ProxySelection {
    pub url: String,
    pub per_request: bool,
}

/// A named proxy as configured.
pub struct ProxyProfile {
    pub url: String,
    pub per_request: bool,
}

impl ProxySelection {
    pub fn from_profile(profile: &ProxyProfile) -> (s: Self)
        ensures
            s.url@ == profile.url@,
            s.per_request == profile.per_request,
    {
        ProxySelection { url: profile.url.clone(), per_request: profile.per_request }
    }
}

/// The global proxy, when one is configured and not blank.
pub fn resolve_global_http_proxy(global: &GlobalConfig) -> (r: Option<ProxySelection>)
    ensures
        match global.proxy {
            Some(p) => if trim_spec(p@).len() > 0 {
                r matches Some(s) && s.url@ == trim_spec(p@) && !s.per_request
            } else {
                r is None
            },
            None => r is None,
        },
{
    match &global.proxy {
        Some(p) => {
            let t = trim(p.as_str());
            if t.unicode_len() > 0 {
                Some(ProxySelection { url: t, per_request: false })
            } else {
                None
            }
        },
        None => None,
    }
}

/// The proxy a module uses: an explicit override wins (a blank one means no
/// proxy at all), then the module's own proxy, then the global one.
pub fn override_proxy_selection(
    override_url: Option<&str>,
    module_proxy: Option<ProxySelection>,
    global_proxy: Option<ProxySelection>,
) -> (r: Option<ProxySelection>)
    ensures
        match override_url {
            Some(u) => if trim_spec(u@).len() == 0 {
                r is None
            } else {
                r matches Some(s) && s.url@ == trim_spec(u@) && !s.per_request
            },
            None => match module_proxy {
                Some(m) => r == Some(m),
                None => r == global_proxy,
            },
        },
{
    if let Some(url) = override_url {
        let trimmed = trim(url);
        if trimmed.unicode_len() == 0 {
            return None;
        }
        return Some(ProxySelection { url: trimmed, per_request: false });
    }
    match module_proxy {
        Some(m) => Some(m),
        None => global_proxy,
    }
}

/// The self-hosted Jupiter engine settings that the launch reads.
pub struct JupiterSelfHostedEngineConfig {
    pub api_proxy: Option<String>,
    pub args_included_dexes: Vec<String>,
}

/// Arguments handed to the self-hosted Jupiter binary at launch.
pub struct LaunchOverrides {
    pub filter_markets_with_mints: Vec<String>,
    pub include_dex_program_ids: Vec<String>,
}

/// The proxy of the self-hosted Jupiter API, trimmed, when it is not blank.
pub fn resolve_self_hosted_jupiter_api_proxy(config: &JupiterSelfHostedEngineConfig) -> (r: Option<String>)
    ensures
        match config.api_proxy {
            Some(p) => if trim_spec(p@).len() > 0 {
                r matches Some(s) && s@ == trim_spec(p@)
            } else {
                r is None
            },
            None => r is None,
        },
{
    match &config.api_proxy {
        Some(p) => {
            let t = trim(p.as_str());
            if t.unicode_len() > 0 { Some(t) } else { None }
        },
        None => None,
    }
}

/// The memo attached to transactions, trimmed, when it is not blank.
pub fn resolve_instruction_memo(instruction: &InstructionConfig) -> (r: Option<String>)
    ensures
        if trim_spec(instruction.memo@).len() > 0 {
            r matches Some(s) && s@ == trim_spec(instruction.memo@)
        } else {
            r is None
        },
{
    let memo = trim(instruction.memo.as_str());
    if memo.unicode_len() == 0 { None } else { Some(memo) }
}

fn contains_exact(items: &Vec<String>, x: &String) -> (r: bool)
    ensures
        r == string_views(items@).contains(x@),
{
    let mut i: usize = 0;
    while i < items.len()
        invariant
            i <= items@.len(),
            forall|k: int| 0 <= k < i ==> items@[k]@ != x@,
        decreases items@.len() - i,
    {
        if crate::config::same_text(items[i].as_str(), x.as_str()) {
            assert(string_views(items@)[i as int] == x@);
            return true;
        }
        i = i + 1;
    }
    proof {
        if string_views(items@).contains(x@) {
            let k = choose|k: int| 0 <= k < items@.len() && string_views(items@)[k] == x@;
            assert(items@[k]@ == x@);
        }
    }
    false
}

/// The overrides for launching the self-hosted Jupiter binary: the
/// intermediate mints that are not disabled, and the trimmed, non-blank DEX
/// program ids, each sorted and without repeats. An empty list leaves the
/// binary's default in place.
pub fn build_launch_overrides(intermedium: &IntermediumConfig, jupiter_self_hosted: &JupiterSelfHostedEngineConfig) -> (r: LaunchOverrides)
    ensures
        strictly_sorted(views(r.filter_markets_with_mints@)),
        views(r.filter_markets_with_mints@).to_set()
            == string_views(intermedium.mints@).to_set().difference(string_views(intermedium.disable_mints@).to_set()),
        strictly_sorted(views(r.include_dex_program_ids@)),
        forall|d: Seq<char>| views(r.include_dex_program_ids@).to_set().contains(d) <==>
            (d.len() > 0 && exists|i: int| 0 <= i < jupiter_self_hosted.args_included_dexes@.len()
                && trim_spec(#[trigger] jupiter_self_hosted.args_included_dexes@[i]@) == d),
{
    let ghost mints = string_views(intermedium.mints@);
    let ghost disabled = string_views(intermedium.disable_mints@);
    let mut markets: Vec<String> = Vec::new();
    for i in 0..intermedium.mints.len()
        invariant
            mints == string_views(intermedium.mints@),
            disabled == string_views(intermedium.disable_mints@),
            strictly_sorted(views(markets@)),
            views(markets@).to_set() == mints.subrange(0, i as int).to_set().difference(disabled.to_set()),
    {
        let m = &intermedium.mints[i];
        let ghost before = views(markets@).to_set();
        if !contains_exact(&intermedium.disable_mints, m) {
            insert_sorted(&mut markets, m.clone());
        }
        proof {
            let pre = mints.subrange(0, i + 1);
            assert(pre =~= mints.subrange(0, i as int).push(m@));
            assert(pre.to_set() =~= mints.subrange(0, i as int).to_set().insert(m@)) by {
                assert forall|x: Seq<char>| pre.to_set().contains(x) <==> mints.subrange(0, i as int).to_set().insert(m@).contains(x) by {
                    if pre.to_set().contains(x) {
                        let k = choose|k: int| 0 <= k < pre.len() && #[trigger] pre[k] == x;
                        if k < i {
                            assert(mints.subrange(0, i as int)[k] == x);
                        }
                    }
                    if mints.subrange(0, i as int).to_set().contains(x) {
                        let k = choose|k: int| 0 <= k < i && #[trigger] mints.subrange(0, i as int)[k] == x;
                        assert(pre[k] == x);
                    }
                    if x == m@ {
                        assert(pre[i as int] == x);
                    }
                }
            }
            assert(views(markets@).to_set() =~= pre.to_set().difference(disabled.to_set()));
        }
    }
    assert(mints.subrange(0, mints.len() as int) =~= mints);
    let ghost dexes = jupiter_self_hosted.args_included_dexes@;
    let mut dex_ids: Vec<String> = Vec::new();
    for i in 0..jupiter_self_hosted.args_included_dexes.len()
        invariant
            dexes == jupiter_self_hosted.args_included_dexes@,
            strictly_sorted(views(dex_ids@)),
            forall|d: Seq<char>| views(dex_ids@).to_set().contains(d) <==>
                (d.len() > 0 && exists|k: int| 0 <= k < i && trim_spec(#[trigger] dexes[k]@) == d),
    {
        let t = trim(jupiter_self_hosted.args_included_dexes[i].as_str());
        if t.unicode_len() > 0 {
            insert_sorted(&mut dex_ids, t);
        }
        assert forall|d: Seq<char>| views(dex_ids@).to_set().contains(d) <==>
            (d.len() > 0 && exists|k: int| 0 <= k < i + 1 && trim_spec(#[trigger] dexes[k]@) == d) by {
            if d.len() > 0 && exists|k: int| 0 <= k < i + 1 && trim_spec(#[trigger] dexes[k]@) == d {
                let k = choose|k: int| 0 <= k < i + 1 && trim_spec(#[trigger] dexes[k]@) == d;
                if k == i {
                    assert(d == t@);
                }
            }
            if d == t@ && d.len() > 0 {
                assert(trim_spec(dexes[i as int]@) == d);
            }
        }
    }
    LaunchOverrides { filter_markets_with_mints: markets, include_dex_program_ids: dex_ids }
}

/// What an address of the Jupiter host is, as the caller parsed it.
#[derive(PartialEq, Eq, Structural, Clone, Copy, Debug)]
pub enum HostAddress {
    /// Not an IP address.
    Name,
    /// `0.0.0.0`.
    UnspecifiedV4,
    /// `::`.
    UnspecifiedV6,
    /// Another IP address.
    Other,
}

/// The host to reach the self-hosted Jupiter API at: `127.0.0.1` for a blank
/// host, the loopback address for an unspecified one, otherwise the trimmed host.
pub open spec fn jupiter_host_spec(host: Seq<char>, address: HostAddress) -> Seq<char> {
    let t = trim_spec(host);
    if t.len() == 0 {
        "127.0.0.1"@
    } else {
        match address {
            HostAddress::UnspecifiedV4 => "127.0.0.1"@,
            HostAddress::UnspecifiedV6 => "::1"@,
            _ => t,
        }
    }
}

/// The configured host is used as it is, trimmed, unless it is blank (then
/// `127.0.0.1`) or an unspecified IP address (then the loopback address of
/// its family); and the base URL is `http://`, that host, `:` and the port.
pub proof fn lemma_jupiter_host_kept(host: Seq<char>, address: HostAddress, port: u16)
    ensures
        trim_spec(host).len() > 0 && address != HostAddress::UnspecifiedV4 && address != HostAddress::UnspecifiedV6
            ==> jupiter_host_spec(host, address) == trim_spec(host),
        trim_spec(host).len() == 0 ==> jupiter_host_spec(host, address) == "127.0.0.1"@,
        trim_spec(host).len() > 0 && address == HostAddress::UnspecifiedV4 ==> jupiter_host_spec(host, address) == "127.0.0.1"@,
        trim_spec(host).len() > 0 && address == HostAddress::UnspecifiedV6 ==> jupiter_host_spec(host, address) == "::1"@,
{
}

/// The host to reach the self-hosted Jupiter API at, given what the trimmed
/// host is as an address; the caller reads that with `std::net::IpAddr`.
pub fn sanitize_jupiter_host(host: &str, address: HostAddress) -> (r: String)
    ensures
        r@ == jupiter_host_spec(host@, address),
{
    let t = trim(host);
    if t.unicode_len() == 0 {
        return String::from_str("127.0.0.1");
    }
    match address {
        HostAddress::UnspecifiedV4 => String::from_str("127.0.0.1"),
        HostAddress::UnspecifiedV6 => String::from_str("::1"),
        _ => t,
    }
}

/// The base URL of the self-hosted Jupiter API: `http://host:port`.
pub fn resolve_jupiter_base_url(host: &str, address: HostAddress, port: u16) -> (r: String)
    ensures
        r@ == "http://"@ + jupiter_host_spec(host@, address) + ":"@ + dec_spec(port as nat),
{
    let mut s = String::from_str("http://");
    s.append(sanitize_jupiter_host(host, address).as_str());
    s.append(":");
    s.append(u64_to_dec(port as u64).as_str());
    s
}

/// The host of a URL, if it parses and has one.
pub uninterp spec fn url_host(text: Seq<char>) -> Option<Seq<char>>;

/// Reads the host of a URL with `url::Url::parse` and `host_str`. Trusted: the
/// result is named by `url_host`.
#[verifier::external_body]
fn parse_url_host(text: &str) -> (r: Option<String>)
    ensures
        match r {
            Some(h) => url_host(text@) == Some(h@),
            None => url_host(text@) is None,
        },
{
    url::Url::parse(text).ok().and_then(|u| u.host_str().map(|h| h.to_string()))
}

/// The host of a URL, if it parses and has one.
pub fn host_of_url(text: &str) -> (r: Option<String>)
    ensures
        match r {
            Some(h) => url_host(text@) == Some(h@),
            None => url_host(text@) is None,
        },
{
    parse_url_host(text)
}

/// The explicit port of a URL (none when it is the scheme's default), if it parses.
pub uninterp spec fn url_port(text: Seq<char>) -> Option<u16>;

/// Reads the explicit port of a URL with `url::Url::parse` and `port`.
/// Trusted: the result is named by `url_port`.
#[verifier::external_body]
fn parse_url_port(text: &str) -> (r: Option<u16>)
    ensures
        r == url_port(text@),
{
    url::Url::parse(text).ok().and_then(|u| u.port())
}

/// The `Host` header of a request to a URL: its host, and `:port` when the
/// port is given explicitly; none for a URL without a host.
pub fn host_header_from_url(url: &str) -> (r: Option<String>)
    ensures
        match url_host(url@) {
            Some(h) => r matches Some(v) && v@ == match url_port(url@) {
                Some(p) => h + ":"@ + dec_spec(p as nat),
                None => h,
            },
            None => r is None,
        },
{
    let host = match parse_url_host(url) {
        Some(h) => h,
        None => return None,
    };
    let mut value = host;
    match parse_url_port(url) {
        Some(p) => {
            value.append(":");
            value.append(u64_to_dec(p as u64).as_str());
            proof {
                reveal_strlit(":");
            }
        },
        None => {},
    }
    Some(value)
}

/// The `Origin` header an RPC endpoint needs: the pump.fun swap page for
/// pump.fun's Helius endpoint (host compared without ASCII case), none otherwise.
pub fn rpc_origin_header(endpoint: &str) -> (r: Option<String>)
    ensures
        match url_host(endpoint@) {
            Some(h) => if eq_ignore_case_spec(h, "pump-fe.helius-rpc.com"@) {
                r matches Some(o) && o@ == "https://swap.pump.fun"@
            } else {
                r is None
            },
            None => r is None,
        },
{
    match parse_url_host(endpoint) {
        Some(h) => if eq_ignore_ascii_case(h.as_str(), "pump-fe.helius-rpc.com") {
            Some(String::from_str("https://swap.pump.fun"))
        } else {
            None
        },
        None => None,
    }
}

/// Requests to a URL skip the proxy when its host is `localhost` (in any ASCII
/// case), or a loopback or unspecified IP address, as the caller classified it.
pub fn should_bypass_proxy(base_url: &str, host_is_local_ip: bool) -> (r: bool)
    ensures
        r == match url_host(base_url@) {
            Some(h) => eq_ignore_case_spec(h, "localhost"@) || host_is_local_ip,
            None => false,
        },
{
    match parse_url_host(base_url) {
        Some(h) => eq_ignore_ascii_case(h.as_str(), "localhost") || host_is_local_ip,
        None => false,
    }
}

/// The RPC endpoints to use: the dry-run endpoint alone when there is one
/// (it must not be blank), otherwise the configured ones, of which there must be some.
pub fn resolve_rpc_endpoints(global: &GlobalConfig, override_endpoint: Option<&str>) -> (r: Result<Vec<String>, ContextError>)
    ensures
        match override_endpoint {
            Some(u) => if trim_spec(u@).len() == 0 {
                r == Err::<Vec<String>, ContextError>(ContextError::EmptyDryRunRpc)
            } else {
                r matches Ok(v) && string_views(v@) == seq![trim_spec(u@)]
            },
            None => if global.rpc_urls@.len() == 0 {
                r == Err::<Vec<String>, ContextError>(ContextError::NoRpcEndpoints)
            } else {
                r matches Ok(v) && v@ == global.rpc_urls@
            },
        },
{
    match override_endpoint {
        Some(u) => {
            let t = trim(u);
            if t.unicode_len() == 0 {
                return Err(ContextError::EmptyDryRunRpc);
            }
            let mut v: Vec<String> = Vec::new();
            v.push(t);
            assert(string_views(v@) =~= seq![trim_spec(u@)]);
            Ok(v)
        },
        None => {
            if global.rpc_urls.len() == 0 {
                return Err(ContextError::NoRpcEndpoints);
            }
            Ok(global.rpc_urls.clone())
        },
    }
}

/// A Yellowstone gRPC endpoint and its token.
pub struct YellowstoneConfig {
    pub endpoint: String,
    pub x_token: Option<String>,
}

/// Where the self-hosted Jupiter API listens and which RPC it reads.
pub struct JupiterCoreConfig {
    pub host: String,
    pub port: u16,
    pub rpc_url: String,
}

/// Launch settings of the self-hosted Jupiter binary.
pub struct JupiterLaunchConfig {
    pub yellowstone: Option<YellowstoneConfig>,
}

/// The self-hosted Jupiter configuration that the defaults fill in.
pub struct JupiterConfig {
    pub core: JupiterCoreConfig,
    pub launch: JupiterLaunchConfig,
}

/// The trimmed text, when it is not blank.
pub open spec fn non_blank(t: Option<Seq<char>>) -> Option<Seq<char>> {
    match t {
        Some(v) => if trim_spec(v).len() > 0 { Some(trim_spec(v)) } else { None },
        None => None,
    }
}

fn non_blank_exec(t: &Option<String>) -> (r: Option<String>)
    ensures
        match r {
            Some(s) => non_blank(match t { Some(v) => Some(v@), None => None }) == Some(s@),
            None => non_blank(match t { Some(v) => Some(v@), None => None }) is None,
        },
{
    match t {
        Some(v) => {
            let x = trim(v.as_str());
            if x.unicode_len() > 0 { Some(x) } else { None }
        },
        None => None,
    }
}

/// Fills in the self-hosted Jupiter defaults from the global configuration:
/// a blank RPC endpoint becomes the first of `global.rpc_urls` (and must not
/// stay blank); a missing or blank Yellowstone endpoint becomes the global one,
/// with the global token, when that is configured.
pub fn resolve_jupiter_defaults(jupiter: JupiterConfig, global: &GlobalConfig) -> (r: Result<JupiterConfig, ContextError>)
    ensures
        ({
            let rpc = if trim_spec(jupiter.core.rpc_url@).len() == 0 && global.rpc_urls@.len() > 0 {
                global.rpc_urls@[0]@
            } else {
                jupiter.core.rpc_url@
            };
            let needs = match jupiter.launch.yellowstone {
                Some(y) => trim_spec(y.endpoint@).len() == 0,
                None => true,
            };
            let global_endpoint = non_blank(match global.yellowstone_grpc_url { Some(v) => Some(v@), None => None });
            let global_token = non_blank(match global.yellowstone_grpc_token { Some(v) => Some(v@), None => None });
            if trim_spec(rpc).len() == 0 {
                r == Err::<JupiterConfig, ContextError>(ContextError::JupiterRpcMissing)
            } else {
                r matches Ok(j) && j.core.rpc_url@ == rpc && j.core.host == jupiter.core.host && j.core.port == jupiter.core.port
                    && if needs && global_endpoint is Some {
                        j.launch.yellowstone matches Some(y) && Some(y.endpoint@) == global_endpoint
                            && match y.x_token { Some(t) => global_token == Some(t@), None => global_token is None }
                    } else {
                        j.launch.yellowstone == jupiter.launch.yellowstone
                    }
            }
        }),
{
    let mut jupiter = jupiter;
    let blank = trim(jupiter.core.rpc_url.as_str()).unicode_len() == 0;
    if blank && global.rpc_urls.len() > 0 {
        jupiter.core.rpc_url = global.rpc_urls[0].clone();
    }
    if trim(jupiter.core.rpc_url.as_str()).unicode_len() == 0 {
        return Err(ContextError::JupiterRpcMissing);
    }
    let needs_yellowstone = match &jupiter.launch.yellowstone {
        Some(cfg) => trim(cfg.endpoint.as_str()).unicode_len() == 0,
        None => true,
    };
    if needs_yellowstone {
        if let Some(endpoint) = non_blank_exec(&global.yellowstone_grpc_url) {
            let token = non_blank_exec(&global.yellowstone_grpc_token);
            jupiter.launch.yellowstone = Some(YellowstoneConfig { endpoint, x_token: token });
        }
    }
    Ok(jupiter)
}

} // verus!
