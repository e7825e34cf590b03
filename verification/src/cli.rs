//! The command line: its commands and options, and the choices taken from
//! them before any work starts. Paths are their text.
use vstd::prelude::*;
use vstd::string::*;
use crate::text::{trim, trim_spec, parse_unsigned, parse_unsigned_spec};
use crate::config::QuoteParallelism;

verus! {

/// The command line of the bot.
#[derive(Clone, Debug)]
pub struct Cli {
    /// The configuration file, when not one of the default places.
    pub config: Option<String>,
    pub command: Command,
}

/// What the bot is asked to do.
#[derive(Clone, Debug)]
pub enum Command {
    /// Lander tools.
    Lander(LanderCmd),
    /// Run the configured strategy.
    Run,
    /// Run the configured strategy without sending transactions.
    StrategyDryRun,
    /// Write template configuration files.
    Init(InitCmd),
    /// Manage wallets.
    Wallet(WalletCmd),
}

/// Options of `init`.
#[derive(Clone, Debug)]
pub struct InitCmd {
    /// The directory to write to, when not the current one.
    pub output: Option<String>,
    /// Overwrite files that exist.
    pub force: bool,
}

/// Lander tools.
#[derive(Clone, Debug)]
pub enum LanderCmd {
    /// Send a transaction with the given landers.
    Send(LanderSendArgs),
}

/// Wallet tools.
#[derive(Clone, Debug)]
pub enum WalletCmd {
    /// Add a wallet key interactively.
    Add(WalletAddArgs),
}

/// Options of `wallet add`: there are none.
#[derive(Clone, Copy, Debug, Default)]
pub struct WalletAddArgs {}

/// Options of `lander send`.
#[derive(Clone, Debug)]
pub struct LanderSendArgs {
    /// The JSON file holding the swap instructions.
    pub instructions: String,
    /// The landers to try first.
    pub landers: Vec<String>,
    /// How long submission may take, in milliseconds.
    pub deadline_ms: u64,
    /// The tip added to the transaction, in lamports.
    pub tip_lamports: u64,
}

/// The submission deadline when none is given, in milliseconds.
pub const DEFAULT_DEADLINE_MS: u64 = 5_000;

impl LanderSendArgs {
    /// The options of `lander send` for an instructions file, with the defaults
    /// of the others: no landers, a five second deadline and no tip.
    pub fn with_defaults(instructions: String) -> (a: Self)
        ensures
            a.instructions@ == instructions@,
            a.landers@.len() == 0,
            a.deadline_ms == DEFAULT_DEADLINE_MS,
            a.tip_lamports == 0,
    {
        LanderSendArgs { instructions, landers: Vec::new(), deadline_ms: DEFAULT_DEADLINE_MS, tip_lamports: 0 }
    }
}

/// The self-hosted Jupiter binary is needed to run a strategy when the blind
/// strategy is on; other commands do not need it.
pub open spec fn needs_jupiter_spec(command: Command, blind_strategy_enabled: bool) -> bool {
    match command {
        Command::Run | Command::StrategyDryRun => blind_strategy_enabled,
        _ => false,
    }
}

/// Whether a command needs the self-hosted Jupiter binary.
pub fn command_needs_jupiter(command: &Command, blind_strategy_enabled: bool) -> (r: bool)
    ensures
        r == needs_jupiter_spec(*command, blind_strategy_enabled),
{
    match command {
        Command::Run | Command::StrategyDryRun => blind_strategy_enabled,
        _ => false,
    }
}

/// The number of worker threads that a setting asks for: a positive number,
/// surrounding blanks ignored; nothing for a missing, blank, malformed or zero setting.
pub open spec fn thread_count_spec(raw: Option<Seq<char>>) -> Option<nat> {
    match raw {
        None => None,
        Some(text) => {
            let t = trim_spec(text);
            if t.len() == 0 {
                None
            } else {
                match parse_unsigned_spec(t, usize::MAX as nat) {
                    Some(v) => if v > 0 { Some(v) } else { None },
                    None => None,
                }
            }
        },
    }
}

/// Reads the configured number of worker threads from the text of its setting.
pub fn configured_thread_count(raw: Option<&str>) -> (r: Option<usize>)
    ensures
        match r {
            Some(n) => thread_count_spec(opt_str_view(raw)) == Some(n as nat),
            None => thread_count_spec(opt_str_view(raw)) is None,
        },
{
    match raw {
        None => None,
        Some(text) => {
            let t = trim(text);
            if t.unicode_len() == 0 {
                return None;
            }
            match parse_unsigned(t.as_str(), usize::MAX as u64) {
                Some(v) => if v > 0 { Some(v as usize) } else { None },
                None => None,
            }
        },
    }
}

/// The text of an optional string slice.
pub open spec fn opt_str_view(o: Option<&str>) -> Option<Seq<char>> {
    match o {
        Some(s) => Some(s@),
        None => None,
    }
}

/// A fixed quote parallelism, never below one; none when it is automatic.
pub fn parallelism_override(value: QuoteParallelism) -> (r: Option<u16>)
    ensures
        r == (match value {
            QuoteParallelism::Auto => None,
            QuoteParallelism::Fixed(limit) => Some(if limit == 0 { 1u16 } else { limit }),
        }),
{
    match value {
        QuoteParallelism::Auto => None,
        QuoteParallelism::Fixed(limit) => Some(if limit == 0 { 1 } else { limit }),
    }
}

/// The places the configuration is looked for when none is given, in order.
pub open spec fn default_config_paths() -> Seq<Seq<char>> {
    seq!["galileo.yaml"@, "config/galileo.yaml"@]
}

/// The default places of the configuration.
pub fn default_config_path_list() -> (v: Vec<String>)
    ensures
        crate::text::string_views(v@) == default_config_paths(),
{
    let mut v: Vec<String> = Vec::new();
    v.push(String::from_str("galileo.yaml"));
    v.push(String::from_str("config/galileo.yaml"));
    proof {
        reveal_strlit("galileo.yaml");
        reveal_strlit("config/galileo.yaml");
    }
    assert(crate::text::string_views(v@) =~= default_config_paths());
    v
}

/// Why no configuration file could be chosen.
#[derive(Clone, Debug)]
pub enum ConfigPathError {
    /// The file given on the command line does not exist.
    MissingOverride(String),
    /// None of the default places holds a file.
    NotFound,
}

/// The configuration file to edit: the one given, if it exists, else the first
/// default place that holds a file.
pub fn resolve_config_path(override_path: Option<String>, override_exists: bool, defaults_exist: &Vec<bool>) -> (r: Result<String, ConfigPathError>)
    requires
        defaults_exist@.len() == default_config_paths().len(),
    ensures
        match override_path {
            Some(p) => match r {
                Ok(q) => override_exists && q@ == p@,
                Err(ConfigPathError::MissingOverride(q)) => !override_exists && q@ == p@,
                Err(_) => false,
            },
            None => match r {
                Ok(q) => exists|i: int| 0 <= i < defaults_exist@.len() && #[trigger] defaults_exist@[i]
                    && q@ == default_config_paths()[i]
                    && forall|j: int| 0 <= j < i ==> !#[trigger] defaults_exist@[j],
                Err(ConfigPathError::NotFound) => forall|i: int| 0 <= i < defaults_exist@.len() ==> !#[trigger] defaults_exist@[i],
                Err(_) => false,
            },
        },
{
    match override_path {
        Some(p) => {
            if override_exists {
                Ok(p)
            } else {
                Err(ConfigPathError::MissingOverride(p))
            }
        },
        None => first_default_config(defaults_exist),
    }
}

/// The first default place of the configuration that holds a file.
fn first_default_config(defaults_exist: &Vec<bool>) -> (r: Result<String, ConfigPathError>)
    requires
        defaults_exist@.len() == default_config_paths().len(),
    ensures
        match r {
            Ok(q) => exists|i: int| 0 <= i < defaults_exist@.len() && #[trigger] defaults_exist@[i]
                && q@ == default_config_paths()[i]
                && forall|j: int| 0 <= j < i ==> !#[trigger] defaults_exist@[j],
            Err(ConfigPathError::NotFound) => forall|i: int| 0 <= i < defaults_exist@.len() ==> !#[trigger] defaults_exist@[i],
            Err(_) => false,
        },
{
    let defaults = default_config_path_list();
    let mut i: usize = 0;
    while i < defaults_exist.len()
        invariant
            i <= defaults_exist@.len(),
            defaults_exist@.len() == default_config_paths().len(),
            crate::text::string_views(defaults@) == default_config_paths(),
            forall|j: int| 0 <= j < i ==> !#[trigger] defaults_exist@[j],
        decreases defaults_exist@.len() - i,
    {
        if defaults_exist[i] {
            assert(defaults@[i as int]@ == crate::text::string_views(defaults@)[i as int]);
            return Ok(defaults[i].clone());
        }
        i = i + 1;
    }
    Err(ConfigPathError::NotFound)
}

/// The work a wallet command asks for.
#[derive(Clone, Debug)]
pub enum WalletTask {
    /// Add a wallet to the configuration file, the one given or a default one.
    AddWallet { config_override: Option<String> },
}

/// What a wallet command does: `add` adds a wallet to the configuration file.
pub fn handle_wallet_command(cmd: &WalletCmd, override_path: Option<String>) -> (t: WalletTask)
    ensures
        match (*cmd, t) {
            (WalletCmd::Add(_), WalletTask::AddWallet { config_override }) => match (config_override, override_path) {
                (Some(a), Some(b)) => a@ == b@,
                (None, None) => true,
                _ => false,
            },
        },
{
    match cmd {
        WalletCmd::Add(_) => WalletTask::AddWallet { config_override: override_path },
    }
}

} // verus!
