//! The command line of the runtime.

use crate::text;
use vstd::prelude::*;

verus! {

/// What the runtime is started with.
#[derive(Debug, PartialEq, Eq)]
pub struct Cli {
    /// The agent's identifier, such as `com.example.weather`.
    pub agent_id: String,
    /// The agent's package, a ZIP file or a directory.
    pub package_path: String,
    /// Where the agent works.
    pub work_dir: String,
    /// Where the gateway is reached.
    pub gateway_endpoint: Option<String>,
    /// The gateway's socket; without one the runtime works alone.
    pub gateway_socket: Option<String>,
    /// Whether the debugger can attach.
    pub dev_mode: bool,
    /// The port of the debugger.
    pub debug_port: u16,
    /// `trace`, `debug`, `info`, `warn` or `error`.
    pub log_level: String,
    /// How large a log file may become, in megabytes; 0 for any size.
    pub log_file_size_mb: u64,
    /// How many log files are kept; 0 for any number.
    pub log_file_count: u64,
    /// A manifest in place of the package's own.
    pub manifest_path: Option<String>,
    /// The agent's configuration directory.
    pub config_dir: Option<String>,
}

/// The values of the options, as they are given.
#[derive(Debug, PartialEq, Eq)]
pub struct CliValues {
    pub agent_id: Option<String>,
    pub package_path: Option<String>,
    pub work_dir: Option<String>,
    pub gateway_endpoint: Option<String>,
    pub gateway_socket: Option<String>,
    pub dev_mode: bool,
    pub debug_port: Option<String>,
    pub log_level: Option<String>,
    pub log_file_size_mb: Option<String>,
    pub log_file_count: Option<String>,
    pub manifest_path: Option<String>,
    pub config_dir: Option<String>,
}

/// Why the runtime cannot be started.
#[derive(Debug, PartialEq, Eq)]
pub enum CliError {
    /// An option has to be given.
    Missing(String),
    /// The value of an option is no number, or too large.
    Invalid { option: String, value: String },
    /// The arguments cannot be read.
    Usage(String),
}

/// The port of the debugger, unless it is given.
pub const DEFAULT_DEBUG_PORT: u16 = 19878;

/// How detailed the log is, unless it is said.
pub const DEFAULT_LOG_LEVEL: &'static str = "info";

/// How large a log file may become, unless it is said.
pub const DEFAULT_LOG_FILE_SIZE_MB: u64 = 10;

/// How many log files are kept, unless it is said.
pub const DEFAULT_LOG_FILE_COUNT: u64 = 20;

/// The number of an option: `default` where it is not given, and none where it is
/// no number up to `max`.
pub open spec fn option_number(o: Option<String>, default: u64, max: u64) -> Option<u64> {
    match o {
        Some(s) => match text::number_value(s@) {
            Some(n) => if n <= max {
                Some(n)
            } else {
                None
            },
            None => None,
        },
        None => Some(default),
    }
}

/// The first option that has to be given and is not.
pub open spec fn missing(v: CliValues) -> Option<Seq<char>> {
    if v.agent_id is None {
        Some("agent-id"@)
    } else if v.package_path is None {
        Some("package-path"@)
    } else if v.work_dir is None {
        Some("work-dir"@)
    } else {
        None
    }
}

/// The first option whose number cannot be read, and its value.
pub open spec fn invalid(v: CliValues) -> Option<(Seq<char>, Seq<char>)> {
    if option_number(v.debug_port, DEFAULT_DEBUG_PORT as u64, u16::MAX as u64) is None {
        Some(("debug-port"@, v.debug_port->0@))
    } else if option_number(v.log_file_size_mb, DEFAULT_LOG_FILE_SIZE_MB, u64::MAX) is None {
        Some(("log-file-size-mb"@, v.log_file_size_mb->0@))
    } else if option_number(v.log_file_count, DEFAULT_LOG_FILE_COUNT, u64::MAX) is None {
        Some(("log-file-count"@, v.log_file_count->0@))
    } else {
        None
    }
}

/// `r` is what the runtime is started with when the options have the values `v`.
pub open spec fn is_started_with(v: CliValues, r: Result<Cli, CliError>) -> bool {
    match missing(v) {
        Some(option) => r matches Err(CliError::Missing(o)) && o@ == option,
        None => match invalid(v) {
            Some((option, value)) => r matches Err(CliError::Invalid { option: o, value: x })
                && o@ == option && x@ == value,
            None => r matches Ok(c) && c.agent_id == v.agent_id->0 && c.package_path
                == v.package_path->0 && c.work_dir == v.work_dir->0 && c.gateway_endpoint
                == v.gateway_endpoint && c.gateway_socket == v.gateway_socket && c.dev_mode
                == v.dev_mode && Some(c.debug_port as u64) == option_number(
                v.debug_port,
                DEFAULT_DEBUG_PORT as u64,
                u16::MAX as u64,
            ) && c.log_level@ == (match v.log_level {
                Some(l) => l@,
                None => DEFAULT_LOG_LEVEL@,
            }) && Some(c.log_file_size_mb) == option_number(
                v.log_file_size_mb,
                DEFAULT_LOG_FILE_SIZE_MB,
                u64::MAX,
            ) && Some(c.log_file_count) == option_number(
                v.log_file_count,
                DEFAULT_LOG_FILE_COUNT,
                u64::MAX,
            ) && c.manifest_path == v.manifest_path && c.config_dir == v.config_dir,
        },
    }
}

fn read_number(o: &Option<String>, default: u64, max: u64) -> (r: Option<u64>)
    ensures
        r == option_number(*o, default, max),
{
    match o {
        Some(s) => match text::parse_number(s.as_str()) {
            Some(n) => if n <= max {
                Some(n)
            } else {
                None
            },
            None => None,
        },
        None => Some(default),
    }
}

fn invalid_option(option: &str, value: Option<String>) -> (r: CliError)
    requires
        value is Some,
    ensures
        r matches CliError::Invalid { option: o, value: x } && o@ == option@ && x@ == value->0@,
{
    match value {
        Some(v) => CliError::Invalid { option: option.to_string(), value: v },
        None => CliError::Missing(option.to_string()),
    }
}

impl Cli {
    /// What the runtime is started with when the options have these values.
    pub fn from_values(v: CliValues) -> (r: Result<Cli, CliError>)
        ensures
            is_started_with(v, r),
    {
        let agent_id: String = match v.agent_id {
            Some(s) => s,
            None => {
                return Err(CliError::Missing("agent-id".to_string()));
            },
        };
        let package_path: String = match v.package_path {
            Some(s) => s,
            None => {
                return Err(CliError::Missing("package-path".to_string()));
            },
        };
        let work_dir: String = match v.work_dir {
            Some(s) => s,
            None => {
                return Err(CliError::Missing("work-dir".to_string()));
            },
        };
        let debug_port: u64 = match read_number(
            &v.debug_port,
            DEFAULT_DEBUG_PORT as u64,
            u16::MAX as u64,
        ) {
            Some(n) => n,
            None => {
                return Err(invalid_option("debug-port", v.debug_port));
            },
        };
        let log_file_size_mb: u64 = match read_number(
            &v.log_file_size_mb,
            DEFAULT_LOG_FILE_SIZE_MB,
            u64::MAX,
        ) {
            Some(n) => n,
            None => {
                return Err(invalid_option("log-file-size-mb", v.log_file_size_mb));
            },
        };
        let log_file_count: u64 = match read_number(
            &v.log_file_count,
            DEFAULT_LOG_FILE_COUNT,
            u64::MAX,
        ) {
            Some(n) => n,
            None => {
                return Err(invalid_option("log-file-count", v.log_file_count));
            },
        };
        Ok(
            Cli {
                agent_id,
                package_path,
                work_dir,
                gateway_endpoint: v.gateway_endpoint,
                gateway_socket: v.gateway_socket,
                dev_mode: v.dev_mode,
                debug_port: debug_port as u16,
                log_level: match v.log_level {
                    Some(l) => l,
                    None => DEFAULT_LOG_LEVEL.to_string(),
                },
                log_file_size_mb,
                log_file_count,
                manifest_path: v.manifest_path,
                config_dir: v.config_dir,
            },
        )
    }

    /// How large a log file may become before another is begun, if it may not
    /// become any size.
    pub fn log_split_mb(&self) -> (r: Option<u64>)
        ensures
            r == (if self.log_file_size_mb == 0 {
                None
            } else {
                Some(self.log_file_size_mb)
            }),
    {
        if self.log_file_size_mb == 0 {
            None
        } else {
            Some(self.log_file_size_mb)
        }
    }

    /// How many log files are kept, if not all of them are.
    pub fn log_files_kept(&self) -> (r: Option<u64>)
        ensures
            r == (if self.log_file_count == 0 {
                None
            } else {
                Some(self.log_file_count)
            }),
    {
        if self.log_file_count == 0 {
            None
        } else {
            Some(self.log_file_count)
        }
    }
}

#[verifier::external_type_specification]
#[verifier::external_body]
pub struct ExCommand(clap::Command);

#[verifier::external_type_specification]
#[verifier::external_body]
pub struct ExArgMatches(clap::ArgMatches);

/// The options of a `clap::Command` that take a value.
pub uninterp spec fn text_options(command: clap::Command) -> Set<Seq<char>>;

/// The options of a `clap::Command` that take none.
pub uninterp spec fn flag_options(command: clap::Command) -> Set<Seq<char>>;

/// The environment variables of the options of a `clap::Command` that have one.
pub uninterp spec fn variables(command: clap::Command) -> Map<Seq<char>, Seq<char>>;

/// No environment variables.
pub open spec fn no_variables() -> Map<Seq<char>, Seq<char>> {
    Map::empty()
}

/// The values that a `clap::ArgMatches` holds, by the options that take one.
pub uninterp spec fn text_values(matches: clap::ArgMatches) -> Map<Seq<char>, Option<Seq<char>>>;

/// The flags that a `clap::ArgMatches` holds, by the options that take no value.
pub uninterp spec fn flag_values(matches: clap::ArgMatches) -> Map<Seq<char>, bool>;

/// `outcome` is what `clap::Command::try_get_matches_from` may make of the
/// arguments `args`, in one environment or another: what it reads, or the text of
/// its error.
pub uninterp spec fn may_read(
    command: clap::Command,
    args: Seq<Seq<char>>,
    outcome: Result<clap::ArgMatches, Seq<char>>,
) -> bool;

/// The name can be that of an option, and is free for another one.
pub open spec fn is_free(command: clap::Command, name: Seq<char>) -> bool {
    &&& name.len() > 0
    &&& name[0] != '-'
    &&& !text_options(command).contains(name)
    &&& !flag_options(command).contains(name)
    &&& name != "help"@
    &&& name != "version"@
}

/// A command without options: `clap::Command::new`.
#[verifier::external_body]
fn new_command() -> (r: clap::Command)
    ensures
        text_options(r) == Set::<Seq<char>>::empty(),
        flag_options(r) == Set::<Seq<char>>::empty(),
        variables(r) == no_variables(),
{
    clap::Command::new("acowork-runtime")
        .about("Agent Runtime - unified execution engine for .agent packages")
        .version("0.1.0")
}

/// Adds an option that takes a value to a command: `clap::Command::arg`, with a
/// `clap::Arg` of this name, which is also the long form of the option.
#[verifier::external_body]
fn with_option(command: clap::Command, name: &'static str) -> (r: clap::Command)
    requires
        is_free(command, name@),
    ensures
        text_options(r) == text_options(command).insert(name@),
        flag_options(r) == flag_options(command),
        variables(r) == variables(command),
{
    command.arg(clap::Arg::new(name).long(name))
}

/// Adds an option that takes a value to a command, which the environment variable
/// `variable` gives where the arguments do not: `clap::Command::arg`, with a
/// `clap::Arg` of this name and its `env`.
#[verifier::external_body]
fn with_variable(command: clap::Command, name: &'static str, variable: &'static str) -> (r:
    clap::Command)
    requires
        is_free(command, name@),
    ensures
        text_options(r) == text_options(command).insert(name@),
        flag_options(r) == flag_options(command),
        variables(r) == variables(command).insert(name@, variable@),
{
    command.arg(clap::Arg::new(name).long(name).env(variable))
}

/// Adds an option without a value to a command: `clap::Command::arg`, with a
/// `clap::Arg` whose action is `SetTrue`.
#[verifier::external_body]
fn with_flag(command: clap::Command, name: &'static str) -> (r: clap::Command)
    requires
        is_free(command, name@),
    ensures
        text_options(r) == text_options(command),
        flag_options(r) == flag_options(command).insert(name@),
        variables(r) == variables(command),
{
    command.arg(clap::Arg::new(name).long(name).action(clap::ArgAction::SetTrue))
}

/// Reads arguments, of which the first is the program's name, with
/// `clap::Command::try_get_matches_from`. What is read, and the error where it is
/// refused, come from these arguments and the environment; what is read holds each
/// option of the command. Whether it succeeds and which values it holds depends on
/// the environment too, and is left unsaid.
#[verifier::external_body]
fn read_matches(command: clap::Command, args: Vec<String>) -> (r: Result<clap::ArgMatches, String>)
    ensures
        match r {
            Ok(m) => may_read(command, text::texts(args@), Ok(m)) && text_values(m).dom()
                == text_options(command) && flag_values(m).dom() == flag_options(command),
            Err(e) => may_read(command, text::texts(args@), Err(e@)),
        },
{
    command.try_get_matches_from(args).map_err(|e| e.to_string())
}

/// The value of an option, if it was given: `clap::ArgMatches::get_one`.
#[verifier::external_body]
fn value_of(matches_read: &clap::ArgMatches, name: &'static str) -> (r: Option<String>)
    requires
        text_values(*matches_read).dom().contains(name@),
    ensures
        text::opt_text(r) == text_values(*matches_read)[name@],
{
    matches_read.get_one::<String>(name).cloned()
}

/// Whether a flag was given: `clap::ArgMatches::get_flag`.
#[verifier::external_body]
fn flag_of(matches_read: &clap::ArgMatches, name: &'static str) -> (r: bool)
    requires
        flag_values(*matches_read).dom().contains(name@),
    ensures
        r == flag_values(*matches_read)[name@],
{
    matches_read.get_flag(name)
}

/// The names of the options that take a value.
pub open spec fn option_names() -> Set<Seq<char>> {
    Set::empty().insert("agent-id"@).insert("package-path"@).insert("work-dir"@).insert(
        "gateway-endpoint"@,
    ).insert("gateway-socket"@).insert("debug-port"@).insert("log-level"@).insert(
        "log-file-size-mb"@,
    ).insert("log-file-count"@).insert("manifest-path"@).insert("config-dir"@)
}

/// The environment variables of the options that have one.
pub open spec fn option_variables() -> Map<Seq<char>, Seq<char>> {
    no_variables().insert("agent-id"@, "ACOWORK_AGENT_ID"@).insert(
        "package-path"@,
        "ACOWORK_PACKAGE_PATH"@,
    ).insert("work-dir"@, "ACOWORK_WORK_DIR"@).insert(
        "gateway-endpoint"@,
        "ACOWORK_GATEWAY_ENDPOINT"@,
    ).insert("gateway-socket"@, "ACOWORK_GATEWAY_SOCKET"@).insert(
        "log-level"@,
        "ACOWORK_LOG_LEVEL"@,
    ).insert("log-file-size-mb"@, "ACOWORK_LOG_FILE_SIZE_MB"@).insert(
        "log-file-count"@,
        "ACOWORK_LOG_FILE_COUNT"@,
    ).insert("config-dir"@, "ACOWORK_CONFIG_DIR"@)
}

/// `c` is the command of the runtime: it has its options and their variables.
pub open spec fn is_runtime_command(c: clap::Command) -> bool {
    &&& text_options(c) == option_names()
    &&& flag_options(c) == Set::<Seq<char>>::empty().insert("dev-mode"@)
    &&& variables(c) == option_variables()
}

proof fn lemma_names_differ()
    ensures
        "agent-id"@.len() == 8,
        "package-path"@.len() == 12,
        "work-dir"@.len() == 8,
        "gateway-endpoint"@.len() == 16,
        "gateway-socket"@.len() == 14,
        "debug-port"@.len() == 10,
        "log-level"@.len() == 9,
        "log-file-size-mb"@.len() == 16,
        "log-file-count"@.len() == 14,
        "manifest-path"@.len() == 13,
        "config-dir"@.len() == 10,
        "dev-mode"@.len() == 8,
        "agent-id"@[0] != '-',
        "package-path"@[0] != '-',
        "work-dir"@[0] != '-',
        "gateway-endpoint"@[0] != '-',
        "gateway-socket"@[0] != '-',
        "debug-port"@[0] != '-',
        "log-level"@[0] != '-',
        "log-file-size-mb"@[0] != '-',
        "log-file-count"@[0] != '-',
        "manifest-path"@[0] != '-',
        "config-dir"@[0] != '-',
        "dev-mode"@[0] != '-',
        "help"@.len() == 4,
        "version"@.len() == 7,
        "agent-id"@ != "work-dir"@,
        "agent-id"@ != "dev-mode"@,
        "work-dir"@ != "dev-mode"@,
        "gateway-endpoint"@ != "log-file-size-mb"@,
        "gateway-socket"@ != "log-file-count"@,
        "debug-port"@ != "config-dir"@,
{
    reveal_strlit("agent-id");
    reveal_strlit("package-path");
    reveal_strlit("work-dir");
    reveal_strlit("gateway-endpoint");
    reveal_strlit("gateway-socket");
    reveal_strlit("debug-port");
    reveal_strlit("log-level");
    reveal_strlit("log-file-size-mb");
    reveal_strlit("log-file-count");
    reveal_strlit("manifest-path");
    reveal_strlit("config-dir");
    reveal_strlit("dev-mode");
    reveal_strlit("help");
    reveal_strlit("version");
    assert("agent-id"@[0] != "work-dir"@[0]);
    assert("agent-id"@[0] != "dev-mode"@[0]);
    assert("work-dir"@[0] != "dev-mode"@[0]);
    assert("gateway-endpoint"@[0] != "log-file-size-mb"@[0]);
    assert("gateway-socket"@[0] != "log-file-count"@[0]);
    assert("debug-port"@[0] != "config-dir"@[0]);
}

fn runtime_command() -> (r: clap::Command)
    ensures
        is_runtime_command(r),
{
    proof {
        lemma_names_differ();
    }
    let c: clap::Command = new_command();
    let c: clap::Command = with_variable(c, "agent-id", "ACOWORK_AGENT_ID");
    let c: clap::Command = with_variable(c, "package-path", "ACOWORK_PACKAGE_PATH");
    let c: clap::Command = with_variable(c, "work-dir", "ACOWORK_WORK_DIR");
    let c: clap::Command = with_variable(c, "gateway-endpoint", "ACOWORK_GATEWAY_ENDPOINT");
    let c: clap::Command = with_variable(c, "gateway-socket", "ACOWORK_GATEWAY_SOCKET");
    let c: clap::Command = with_option(c, "debug-port");
    let c: clap::Command = with_variable(c, "log-level", "ACOWORK_LOG_LEVEL");
    let c: clap::Command = with_variable(c, "log-file-size-mb", "ACOWORK_LOG_FILE_SIZE_MB");
    let c: clap::Command = with_variable(c, "log-file-count", "ACOWORK_LOG_FILE_COUNT");
    let c: clap::Command = with_option(c, "manifest-path");
    let c: clap::Command = with_variable(c, "config-dir", "ACOWORK_CONFIG_DIR");
    with_flag(c, "dev-mode")
}

/// `v` are the values of the runtime's options in `m`.
pub open spec fn are_values(m: clap::ArgMatches, v: CliValues) -> bool {
    let t = text_values(m);
    &&& text::opt_text(v.agent_id) == t["agent-id"@]
    &&& text::opt_text(v.package_path) == t["package-path"@]
    &&& text::opt_text(v.work_dir) == t["work-dir"@]
    &&& text::opt_text(v.gateway_endpoint) == t["gateway-endpoint"@]
    &&& text::opt_text(v.gateway_socket) == t["gateway-socket"@]
    &&& v.dev_mode == flag_values(m)["dev-mode"@]
    &&& text::opt_text(v.debug_port) == t["debug-port"@]
    &&& text::opt_text(v.log_level) == t["log-level"@]
    &&& text::opt_text(v.log_file_size_mb) == t["log-file-size-mb"@]
    &&& text::opt_text(v.log_file_count) == t["log-file-count"@]
    &&& text::opt_text(v.manifest_path) == t["manifest-path"@]
    &&& text::opt_text(v.config_dir) == t["config-dir"@]
}

fn read_values(m: &clap::ArgMatches) -> (r: CliValues)
    requires
        text_values(*m).dom() == option_names(),
        flag_values(*m).dom() == Set::<Seq<char>>::empty().insert("dev-mode"@),
    ensures
        are_values(*m, r),
{
    CliValues {
        agent_id: value_of(m, "agent-id"),
        package_path: value_of(m, "package-path"),
        work_dir: value_of(m, "work-dir"),
        gateway_endpoint: value_of(m, "gateway-endpoint"),
        gateway_socket: value_of(m, "gateway-socket"),
        dev_mode: flag_of(m, "dev-mode"),
        debug_port: value_of(m, "debug-port"),
        log_level: value_of(m, "log-level"),
        log_file_size_mb: value_of(m, "log-file-size-mb"),
        log_file_count: value_of(m, "log-file-count"),
        manifest_path: value_of(m, "manifest-path"),
        config_dir: value_of(m, "config-dir"),
    }
}

/// `v` are the values of the runtime's options that may be read from `args`.
pub open spec fn may_be_given(args: Seq<Seq<char>>, v: CliValues) -> bool {
    exists|c: clap::Command, m: clap::ArgMatches| #[trigger]
        may_read(c, args, Ok(m)) && is_runtime_command(c) && are_values(m, v)
}

/// `error` is what may be said where `args` are refused.
pub open spec fn may_be_refused(args: Seq<Seq<char>>, error: Seq<char>) -> bool {
    exists|c: clap::Command| #[trigger] may_read(c, args, Err(error)) && is_runtime_command(c)
}

impl Cli {
    /// What the runtime is started with when its arguments are `args`, the first
    /// of which is its name. Options that are not among them may be given by the
    /// environment.
    pub fn parse_from(args: Vec<String>) -> (r: Result<Cli, CliError>)
        ensures
            (r matches Err(CliError::Usage(e)) && may_be_refused(text::texts(args@), e@))
                || exists|v: CliValues| #[trigger]
                may_be_given(text::texts(args@), v) && is_started_with(v, r),
    {
        let command: clap::Command = runtime_command();
        let ghost c: clap::Command = command;
        match read_matches(command, args) {
            Ok(m) => {
                let v: CliValues = read_values(&m);
                proof {
                    assert(may_read(c, text::texts(args@), Ok(m)));
                    assert(may_be_given(text::texts(args@), v));
                }
                Cli::from_values(v)
            },
            Err(e) => Err(CliError::Usage(e)),
        }
    }
}

} // verus!
