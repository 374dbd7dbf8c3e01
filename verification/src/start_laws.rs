//! What the runtime is started with, and how a summary is asked for.

use crate::cli::{Cli, CliError, CliValues};
use crate::cli;
use crate::prompt;
use crate::text;
use vstd::prelude::*;

verus! {

/// The runtime is not started without an agent, its package and a place to work: the first
/// of these that is missing is named.
pub proof fn three_options_are_needed(v: CliValues, r: Result<Cli, CliError>)
    requires
        cli::is_started_with(v, r),
    ensures
        v.agent_id is None ==> (r matches Err(CliError::Missing(o)) && o@ == "agent-id"@),
        v.agent_id is Some && v.package_path is None ==> (r matches Err(CliError::Missing(o)) && o@
            == "package-path"@),
        v.agent_id is Some && v.package_path is Some && v.work_dir is None ==> (r matches Err(
            CliError::Missing(o),
        ) && o@ == "work-dir"@),
        v.agent_id is Some && v.package_path is Some && v.work_dir is Some ==> !(r matches Err(
            CliError::Missing(_),
        )),
        !(r matches Err(CliError::Usage(_))),
{
}

/// An option with a number is given one that fits, or is not given.
pub open spec fn is_number_option(o: Option<String>, max: int) -> bool {
    o matches Some(s) ==> (text::number_value(s@) matches Some(n) && n <= max)
}

/// The runtime is started with the values that are given. Where they are not given, the
/// debugger listens at its usual port, the log tells what is worth knowing, and keeps
/// twenty files of ten megabytes.
pub proof fn values_are_taken(v: CliValues, r: Result<Cli, CliError>)
    requires
        cli::is_started_with(v, r),
        v.agent_id is Some && v.package_path is Some && v.work_dir is Some,
    ensures
        r is Ok <==> is_number_option(v.debug_port, 65535) && is_number_option(
            v.log_file_size_mb,
            u64::MAX as int,
        ) && is_number_option(v.log_file_count, u64::MAX as int),
        r matches Err(CliError::Invalid { option, value }) ==> (option@ == "debug-port"@ && Some(
            value@,
        ) == text::opt_text(v.debug_port)) || (option@ == "log-file-size-mb"@ && Some(value@)
            == text::opt_text(v.log_file_size_mb)) || (option@ == "log-file-count"@ && Some(value@)
            == text::opt_text(v.log_file_count)),
        r matches Ok(c) ==> {
            &&& c.agent_id == v.agent_id->0
            &&& c.package_path == v.package_path->0
            &&& c.work_dir == v.work_dir->0
            &&& c.gateway_endpoint == v.gateway_endpoint
            &&& c.gateway_socket == v.gateway_socket
            &&& c.dev_mode == v.dev_mode
            &&& c.manifest_path == v.manifest_path
            &&& c.config_dir == v.config_dir
            &&& v.debug_port is None ==> c.debug_port == 19878
            &&& v.debug_port matches Some(s) ==> text::number_value(s@) == Some(c.debug_port as u64)
            &&& v.log_level is None ==> c.log_level@ == "info"@
            &&& v.log_level matches Some(s) ==> c.log_level@ == s@
            &&& v.log_file_size_mb is None ==> c.log_file_size_mb == 10
            &&& v.log_file_size_mb matches Some(s) ==> text::number_value(s@) == Some(
                c.log_file_size_mb,
            )
            &&& v.log_file_count is None ==> c.log_file_count == 20
            &&& v.log_file_count matches Some(s) ==> text::number_value(s@) == Some(
                c.log_file_count,
            )
        },
{
}

/// A summary is asked for with the prompt that is set, and with what is known of the user
/// behind it, where anything is.
pub proof fn summaries_know_the_user(base: Seq<char>, identity: Option<Seq<char>>) -> (k: int)
    ensures
        ({
            let p = prompt::compaction_system_prompt(base, identity);
            &&& base.is_prefix_of(p)
            &&& identity is None ==> p == base
            &&& identity matches Some(c) ==> {
                &&& text::trimmed(c).len() == 0 ==> p == base
                &&& text::trimmed(c).len() > 0 ==> base.len() <= k && k + text::trimmed(c).len()
                    <= p.len() && p.subrange(k, k + text::trimmed(c).len()) == text::trimmed(c)
            }
        }),
{
    let p = prompt::compaction_system_prompt(base, identity);
    assert(p.take(base.len() as int) =~= base);
    match identity {
        Some(c) if text::trimmed(c).len() > 0 => {
            let note = "\n\nUser identity context (use the Language field to determine what language to write the summary in):\n"@;
            let k = (base.len() + note.len()) as int;
            let t = text::trimmed(c);
            assert(p.subrange(k, k + t.len()) =~= t);
            k
        },
        _ => 0,
    }
}

/// The options of the runtime have their names and their variables.
pub proof fn options_have_their_variables(c: clap::Command)
    requires
        cli::is_runtime_command(c),
    ensures
        cli::text_options(c).contains("agent-id"@),
        cli::text_options(c).contains("package-path"@),
        cli::text_options(c).contains("work-dir"@),
        cli::text_options(c).contains("gateway-endpoint"@),
        cli::text_options(c).contains("gateway-socket"@),
        cli::text_options(c).contains("debug-port"@),
        cli::text_options(c).contains("log-level"@),
        cli::text_options(c).contains("log-file-size-mb"@),
        cli::text_options(c).contains("log-file-count"@),
        cli::text_options(c).contains("manifest-path"@),
        cli::text_options(c).contains("config-dir"@),
        cli::flag_options(c).contains("dev-mode"@),
        cli::variables(c).contains_pair("config-dir"@, "ACOWORK_CONFIG_DIR"@),
{
}

/// The values of the options are those that were read under their names.
pub proof fn values_are_those_of_the_options(m: clap::ArgMatches, v: CliValues)
    requires
        cli::are_values(m, v),
    ensures
        text::opt_text(v.agent_id) == cli::text_values(m)["agent-id"@],
        text::opt_text(v.package_path) == cli::text_values(m)["package-path"@],
        text::opt_text(v.work_dir) == cli::text_values(m)["work-dir"@],
        text::opt_text(v.gateway_endpoint) == cli::text_values(m)["gateway-endpoint"@],
        text::opt_text(v.gateway_socket) == cli::text_values(m)["gateway-socket"@],
        v.dev_mode == cli::flag_values(m)["dev-mode"@],
        text::opt_text(v.debug_port) == cli::text_values(m)["debug-port"@],
        text::opt_text(v.log_level) == cli::text_values(m)["log-level"@],
        text::opt_text(v.log_file_size_mb) == cli::text_values(m)["log-file-size-mb"@],
        text::opt_text(v.log_file_count) == cli::text_values(m)["log-file-count"@],
        text::opt_text(v.manifest_path) == cli::text_values(m)["manifest-path"@],
        text::opt_text(v.config_dir) == cli::text_values(m)["config-dir"@],
{
}

/// Values that may be given were read by the command of the runtime, and so was what is said
/// of arguments that are refused.
pub proof fn arguments_are_read_by_the_command(
    args: Seq<Seq<char>>,
    v: CliValues,
    error: Seq<char>,
)
    ensures
        cli::may_be_given(args, v) ==> exists|c: clap::Command, m: clap::ArgMatches| #[trigger]
            cli::may_read(c, args, Ok(m)) && cli::is_runtime_command(c) && cli::are_values(m, v),
        cli::may_be_refused(args, error) ==> exists|c: clap::Command| #[trigger]
            cli::may_read(c, args, Err(error)) && cli::is_runtime_command(c),
{
}

} // verus!
