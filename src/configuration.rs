//! The settings that shape the report, held in one value built at start-up
//! and handed to whatever reads them.

use vstd::prelude::*;

verus! {

/// The settings of the dumper.
pub struct Configuration {
    /// The folder for logs and dumps.
    pub log_dir: String,
    /// The only function whose information is dumped, if any.
    pub dump_mir_proc: Option<String>,
    /// Whether borrow-checker information is dumped at all.
    pub dump_mir_info: bool,
    /// Whether the report lists the function's variables.
    pub dump_show_temp_variables: bool,
    /// Whether the report numbers statements.
    pub dump_show_statement_indices: bool,
    /// Whether the compiler dumps its debug files too.
    pub dump_debug_info: bool,
    /// Whether this is a run under test.
    pub test: bool,
    /// Whether compilation continues after the analysis.
    pub full_compilation: bool,
}

/// The text of an optional string, if any.
pub open spec fn text_of(s: Option<String>) -> Option<Seq<char>> {
    match s {
        Some(t) => Some(t@),
        None => None,
    }
}

/// `"true"` or `"false"`.
pub open spec fn bool_text(b: bool) -> Seq<char> {
    if b {
        "true"@
    } else {
        "false"@
    }
}

/// One `KEY = value` line of the settings dump.
pub open spec fn setting_line(key: Seq<char>, value: Seq<char>) -> Seq<char> {
    key + " = "@ + value + "\n"@
}

/// The text of the settings dump: one line per setting; an absent function
/// name shows as `none`.
pub open spec fn dump_text(c: Configuration) -> Seq<char> {
    setting_line("LOG_DIR"@, c.log_dir@) + setting_line(
        "DUMP_MIR_PROC"@,
        match text_of(c.dump_mir_proc) {
            Some(t) => t,
            None => "none"@,
        },
    ) + setting_line("DUMP_MIR_INFO"@, bool_text(c.dump_mir_info)) + setting_line(
        "DUMP_SHOW_TEMP_VARIABLES"@,
        bool_text(c.dump_show_temp_variables),
    ) + setting_line("DUMP_SHOW_STATEMENT_INDICES"@, bool_text(c.dump_show_statement_indices))
        + setting_line("DUMP_DEBUG_INFO"@, bool_text(c.dump_debug_info)) + setting_line(
        "TEST"@,
        bool_text(c.test),
    ) + setting_line("FULL_COMPILATION"@, bool_text(c.full_compilation))
}

impl Configuration {
    /// The default settings: logs under `./log/`, every function dumped with
    /// its variables and statement numbers, no debug files, not under test,
    /// full compilation.
    pub fn defaults() -> (r: Configuration)
        ensures
            r.log_dir@ == "./log/"@,
            r.dump_mir_proc is None,
            r.dump_mir_info,
            r.dump_show_temp_variables,
            r.dump_show_statement_indices,
            !r.dump_debug_info,
            !r.test,
            r.full_compilation,
    {
        Configuration {
            log_dir: String::from_str("./log/"),
            dump_mir_proc: None,
            dump_mir_info: true,
            dump_show_temp_variables: true,
            dump_show_statement_indices: true,
            dump_debug_info: false,
            test: false,
            full_compilation: true,
        }
    }
}

fn append_bool(out: &mut String, b: bool)
    ensures
        final(out)@ == old(out)@ + bool_text(b),
{
    if b {
        out.append("true");
    } else {
        out.append("false");
    }
}

fn append_line(out: &mut String, key: &str, value: &str)
    ensures
        final(out)@ == old(out)@ + setting_line(key@, value@),
{
    out.append(key);
    out.append(" = ");
    out.append(value);
    out.append("\n");
    assert(final(out)@ =~= old(out)@ + setting_line(key@, value@));
}

fn append_bool_line(out: &mut String, key: &str, b: bool)
    ensures
        final(out)@ == old(out)@ + setting_line(key@, bool_text(b)),
{
    out.append(key);
    out.append(" = ");
    append_bool(out, b);
    out.append("\n");
    assert(final(out)@ =~= old(out)@ + setting_line(key@, bool_text(b)));
}

/// Generate a dump of the settings.
pub fn dump(config: &Configuration) -> (r: String)
    ensures
        r@ == dump_text(*config),
{
    let mut out = String::new();
    append_line(&mut out, "LOG_DIR", config.log_dir.as_str());
    match &config.dump_mir_proc {
        Some(name) => append_line(&mut out, "DUMP_MIR_PROC", name.as_str()),
        None => append_line(&mut out, "DUMP_MIR_PROC", "none"),
    }
    append_bool_line(&mut out, "DUMP_MIR_INFO", config.dump_mir_info);
    append_bool_line(&mut out, "DUMP_SHOW_TEMP_VARIABLES", config.dump_show_temp_variables);
    append_bool_line(&mut out, "DUMP_SHOW_STATEMENT_INDICES", config.dump_show_statement_indices);
    append_bool_line(&mut out, "DUMP_DEBUG_INFO", config.dump_debug_info);
    append_bool_line(&mut out, "TEST", config.test);
    append_bool_line(&mut out, "FULL_COMPILATION", config.full_compilation);
    assert(out@ =~= dump_text(*config));
    out
}

/// Should we dump borrowck info?
pub fn dump_mir_info(config: &Configuration) -> (r: bool)
    ensures
        r == config.dump_mir_info,
{
    config.dump_mir_info
}

/// Should the mir dump show temporary variables?
pub fn dump_show_temp_variables(config: &Configuration) -> (r: bool)
    ensures
        r == config.dump_show_temp_variables,
{
    config.dump_show_temp_variables
}

/// Should the mir dump show statement indices?
pub fn dump_show_statement_indices(config: &Configuration) -> (r: bool)
    ensures
        r == config.dump_show_statement_indices,
{
    config.dump_show_statement_indices
}

/// The function of which MIR info should be dumped.
pub fn dump_mir_proc(config: &Configuration) -> (r: Option<String>)
    ensures
        text_of(r) == text_of(config.dump_mir_proc),
{
    match &config.dump_mir_proc {
        Some(name) => Some(name.clone()),
        None => None,
    }
}

/// In which folder should we store logs and dumps?
pub fn log_dir(config: &Configuration) -> (r: String)
    ensures
        r@ == config.log_dir@,
{
    config.log_dir.clone()
}

/// Should we dump debug files?
pub fn dump_debug_info(config: &Configuration) -> (r: bool)
    ensures
        r == config.dump_debug_info,
{
    config.dump_debug_info
}

/// Are we running under test?
pub fn test(config: &Configuration) -> (r: bool)
    ensures
        r == config.test,
{
    config.test
}

/// Should compilation go on after the analysis?
pub fn full_compilation(config: &Configuration) -> (r: bool)
    ensures
        r == config.full_compilation,
{
    config.full_compilation
}

} // verus!
