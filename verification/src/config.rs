//! Decoded logger configuration and the assembly of loggers from it: the
//! logger-name default chain, the builder-registry lookup, and the checks
//! that make an unknown target type a hard error.

use crate::logger::Target;
use crate::{Error, Level, Logger};
use vstd::prelude::*;

verus! {

/// Carries the raw, already-decoded properties of a target through
/// assembly; the resolution core never looks inside a value of it.
#[verifier::external_type_specification]
#[verifier::external_body]
pub struct ExValue(serde_json::Value);

/// A format descriptor with its named placeholder values, decoded either
/// from a bare string or from a full map.
pub struct FormatConfig {
    /// The format string itself, forwarded unmodified.
    pub format: String,
    /// Named placeholder values, in their configured order.
    pub placeholders: Vec<(String, serde_json::Value)>,
}

impl FormatConfig {
    /// Builds the descriptor a bare format string decodes to: the string
    /// itself and no placeholders.
    pub fn from_str(s: &str) -> (r: FormatConfig)
        ensures
            r.format@ == s@,
            r.placeholders@.len() == 0,
    {
        FormatConfig { format: s.to_owned(), placeholders: Vec::new() }
    }
}

/// One configured target: the registry name of its kind and its raw
/// properties.
pub struct TargetConfig {
    /// The name looked up in the builder registry, such as `console` or
    /// `file`.
    pub target_type: String,
    /// Raw properties, handed to the builder unread.
    pub properties: serde_json::Value,
}

/// One decoded logger configuration.
pub struct LoggerConfig {
    /// An explicit display name, or `None` to fall back to the module,
    /// then to `root`.
    pub logger_name: Option<String>,
    /// The module path this logger is scoped to; `None` for a root
    /// logger.
    pub module: Option<String>,
    /// The accepted severities.
    pub levels: Vec<Level>,
    /// The configured targets, in dispatch order.
    pub targets: Vec<TargetConfig>,
    /// The format descriptor.
    pub format: FormatConfig,
    /// Whether a structure dump is requested.
    pub structure_dump: bool,
    /// Whether the logger applies to every deeper path as well.
    pub always_execute: bool,
}

/// A whole decoded configuration: module loggers and root loggers.
pub struct Config {
    /// Loggers scoped to a module.
    pub loggers: Vec<LoggerConfig>,
    /// Loggers with no module, applied universally.
    pub root_loggers: Vec<LoggerConfig>,
}

/// The level set a configuration gets when it names none.
pub fn default_levels() -> (r: Vec<Level>)
    ensures
        r@ == seq![Level::Trace, Level::Info, Level::Debug, Level::Warn, Level::Error],
{
    let mut r: Vec<Level> = Vec::new();
    r.push(Level::Trace);
    r.push(Level::Info);
    r.push(Level::Debug);
    r.push(Level::Warn);
    r.push(Level::Error);
    proof {
        assert(r@ =~= seq![Level::Trace, Level::Info, Level::Debug, Level::Warn, Level::Error]);
    }
    r
}

/// The display name a logger ends up with: the explicit name, else the
/// module, else `root`.
pub fn resolve_logger_name(logger_name: Option<String>, module: &Option<String>) -> (r: String)
    ensures
        match logger_name {
            Some(n) => r@ == n@,
            None => match module {
                Some(m) => r@ == m@,
                None => r@ == "root"@,
            },
        },
{
    match logger_name {
        Some(n) => n,
        None => match module {
            Some(m) => m.clone(),
            None => "root".to_owned(),
        },
    }
}

/// The index of the first builder name equal to `t`, or -1 when the
/// registry has none: which builder a target type is served by.
pub open spec fn builder_index(names: Seq<String>, t: Seq<char>) -> int
    decreases names.len(),
{
    if names.len() == 0 {
        -1
    } else if names[0]@ == t {
        0
    } else {
        let r = builder_index(names.skip(1), t);
        if r < 0 {
            -1
        } else {
            r + 1
        }
    }
}

proof fn lemma_builder_index_props(names: Seq<String>, t: Seq<char>)
    ensures
        -1 <= builder_index(names, t) < names.len(),
        builder_index(names, t) >= 0 ==> names[builder_index(names, t)]@ == t,
        forall|j: int|
            0 <= j < names.len() && #[trigger] names[j]@ == t ==> 0 <= builder_index(names, t)
                <= j,
    decreases names.len(),
{
    if names.len() > 0 && names[0]@ != t {
        lemma_builder_index_props(names.skip(1), t);
        if builder_index(names.skip(1), t) >= 0 {
            assert(names.skip(1)[builder_index(names.skip(1), t)] == names[builder_index(
                names,
                t,
            )]);
        }
        assert forall|j: int|
            0 <= j < names.len() && #[trigger] names[j]@ == t implies 0 <= builder_index(names, t)
            <= j by {
            if j > 0 {
                assert(names.skip(1)[j - 1] == names[j]);
            }
        }
    }
}

/// Looks a target type up in the registry's builder names: the first
/// builder with that exact name serves it, and `None` means the type is
/// unknown and assembly must fail.
pub fn find_builder(names: &Vec<String>, target_type: &String) -> (r: Option<usize>)
    ensures
        match r {
            Some(i) => i < names@.len() && i == builder_index(names@, target_type@),
            None => builder_index(names@, target_type@) == -1,
        },
{
    let mut i: usize = 0;
    while i < names.len()
        invariant
            i <= names@.len(),
            forall|j: int| 0 <= j < i ==> #[trigger] names@[j]@ != target_type@,
        decreases names@.len() - i,
    {
        if names[i] == *target_type {
            proof {
                lemma_builder_index_props(names@, target_type@);
            }
            return Some(i);
        }
        i = i + 1;
    }
    proof {
        lemma_builder_index_props(names@, target_type@);
    }
    None
}

/// The error assembly reports for a target type no builder serves.
pub fn unknown_target_type(target_type: &String) -> (r: Error)
    ensures
        r matches Error::UnknownTargetType(n) && n@ == target_type@,
{
    Error::UnknownTargetType(target_type.clone())
}

/// Materializes a logger from its configuration and its already-built
/// targets: the name default chain is resolved here, once, and the target
/// order is the configured order.
pub fn assemble_logger(config: LoggerConfig, targets: Vec<Target>) -> (r: Logger)
    ensures
        match config.logger_name {
            Some(n) => r.logger_name@ == n@,
            None => match config.module {
                Some(m) => r.logger_name@ == m@,
                None => r.logger_name@ == "root"@,
            },
        },
        r.module == config.module,
        r.levels == config.levels,
        r.targets == targets,
        r.always_execute == config.always_execute,
        r.structure_dump == config.structure_dump,
        r.format == config.format.format,
{
    let LoggerConfig {
        logger_name,
        module,
        levels,
        targets: _,
        format,
        structure_dump,
        always_execute,
    } = config;
    let name = resolve_logger_name(logger_name, &module);
    Logger {
        logger_name: name,
        module,
        levels,
        targets,
        always_execute,
        structure_dump,
        format: format.format,
    }
}

} // verus!
