//! The logger entity: a named, module-scoped bundle of accepted levels,
//! ordered targets, a format descriptor and the always-execute flag.

use crate::Level;
use vstd::prelude::*;

verus! {

/// An opaque handle to a log sink: what the resolution core reads of a
/// target is its type name and its declared format; dispatch itself lives
/// with the caller.
pub struct Target {
    pub name: String,
    pub format: String,
}

/// A logger registered at a module path (or at the root, when `module` is
/// `None`). Pure data: resolution only reads `module` and `always_execute`
/// and hands the rest through unchanged.
pub struct Logger {
    /// Unique display identifier; defaulted at assembly time.
    pub logger_name: String,
    /// `::`-separated path of the node this logger is registered at;
    /// `None` for a root logger.
    pub module: Option<String>,
    /// Severities this logger accepts; order irrelevant here.
    pub levels: Vec<Level>,
    /// Ordered dispatch targets; the order is preserved everywhere.
    pub targets: Vec<Target>,
    /// When true, this logger also applies to every path that resolves
    /// strictly deeper than its own node.
    pub always_execute: bool,
    /// Whether a structure dump is requested; carried through unchanged.
    pub structure_dump: bool,
    /// Opaque format descriptor, forwarded unmodified.
    pub format: String,
}

/// The mathematical value of a `Target`.
pub struct TargetV {
    pub name: Seq<char>,
    pub format: Seq<char>,
}

/// The mathematical value of a `Logger`.
pub struct LoggerV {
    pub logger_name: Seq<char>,
    pub module: Option<Seq<char>>,
    pub levels: Seq<Level>,
    pub targets: Seq<TargetV>,
    pub always_execute: bool,
    pub structure_dump: bool,
    pub format: Seq<char>,
}

impl View for Target {
    type V = TargetV;

    open spec fn view(&self) -> TargetV {
        TargetV { name: self.name@, format: self.format@ }
    }
}

impl View for Logger {
    type V = LoggerV;

    open spec fn view(&self) -> LoggerV {
        LoggerV {
            logger_name: self.logger_name@,
            module: match self.module {
                Some(m) => Some(m@),
                None => None,
            },
            levels: self.levels@,
            targets: self.targets@.map_values(|t: Target| t@),
            always_execute: self.always_execute,
            structure_dump: self.structure_dump,
            format: self.format@,
        }
    }
}

/// The values of a sequence of loggers.
pub open spec fn loggers_v(ls: Seq<Logger>) -> Seq<LoggerV> {
    ls.map_values(|l: Logger| l@)
}

impl Clone for Target {
    fn clone(&self) -> (r: Target)
        ensures
            r@ == self@,
    {
        Target { name: self.name.clone(), format: self.format.clone() }
    }
}

fn clone_levels(v: &Vec<Level>) -> (r: Vec<Level>)
    ensures
        r@ == v@,
{
    let mut r: Vec<Level> = Vec::new();
    let mut j: usize = 0;
    while j < v.len()
        invariant
            j <= v@.len(),
            r@ == v@.subrange(0, j as int),
        decreases v@.len() - j,
    {
        r.push(v[j]);
        proof {
            assert(v@.subrange(0, j as int).push(v@[j as int]) =~= v@.subrange(0, j + 1));
        }
        j = j + 1;
    }
    proof {
        assert(v@.subrange(0, v@.len() as int) =~= v@);
    }
    r
}

fn clone_targets(v: &Vec<Target>) -> (r: Vec<Target>)
    ensures
        r@.map_values(|t: Target| t@) == v@.map_values(|t: Target| t@),
{
    let mut r: Vec<Target> = Vec::new();
    let mut j: usize = 0;
    while j < v.len()
        invariant
            j <= v@.len(),
            r@.map_values(|t: Target| t@) == v@.subrange(0, j as int).map_values(
                |t: Target| t@,
            ),
        decreases v@.len() - j,
    {
        let t = v[j].clone();
        proof {
            assert((r@.push(t)).map_values(|x: Target| x@) =~= r@.map_values(
                |x: Target| x@,
            ).push(t@));
            assert(v@.subrange(0, j as int).map_values(|x: Target| x@).push(v@[j as int]@)
                =~= v@.subrange(0, j + 1).map_values(|x: Target| x@));
        }
        r.push(t);
        j = j + 1;
    }
    proof {
        assert(v@.subrange(0, v@.len() as int) =~= v@);
    }
    r
}

impl Clone for Logger {
    fn clone(&self) -> (r: Logger)
        ensures
            r@ == self@,
    {
        Logger {
            logger_name: self.logger_name.clone(),
            module: match &self.module {
                Some(m) => Some(m.clone()),
                None => None,
            },
            levels: clone_levels(&self.levels),
            targets: clone_targets(&self.targets),
            always_execute: self.always_execute,
            structure_dump: self.structure_dump,
            format: self.format.clone(),
        }
    }
}

} // verus!
