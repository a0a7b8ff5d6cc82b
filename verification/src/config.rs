//! The decoded rule configuration one parameter is checked against.
//!
//! The library consumes already-decoded configuration objects; reading and
//! parsing any serialized form happens outside it. A configuration is a
//! contiguous list of per-level rule sets, level `0..=max_level`, each of
//! which independently may hold a boundary, consistency rules, a condition
//! and extension-module references.

use vstd::prelude::*;

use crate::boundary::Boundary;
use crate::flag::MAX_LEVEL;
use crate::textutil::string_eq_str;

verus! {

/// What `str::to_lowercase` returns: a function of the characters alone.
pub uninterp spec fn lower_of(s: Seq<char>) -> Seq<char>;

/// Relies on `str::to_lowercase`: the Unicode lowercase mapping of a
/// string, a function of its characters alone.
#[verifier::external_body]
fn lowercase(s: &str) -> (r: String)
    ensures
        r@ == lower_of(s@),
{
    s.to_lowercase()
}

/// The kind of extension module a reference names.
#[derive(Debug, Clone, Copy, PartialEq, Eq, Structural)]
pub enum ModuleType {
    Unknown,
    General,
    Python,
}

/// The module kind a (lowercased) name denotes.
pub open spec fn spec_module_type(t: Seq<char>) -> ModuleType {
    if t == "general"@ || t == "c"@ || t == "rust"@ {
        ModuleType::General
    } else if t == "python"@ {
        ModuleType::Python
    } else {
        ModuleType::Unknown
    }
}

impl ModuleType {
    /// Decodes a module-kind name, ignoring case.
    pub fn from_name(value: &str) -> (r: ModuleType)
        ensures
            r == spec_module_type(lower_of(value@)),
    {
        let low = lowercase(value);
        if string_eq_str(low.as_str(), "general") || string_eq_str(low.as_str(), "c")
            || string_eq_str(low.as_str(), "rust") {
            ModuleType::General
        } else if string_eq_str(low.as_str(), "python") {
            ModuleType::Python
        } else {
            ModuleType::Unknown
        }
    }
}

/// A reference to one pluggable verifier module.
#[derive(Debug)]
pub struct ExtModule {
    pub name: String,
    pub module_type: ModuleType,
    pub path: String,
    pub errorflag: bool,
}

/// Seconds one unit name stands for; an unknown unit means raw seconds.
pub open spec fn spec_unit_seconds(s: Seq<char>) -> u32 {
    if s == "m"@ || s == "min"@ || s == "minute"@ {
        60u32
    } else if s == "h"@ || s == "hr"@ || s == "hour"@ {
        3600u32
    } else if s == "d"@ || s == "day"@ {
        86400u32
    } else {
        1u32
    }
}

/// Maps a window-duration unit to seconds: minutes, hours or days; any
/// other unit is taken as raw seconds.
pub fn unit_seconds(unit: &str) -> (r: u32)
    ensures
        r == spec_unit_seconds(unit@),
{
    if string_eq_str(unit, "m") || string_eq_str(unit, "min") || string_eq_str(unit, "minute") {
        60
    } else if string_eq_str(unit, "h") || string_eq_str(unit, "hr") || string_eq_str(unit, "hour") {
        3600
    } else if string_eq_str(unit, "d") || string_eq_str(unit, "day") {
        86400
    } else {
        1
    }
}

/// One sliding-window consistency rule: over a trailing window of
/// `interval` units, readings may drift at most `difference` (scaled by
/// elapsed time over the full window).
#[derive(Debug)]
pub struct ConsistRule {
    pub interval: u32,
    pub unit: String,
    pub difference: i64,
}

impl ConsistRule {
    /// The trailing window length in seconds.
    pub open spec fn spec_window_secs(self) -> u64 {
        (self.interval * spec_unit_seconds(self.unit@)) as u64
    }

    /// The trailing window length in seconds.
    pub fn window_secs(&self) -> (r: u64)
        ensures
            r == self.spec_window_secs(),
    {
        let u = unit_seconds(self.unit.as_str());
        proof {
            assert((self.interval as u64) * (u as u64) <= 0xffff_ffffu64 * 86400u64)
                by (nonlinear_arith)
                requires
                    self.interval <= 0xffff_ffffu64,
                    u <= 86400u64,
            ;
        }
        (self.interval as u64) * (u as u64)
    }
}

/// How a cross-field condition judges the sibling values it requires.
#[derive(Debug, Clone, Copy, PartialEq, Eq, Structural)]
pub enum ConditionMode {
    /// Every required sibling must hold a value that is a number.
    Valid,
    /// No required sibling may hold a value that is exactly zero.
    NonZero,
}

/// A cross-field condition: the named sibling parameters of the same
/// reading batch must satisfy `mode`.
#[derive(Debug)]
pub struct Condition {
    pub valid: Vec<String>,
    pub mode: ConditionMode,
}

/// The rule set of one level. Every part is independently optional; an
/// empty part contributes no checks.
#[derive(Debug)]
pub struct LevelPattern {
    pub boundary: Option<Boundary>,
    pub consist: Vec<ConsistRule>,
    pub condition: Option<Condition>,
    pub module: Vec<ExtModule>,
    pub errorflag: bool,
}

impl LevelPattern {
    /// A level with no checks and no consequences.
    pub fn empty() -> (r: LevelPattern)
        ensures
            r.boundary is None,
            r.consist@.len() == 0,
            r.condition is None,
            r.module@.len() == 0,
            r.errorflag == false,
    {
        LevelPattern {
            boundary: None,
            consist: Vec::new(),
            condition: None,
            module: Vec::new(),
            errorflag: false,
        }
    }
}

/// A full per-parameter configuration: one `LevelPattern` per level,
/// contiguous from level 0.
#[derive(Debug)]
pub struct QCConfig {
    pub levels: Vec<LevelPattern>,
}

impl QCConfig {
    /// At least level 0 exists, and every level fits the flag layout.
    pub open spec fn wf(self) -> bool {
        1 <= self.levels@.len() <= MAX_LEVEL + 1
    }

    /// Builds a configuration from one rule set per level. Rejected when
    /// no level is given or more levels are given than the flag layout
    /// can record.
    pub fn new(levels: Vec<LevelPattern>) -> (r: Option<QCConfig>)
        ensures
            (r is Some) <==> 1 <= levels@.len() <= MAX_LEVEL + 1,
            r matches Some(c) ==> c.levels == levels && c.wf(),
    {
        if levels.len() >= 1 && levels.len() <= (MAX_LEVEL + 1) as usize {
            Some(QCConfig { levels })
        } else {
            None
        }
    }

    /// The highest configured level.
    pub fn max_level(&self) -> (r: usize)
        requires
            self.wf(),
        ensures
            r == self.levels@.len() - 1,
    {
        self.levels.len() - 1
    }

    /// The rule set of one level.
    pub fn members(&self, level: usize) -> (r: &LevelPattern)
        requires
            level < self.levels@.len(),
        ensures
            *r == self.levels@[level as int],
    {
        &self.levels[level]
    }

    /// The rule set of one level, for editing.
    pub fn members_mut(&mut self, level: usize) -> (r: &mut LevelPattern)
        requires
            level < old(self).levels@.len(),
        ensures
            *r == old(self).levels@[level as int],
            final(self).levels@ == old(self).levels@.update(level as int, *final(r)),
    {
        &mut self.levels[level]
    }
}

} // verus!
