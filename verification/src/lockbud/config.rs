//! Which detectors run, and on which crates.

use vstd::prelude::*;

use crate::text::str_eq;

verus! {

/// The detectors that can be selected.
#[derive(Clone, Copy, Debug, PartialEq, Eq, Structural)]
pub enum DetectorKind {
    Deadlock,
    AtomicityViolation,
    Memory,
    Panic,
    Channel,
}

/// The detector that a name selects, if any.
pub open spec fn detector_kind_named(s: Seq<char>) -> Option<DetectorKind> {
    if s == "deadlock"@ {
        Some(DetectorKind::Deadlock)
    } else if s == "atomicity_violation"@ || s == "atomicity"@ {
        Some(DetectorKind::AtomicityViolation)
    } else if s == "memory"@ {
        Some(DetectorKind::Memory)
    } else if s == "panic"@ {
        Some(DetectorKind::Panic)
    } else if s == "channel"@ {
        Some(DetectorKind::Channel)
    } else {
        None
    }
}

impl DetectorKind {
    /// The detector named `s`: `deadlock`, `atomicity_violation` (or `atomicity`), `memory`,
    /// `panic` or `channel`.
    pub fn from_str(s: &str) -> (r: Option<Self>)
        ensures
            r == detector_kind_named(s@),
    {
        if str_eq(s, "deadlock") {
            Some(DetectorKind::Deadlock)
        } else if str_eq(s, "atomicity_violation") || str_eq(s, "atomicity") {
            Some(DetectorKind::AtomicityViolation)
        } else if str_eq(s, "memory") {
            Some(DetectorKind::Memory)
        } else if str_eq(s, "panic") {
            Some(DetectorKind::Panic)
        } else if str_eq(s, "channel") {
            Some(DetectorKind::Channel)
        } else {
            None
        }
    }
}

/// Whether `name` is one of `names`.
pub open spec fn names_hold(names: Seq<String>, name: Seq<char>) -> bool {
    exists|i: int| 0 <= i < names.len() && (#[trigger] names[i])@ == name
}

/// What an analysis runs and reports.
pub struct LockbudConfig {
    /// The detectors to run; all of them when empty.
    pub kinds: Vec<DetectorKind>,
    /// The only crates to analyse, where given.
    pub crate_whitelist: Option<Vec<String>>,
    /// Crates never to analyse, where given.
    pub crate_blacklist: Option<Vec<String>>,
    /// Where the JSON report is written, where given.
    pub report_file: Option<String>,
}

impl LockbudConfig {
    /// Whether the detector `kind` runs under `kinds`.
    pub open spec fn kind_enabled(kinds: Seq<DetectorKind>, kind: DetectorKind) -> bool {
        kinds.len() == 0 || kinds.contains(kind)
    }

    /// Whether crate `name` is analysed under these lists: never when blacklisted, and only
    /// when whitelisted where there is a whitelist.
    pub open spec fn crate_allowed(
        whitelist: Option<Vec<String>>,
        blacklist: Option<Vec<String>>,
        name: Seq<char>,
    ) -> bool {
        &&& !(blacklist matches Some(b) && names_hold(b@, name))
        &&& (whitelist matches Some(w) ==> names_hold(w@, name))
    }

    /// All detectors, every crate, no report file.
    pub fn new() -> (r: Self)
        ensures
            r.kinds@.len() == 0,
            r.crate_whitelist is None,
            r.crate_blacklist is None,
            r.report_file is None,
    {
        Self { kinds: Vec::new(), crate_whitelist: None, crate_blacklist: None, report_file: None }
    }

    /// Whether the detector `kind` runs.
    pub fn is_kind_enabled(&self, kind: DetectorKind) -> (r: bool)
        ensures
            r == Self::kind_enabled(self.kinds@, kind),
    {
        if self.kinds.len() == 0 {
            return true;
        }
        let mut i: usize = 0;
        while i < self.kinds.len()
            invariant
                i <= self.kinds@.len(),
                forall|k: int| 0 <= k < i ==> self.kinds@[k] != kind,
            decreases self.kinds@.len() - i,
        {
            if self.kinds[i] == kind {
                assert(self.kinds@[i as int] == kind);
                return true;
            }
            i = i + 1;
        }
        false
    }

    /// Whether crate `crate_name` is analysed.
    pub fn is_crate_allowed(&self, crate_name: &str) -> (r: bool)
        ensures
            r == Self::crate_allowed(self.crate_whitelist, self.crate_blacklist, crate_name@),
    {
        if let Some(blacklist) = &self.crate_blacklist {
            if list_holds(blacklist, crate_name) {
                return false;
            }
        }
        if let Some(whitelist) = &self.crate_whitelist {
            return list_holds(whitelist, crate_name);
        }
        true
    }
}

/// Whether `name` is one of `names`.
fn list_holds(names: &Vec<String>, name: &str) -> (r: bool)
    ensures
        r == names_hold(names@, name@),
{
    let mut i: usize = 0;
    while i < names.len()
        invariant
            i <= names@.len(),
            forall|k: int| 0 <= k < i ==> (#[trigger] names@[k])@ != name@,
        decreases names@.len() - i,
    {
        if str_eq(names[i].as_str(), name) {
            return true;
        }
        i = i + 1;
    }
    false
}

impl Default for LockbudConfig {
    fn default() -> (r: Self)
        ensures
            r.kinds@.len() == 0,
            r.crate_whitelist is None,
            r.crate_blacklist is None,
            r.report_file is None,
    {
        Self::new()
    }
}

} // verus!
