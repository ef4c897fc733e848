//! How much attention a gained capability deserves.
use crate::text::is_same_but_case;
use std::cmp::Ordering;
use std::str::FromStr;
use vstd::prelude::*;
use vstd::std_specs::cmp::PartialOrdSpec;

verus! {

/// How much attention a gained capability deserves.
#[derive(Debug, Clone, Copy, PartialEq, Eq, Ord, Structural)]
pub enum Severity {
    Low,
    Medium,
    High,
}

impl Severity {
    /// The place of a severity in the order from harmless to grave.
    pub open spec fn rank(self) -> int {
        match self {
            Severity::Low => 0,
            Severity::Medium => 1,
            Severity::High => 2,
        }
    }

    /// The word for a severity.
    pub open spec fn word(self) -> Seq<char> {
        match self {
            Severity::Low => "low"@,
            Severity::Medium => "medium"@,
            Severity::High => "high"@,
        }
    }

    /// The severity that `s` names, in any case.
    pub open spec fn named(s: Seq<char>) -> Option<Severity> {
        if crate::text::same_but_case(s, Severity::Low.word()) {
            Some(Severity::Low)
        } else if crate::text::same_but_case(s, Severity::Medium.word()) {
            Some(Severity::Medium)
        } else if crate::text::same_but_case(s, Severity::High.word()) {
            Some(Severity::High)
        } else {
            None
        }
    }

    /// Gives the word for a severity.
    pub fn label(&self) -> (r: &'static str)
        ensures
            r@ == self.word(),
    {
        match self {
            Severity::Low => "low",
            Severity::Medium => "medium",
            Severity::High => "high",
        }
    }

    /// Tells whether `self` is at least as grave as `other`.
    pub fn at_least(&self, other: &Severity) -> (r: bool)
        ensures
            r == (self.rank() >= other.rank()),
    {
        match *other {
            Severity::Low => true,
            Severity::Medium => *self != Severity::Low,
            Severity::High => *self == Severity::High,
        }
    }
}

/// Severities are ordered from `Low` to `High`.
impl PartialOrd for Severity {
    fn partial_cmp(&self, other: &Severity) -> (r: Option<Ordering>) {
        match *self {
            Severity::Low => match *other {
                Severity::Low => Some(Ordering::Equal),
                Severity::Medium => Some(Ordering::Less),
                Severity::High => Some(Ordering::Less),
            },
            Severity::Medium => match *other {
                Severity::Low => Some(Ordering::Greater),
                Severity::Medium => Some(Ordering::Equal),
                Severity::High => Some(Ordering::Less),
            },
            Severity::High => match *other {
                Severity::Low => Some(Ordering::Greater),
                Severity::Medium => Some(Ordering::Greater),
                Severity::High => Some(Ordering::Equal),
            },
        }
    }
}

impl vstd::std_specs::cmp::PartialOrdSpecImpl for Severity {
    open spec fn obeys_partial_cmp_spec() -> bool {
        true
    }

    open spec fn partial_cmp_spec(&self, other: &Severity) -> Option<Ordering> {
        if self.rank() < other.rank() {
            Some(Ordering::Less)
        } else if self.rank() == other.rank() {
            Some(Ordering::Equal)
        } else {
            Some(Ordering::Greater)
        }
    }
}

/// What is said of a word that names no severity.
pub open spec fn unknown_severity(s: Seq<char>) -> Seq<char> {
    "unknown severity `"@ + s + "`: expected low, medium or high"@
}

impl FromStr for Severity {
    type Err = String;

    /// Reads the name of a severity, in any case.
    fn from_str(s: &str) -> (r: Result<Severity, String>)
        ensures
            match r {
                Ok(severity) => Severity::named(s@) == Some(severity),
                Err(message) => Severity::named(s@) is None && message@ == unknown_severity(s@),
            },
    {
        if is_same_but_case(s, Severity::Low.label()) {
            Ok(Severity::Low)
        } else if is_same_but_case(s, Severity::Medium.label()) {
            Ok(Severity::Medium)
        } else if is_same_but_case(s, Severity::High.label()) {
            Ok(Severity::High)
        } else {
            let mut message = "unknown severity `".to_owned();
            message.append(s);
            message.append("`: expected low, medium or high");
            Err(message)
        }
    }
}

/// A severity is read back from its word, in whatever case the word is written.
pub proof fn severity_is_read_back(severity: Severity, s: Seq<char>)
    requires
        crate::text::same_but_case(s, severity.word()),
    ensures
        Severity::named(s) == Some(severity),
{
    reveal_strlit("low");
    reveal_strlit("medium");
    reveal_strlit("high");
    let low = "low"@.map_values(|c: char| crate::text::lower(c));
    let medium = "medium"@.map_values(|c: char| crate::text::lower(c));
    let high = "high"@.map_values(|c: char| crate::text::lower(c));
    assert(low.len() == 3 && medium.len() == 6 && high.len() == 4);
}

/// The order of severities runs from low over medium to high, and two severities of
/// the same rank are the same.
pub proof fn severities_are_ordered(a: Severity, b: Severity)
    ensures
        Severity::Low.rank() < Severity::Medium.rank() < Severity::High.rank(),
        a.rank() == b.rank() ==> a == b,
{
}

/// A word names a severity exactly where it is that severity's word but for case, and the
/// words are low, medium and high. What names none is quoted in what is said of it.
pub proof fn severities_are_named_by_their_words(s: Seq<char>)
    ensures
        Severity::named(s) == Some(Severity::Low) <==> crate::text::same_but_case(s, "low"@),
        Severity::named(s) == Some(Severity::Medium) <==> crate::text::same_but_case(s, "medium"@),
        Severity::named(s) == Some(Severity::High) <==> crate::text::same_but_case(s, "high"@),
        unknown_severity(s) == "unknown severity `"@ + s + "`: expected low, medium or high"@,
        Severity::Low.word() == "low"@,
        Severity::Medium.word() == "medium"@,
        Severity::High.word() == "high"@,
{
    if crate::text::same_but_case(s, "low"@) {
        severity_is_read_back(Severity::Low, s);
    }
    if crate::text::same_but_case(s, "medium"@) {
        severity_is_read_back(Severity::Medium, s);
    }
    if crate::text::same_but_case(s, "high"@) {
        severity_is_read_back(Severity::High, s);
    }
}

/// Severities compare as they are ordered: the graver is the greater, and only a severity
/// and itself compare as equal.
pub proof fn severities_compare_by_gravity(a: Severity, b: Severity)
    ensures
        Severity::obeys_partial_cmp_spec(),
        a.partial_cmp_spec(&b) == Some(Ordering::Less) <==> a.rank() < b.rank(),
        a.partial_cmp_spec(&b) == Some(Ordering::Equal) <==> a == b,
        a.partial_cmp_spec(&b) is Some,
{
}

} // verus!
