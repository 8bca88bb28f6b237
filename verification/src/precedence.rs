//! Which of two versions comes later.

use crate::version::{Version, VersionView};
use semver::{BuildMetadata, Prerelease};
use std::cmp::Ordering;
use vstd::prelude::*;

verus! {

/// How one version stands to another.
#[derive(Clone, Copy, Debug, PartialEq, Eq)]
pub enum Precedence {
    /// It comes before the other.
    Lower,
    /// Neither comes before the other.
    Same,
    /// It comes after the other.
    Higher,
}

/// What `semver::Version::cmp` returns for two versions that agree in their
/// three numbers and either both have pre-release identifiers or both have
/// none: a function of the identifiers and build metadata of the two.
pub uninterp spec fn identifier_precedence(
    pre: Seq<char>,
    build: Seq<char>,
    other_pre: Seq<char>,
    other_build: Seq<char>,
) -> Precedence;

/// The two versions compared by major, then minor, then patch number.
pub open spec fn number_precedence(a: VersionView, b: VersionView) -> Precedence {
    if a.major != b.major {
        if a.major < b.major {
            Precedence::Lower
        } else {
            Precedence::Higher
        }
    } else if a.minor != b.minor {
        if a.minor < b.minor {
            Precedence::Lower
        } else {
            Precedence::Higher
        }
    } else if a.patch != b.patch {
        if a.patch < b.patch {
            Precedence::Lower
        } else {
            Precedence::Higher
        }
    } else {
        Precedence::Same
    }
}

/// How `a` stands to `b`. The numbers decide first. Where they agree, a
/// version with pre-release identifiers comes before one without; what
/// remains is left to the identifiers.
pub open spec fn precedence(a: VersionView, b: VersionView) -> Precedence {
    if number_precedence(a, b) != Precedence::Same {
        number_precedence(a, b)
    } else if a.pre.len() == 0 && b.pre.len() > 0 {
        Precedence::Higher
    } else if a.pre.len() > 0 && b.pre.len() == 0 {
        Precedence::Lower
    } else {
        identifier_precedence(a.pre, a.build, b.pre, b.build)
    }
}

/// Builds both versions as `semver::Version` values and compares them with
/// `semver::Version::cmp`. The contract claims what that crate documents of
/// its total order: the three numbers are compared first, from left to
/// right; with equal numbers a pre-release comes before the release; every
/// other outcome is only given its name. It also claims that
/// `semver::Prerelease::new` and `semver::BuildMetadata::new` accept the
/// identifiers of a well-formed version.
#[verifier::external_body]
fn semver_precedence(a: &Version, b: &Version) -> (r: Precedence)
    requires
        a.wf(),
        b.wf(),
    ensures
        number_precedence(a@, b@) != Precedence::Same ==> r == number_precedence(a@, b@),
        number_precedence(a@, b@) == Precedence::Same && a@.pre.len() == 0 && b@.pre.len() > 0
            ==> r == Precedence::Higher,
        number_precedence(a@, b@) == Precedence::Same && a@.pre.len() > 0 && b@.pre.len() == 0
            ==> r == Precedence::Lower,
        number_precedence(a@, b@) == Precedence::Same && (a@.pre.len() == 0) == (b@.pre.len()
            == 0) ==> r == identifier_precedence(a@.pre, a@.build, b@.pre, b@.build),
{
    let x = semver::Version { major: a.major, minor: a.minor, patch: a.patch,
        pre: Prerelease::new(&a.pre).unwrap(), build: BuildMetadata::new(&a.build).unwrap() };
    let y = semver::Version { major: b.major, minor: b.minor, patch: b.patch,
        pre: Prerelease::new(&b.pre).unwrap(), build: BuildMetadata::new(&b.build).unwrap() };
    match x.cmp(&y) {
        Ordering::Less => Precedence::Lower,
        Ordering::Equal => Precedence::Same,
        Ordering::Greater => Precedence::Higher,
    }
}

impl Version {
    /// How this version stands to `other`.
    pub fn compare(&self, other: &Version) -> (r: Precedence)
        ensures
            r == precedence(self@, other@),
    {
        proof {
            use_type_invariant(self);
            use_type_invariant(other);
        }
        semver_precedence(self, other)
    }
}

} // verus!
