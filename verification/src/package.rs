//! Package identities.
//!
//! A package is identified by its name together with its exact resolved
//! version; a package counts as "changed" between two snapshots when its
//! (name, version) pair from the old snapshot no longer appears in the new
//! one.

use crate::order::{lemma_lex_lt_transitive, lemma_lex_lt_trichotomy, lex_lt, str_compare,
    Cmp};
use vstd::prelude::*;
use vstd::string::StringExecFns;

verus! {

/// The mathematical identity of a package: its name and version as
/// character sequences.
pub type PkgId = (Seq<char>, Seq<char>);

/// Information that uniquely identifies a package from the default
/// registry: its name and exact resolved version.
#[derive(Debug, PartialEq, Eq, Hash)]
pub struct PackageInfo {
    pub name: String,
    pub version: String,
}

impl View for PackageInfo {
    type V = PkgId;

    open spec fn view(&self) -> PkgId {
        (self.name@, self.version@)
    }
}

impl Clone for PackageInfo {
    fn clone(&self) -> (r: Self)
        ensures
            r == *self,
    {
        PackageInfo { name: self.name.clone(), version: self.version.clone() }
    }
}

/// Strict order on package identities: by name first, then by version.
pub open spec fn pkg_lt(a: PkgId, b: PkgId) -> bool {
    lex_lt(a.0, b.0) || (a.0 == b.0 && lex_lt(a.1, b.1))
}

/// `pkg_lt` is a strict total order on package identities.
pub proof fn lemma_pkg_lt_trichotomy(a: PkgId, b: PkgId)
    ensures
        pkg_lt(a, b) || pkg_lt(b, a) || a == b,
        pkg_lt(a, b) ==> !pkg_lt(b, a),
        pkg_lt(a, b) ==> a != b,
{
    lemma_lex_lt_trichotomy(a.0, b.0);
    lemma_lex_lt_trichotomy(a.1, b.1);
}

/// `pkg_lt` is transitive.
pub proof fn lemma_pkg_lt_transitive(a: PkgId, b: PkgId, c: PkgId)
    requires
        pkg_lt(a, b),
        pkg_lt(b, c),
    ensures
        pkg_lt(a, c),
{
    if lex_lt(a.0, b.0) && lex_lt(b.0, c.0) {
        lemma_lex_lt_transitive(a.0, b.0, c.0);
    }
    if a.1 != b.1 && lex_lt(a.1, b.1) && lex_lt(b.1, c.1) {
        lemma_lex_lt_transitive(a.1, b.1, c.1);
    }
}

impl PackageInfo {
    /// Three-way comparison by (name, version).
    pub fn compare(&self, other: &PackageInfo) -> (c: Cmp)
        ensures
            (c is Less) == pkg_lt(self@, other@),
            (c is Equal) == (self@ == other@),
            (c is Greater) == pkg_lt(other@, self@),
    {
        match str_compare(self.name.as_str(), other.name.as_str()) {
            Cmp::Less => Cmp::Less,
            Cmp::Greater => Cmp::Greater,
            Cmp::Equal => str_compare(self.version.as_str(), other.version.as_str()),
        }
    }

    /// The `name@version` form that the external updater's single-package
    /// mode takes as its `--package` argument.
    pub fn update_spec_string(&self) -> (r: String)
        ensures
            r@ == self.name@ + seq!['@'] + self.version@,
    {
        let mut s = self.name.clone();
        s.append("@");
        s.append(self.version.as_str());
        proof {
            reveal_strlit("@");
            assert("@"@ =~= seq!['@']);
            assert(s@ =~= self.name@ + seq!['@'] + self.version@);
        }
        s
    }
}

} // verus!
