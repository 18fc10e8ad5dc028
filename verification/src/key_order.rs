//! The order in which keys are presented: by name ascending, and under one
//! name by version descending, so that the most recent comes first.

use std::cmp::Ordering;
use vstd::prelude::*;

use crate::text::{lemma_text_lt_total, lemma_text_lt_transitive, text_lt, text_precedes};
use crate::version_key::{KeyModel, VersionKey};

verus! {

/// Whether version `a` is more recent than version `b`.
pub open spec fn version_newer(a: KeyModel, b: KeyModel) -> bool {
    a.major > b.major || (a.major == b.major && (a.minor > b.minor || (a.minor == b.minor
        && a.patch > b.patch)))
}

/// Whether key `a` is presented before key `b`.
pub open spec fn key_precedes(a: KeyModel, b: KeyModel) -> bool {
    text_lt(a.name, b.name) || (a.name == b.name && version_newer(a, b))
}

impl VersionKey {
    /// Compares two keys in presentation order: `Less` where `self` comes
    /// before `other`, `Equal` where they are one key, `Greater` otherwise.
    pub fn compare(&self, other: &VersionKey) -> (r: Ordering)
        ensures
            r == Ordering::Less <==> key_precedes(self@, other@),
            r == Ordering::Equal <==> self@ == other@,
            r == Ordering::Greater <==> key_precedes(other@, self@),
    {
        proof {
            lemma_text_lt_total(self.name@, other.name@);
        }
        if self.name != other.name {
            if text_precedes(self.name.as_str(), other.name.as_str()) {
                Ordering::Less
            } else {
                Ordering::Greater
            }
        } else if self.major != other.major {
            if self.major > other.major {
                Ordering::Less
            } else {
                Ordering::Greater
            }
        } else if self.minor != other.minor {
            if self.minor > other.minor {
                Ordering::Less
            } else {
                Ordering::Greater
            }
        } else if self.patch != other.patch {
            if self.patch > other.patch {
                Ordering::Less
            } else {
                Ordering::Greater
            }
        } else {
            Ordering::Equal
        }
    }

    /// Whether `self` is presented before `other`.
    pub fn precedes(&self, other: &VersionKey) -> (r: bool)
        ensures
            r == key_precedes(self@, other@),
    {
        match self.compare(other) {
            Ordering::Less => true,
            _ => false,
        }
    }
}

impl PartialEq for VersionKey {
    fn eq(&self, other: &VersionKey) -> (r: bool) {
        self.name == other.name && self.major == other.major && self.minor == other.minor
            && self.patch == other.patch
    }
}

impl Eq for VersionKey {

}

impl vstd::std_specs::cmp::PartialEqSpecImpl for VersionKey {
    open spec fn obeys_eq_spec() -> bool {
        true
    }

    open spec fn eq_spec(&self, other: &VersionKey) -> bool {
        self.name@ == other.name@ && self.major == other.major && self.minor == other.minor
            && self.patch == other.patch
    }
}

/// Of two different keys exactly one comes before the other, and no key
/// comes before itself.
pub proof fn lemma_key_order_total(a: KeyModel, b: KeyModel)
    ensures
        a != b ==> (key_precedes(a, b) <==> !key_precedes(b, a)),
        a == b ==> !key_precedes(a, b),
{
    lemma_text_lt_total(a.name, b.name);
}

/// Where `a` comes before `b` and `b` before `c`, `a` comes before `c`.
pub proof fn lemma_key_order_transitive(a: KeyModel, b: KeyModel, c: KeyModel)
    requires
        key_precedes(a, b),
        key_precedes(b, c),
    ensures
        key_precedes(a, c),
{
    lemma_text_lt_total(a.name, b.name);
    lemma_text_lt_total(b.name, c.name);
    if text_lt(a.name, b.name) && text_lt(b.name, c.name) {
        lemma_text_lt_transitive(a.name, b.name, c.name);
    }
}

} // verus!
