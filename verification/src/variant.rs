//! Test execution *variant* and *repetition*, the two multiplicity axes of a
//! testing stage.
//!
//! A [`Variant`] is only an identity string: it tells actions apart. Which build
//! or which test framework runs is decided elsewhere.

use vstd::prelude::*;

use crate::num::NonZeroU32;
use crate::text::str_eq;

verus! {

/// The variant identity of a testing stage. `Default` has no identity string.
#[derive(Debug, Clone, PartialEq, Eq, Hash)]
pub enum Variant {
    Default,
    Asan,
    Tsan,
    Miri,
    Loom,
    Coverage,
    /// An arbitrary caller-supplied variant identity.
    Named(String),
}

impl Variant {
    /// The identity string, or `None` for `Default`.
    pub open spec fn spec_identity(self) -> Option<Seq<char>> {
        match self {
            Variant::Default => None,
            Variant::Asan => Some("asan"@),
            Variant::Tsan => Some("tsan"@),
            Variant::Miri => Some("miri"@),
            Variant::Loom => Some("loom"@),
            Variant::Coverage => Some("coverage"@),
            Variant::Named(name) => Some(name@),
        }
    }

    /// The text that stands for the variant where a text is required.
    pub open spec fn spec_label(self) -> Seq<char> {
        match self.spec_identity() {
            Some(text) => text,
            None => "default"@,
        }
    }

    /// Whether `value` is one of the built-in variant names.
    pub open spec fn builtin(value: Seq<char>) -> bool {
        value == "default"@ || value == "asan"@ || value == "tsan"@ || value == "miri"@ || value
            == "loom"@ || value == "coverage"@
    }

    pub fn is_default(&self) -> (r: bool)
        ensures
            r == (*self is Default),
            r == (self.spec_identity() is None),
    {
        matches!(self, Variant::Default)
    }

    /// The string to put in the stage, or `None` for `Default`.
    pub fn identity(&self) -> (r: Option<String>)
        ensures
            r is Some <==> self.spec_identity() is Some,
            r matches Some(text) ==> self.spec_identity() == Some(text@),
    {
        match self {
            Variant::Default => None,
            Variant::Asan => Some("asan".to_owned()),
            Variant::Tsan => Some("tsan".to_owned()),
            Variant::Miri => Some("miri".to_owned()),
            Variant::Loom => Some("loom".to_owned()),
            Variant::Coverage => Some("coverage".to_owned()),
            Variant::Named(name) => Some(name.clone()),
        }
    }

    /// The identity string, with `default` for `Default`.
    pub fn label(&self) -> (r: String)
        ensures
            r@ == self.spec_label(),
    {
        match self.identity() {
            Some(text) => text,
            None => "default".to_owned(),
        }
    }

    /// Reads a variant name; an unknown name is a caller-supplied identity.
    pub fn parse(value: &str) -> (r: Variant)
        ensures
            r is Default <==> value@ == "default"@,
            r is Asan <==> value@ == "asan"@,
            r is Tsan <==> value@ == "tsan"@,
            r is Miri <==> value@ == "miri"@,
            r is Loom <==> value@ == "loom"@,
            r is Coverage <==> value@ == "coverage"@,
            r is Named <==> !Variant::builtin(value@),
            r.spec_label() == value@,
    {
        proof {
            lemma_builtin_names_differ();
        }
        if str_eq(value, "default") {
            Variant::Default
        } else if str_eq(value, "asan") {
            Variant::Asan
        } else if str_eq(value, "tsan") {
            Variant::Tsan
        } else if str_eq(value, "miri") {
            Variant::Miri
        } else if str_eq(value, "loom") {
            Variant::Loom
        } else if str_eq(value, "coverage") {
            Variant::Coverage
        } else {
            Variant::Named(value.to_owned())
        }
    }

    /// An equal copy.
    pub fn duplicate(&self) -> (r: Variant)
        ensures
            r == *self,
    {
        match self {
            Variant::Default => Variant::Default,
            Variant::Asan => Variant::Asan,
            Variant::Tsan => Variant::Tsan,
            Variant::Miri => Variant::Miri,
            Variant::Loom => Variant::Loom,
            Variant::Coverage => Variant::Coverage,
            Variant::Named(name) => Variant::Named(name.clone()),
        }
    }
}

/// The built-in variant names are pairwise different.
pub proof fn lemma_builtin_names_differ()
    ensures
        "default"@ != "asan"@,
        "default"@ != "tsan"@,
        "default"@ != "miri"@,
        "default"@ != "loom"@,
        "default"@ != "coverage"@,
        "asan"@ != "tsan"@,
        "asan"@ != "miri"@,
        "asan"@ != "loom"@,
        "asan"@ != "coverage"@,
        "tsan"@ != "miri"@,
        "tsan"@ != "loom"@,
        "tsan"@ != "coverage"@,
        "miri"@ != "loom"@,
        "miri"@ != "coverage"@,
        "loom"@ != "coverage"@,
{
    reveal_strlit("default");
    reveal_strlit("asan");
    reveal_strlit("tsan");
    reveal_strlit("miri");
    reveal_strlit("loom");
    reveal_strlit("coverage");
    assert("asan"@[0] == 'a' && "tsan"@[0] == 't' && "miri"@[0] == 'm' && "loom"@[0] == 'l');
    assert("default"@.len() == 7 && "coverage"@.len() == 8);
    assert("asan"@.len() == 4 && "tsan"@.len() == 4 && "miri"@.len() == 4 && "loom"@.len() == 4);
}

/// Execution multiplicity. `Once` is an ordinary single run; `Stress(n)` runs the
/// test `n` times, each as a distinct action with its own repeat count.
#[derive(Debug, Clone, Copy, PartialEq, Eq, Hash)]
pub enum RepeatKind {
    Once,
    Stress(NonZeroU32),
}

impl RepeatKind {
    /// Number of action copies this repetition implies.
    pub open spec fn spec_count(self) -> u32 {
        match self {
            RepeatKind::Once => 1,
            RepeatKind::Stress(n) => n.spec_get(),
        }
    }

    pub fn is_stress(&self) -> (r: bool)
        ensures
            r == (*self is Stress),
    {
        matches!(self, RepeatKind::Stress(_))
    }

    /// Number of action copies this repetition implies (at least one).
    pub fn count(&self) -> (r: u32)
        ensures
            r == self.spec_count(),
            r >= 1,
    {
        match self {
            RepeatKind::Once => 1,
            RepeatKind::Stress(n) => n.get(),
        }
    }
}

} // verus!
