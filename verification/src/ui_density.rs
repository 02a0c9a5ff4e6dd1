//! UI density: how tightly interface elements are packed.

use vstd::prelude::*;

verus! {

/// UI density.
#[derive(Debug, PartialEq, Eq, PartialOrd, Ord, Hash, Clone, Copy, Structural)]
pub enum UiDensity {
    /// Tighter spacing, smaller elements.
    Compact,
    /// The default density.
    Default,
    /// Looser spacing.
    Comfortable,
}

impl UiDensity {
    /// The name of the density in settings text.
    pub open spec fn name_spec(self) -> Seq<char> {
        match self {
            UiDensity::Compact => "compact"@,
            UiDensity::Default => "default"@,
            UiDensity::Comfortable => "comfortable"@,
        }
    }

    /// The density that a settings text names; unknown names give the default.
    pub open spec fn from_name_spec(name: Seq<char>) -> UiDensity {
        if name == "compact"@ {
            UiDensity::Compact
        } else if name == "comfortable"@ {
            UiDensity::Comfortable
        } else {
            UiDensity::Default
        }
    }

    /// The density's name in settings text.
    pub fn name(self) -> (r: String)
        ensures
            r@ == self.name_spec(),
    {
        match self {
            UiDensity::Compact => "compact".to_owned(),
            UiDensity::Default => "default".to_owned(),
            UiDensity::Comfortable => "comfortable".to_owned(),
        }
    }

    /// Parses a density name; unknown names give [`UiDensity::Default`].
    pub fn from_name(value: &String) -> (r: UiDensity)
        ensures
            r == Self::from_name_spec(value@),
    {
        let compact = "compact".to_owned();
        let comfortable = "comfortable".to_owned();
        if *value == compact {
            UiDensity::Compact
        } else if *value == comfortable {
            UiDensity::Comfortable
        } else {
            UiDensity::default()
        }
    }
}

impl Default for UiDensity {
    fn default() -> (r: Self)
        ensures
            r == UiDensity::Default,
    {
        UiDensity::Default
    }
}

impl From<String> for UiDensity {
    fn from(value: String) -> (r: Self) {
        UiDensity::from_name(&value)
    }
}

impl vstd::std_specs::convert::FromSpecImpl<String> for UiDensity {
    open spec fn obeys_from_spec() -> bool {
        true
    }

    open spec fn from_spec(value: String) -> UiDensity {
        UiDensity::from_name_spec(value@)
    }
}

impl From<UiDensity> for String {
    fn from(value: UiDensity) -> (r: Self)
        ensures
            r@ == value.name_spec(),
    {
        value.name()
    }
}

impl vstd::std_specs::convert::FromSpecImpl<UiDensity> for String {
    /// A `String` has no value that a spec function can build, so the
    /// conversion is described by the `ensures` of `from` instead.
    open spec fn obeys_from_spec() -> bool {
        false
    }

    open spec fn from_spec(value: UiDensity) -> String {
        vstd::pervasive::arbitrary()
    }
}

/// Every density survives the round trip through its settings name.
pub proof fn lemma_name_round_trip(d: UiDensity)
    ensures
        UiDensity::from_name_spec(d.name_spec()) == d,
{
    reveal_strlit("compact");
    reveal_strlit("default");
    reveal_strlit("comfortable");
    assert("default"@[0] != "compact"@[0]);
    assert("default"@.len() != "comfortable"@.len());
    assert("compact"@.len() != "comfortable"@.len());
}

} // verus!
