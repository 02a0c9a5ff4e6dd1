//! Light/dark appearance of themes, at run time and in theme files.

use vstd::prelude::*;

verus! {

/// The light/dark form that a loaded theme is made for.
#[derive(Clone, Copy, Debug, PartialEq, Eq, Hash, Structural)]
pub enum Appearance {
    Light,
    Dark,
}

impl Default for Appearance {
    fn default() -> (r: Self)
        ensures
            r == Appearance::Dark,
    {
        Appearance::Dark
    }
}

/// The light/dark form as written in a theme file (`"appearance": "dark"`).
#[derive(Debug, PartialEq, Eq, Clone, Copy, Structural)]
pub enum AppearanceContent {
    Light,
    Dark,
}

impl From<AppearanceContent> for Appearance {
    fn from(content: AppearanceContent) -> (r: Self) {
        match content {
            AppearanceContent::Light => Appearance::Light,
            AppearanceContent::Dark => Appearance::Dark,
        }
    }
}

impl vstd::std_specs::convert::FromSpecImpl<AppearanceContent> for Appearance {
    open spec fn obeys_from_spec() -> bool {
        true
    }

    open spec fn from_spec(content: AppearanceContent) -> Appearance {
        match content {
            AppearanceContent::Light => Appearance::Light,
            AppearanceContent::Dark => Appearance::Dark,
        }
    }
}

} // verus!
