//! The theme settings used when the application registers no provider of
//! its own: the platform's default fonts and the default UI density.

use vstd::prelude::*;

use crate::ui_density::UiDensity;

verus! {

/// The fallback provider of theme settings (fonts, font sizes, density).
/// It does not look at any window: its answers are constants. The font
/// sizes (16 px each) are pixel values and live with the rendering layer.
pub struct DefaultThemeSettingsProvider;

impl DefaultThemeSettingsProvider {
    /// The family of the UI font: the platform's system UI font.
    pub fn ui_font_family(&self) -> (r: &'static str)
        ensures
            r@ == ".SystemUIFont"@,
    {
        ".SystemUIFont"
    }

    /// The family of the editor font: the platform's monospace font.
    pub fn buffer_font_family(&self) -> (r: &'static str)
        ensures
            r@ == "monospace"@,
    {
        "monospace"
    }

    /// The UI density: the default one.
    pub fn ui_density(&self) -> (r: UiDensity)
        ensures
            r == UiDensity::Default,
    {
        UiDensity::Default
    }
}

} // verus!
