use gpui_kit::appearance::{Appearance, AppearanceContent};
use gpui_kit::scale::{ColorScaleStep, STEP_COUNT};

#[test]
fn steps_run_from_one_to_twelve() {
    let all = ColorScaleStep::all();
    assert_eq!(all.len(), STEP_COUNT);
    for (index, step) in all.iter().enumerate() {
        assert_eq!(step.index(), index);
        assert_eq!(*step, ColorScaleStep::new(index + 1));
    }
    assert_eq!(ColorScaleStep::new(1).index(), 0, "step 1 is the first entry");
    assert_eq!(ColorScaleStep::new(12).index(), 11);
}

#[test]
fn appearance_from_theme_file() {
    assert_eq!(Appearance::from(AppearanceContent::Light), Appearance::Light);
    assert_eq!(Appearance::from(AppearanceContent::Dark), Appearance::Dark);
    assert_eq!(Appearance::default(), Appearance::Dark);
}

#[test]
fn default_settings_provider_answers_constants() {
    let provider = gpui_kit::settings_provider::DefaultThemeSettingsProvider;
    assert_eq!(provider.ui_font_family(), ".SystemUIFont");
    assert_eq!(provider.buffer_font_family(), "monospace");
    assert_eq!(provider.ui_density(), gpui_kit::ui_density::UiDensity::Default);
}

#[test]
fn slider_scale_defaults_to_linear() {
    assert_eq!(gpui_kit::geometry::Scale::default(), gpui_kit::geometry::Scale::Linear);
}
