use gpui_kit::ui_density::UiDensity;

#[test]
fn round_trips_through_string() {
    for density in [UiDensity::Compact, UiDensity::Default, UiDensity::Comfortable] {
        let text: String = density.into();
        assert_eq!(UiDensity::from(text), density, "string round trip is lossless");
    }
    assert_eq!(UiDensity::from("nonsense".to_string()), UiDensity::Default);
}

#[test]
fn names_are_snake_case() {
    assert_eq!(UiDensity::Compact.name(), "compact");
    assert_eq!(UiDensity::Default.name(), "default");
    assert_eq!(UiDensity::Comfortable.name(), "comfortable");
    assert_eq!(UiDensity::from_name(&"comfortable".to_string()), UiDensity::Comfortable);
    assert_eq!(UiDensity::from_name(&"Compact".to_string()), UiDensity::Default);
}

#[test]
fn default_density_is_default() {
    assert_eq!(UiDensity::default(), UiDensity::Default);
}
