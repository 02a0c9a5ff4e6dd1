use gpui_kit::theme_registry::{GlobalThemeRegistry, RegisteredTheme, ThemeRegistry};

fn entry(id: &str, name: &str, theme: u32) -> RegisteredTheme<u32> {
    RegisteredTheme { id: id.to_string(), name: name.to_string(), theme }
}

#[test]
fn finds_themes_by_id_or_name() {
    let mut registry = ThemeRegistry::new();
    registry.insert("ui-gpui-default-dark".to_string(), "ui-gpui Dark".to_string(), 1u32);
    registry.insert("ui-gpui-default-light".to_string(), "ui-gpui Light".to_string(), 2u32);
    assert_eq!(registry.get("ui-gpui-default-dark"), Some(&1));
    assert_eq!(registry.get("ui-gpui Light"), Some(&2));
    assert_eq!(registry.get("missing"), None);
    assert_eq!(registry.themes().len(), 2);
}

#[test]
fn loading_a_family_keeps_the_first_of_repeated_themes() {
    let mut registry = ThemeRegistry::new();
    registry.insert("mocha".to_string(), "Catppuccin Mocha".to_string(), 1u32);
    registry.load_theme_family(vec![
        entry("mocha", "Catppuccin Mocha", 10),
        entry("latte", "Catppuccin Latte", 20),
        entry("latte", "Catppuccin Latte", 30),
    ]);
    assert_eq!(registry.get("mocha"), Some(&1), "the theme registered first wins");
    assert_eq!(registry.get("Catppuccin Latte"), Some(&20));
    let ids: Vec<&str> = registry.themes().iter().map(|t| t.id.as_str()).collect();
    assert_eq!(ids, vec!["mocha", "latte"]);
}

#[test]
fn a_theme_whose_id_is_another_themes_name_is_skipped() {
    let mut registry = ThemeRegistry::new();
    registry.insert("dark".to_string(), "Night".to_string(), 1u32);
    registry.load_theme_family(vec![entry("Night", "Other", 2)]);
    assert_eq!(registry.themes().len(), 1);
}

#[test]
fn global_registry_wraps_a_registry() {
    let mut registry = ThemeRegistry::new();
    registry.insert("a".to_string(), "A".to_string(), 7u32);
    let global = GlobalThemeRegistry(registry);
    assert_eq!(global.0.get("A"), Some(&7));
}
