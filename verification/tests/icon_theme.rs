use gpui_kit::appearance::{Appearance, AppearanceContent};
use gpui_kit::icon_theme::{
    default_icon_theme, ChevronIcons, DirectoryIcons, IconDefinition, IconTheme, IconThemeContent,
    IconThemeFamily, IconThemeFamilyContent,
};

fn pair(key: &str, value: &str) -> (String, String) {
    (key.to_string(), value.to_string())
}

fn icons(collapsed: &str, expanded: &str) -> DirectoryIcons {
    DirectoryIcons { collapsed: Some(collapsed.to_string()), expanded: Some(expanded.to_string()) }
}

fn theme_with_mappings() -> IconTheme {
    let content = IconThemeContent {
        name: "Test Icons".to_string(),
        appearance: AppearanceContent::Dark,
        directory_icons: icons("folder.svg", "folder_open.svg"),
        named_directory_icons: vec![("src".to_string(), icons("src.svg", "src_open.svg"))],
        chevron_icons: ChevronIcons {
            collapsed: Some("right.svg".to_string()),
            expanded: Some("down.svg".to_string()),
        },
        file_stems: vec![pair("Dockerfile", "docker")],
        file_suffixes: vec![pair("rs", "rust"), pair("gz", "archive")],
        file_icons: vec![
            ("docker".to_string(), IconDefinition { path: "docker.svg".to_string() }),
            ("rust".to_string(), IconDefinition { path: "rust.svg".to_string() }),
            ("archive".to_string(), IconDefinition { path: "archive.svg".to_string() }),
        ],
    };
    IconTheme::from_content(content)
}

fn empty_theme_content(name: &str, appearance: AppearanceContent) -> IconThemeContent {
    IconThemeContent {
        name: name.to_string(),
        appearance,
        directory_icons: DirectoryIcons { collapsed: None, expanded: None },
        named_directory_icons: Vec::new(),
        chevron_icons: ChevronIcons { collapsed: None, expanded: None },
        file_stems: Vec::new(),
        file_suffixes: Vec::new(),
        file_icons: Vec::new(),
    }
}

/// Reads the parts of a family file that the family test looks at.
fn family_content_from_json(bytes: &[u8]) -> IconThemeFamilyContent {
    let value: serde_json::Value = serde_json::from_slice(bytes).expect("parse family");
    let themes = value["themes"]
        .as_array()
        .expect("themes")
        .iter()
        .map(|theme| {
            let appearance = match theme["appearance"].as_str() {
                Some("light") => AppearanceContent::Light,
                _ => AppearanceContent::Dark,
            };
            empty_theme_content(theme["name"].as_str().expect("name"), appearance)
        })
        .collect();
    IconThemeFamilyContent {
        name: value["name"].as_str().expect("name").to_string(),
        author: value["author"].as_str().expect("author").to_string(),
        themes,
    }
}

#[test]
fn resolves_stem_before_suffix() {
    let theme = theme_with_mappings();
    assert_eq!(
        theme.icon_for_file("Dockerfile").map(|s| s.to_string()),
        Some("docker.svg".to_string()),
        "the full file name wins over the extension"
    );
    assert_eq!(theme.icon_for_file("main.rs").map(|s| s.to_string()), Some("rust.svg".to_string()));
}

#[test]
fn uses_last_suffix_for_multi_dot_names() {
    let theme = theme_with_mappings();
    assert_eq!(
        theme.icon_for_file("backup.tar.gz").map(|s| s.to_string()),
        Some("archive.svg".to_string()),
        "the last extension (gz) counts, not tar"
    );
}

#[test]
fn returns_none_when_unknown() {
    let theme = theme_with_mappings();
    assert!(theme.icon_for_file("mystery.xyz").is_none(), "an unknown extension gives None");
    assert!(theme.icon_for_file("no_extension").is_none(), "no stem and no extension gives None");
}

#[test]
fn directory_icons_fall_back_to_generic() {
    let theme = theme_with_mappings();
    assert_eq!(
        theme.icon_for_directory("src", false).map(|s| s.to_string()),
        Some("src.svg".to_string()),
        "a named directory has its own icon"
    );
    assert_eq!(
        theme.icon_for_directory("random", true).map(|s| s.to_string()),
        Some("folder_open.svg".to_string()),
        "other directories get the generic folder"
    );
}

#[test]
fn parses_family_into_themes() {
    let json = br##"{
        "name": "Family",
        "author": "someone",
        "themes": [
            { "name": "Family Dark", "appearance": "dark" },
            { "name": "Family Light", "appearance": "light" }
        ]
    }"##;
    let family = IconThemeFamily::from_content(family_content_from_json(json));
    assert_eq!(family.name, "Family");
    assert_eq!(family.author, "someone");
    assert_eq!(family.themes.len(), 2);
    assert_eq!(family.themes[0].appearance, Appearance::Dark);
    assert_eq!(family.themes[1].appearance, Appearance::Light);
}

#[test]
fn default_theme_has_directory_and_chevron_icons() {
    let theme = default_icon_theme();
    assert!(theme.icon_for_directory("src", false).is_some());
    assert!(theme.chevron_icon(true).is_some());
    assert!(theme.icon_for_file("main.rs").is_none(), "the default theme maps no file types");
}

#[test]
fn theme_name_is_its_id_and_chevrons_follow_state() {
    let theme = theme_with_mappings();
    assert_eq!(theme.id, "Test Icons");
    assert_eq!(theme.name, "Test Icons");
    assert_eq!(theme.chevron_icon(false).map(|s| s.to_string()), Some("right.svg".to_string()));
    assert_eq!(theme.chevron_icon(true).map(|s| s.to_string()), Some("down.svg".to_string()));
    let family = IconThemeFamily::from_content(IconThemeFamilyContent {
        name: "F".to_string(),
        author: String::new(),
        themes: vec![empty_theme_content("F Light", AppearanceContent::Light)],
    });
    assert_eq!(family.id, "F");
    assert_eq!(family.themes[0].id, "F Light");
}

#[test]
fn stem_without_icon_falls_back_to_extension() {
    let mut content = empty_theme_content("T", AppearanceContent::Dark);
    content.file_stems = vec![pair("x.rs", "missing")];
    content.file_suffixes = vec![pair("rs", "rust")];
    content.file_icons = vec![("rust".to_string(), IconDefinition { path: "rust.svg".to_string() })];
    let theme = IconTheme::from_content(content);
    assert_eq!(theme.icon_for_file("x.rs").map(|s| s.to_string()), Some("rust.svg".to_string()));
    assert!(theme.icon_for_file("trailing.").is_none(), "an empty extension is looked up and not found");
}

#[test]
fn extension_follows_the_last_dot_in_a_non_ascii_name() {
    let theme = theme_with_mappings();
    assert_eq!(theme.icon_for_file("résumé.v2.rs").map(|s| s.to_string()), Some("rust.svg".to_string()));
    assert!(theme.icon_for_file("日本.語").is_none());
    assert!(theme.icon_for_file(".rs.日本").is_none());
}
