use gpui_kit::assets::Assets;
use gpui_kit::icon::IconName;

fn embedded() -> Vec<String> {
    ["icons/play_filled.svg", "fonts/Inter.ttf", "fonts/README.md", "icons/audio_on.svg", "fonts/Mono.ttf", "LICENSE.md"]
        .iter()
        .map(|s| s.to_string())
        .collect()
}

#[test]
fn lists_the_assets_under_a_directory() {
    let assets = Assets;
    assert_eq!(assets.list(&embedded(), "icons"), vec!["icons/play_filled.svg", "icons/audio_on.svg"]);
    assert_eq!(assets.list(&embedded(), "").len(), 6);
    assert!(assets.list(&embedded(), "sounds").is_empty());
}

#[test]
fn fonts_are_the_ttf_files_under_fonts() {
    let assets = Assets;
    assert_eq!(assets.font_paths(&embedded()), vec!["fonts/Inter.ttf", "fonts/Mono.ttf"]);
}

#[test]
fn icon_paths_point_into_icons() {
    assert_eq!(IconName::Play.path(), "icons/play_filled.svg");
    assert_eq!(IconName::Pause.path(), "icons/debug_pause.svg");
    assert_eq!(IconName::VolumeOn.path(), "icons/audio_on.svg");
    assert_eq!(IconName::VolumeOff.path(), "icons/audio_off.svg");
    assert_eq!(IconName::More.path(), "icons/ellipsis_vertical.svg");
}
