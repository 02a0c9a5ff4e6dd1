use gpui_kit::color_slot::{color_slot, ColorSlot, StatusColorSlot, ThemeColorSlot};

#[test]
fn status_keys_pick_status_slots() {
    assert_eq!(color_slot("conflict"), Some(ColorSlot::Status(StatusColorSlot::Conflict)));
    assert_eq!(
        color_slot("warning.background"),
        Some(ColorSlot::Status(StatusColorSlot::WarningBackground))
    );
    assert_eq!(color_slot("error.border"), Some(ColorSlot::Status(StatusColorSlot::ErrorBorder)));
}

#[test]
fn theme_keys_pick_theme_slots() {
    assert_eq!(color_slot("border"), Some(ColorSlot::Theme(ThemeColorSlot::Border)));
    assert_eq!(
        color_slot("editor.document_highlight.write_background"),
        Some(ColorSlot::Theme(ThemeColorSlot::EditorDocumentHighlightWriteBackground))
    );
    assert_eq!(
        color_slot("scrollbar.thumb.hover_background"),
        Some(ColorSlot::Theme(ThemeColorSlot::ScrollbarThumbHoverBackground))
    );
}

#[test]
fn both_link_keys_fill_the_link_slot() {
    assert_eq!(color_slot("link_text"), Some(ColorSlot::Theme(ThemeColorSlot::Link)));
    assert_eq!(color_slot("link_text.hover"), Some(ColorSlot::Theme(ThemeColorSlot::Link)));
}

#[test]
fn unknown_keys_name_no_slot() {
    assert_eq!(color_slot("vim.mode.normal"), None);
    assert_eq!(color_slot("terminal.ansi.red"), None);
    assert_eq!(color_slot("players"), None);
    assert_eq!(color_slot(""), None);
    assert_eq!(color_slot("Border"), None);
    assert_eq!(color_slot("border "), None);
}
