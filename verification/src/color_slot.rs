//! Theme files name their colors by flat dotted keys (`"editor.background"`,
//! `"conflict.border"`). A key picks one slot of the theme's color table or
//! of its status color table; keys that name no slot (`vim.*`, `terminal.*`,
//! `players`, ...) are ignored.

use vstd::prelude::*;
use vstd::utf8::*;

verus! {

/// A slot of the status color table.
#[derive(Debug, Clone, Copy, PartialEq, Eq, Structural)]
pub enum StatusColorSlot {
    Conflict,
    ConflictBackground,
    ConflictBorder,
    Created,
    CreatedBackground,
    CreatedBorder,
    Deleted,
    DeletedBackground,
    DeletedBorder,
    Error,
    ErrorBackground,
    ErrorBorder,
    Hidden,
    HiddenBackground,
    HiddenBorder,
    Ignored,
    IgnoredBackground,
    IgnoredBorder,
    Info,
    InfoBackground,
    InfoBorder,
    Modified,
    ModifiedBackground,
    ModifiedBorder,
    Renamed,
    RenamedBackground,
    RenamedBorder,
    Success,
    SuccessBackground,
    SuccessBorder,
    Warning,
    WarningBackground,
    WarningBorder,
}

/// A slot of the theme's color table.
#[derive(Debug, Clone, Copy, PartialEq, Eq, Structural)]
pub enum ThemeColorSlot {
    Border,
    BorderVariant,
    BorderFocused,
    BorderSelected,
    BorderDisabled,
    BorderTransparent,
    Background,
    SurfaceBackground,
    ElevatedSurfaceBackground,
    ElementBackground,
    ElementHover,
    ElementActive,
    ElementSelected,
    ElementDisabled,
    GhostElementBackground,
    GhostElementHover,
    GhostElementActive,
    GhostElementSelected,
    GhostElementDisabled,
    Text,
    TextMuted,
    TextPlaceholder,
    TextDisabled,
    TextAccent,
    Icon,
    IconMuted,
    IconDisabled,
    IconAccent,
    EditorForeground,
    EditorBackground,
    EditorGutterBackground,
    EditorActiveLineBackground,
    EditorLineNumber,
    EditorActiveLineNumber,
    EditorWrapGuide,
    EditorIndentGuide,
    EditorIndentGuideActive,
    EditorInvisible,
    EditorDocumentHighlightReadBackground,
    EditorDocumentHighlightWriteBackground,
    EditorCursor,
    PanelBackground,
    PaneFocusedBorder,
    PaneGroupBorder,
    SearchMatchBackground,
    SearchActiveMatchBackground,
    ScrollbarThumbBackground,
    ScrollbarThumbHoverBackground,
    ScrollbarThumbActiveBackground,
    ScrollbarThumbBorder,
    ScrollbarTrackBackground,
    ScrollbarTrackBorder,
    Link,
}

/// The table slot that a theme file's color key fills.
#[derive(Debug, Clone, Copy, PartialEq, Eq, Structural)]
pub enum ColorSlot {
    /// A slot of the status color table.
    Status(StatusColorSlot),
    /// A slot of the theme's color table.
    Theme(ThemeColorSlot),
}

/// The slot that the color key `key` fills; `None` for a key that names
/// none.
pub open spec fn color_slot_spec(key: Seq<char>) -> Option<ColorSlot> {
    if key == "conflict"@ {
        Some(ColorSlot::Status(StatusColorSlot::Conflict))
    } else if key == "conflict.background"@ {
        Some(ColorSlot::Status(StatusColorSlot::ConflictBackground))
    } else if key == "conflict.border"@ {
        Some(ColorSlot::Status(StatusColorSlot::ConflictBorder))
    } else if key == "created"@ {
        Some(ColorSlot::Status(StatusColorSlot::Created))
    } else if key == "created.background"@ {
        Some(ColorSlot::Status(StatusColorSlot::CreatedBackground))
    } else if key == "created.border"@ {
        Some(ColorSlot::Status(StatusColorSlot::CreatedBorder))
    } else if key == "deleted"@ {
        Some(ColorSlot::Status(StatusColorSlot::Deleted))
    } else if key == "deleted.background"@ {
        Some(ColorSlot::Status(StatusColorSlot::DeletedBackground))
    } else if key == "deleted.border"@ {
        Some(ColorSlot::Status(StatusColorSlot::DeletedBorder))
    } else if key == "error"@ {
        Some(ColorSlot::Status(StatusColorSlot::Error))
    } else if key == "error.background"@ {
        Some(ColorSlot::Status(StatusColorSlot::ErrorBackground))
    } else if key == "error.border"@ {
        Some(ColorSlot::Status(StatusColorSlot::ErrorBorder))
    } else if key == "hidden"@ {
        Some(ColorSlot::Status(StatusColorSlot::Hidden))
    } else if key == "hidden.background"@ {
        Some(ColorSlot::Status(StatusColorSlot::HiddenBackground))
    } else if key == "hidden.border"@ {
        Some(ColorSlot::Status(StatusColorSlot::HiddenBorder))
    } else if key == "ignored"@ {
        Some(ColorSlot::Status(StatusColorSlot::Ignored))
    } else if key == "ignored.background"@ {
        Some(ColorSlot::Status(StatusColorSlot::IgnoredBackground))
    } else if key == "ignored.border"@ {
        Some(ColorSlot::Status(StatusColorSlot::IgnoredBorder))
    } else if key == "info"@ {
        Some(ColorSlot::Status(StatusColorSlot::Info))
    } else if key == "info.background"@ {
        Some(ColorSlot::Status(StatusColorSlot::InfoBackground))
    } else if key == "info.border"@ {
        Some(ColorSlot::Status(StatusColorSlot::InfoBorder))
    } else if key == "modified"@ {
        Some(ColorSlot::Status(StatusColorSlot::Modified))
    } else if key == "modified.background"@ {
        Some(ColorSlot::Status(StatusColorSlot::ModifiedBackground))
    } else if key == "modified.border"@ {
        Some(ColorSlot::Status(StatusColorSlot::ModifiedBorder))
    } else if key == "renamed"@ {
        Some(ColorSlot::Status(StatusColorSlot::Renamed))
    } else if key == "renamed.background"@ {
        Some(ColorSlot::Status(StatusColorSlot::RenamedBackground))
    } else if key == "renamed.border"@ {
        Some(ColorSlot::Status(StatusColorSlot::RenamedBorder))
    } else if key == "success"@ {
        Some(ColorSlot::Status(StatusColorSlot::Success))
    } else if key == "success.background"@ {
        Some(ColorSlot::Status(StatusColorSlot::SuccessBackground))
    } else if key == "success.border"@ {
        Some(ColorSlot::Status(StatusColorSlot::SuccessBorder))
    } else if key == "warning"@ {
        Some(ColorSlot::Status(StatusColorSlot::Warning))
    } else if key == "warning.background"@ {
        Some(ColorSlot::Status(StatusColorSlot::WarningBackground))
    } else if key == "warning.border"@ {
        Some(ColorSlot::Status(StatusColorSlot::WarningBorder))
    } else if key == "border"@ {
        Some(ColorSlot::Theme(ThemeColorSlot::Border))
    } else if key == "border.variant"@ {
        Some(ColorSlot::Theme(ThemeColorSlot::BorderVariant))
    } else if key == "border.focused"@ {
        Some(ColorSlot::Theme(ThemeColorSlot::BorderFocused))
    } else if key == "border.selected"@ {
        Some(ColorSlot::Theme(ThemeColorSlot::BorderSelected))
    } else if key == "border.disabled"@ {
        Some(ColorSlot::Theme(ThemeColorSlot::BorderDisabled))
    } else if key == "border.transparent"@ {
        Some(ColorSlot::Theme(ThemeColorSlot::BorderTransparent))
    } else if key == "background"@ {
        Some(ColorSlot::Theme(ThemeColorSlot::Background))
    } else if key == "surface.background"@ {
        Some(ColorSlot::Theme(ThemeColorSlot::SurfaceBackground))
    } else if key == "elevated_surface.background"@ {
        Some(ColorSlot::Theme(ThemeColorSlot::ElevatedSurfaceBackground))
    } else if key == "element.background"@ {
        Some(ColorSlot::Theme(ThemeColorSlot::ElementBackground))
    } else if key == "element.hover"@ {
        Some(ColorSlot::Theme(ThemeColorSlot::ElementHover))
    } else if key == "element.active"@ {
        Some(ColorSlot::Theme(ThemeColorSlot::ElementActive))
    } else if key == "element.selected"@ {
        Some(ColorSlot::Theme(ThemeColorSlot::ElementSelected))
    } else if key == "element.disabled"@ {
        Some(ColorSlot::Theme(ThemeColorSlot::ElementDisabled))
    } else if key == "ghost_element.background"@ {
        Some(ColorSlot::Theme(ThemeColorSlot::GhostElementBackground))
    } else if key == "ghost_element.hover"@ {
        Some(ColorSlot::Theme(ThemeColorSlot::GhostElementHover))
    } else if key == "ghost_element.active"@ {
        Some(ColorSlot::Theme(ThemeColorSlot::GhostElementActive))
    } else if key == "ghost_element.selected"@ {
        Some(ColorSlot::Theme(ThemeColorSlot::GhostElementSelected))
    } else if key == "ghost_element.disabled"@ {
        Some(ColorSlot::Theme(ThemeColorSlot::GhostElementDisabled))
    } else if key == "text"@ {
        Some(ColorSlot::Theme(ThemeColorSlot::Text))
    } else if key == "text.muted"@ {
        Some(ColorSlot::Theme(ThemeColorSlot::TextMuted))
    } else if key == "text.placeholder"@ {
        Some(ColorSlot::Theme(ThemeColorSlot::TextPlaceholder))
    } else if key == "text.disabled"@ {
        Some(ColorSlot::Theme(ThemeColorSlot::TextDisabled))
    } else if key == "text.accent"@ {
        Some(ColorSlot::Theme(ThemeColorSlot::TextAccent))
    } else if key == "icon"@ {
        Some(ColorSlot::Theme(ThemeColorSlot::Icon))
    } else if key == "icon.muted"@ {
        Some(ColorSlot::Theme(ThemeColorSlot::IconMuted))
    } else if key == "icon.disabled"@ {
        Some(ColorSlot::Theme(ThemeColorSlot::IconDisabled))
    } else if key == "icon.accent"@ {
        Some(ColorSlot::Theme(ThemeColorSlot::IconAccent))
    } else if key == "editor.foreground"@ {
        Some(ColorSlot::Theme(ThemeColorSlot::EditorForeground))
    } else if key == "editor.background"@ {
        Some(ColorSlot::Theme(ThemeColorSlot::EditorBackground))
    } else if key == "editor.gutter.background"@ {
        Some(ColorSlot::Theme(ThemeColorSlot::EditorGutterBackground))
    } else if key == "editor.active_line.background"@ {
        Some(ColorSlot::Theme(ThemeColorSlot::EditorActiveLineBackground))
    } else if key == "editor.line_number"@ {
        Some(ColorSlot::Theme(ThemeColorSlot::EditorLineNumber))
    } else if key == "editor.active_line_number"@ {
        Some(ColorSlot::Theme(ThemeColorSlot::EditorActiveLineNumber))
    } else if key == "editor.wrap_guide"@ {
        Some(ColorSlot::Theme(ThemeColorSlot::EditorWrapGuide))
    } else if key == "editor.indent_guide"@ {
        Some(ColorSlot::Theme(ThemeColorSlot::EditorIndentGuide))
    } else if key == "editor.indent_guide_active"@ {
        Some(ColorSlot::Theme(ThemeColorSlot::EditorIndentGuideActive))
    } else if key == "editor.invisible"@ {
        Some(ColorSlot::Theme(ThemeColorSlot::EditorInvisible))
    } else if key == "editor.document_highlight.read_background"@ {
        Some(ColorSlot::Theme(ThemeColorSlot::EditorDocumentHighlightReadBackground))
    } else if key == "editor.document_highlight.write_background"@ {
        Some(ColorSlot::Theme(ThemeColorSlot::EditorDocumentHighlightWriteBackground))
    } else if key == "editor.cursor"@ {
        Some(ColorSlot::Theme(ThemeColorSlot::EditorCursor))
    } else if key == "panel.background"@ {
        Some(ColorSlot::Theme(ThemeColorSlot::PanelBackground))
    } else if key == "pane.focused_border"@ {
        Some(ColorSlot::Theme(ThemeColorSlot::PaneFocusedBorder))
    } else if key == "pane_group.border"@ {
        Some(ColorSlot::Theme(ThemeColorSlot::PaneGroupBorder))
    } else if key == "search.match_background"@ {
        Some(ColorSlot::Theme(ThemeColorSlot::SearchMatchBackground))
    } else if key == "search.active_match_background"@ {
        Some(ColorSlot::Theme(ThemeColorSlot::SearchActiveMatchBackground))
    } else if key == "scrollbar.thumb.background"@ {
        Some(ColorSlot::Theme(ThemeColorSlot::ScrollbarThumbBackground))
    } else if key == "scrollbar.thumb.hover_background"@ {
        Some(ColorSlot::Theme(ThemeColorSlot::ScrollbarThumbHoverBackground))
    } else if key == "scrollbar.thumb.active_background"@ {
        Some(ColorSlot::Theme(ThemeColorSlot::ScrollbarThumbActiveBackground))
    } else if key == "scrollbar.thumb.border"@ {
        Some(ColorSlot::Theme(ThemeColorSlot::ScrollbarThumbBorder))
    } else if key == "scrollbar.track.background"@ {
        Some(ColorSlot::Theme(ThemeColorSlot::ScrollbarTrackBackground))
    } else if key == "scrollbar.track.border"@ {
        Some(ColorSlot::Theme(ThemeColorSlot::ScrollbarTrackBorder))
    } else if key == "link_text"@ || key == "link_text.hover"@ {
        Some(ColorSlot::Theme(ThemeColorSlot::Link))
    } else {
        None
    }
}

/// The key that names a status slot in theme files.
pub open spec fn status_slot_key(slot: StatusColorSlot) -> Seq<char> {
    match slot {
        StatusColorSlot::Conflict => "conflict"@,
        StatusColorSlot::ConflictBackground => "conflict.background"@,
        StatusColorSlot::ConflictBorder => "conflict.border"@,
        StatusColorSlot::Created => "created"@,
        StatusColorSlot::CreatedBackground => "created.background"@,
        StatusColorSlot::CreatedBorder => "created.border"@,
        StatusColorSlot::Deleted => "deleted"@,
        StatusColorSlot::DeletedBackground => "deleted.background"@,
        StatusColorSlot::DeletedBorder => "deleted.border"@,
        StatusColorSlot::Error => "error"@,
        StatusColorSlot::ErrorBackground => "error.background"@,
        StatusColorSlot::ErrorBorder => "error.border"@,
        StatusColorSlot::Hidden => "hidden"@,
        StatusColorSlot::HiddenBackground => "hidden.background"@,
        StatusColorSlot::HiddenBorder => "hidden.border"@,
        StatusColorSlot::Ignored => "ignored"@,
        StatusColorSlot::IgnoredBackground => "ignored.background"@,
        StatusColorSlot::IgnoredBorder => "ignored.border"@,
        StatusColorSlot::Info => "info"@,
        StatusColorSlot::InfoBackground => "info.background"@,
        StatusColorSlot::InfoBorder => "info.border"@,
        StatusColorSlot::Modified => "modified"@,
        StatusColorSlot::ModifiedBackground => "modified.background"@,
        StatusColorSlot::ModifiedBorder => "modified.border"@,
        StatusColorSlot::Renamed => "renamed"@,
        StatusColorSlot::RenamedBackground => "renamed.background"@,
        StatusColorSlot::RenamedBorder => "renamed.border"@,
        StatusColorSlot::Success => "success"@,
        StatusColorSlot::SuccessBackground => "success.background"@,
        StatusColorSlot::SuccessBorder => "success.border"@,
        StatusColorSlot::Warning => "warning"@,
        StatusColorSlot::WarningBackground => "warning.background"@,
        StatusColorSlot::WarningBorder => "warning.border"@,
    }
}

/// The key that names a theme slot in theme files (for the link color, the
/// first of its two keys).
pub open spec fn theme_slot_key(slot: ThemeColorSlot) -> Seq<char> {
    match slot {
        ThemeColorSlot::Border => "border"@,
        ThemeColorSlot::BorderVariant => "border.variant"@,
        ThemeColorSlot::BorderFocused => "border.focused"@,
        ThemeColorSlot::BorderSelected => "border.selected"@,
        ThemeColorSlot::BorderDisabled => "border.disabled"@,
        ThemeColorSlot::BorderTransparent => "border.transparent"@,
        ThemeColorSlot::Background => "background"@,
        ThemeColorSlot::SurfaceBackground => "surface.background"@,
        ThemeColorSlot::ElevatedSurfaceBackground => "elevated_surface.background"@,
        ThemeColorSlot::ElementBackground => "element.background"@,
        ThemeColorSlot::ElementHover => "element.hover"@,
        ThemeColorSlot::ElementActive => "element.active"@,
        ThemeColorSlot::ElementSelected => "element.selected"@,
        ThemeColorSlot::ElementDisabled => "element.disabled"@,
        ThemeColorSlot::GhostElementBackground => "ghost_element.background"@,
        ThemeColorSlot::GhostElementHover => "ghost_element.hover"@,
        ThemeColorSlot::GhostElementActive => "ghost_element.active"@,
        ThemeColorSlot::GhostElementSelected => "ghost_element.selected"@,
        ThemeColorSlot::GhostElementDisabled => "ghost_element.disabled"@,
        ThemeColorSlot::Text => "text"@,
        ThemeColorSlot::TextMuted => "text.muted"@,
        ThemeColorSlot::TextPlaceholder => "text.placeholder"@,
        ThemeColorSlot::TextDisabled => "text.disabled"@,
        ThemeColorSlot::TextAccent => "text.accent"@,
        ThemeColorSlot::Icon => "icon"@,
        ThemeColorSlot::IconMuted => "icon.muted"@,
        ThemeColorSlot::IconDisabled => "icon.disabled"@,
        ThemeColorSlot::IconAccent => "icon.accent"@,
        ThemeColorSlot::EditorForeground => "editor.foreground"@,
        ThemeColorSlot::EditorBackground => "editor.background"@,
        ThemeColorSlot::EditorGutterBackground => "editor.gutter.background"@,
        ThemeColorSlot::EditorActiveLineBackground => "editor.active_line.background"@,
        ThemeColorSlot::EditorLineNumber => "editor.line_number"@,
        ThemeColorSlot::EditorActiveLineNumber => "editor.active_line_number"@,
        ThemeColorSlot::EditorWrapGuide => "editor.wrap_guide"@,
        ThemeColorSlot::EditorIndentGuide => "editor.indent_guide"@,
        ThemeColorSlot::EditorIndentGuideActive => "editor.indent_guide_active"@,
        ThemeColorSlot::EditorInvisible => "editor.invisible"@,
        ThemeColorSlot::EditorDocumentHighlightReadBackground => "editor.document_highlight.read_background"@,
        ThemeColorSlot::EditorDocumentHighlightWriteBackground => "editor.document_highlight.write_background"@,
        ThemeColorSlot::EditorCursor => "editor.cursor"@,
        ThemeColorSlot::PanelBackground => "panel.background"@,
        ThemeColorSlot::PaneFocusedBorder => "pane.focused_border"@,
        ThemeColorSlot::PaneGroupBorder => "pane_group.border"@,
        ThemeColorSlot::SearchMatchBackground => "search.match_background"@,
        ThemeColorSlot::SearchActiveMatchBackground => "search.active_match_background"@,
        ThemeColorSlot::ScrollbarThumbBackground => "scrollbar.thumb.background"@,
        ThemeColorSlot::ScrollbarThumbHoverBackground => "scrollbar.thumb.hover_background"@,
        ThemeColorSlot::ScrollbarThumbActiveBackground => "scrollbar.thumb.active_background"@,
        ThemeColorSlot::ScrollbarThumbBorder => "scrollbar.thumb.border"@,
        ThemeColorSlot::ScrollbarTrackBackground => "scrollbar.track.background"@,
        ThemeColorSlot::ScrollbarTrackBorder => "scrollbar.track.border"@,
        ThemeColorSlot::Link => "link_text"@,
    }
}

/// The key that names a slot in theme files.
pub open spec fn slot_key(slot: ColorSlot) -> Seq<char> {
    match slot {
        ColorSlot::Status(s) => status_slot_key(s),
        ColorSlot::Theme(t) => theme_slot_key(t),
    }
}

/// A key fills the slot that it names: the key of the slot it fills, or,
/// for the link color, its second key.
pub proof fn lemma_key_names_its_slot(key: Seq<char>)
    ensures
        match color_slot_spec(key) {
            Some(slot) => key == slot_key(slot) || (slot == ColorSlot::Theme(ThemeColorSlot::Link)
                && key == "link_text.hover"@),
            None => true,
        },
{
}

/// Distinct keys fill distinct slots, but for the two keys of the link
/// color.
pub proof fn lemma_distinct_keys_fill_distinct_slots(a: Seq<char>, b: Seq<char>)
    requires
        a != b,
        color_slot_spec(a) is Some,
        color_slot_spec(a) == color_slot_spec(b),
    ensures
        color_slot_spec(a) == Some(ColorSlot::Theme(ThemeColorSlot::Link)),
        (a == "link_text"@ && b == "link_text.hover"@) || (a == "link_text.hover"@ && b == "link_text"@),
{
    lemma_key_names_its_slot(a);
    lemma_key_names_its_slot(b);
}

/// Every slot is filled by its own key.
pub proof fn lemma_slot_key_fills_its_slot(slot: ColorSlot)
    ensures
        color_slot_spec(slot_key(slot)) == Some(slot),
{
    reveal_strlit("conflict");
    reveal_strlit("conflict.background");
    reveal_strlit("conflict.border");
    reveal_strlit("created");
    reveal_strlit("created.background");
    reveal_strlit("created.border");
    reveal_strlit("deleted");
    reveal_strlit("deleted.background");
    reveal_strlit("deleted.border");
    reveal_strlit("error");
    reveal_strlit("error.background");
    reveal_strlit("error.border");
    reveal_strlit("hidden");
    reveal_strlit("hidden.background");
    reveal_strlit("hidden.border");
    reveal_strlit("ignored");
    reveal_strlit("ignored.background");
    reveal_strlit("ignored.border");
    reveal_strlit("info");
    reveal_strlit("info.background");
    reveal_strlit("info.border");
    reveal_strlit("modified");
    reveal_strlit("modified.background");
    reveal_strlit("modified.border");
    reveal_strlit("renamed");
    reveal_strlit("renamed.background");
    reveal_strlit("renamed.border");
    reveal_strlit("success");
    reveal_strlit("success.background");
    reveal_strlit("success.border");
    reveal_strlit("warning");
    reveal_strlit("warning.background");
    reveal_strlit("warning.border");
    reveal_strlit("border");
    reveal_strlit("border.variant");
    reveal_strlit("border.focused");
    reveal_strlit("border.selected");
    reveal_strlit("border.disabled");
    reveal_strlit("border.transparent");
    reveal_strlit("background");
    reveal_strlit("surface.background");
    reveal_strlit("elevated_surface.background");
    reveal_strlit("element.background");
    reveal_strlit("element.hover");
    reveal_strlit("element.active");
    reveal_strlit("element.selected");
    reveal_strlit("element.disabled");
    reveal_strlit("ghost_element.background");
    reveal_strlit("ghost_element.hover");
    reveal_strlit("ghost_element.active");
    reveal_strlit("ghost_element.selected");
    reveal_strlit("ghost_element.disabled");
    reveal_strlit("text");
    reveal_strlit("text.muted");
    reveal_strlit("text.placeholder");
    reveal_strlit("text.disabled");
    reveal_strlit("text.accent");
    reveal_strlit("icon");
    reveal_strlit("icon.muted");
    reveal_strlit("icon.disabled");
    reveal_strlit("icon.accent");
    reveal_strlit("editor.foreground");
    reveal_strlit("editor.background");
    reveal_strlit("editor.gutter.background");
    reveal_strlit("editor.active_line.background");
    reveal_strlit("editor.line_number");
    reveal_strlit("editor.active_line_number");
    reveal_strlit("editor.wrap_guide");
    reveal_strlit("editor.indent_guide");
    reveal_strlit("editor.indent_guide_active");
    reveal_strlit("editor.invisible");
    reveal_strlit("editor.document_highlight.read_background");
    reveal_strlit("editor.document_highlight.write_background");
    reveal_strlit("editor.cursor");
    reveal_strlit("panel.background");
    reveal_strlit("pane.focused_border");
    reveal_strlit("pane_group.border");
    reveal_strlit("search.match_background");
    reveal_strlit("search.active_match_background");
    reveal_strlit("scrollbar.thumb.background");
    reveal_strlit("scrollbar.thumb.hover_background");
    reveal_strlit("scrollbar.thumb.active_background");
    reveal_strlit("scrollbar.thumb.border");
    reveal_strlit("scrollbar.track.background");
    reveal_strlit("scrollbar.track.border");
    reveal_strlit("link_text");
    reveal_strlit("link_text.hover");
    assert("conflict"@.len() == 8);
    assert("conflict.background"@.len() == 19);
    assert("conflict.border"@.len() == 15);
    assert("created"@.len() == 7);
    assert("created.background"@.len() == 18);
    assert("created.border"@.len() == 14);
    assert("deleted"@.len() == 7);
    assert("deleted.background"@.len() == 18);
    assert("deleted.border"@.len() == 14);
    assert("error"@.len() == 5);
    assert("error.background"@.len() == 16);
    assert("error.border"@.len() == 12);
    assert("hidden"@.len() == 6);
    assert("hidden.background"@.len() == 17);
    assert("hidden.border"@.len() == 13);
    assert("ignored"@.len() == 7);
    assert("ignored.background"@.len() == 18);
    assert("ignored.border"@.len() == 14);
    assert("info"@.len() == 4);
    assert("info.background"@.len() == 15);
    assert("info.border"@.len() == 11);
    assert("modified"@.len() == 8);
    assert("modified.background"@.len() == 19);
    assert("modified.border"@.len() == 15);
    assert("renamed"@.len() == 7);
    assert("renamed.background"@.len() == 18);
    assert("renamed.border"@.len() == 14);
    assert("success"@.len() == 7);
    assert("success.background"@.len() == 18);
    assert("success.border"@.len() == 14);
    assert("warning"@.len() == 7);
    assert("warning.background"@.len() == 18);
    assert("warning.border"@.len() == 14);
    assert("border"@.len() == 6);
    assert("border.variant"@.len() == 14);
    assert("border.focused"@.len() == 14);
    assert("border.selected"@.len() == 15);
    assert("border.disabled"@.len() == 15);
    assert("border.transparent"@.len() == 18);
    assert("background"@.len() == 10);
    assert("surface.background"@.len() == 18);
    assert("elevated_surface.background"@.len() == 27);
    assert("element.background"@.len() == 18);
    assert("element.hover"@.len() == 13);
    assert("element.active"@.len() == 14);
    assert("element.selected"@.len() == 16);
    assert("element.disabled"@.len() == 16);
    assert("ghost_element.background"@.len() == 24);
    assert("ghost_element.hover"@.len() == 19);
    assert("ghost_element.active"@.len() == 20);
    assert("ghost_element.selected"@.len() == 22);
    assert("ghost_element.disabled"@.len() == 22);
    assert("text"@.len() == 4);
    assert("text.muted"@.len() == 10);
    assert("text.placeholder"@.len() == 16);
    assert("text.disabled"@.len() == 13);
    assert("text.accent"@.len() == 11);
    assert("icon"@.len() == 4);
    assert("icon.muted"@.len() == 10);
    assert("icon.disabled"@.len() == 13);
    assert("icon.accent"@.len() == 11);
    assert("editor.foreground"@.len() == 17);
    assert("editor.background"@.len() == 17);
    assert("editor.gutter.background"@.len() == 24);
    assert("editor.active_line.background"@.len() == 29);
    assert("editor.line_number"@.len() == 18);
    assert("editor.active_line_number"@.len() == 25);
    assert("editor.wrap_guide"@.len() == 17);
    assert("editor.indent_guide"@.len() == 19);
    assert("editor.indent_guide_active"@.len() == 26);
    assert("editor.invisible"@.len() == 16);
    assert("editor.document_highlight.read_background"@.len() == 41);
    assert("editor.document_highlight.write_background"@.len() == 42);
    assert("editor.cursor"@.len() == 13);
    assert("panel.background"@.len() == 16);
    assert("pane.focused_border"@.len() == 19);
    assert("pane_group.border"@.len() == 17);
    assert("search.match_background"@.len() == 23);
    assert("search.active_match_background"@.len() == 30);
    assert("scrollbar.thumb.background"@.len() == 26);
    assert("scrollbar.thumb.hover_background"@.len() == 32);
    assert("scrollbar.thumb.active_background"@.len() == 33);
    assert("scrollbar.thumb.border"@.len() == 22);
    assert("scrollbar.track.background"@.len() == 26);
    assert("scrollbar.track.border"@.len() == 22);
    assert("link_text"@.len() == 9);
    assert("link_text.hover"@.len() == 15);
    assert("background"@[0] == 'b');
    assert("border"@[0] == 'b');
    assert("border.disabled"@[0] == 'b');
    assert("border.disabled"@[7] == 'd');
    assert("border.focused"@[0] == 'b');
    assert("border.focused"@[7] == 'f');
    assert("border.selected"@[0] == 'b');
    assert("border.selected"@[7] == 's');
    assert("border.transparent"@[0] == 'b');
    assert("border.variant"@[0] == 'b');
    assert("border.variant"@[7] == 'v');
    assert("conflict"@[0] == 'c');
    assert("conflict.background"@[0] == 'c');
    assert("conflict.border"@[0] == 'c');
    assert("created"@[0] == 'c');
    assert("created.background"@[0] == 'c');
    assert("created.border"@[0] == 'c');
    assert("deleted"@[0] == 'd');
    assert("deleted.background"@[0] == 'd');
    assert("deleted.border"@[0] == 'd');
    assert("editor.background"@[0] == 'e');
    assert("editor.background"@[7] == 'b');
    assert("editor.cursor"@[0] == 'e');
    assert("editor.cursor"@[1] == 'd');
    assert("editor.foreground"@[0] == 'e');
    assert("editor.foreground"@[7] == 'f');
    assert("editor.gutter.background"@[0] == 'e');
    assert("editor.indent_guide"@[0] == 'e');
    assert("editor.indent_guide_active"@[0] == 'e');
    assert("editor.invisible"@[0] == 'e');
    assert("editor.invisible"@[1] == 'd');
    assert("editor.line_number"@[0] == 'e');
    assert("editor.line_number"@[1] == 'd');
    assert("editor.wrap_guide"@[0] == 'e');
    assert("editor.wrap_guide"@[7] == 'w');
    assert("element.active"@[0] == 'e');
    assert("element.background"@[0] == 'e');
    assert("element.background"@[1] == 'l');
    assert("element.disabled"@[0] == 'e');
    assert("element.disabled"@[1] == 'l');
    assert("element.disabled"@[8] == 'd');
    assert("element.hover"@[0] == 'e');
    assert("element.hover"@[1] == 'l');
    assert("element.selected"@[0] == 'e');
    assert("element.selected"@[1] == 'l');
    assert("element.selected"@[8] == 's');
    assert("error.background"@[0] == 'e');
    assert("error.background"@[1] == 'r');
    assert("ghost_element.background"@[0] == 'g');
    assert("ghost_element.disabled"@[0] == 'g');
    assert("ghost_element.disabled"@[14] == 'd');
    assert("ghost_element.hover"@[0] == 'g');
    assert("ghost_element.selected"@[0] == 'g');
    assert("ghost_element.selected"@[14] == 's');
    assert("hidden"@[0] == 'h');
    assert("hidden.background"@[0] == 'h');
    assert("hidden.border"@[0] == 'h');
    assert("icon"@[0] == 'i');
    assert("icon"@[1] == 'c');
    assert("icon.accent"@[0] == 'i');
    assert("icon.accent"@[1] == 'c');
    assert("icon.disabled"@[0] == 'i');
    assert("icon.muted"@[0] == 'i');
    assert("ignored"@[0] == 'i');
    assert("ignored.background"@[0] == 'i');
    assert("ignored.border"@[0] == 'i');
    assert("info"@[0] == 'i');
    assert("info"@[1] == 'n');
    assert("info.background"@[0] == 'i');
    assert("info.border"@[0] == 'i');
    assert("info.border"@[1] == 'n');
    assert("link_text.hover"@[0] == 'l');
    assert("modified"@[0] == 'm');
    assert("modified.background"@[0] == 'm');
    assert("modified.border"@[0] == 'm');
    assert("pane.focused_border"@[0] == 'p');
    assert("pane_group.border"@[0] == 'p');
    assert("panel.background"@[0] == 'p');
    assert("renamed"@[0] == 'r');
    assert("renamed.background"@[0] == 'r');
    assert("renamed.border"@[0] == 'r');
    assert("scrollbar.thumb.background"@[0] == 's');
    assert("scrollbar.thumb.background"@[11] == 'h');
    assert("scrollbar.thumb.border"@[0] == 's');
    assert("scrollbar.thumb.border"@[11] == 'h');
    assert("scrollbar.track.background"@[0] == 's');
    assert("scrollbar.track.background"@[11] == 'r');
    assert("scrollbar.track.border"@[0] == 's');
    assert("scrollbar.track.border"@[11] == 'r');
    assert("success"@[0] == 's');
    assert("success.background"@[0] == 's');
    assert("success.background"@[2] == 'c');
    assert("success.border"@[0] == 's');
    assert("surface.background"@[0] == 's');
    assert("surface.background"@[2] == 'r');
    assert("text"@[0] == 't');
    assert("text.accent"@[0] == 't');
    assert("text.disabled"@[0] == 't');
    assert("text.muted"@[0] == 't');
    assert("text.placeholder"@[0] == 't');
    assert("warning"@[0] == 'w');
    assert("warning.background"@[0] == 'w');
    assert("warning.border"@[0] == 'w');
}

/// Whether two texts are the same, compared byte by byte.
fn same_text(a: &str, b: &str) -> (r: bool)
    ensures
        r == (a@ == b@),
{
    let x = a.as_bytes();
    let y = b.as_bytes();
    proof {
        encode_utf8_decode_utf8(a@);
        encode_utf8_decode_utf8(b@);
    }
    if x.len() != y.len() {
        return false;
    }
    let mut i: usize = 0;
    while i < x.len()
        invariant
            i <= x@.len(),
            x@.len() == y@.len(),
            x@ == encode_utf8(a@),
            y@ == encode_utf8(b@),
            forall|k: int| 0 <= k < i ==> x@[k] == y@[k],
        decreases x@.len() - i,
    {
        if x[i] != y[i] {
            proof {
                assert(x@[i as int] != y@[i as int]);
                assert(x@ != y@);
            }
            return false;
        }
        i = i + 1;
    }
    proof {
        assert(x@ =~= y@);
    }
    true
}

/// The slot that the color key `key` fills (see `color_slot_spec`).
pub fn color_slot(key: &str) -> (r: Option<ColorSlot>)
    ensures
        r == color_slot_spec(key@),
{
    if same_text(key, "conflict") {
        Some(ColorSlot::Status(StatusColorSlot::Conflict))
    } else if same_text(key, "conflict.background") {
        Some(ColorSlot::Status(StatusColorSlot::ConflictBackground))
    } else if same_text(key, "conflict.border") {
        Some(ColorSlot::Status(StatusColorSlot::ConflictBorder))
    } else if same_text(key, "created") {
        Some(ColorSlot::Status(StatusColorSlot::Created))
    } else if same_text(key, "created.background") {
        Some(ColorSlot::Status(StatusColorSlot::CreatedBackground))
    } else if same_text(key, "created.border") {
        Some(ColorSlot::Status(StatusColorSlot::CreatedBorder))
    } else if same_text(key, "deleted") {
        Some(ColorSlot::Status(StatusColorSlot::Deleted))
    } else if same_text(key, "deleted.background") {
        Some(ColorSlot::Status(StatusColorSlot::DeletedBackground))
    } else if same_text(key, "deleted.border") {
        Some(ColorSlot::Status(StatusColorSlot::DeletedBorder))
    } else if same_text(key, "error") {
        Some(ColorSlot::Status(StatusColorSlot::Error))
    } else if same_text(key, "error.background") {
        Some(ColorSlot::Status(StatusColorSlot::ErrorBackground))
    } else if same_text(key, "error.border") {
        Some(ColorSlot::Status(StatusColorSlot::ErrorBorder))
    } else if same_text(key, "hidden") {
        Some(ColorSlot::Status(StatusColorSlot::Hidden))
    } else if same_text(key, "hidden.background") {
        Some(ColorSlot::Status(StatusColorSlot::HiddenBackground))
    } else if same_text(key, "hidden.border") {
        Some(ColorSlot::Status(StatusColorSlot::HiddenBorder))
    } else if same_text(key, "ignored") {
        Some(ColorSlot::Status(StatusColorSlot::Ignored))
    } else if same_text(key, "ignored.background") {
        Some(ColorSlot::Status(StatusColorSlot::IgnoredBackground))
    } else if same_text(key, "ignored.border") {
        Some(ColorSlot::Status(StatusColorSlot::IgnoredBorder))
    } else if same_text(key, "info") {
        Some(ColorSlot::Status(StatusColorSlot::Info))
    } else if same_text(key, "info.background") {
        Some(ColorSlot::Status(StatusColorSlot::InfoBackground))
    } else if same_text(key, "info.border") {
        Some(ColorSlot::Status(StatusColorSlot::InfoBorder))
    } else if same_text(key, "modified") {
        Some(ColorSlot::Status(StatusColorSlot::Modified))
    } else if same_text(key, "modified.background") {
        Some(ColorSlot::Status(StatusColorSlot::ModifiedBackground))
    } else if same_text(key, "modified.border") {
        Some(ColorSlot::Status(StatusColorSlot::ModifiedBorder))
    } else if same_text(key, "renamed") {
        Some(ColorSlot::Status(StatusColorSlot::Renamed))
    } else if same_text(key, "renamed.background") {
        Some(ColorSlot::Status(StatusColorSlot::RenamedBackground))
    } else if same_text(key, "renamed.border") {
        Some(ColorSlot::Status(StatusColorSlot::RenamedBorder))
    } else if same_text(key, "success") {
        Some(ColorSlot::Status(StatusColorSlot::Success))
    } else if same_text(key, "success.background") {
        Some(ColorSlot::Status(StatusColorSlot::SuccessBackground))
    } else if same_text(key, "success.border") {
        Some(ColorSlot::Status(StatusColorSlot::SuccessBorder))
    } else if same_text(key, "warning") {
        Some(ColorSlot::Status(StatusColorSlot::Warning))
    } else if same_text(key, "warning.background") {
        Some(ColorSlot::Status(StatusColorSlot::WarningBackground))
    } else if same_text(key, "warning.border") {
        Some(ColorSlot::Status(StatusColorSlot::WarningBorder))
    } else if same_text(key, "border") {
        Some(ColorSlot::Theme(ThemeColorSlot::Border))
    } else if same_text(key, "border.variant") {
        Some(ColorSlot::Theme(ThemeColorSlot::BorderVariant))
    } else if same_text(key, "border.focused") {
        Some(ColorSlot::Theme(ThemeColorSlot::BorderFocused))
    } else if same_text(key, "border.selected") {
        Some(ColorSlot::Theme(ThemeColorSlot::BorderSelected))
    } else if same_text(key, "border.disabled") {
        Some(ColorSlot::Theme(ThemeColorSlot::BorderDisabled))
    } else if same_text(key, "border.transparent") {
        Some(ColorSlot::Theme(ThemeColorSlot::BorderTransparent))
    } else if same_text(key, "background") {
        Some(ColorSlot::Theme(ThemeColorSlot::Background))
    } else if same_text(key, "surface.background") {
        Some(ColorSlot::Theme(ThemeColorSlot::SurfaceBackground))
    } else if same_text(key, "elevated_surface.background") {
        Some(ColorSlot::Theme(ThemeColorSlot::ElevatedSurfaceBackground))
    } else if same_text(key, "element.background") {
        Some(ColorSlot::Theme(ThemeColorSlot::ElementBackground))
    } else if same_text(key, "element.hover") {
        Some(ColorSlot::Theme(ThemeColorSlot::ElementHover))
    } else if same_text(key, "element.active") {
        Some(ColorSlot::Theme(ThemeColorSlot::ElementActive))
    } else if same_text(key, "element.selected") {
        Some(ColorSlot::Theme(ThemeColorSlot::ElementSelected))
    } else if same_text(key, "element.disabled") {
        Some(ColorSlot::Theme(ThemeColorSlot::ElementDisabled))
    } else if same_text(key, "ghost_element.background") {
        Some(ColorSlot::Theme(ThemeColorSlot::GhostElementBackground))
    } else if same_text(key, "ghost_element.hover") {
        Some(ColorSlot::Theme(ThemeColorSlot::GhostElementHover))
    } else if same_text(key, "ghost_element.active") {
        Some(ColorSlot::Theme(ThemeColorSlot::GhostElementActive))
    } else if same_text(key, "ghost_element.selected") {
        Some(ColorSlot::Theme(ThemeColorSlot::GhostElementSelected))
    } else if same_text(key, "ghost_element.disabled") {
        Some(ColorSlot::Theme(ThemeColorSlot::GhostElementDisabled))
    } else if same_text(key, "text") {
        Some(ColorSlot::Theme(ThemeColorSlot::Text))
    } else if same_text(key, "text.muted") {
        Some(ColorSlot::Theme(ThemeColorSlot::TextMuted))
    } else if same_text(key, "text.placeholder") {
        Some(ColorSlot::Theme(ThemeColorSlot::TextPlaceholder))
    } else if same_text(key, "text.disabled") {
        Some(ColorSlot::Theme(ThemeColorSlot::TextDisabled))
    } else if same_text(key, "text.accent") {
        Some(ColorSlot::Theme(ThemeColorSlot::TextAccent))
    } else if same_text(key, "icon") {
        Some(ColorSlot::Theme(ThemeColorSlot::Icon))
    } else if same_text(key, "icon.muted") {
        Some(ColorSlot::Theme(ThemeColorSlot::IconMuted))
    } else if same_text(key, "icon.disabled") {
        Some(ColorSlot::Theme(ThemeColorSlot::IconDisabled))
    } else if same_text(key, "icon.accent") {
        Some(ColorSlot::Theme(ThemeColorSlot::IconAccent))
    } else if same_text(key, "editor.foreground") {
        Some(ColorSlot::Theme(ThemeColorSlot::EditorForeground))
    } else if same_text(key, "editor.background") {
        Some(ColorSlot::Theme(ThemeColorSlot::EditorBackground))
    } else if same_text(key, "editor.gutter.background") {
        Some(ColorSlot::Theme(ThemeColorSlot::EditorGutterBackground))
    } else if same_text(key, "editor.active_line.background") {
        Some(ColorSlot::Theme(ThemeColorSlot::EditorActiveLineBackground))
    } else if same_text(key, "editor.line_number") {
        Some(ColorSlot::Theme(ThemeColorSlot::EditorLineNumber))
    } else if same_text(key, "editor.active_line_number") {
        Some(ColorSlot::Theme(ThemeColorSlot::EditorActiveLineNumber))
    } else if same_text(key, "editor.wrap_guide") {
        Some(ColorSlot::Theme(ThemeColorSlot::EditorWrapGuide))
    } else if same_text(key, "editor.indent_guide") {
        Some(ColorSlot::Theme(ThemeColorSlot::EditorIndentGuide))
    } else if same_text(key, "editor.indent_guide_active") {
        Some(ColorSlot::Theme(ThemeColorSlot::EditorIndentGuideActive))
    } else if same_text(key, "editor.invisible") {
        Some(ColorSlot::Theme(ThemeColorSlot::EditorInvisible))
    } else if same_text(key, "editor.document_highlight.read_background") {
        Some(ColorSlot::Theme(ThemeColorSlot::EditorDocumentHighlightReadBackground))
    } else if same_text(key, "editor.document_highlight.write_background") {
        Some(ColorSlot::Theme(ThemeColorSlot::EditorDocumentHighlightWriteBackground))
    } else if same_text(key, "editor.cursor") {
        Some(ColorSlot::Theme(ThemeColorSlot::EditorCursor))
    } else if same_text(key, "panel.background") {
        Some(ColorSlot::Theme(ThemeColorSlot::PanelBackground))
    } else if same_text(key, "pane.focused_border") {
        Some(ColorSlot::Theme(ThemeColorSlot::PaneFocusedBorder))
    } else if same_text(key, "pane_group.border") {
        Some(ColorSlot::Theme(ThemeColorSlot::PaneGroupBorder))
    } else if same_text(key, "search.match_background") {
        Some(ColorSlot::Theme(ThemeColorSlot::SearchMatchBackground))
    } else if same_text(key, "search.active_match_background") {
        Some(ColorSlot::Theme(ThemeColorSlot::SearchActiveMatchBackground))
    } else if same_text(key, "scrollbar.thumb.background") {
        Some(ColorSlot::Theme(ThemeColorSlot::ScrollbarThumbBackground))
    } else if same_text(key, "scrollbar.thumb.hover_background") {
        Some(ColorSlot::Theme(ThemeColorSlot::ScrollbarThumbHoverBackground))
    } else if same_text(key, "scrollbar.thumb.active_background") {
        Some(ColorSlot::Theme(ThemeColorSlot::ScrollbarThumbActiveBackground))
    } else if same_text(key, "scrollbar.thumb.border") {
        Some(ColorSlot::Theme(ThemeColorSlot::ScrollbarThumbBorder))
    } else if same_text(key, "scrollbar.track.background") {
        Some(ColorSlot::Theme(ThemeColorSlot::ScrollbarTrackBackground))
    } else if same_text(key, "scrollbar.track.border") {
        Some(ColorSlot::Theme(ThemeColorSlot::ScrollbarTrackBorder))
    } else if same_text(key, "link_text") || same_text(key, "link_text.hover") {
        Some(ColorSlot::Theme(ThemeColorSlot::Link))
    } else {
        None
    }
}

} // verus!
