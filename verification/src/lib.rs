//! Verified core of a GPUI widget kit.
//!
//! The text engine: byte/point/UTF-16 coordinates over a UTF-8 buffer,
//! selections, the undo history and the texts it leads through, soft-wrap
//! display rows, cursor movement, and the editor state machine on top of
//! them. The theme and component layers: icon themes, the theme registry,
//! embedded assets and icons, and their small enums.

pub mod point;
pub mod rope;
pub mod segmentation;
pub mod selection;
pub mod undo;
pub mod history;
pub mod history_proofs;
pub mod display_map;
pub mod movement;
pub mod editor;
pub mod layout;

pub mod appearance;
pub mod color_slot;
pub mod assets;
pub mod geometry;
pub mod icon;
pub mod icon_theme;
pub mod scale;
pub mod settings_provider;
pub mod theme_registry;
pub mod toggleable;
pub mod tooltip;
pub mod ui_density;
