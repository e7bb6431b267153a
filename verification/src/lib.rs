//! Accessibility tree projection for AccessKit, the glass panel element, and
//! the decisions behind a per-window display link.

pub mod accessibility;
pub mod display_link;
pub mod glass_panel;

pub use accessibility::{diff_tree_update, full_tree, TreeInfo, TreeUpdate, A11Y_ROOT_ID};
pub use glass_panel::{glass_panel, GlassPanelElement, GlassPanelPaint, TransparentBlack};
