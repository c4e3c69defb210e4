pub mod types;
pub mod layout;
pub mod pool;
pub mod atlas;
pub mod draw;
pub mod style;
pub mod context;
pub mod input;
pub mod controls;
pub mod text_edit;
pub mod window;
pub mod glyph;
pub mod icon;
pub mod shaping;
