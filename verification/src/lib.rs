//! Input state, key labels and glyph geometry for an on-screen overlay that
//! shows the keys and mouse buttons currently held.

pub mod click_through;
pub mod codes;
pub mod combination;
pub mod combination_laws;
pub mod display;
pub mod geometry;
pub mod geometry_laws;
pub mod glyph;
pub mod hook;
pub mod key_set;
pub mod key_set_laws;
pub mod l_shape_laws;
pub mod label;
pub mod mouse;
