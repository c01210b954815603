//! The document model of a block editor.

pub mod block;
pub mod document_laws;
pub mod edit;
pub mod effect;
pub mod focus;
pub mod input_rules;
pub mod laws;
pub mod mark;
pub mod menu_laws;
pub mod pattern;
pub mod ready;
pub mod render;
pub mod slash;
pub mod state;
pub mod style;
pub mod suggestion;
pub mod text;
pub mod toolbar;
pub mod toolbar_laws;
pub mod typing_laws;
pub mod view;
