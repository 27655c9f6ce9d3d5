//! Verified core logic of an encrypted desktop notes application.
pub mod ids;
pub mod types;
pub mod text;
pub mod strip;
pub mod size;
pub mod snippet;
pub mod images;
pub mod editor;
pub mod words;
pub mod lower;
pub mod notes;
pub mod search;
pub mod tree;
pub mod colors;
pub mod folders;
pub mod forms;
pub mod keys;
pub mod blocks;
pub mod selection;
pub mod shortcuts;
pub mod settings;
pub mod session;
