pub mod buffer;
pub mod editor;
pub mod interpret;
pub mod keymap;
pub mod textmodel;
pub mod textstore;
pub mod ui;
pub mod unicode;
