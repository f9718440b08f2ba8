//! A terminal viewer for log files: the state of the viewer, how keys change it, and what it shows.

pub mod app;
pub mod area;
pub mod bridge;
pub mod colorize;
pub mod colorize_laws;
pub mod highlight;
pub mod highlight_laws;
pub mod json;
pub mod json_laws;
pub mod json_layout;
pub mod key_laws;
pub mod keys;
pub mod laws;
pub mod matching;
pub mod number;
pub mod number_laws;
pub mod screen_laws;
pub mod source;
pub mod state;
pub mod style;
pub mod text;
pub mod text_laws;
