//! Editing and rendering of chat text that carries inline style markers.
//!
//! A raw buffer is UTF-8 text in which control characters switch bold,
//! italic and underline, select colours or reset the style. The cursor of
//! the prompt counts visible characters only; the modules below keep the
//! three readings of one buffer (raw bytes, visible characters, styled
//! spans) in step.

pub mod encoding;
pub mod markup;
pub mod keys;
pub mod app;
pub mod cursor;
pub mod style;
pub mod textstyle;
pub mod viewport;
pub mod chat;
pub mod config;
pub mod stream;
pub mod layout;
pub mod overview;
