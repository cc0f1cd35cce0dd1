//! A parser for the escape sequences that programs send to a terminal.
//!
//! A [`Parser`] takes in bytes, in chunks of any size, and gives the
//! [`Action`]s that they amount to: characters to show, control codes, and the
//! various kinds of sequences and control strings. Sixel images, terminal
//! capability queries and status queries are collected and read here; what the
//! other sequences mean is up to a [`Decoder`].

pub mod action;
pub mod decode;
pub mod image_laws;
pub mod laws;
pub mod machine;
pub mod parser;
pub mod sixel;
pub mod state;
pub mod tcap;
pub mod text;

pub use action::Action;
pub use decode::{Decoder, Undecoded};
pub use parser::Parser;
