//! How vertex data is laid out for the graphics pipeline.
pub mod buffer_layout;
