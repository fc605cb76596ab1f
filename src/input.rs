//! Input events in the engine's own terms, independent of any windowing library.
pub mod keyboard;
pub mod mouse;
