//! Category-routed publish/subscribe event bus with weakly held subscribers.
pub mod input;
pub mod messaging;
pub mod platform;
pub mod opengl;
