//! Application layers stacked over the event stream.
pub mod layer;
