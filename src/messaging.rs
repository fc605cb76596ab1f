//! Events, subscribers, publishers and the buses that route between them.
pub mod bus;
pub mod channels;
pub mod event;
pub mod laws;
pub mod publish;
pub mod rc;
pub mod subscribe;
pub mod sync;
