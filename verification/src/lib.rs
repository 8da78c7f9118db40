//! A live fan-out relay core: one bounded broadcast channel distributes
//! opaque binary frames from any number of publishers to any number of
//! subscribers, dropping the oldest frames for consumers that fall behind
//! so that a slow consumer never stalls the rest of the system.

pub mod args;
pub mod channel;
pub mod laws;
pub mod session;
