//! Client side of the Focus text protocol: framing of requests, cleaning of
//! replies, choice of the serial device, and the exchange itself as a state
//! machine that performs no I/O of its own.

pub mod device;
pub mod reply;
pub mod request;
pub mod session;
pub mod strings;
pub mod text;
pub mod trace;
