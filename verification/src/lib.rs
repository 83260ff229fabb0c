//! Decisions of a remote-control agent: which command a datagram asks for,
//! what is answered and where, and which input-device events carry out a
//! mouse request.

pub mod mouse;
pub mod protocol;
pub mod text;
pub mod virtual_mouse;
