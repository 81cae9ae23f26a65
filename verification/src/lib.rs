//! Wake-on-LAN: magic packets and the decisions around sending them.
//!
//! The crate is free of I/O. [`mac`] reads the textual form of a hardware
//! address, [`packet`] lays out the 102-byte magic packet, [`transmit`] is the
//! step-by-step protocol for handing one packet to a UDP endpoint, and
//! [`run`] walks a list of devices ([`device`]) and records one outcome
//! ([`error`]) for each of them. The two state machines tell their caller
//! which transport operation to perform next and take the operation's result
//! back.

pub mod device;
pub mod error;
pub mod mac;
pub mod packet;
pub mod run;
pub mod transmit;
