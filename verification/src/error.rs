//! Why a device could not be woken, and what became of one attempt.

use vstd::prelude::*;
use vstd::string::StringExecFns;

verus! {

/// The reasons for which waking one device fails.
#[derive(Debug, PartialEq, Eq)]
pub enum WakeError {
    /// The text given as a hardware address is not six two-digit hexadecimal
    /// octets separated by colons.
    InvalidMacAddress,
    /// The transport refused an operation; the text is the cause it gave.
    TransportError(String),
}

/// What the characters of the cause of `error` are.
pub open spec fn message_text(error: WakeError) -> Seq<char> {
    match error {
        WakeError::InvalidMacAddress => "Invalid MAC address"@,
        WakeError::TransportError(cause) => cause@,
    }
}

impl WakeError {
    /// The cause in words, for a person to read.
    pub fn message(&self) -> (text: String)
        ensures
            text@ == message_text(*self),
    {
        match self {
            WakeError::InvalidMacAddress => String::from_str("Invalid MAC address"),
            WakeError::TransportError(cause) => cause.clone(),
        }
    }
}

impl Clone for WakeError {
    /// A copy of this error, cause included.
    fn clone(&self) -> (copy: WakeError)
        ensures
            copy == *self,
    {
        match self {
            WakeError::InvalidMacAddress => WakeError::InvalidMacAddress,
            WakeError::TransportError(cause) => WakeError::TransportError(cause.clone()),
        }
    }
}

/// The result of trying to wake one device.
#[derive(Debug, PartialEq, Eq)]
pub enum SendOutcome {
    /// The local network stack accepted the packet for both ports. Nothing
    /// is known about whether the device received it.
    Sent,
    /// The attempt ended without both datagrams handed over.
    Failed(WakeError),
}

impl SendOutcome {
    /// Whether both datagrams were handed to the transport.
    pub fn is_sent(&self) -> (sent: bool)
        ensures
            sent <==> *self == SendOutcome::Sent,
    {
        match self {
            SendOutcome::Sent => true,
            SendOutcome::Failed(_) => false,
        }
    }
}

impl Clone for SendOutcome {
    /// A copy of this outcome, cause included.
    fn clone(&self) -> (copy: SendOutcome)
        ensures
            copy == *self,
    {
        match self {
            SendOutcome::Sent => SendOutcome::Sent,
            SendOutcome::Failed(error) => SendOutcome::Failed(error.clone()),
        }
    }
}

} // verus!
