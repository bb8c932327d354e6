//! The reporting capability: the payload of an address-change notification,
//! and the interface a delivery destination implements.

use vstd::prelude::*;

verus! {

/// The data associated with an IP address update.
#[derive(Debug)]
pub struct Data {
    /// The textual form of the IP address.
    pub ip: String,
}

/// An abstract way to report the `Data`.
///
/// Implement this to send the IP address updates to a new destination.
pub trait Reporter {
    /// The error that this reporter can produce.
    type Error;

    /// Report the passed `Data`: deliver it to this reporter's destination,
    /// or fail with this reporter's error.
    fn report(&self, data: &Data) -> Result<(), Self::Error>;
}

} // verus!
