use vstd::prelude::*;

verus! {

/// Possible errors on configuring a serial device.
#[derive(Debug)]
#[non_exhaustive]
pub enum SerialError {
    /// The device could not be configured, for the reason given.
    General(String),
}

} // verus!
