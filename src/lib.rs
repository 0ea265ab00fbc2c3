//! Drivers for the IS31FL3741 and IS31FL3743A LED-matrix controllers.
//!
//! Every register access goes through the chip's paged protocol: unlock the
//! page-select register, select the page, then transfer. The transport keeps
//! a record of every transfer made through it (address, bytes, outcome), and
//! the contracts of the handles' operations state how that record grows.
use vstd::prelude::*;

pub mod addresses;
pub mod bus;
pub mod fl3741;
pub mod fl3743;
pub mod devices;
pub mod model;

pub use bus::{DelayMs, I2cRead, I2cWrite, Transfer, TransferLog, WaitLog};
pub use devices::UnknownDevice;
pub use fl3741::{Page, IS31FL3741};
pub use fl3743::{SwSetting, IS31FL3743};

verus! {

/// What an operation of a handle can fail with.
#[derive(Clone, Copy, Debug)]
pub enum Error<I2cError> {
    /// The transport refused a transfer; its own error is handed on unchanged.
    I2cError(I2cError),
    /// A coordinate lies outside the matrix; it carries the offending value.
    InvalidLocation(u8),
    /// A frame number out of range (kept for chips that have frames).
    InvalidFrame(u8),
}

/// What the transport returned, for an operation whose only errors are the transport's.
pub open spec fn bus_outcome<E>(r: Result<(), Error<E>>) -> Result<(), E> {
    match r {
        Err(Error::I2cError(e)) => Err(e),
        _ => Ok(()),
    }
}

impl<E> From<E> for Error<E> {
    fn from(error: E) -> (r: Self)
        ensures
            r == Error::I2cError(error),
    {
        Error::I2cError(error)
    }
}

impl<E> vstd::std_specs::convert::FromSpecImpl<E> for Error<E> {
    open spec fn obeys_from_spec() -> bool {
        true
    }

    open spec fn from_spec(v: E) -> Self {
        Error::I2cError(v)
    }
}

} // verus!
