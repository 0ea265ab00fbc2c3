//! Preconfigured devices.
use vstd::prelude::*;

use crate::bus::{setup_waits, DelayMs, I2cRead, I2cWrite};
use crate::fl3743::{scaling_plan, setup_plan, IS31FL3743};
use crate::{bus_outcome, Error};

verus! {

/// The slave address of `UnknownDevice`.
pub const UNKNOWN_DEVICE_ADDRESS: u8 = 0b0100000;

/// An IS31FL3743A whose LED layout is not known: the whole PWM page is
/// addressed as one row of 198 LEDs, and pixel mapping is not provided.
pub struct UnknownDevice<I2C, F> {
    pub device: IS31FL3743<I2C, F>,
}

/// Every coordinate maps to register 0; `UnknownDevice` is driven by whole frames.
pub open spec fn no_layout(x: u8, y: u8) -> u8 {
    0
}

impl<I2C, E> UnknownDevice<I2C, ()> where I2C: I2cRead + I2cWrite<Error = E> {
    /// A handle at the default address, for a row of 198 LEDs.
    pub fn configure(i2c: I2C) -> (r: UnknownDevice<I2C, impl Fn(u8, u8) -> u8>)
        ensures
            r.device.i2c == i2c,
            r.device.address == UNKNOWN_DEVICE_ADDRESS,
            r.device.width == 198,
            r.device.height == 1,
    {
        let calc_pixel = |x: u8, y: u8| -> (r: u8)
            ensures
                r == no_layout(x, y),
            { 0 };
        UnknownDevice { device: IS31FL3743::new(i2c, UNKNOWN_DEVICE_ADDRESS, 198, 1, calc_pixel) }
    }
}

impl<I2C, E, F> UnknownDevice<I2C, F> where
    I2C: I2cRead + I2cWrite<Error = E>,
    F: Fn(u8, u8) -> u8,
 {
    /// Give back the bus.
    pub fn unwrap(self) -> (r: I2C)
        ensures
            r == self.device.i2c,
    {
        self.device.i2c
    }

    /// Set the current available to every LED (0 is none, 255 is the maximum).
    pub fn set_scaling(&mut self, scale: u8) -> (r: Result<(), E>)
        ensures
            old(self).device.made(&final(self).device, scaling_plan(scale), r),
            old(self).device.keeps(&final(self).device),
    {
        self.device.set_scaling(scale)
    }

    /// Bring the chip up; see `IS31FL3743::setup`.
    pub fn setup<DEL: DelayMs>(&mut self, delay: &mut DEL) -> (r: Result<(), Error<E>>)
        ensures
            old(self).device.made(&final(self).device, setup_plan(), bus_outcome(r)),
            r is Err ==> r->Err_0 is I2cError,
            final(delay).waits() == old(delay).waits() + setup_waits(
                final(self).device.i2c.transfers().len() - old(self).device.i2c.transfers().len(),
            ),
            old(self).device.keeps(&final(self).device),
    {
        self.device.setup(delay)
    }
}

} // verus!
