//! The IS31FL3741: a 351-LED controller with two PWM pages and two scaling pages.
use vstd::prelude::*;

use crate::addresses::{
    CONFIG_LOCK_REGISTER, CONFIG_REGISTER, CONFIG_WRITE_ENABLE, CURRENT_REGISTER,
    PAGE_SELECT_REGISTER, RESET, RESET_REGISTER,
};
use crate::bus::{
    lemma_sends_failed, lemma_sends_then, lemma_sends_write, select_plan, sends, setup_waits,
    unlock_transfer, DelayMs, I2cWrite, Step,
};
use crate::{bus_outcome, Error};

verus! {

/// Registers the first PWM (or scaling) page holds.
pub const FIRST_BANK_LEN: usize = 0xB4;

/// Registers the second PWM (or scaling) page holds.
pub const SECOND_BANK_LEN: usize = 0xAB;

/// The register pages of the chip.
#[derive(Clone, Copy, Debug, PartialEq, Eq, Structural)]
pub enum Page {
    Pwm1,
    Pwm2,
    Scale1,
    Scale2,
    Config,
}

/// The number written to the page-select register to select `page`.
pub open spec fn page_code(page: Page) -> u8 {
    match page {
        Page::Pwm1 => 0x00,
        Page::Pwm2 => 0x01,
        Page::Scale1 => 0x02,
        Page::Scale2 => 0x03,
        Page::Config => 0x04,
    }
}

impl Page {
    pub fn code(&self) -> (r: u8)
        ensures
            r == page_code(*self),
    {
        match self {
            Page::Pwm1 => 0x00,
            Page::Pwm2 => 0x01,
            Page::Scale1 => 0x02,
            Page::Scale2 => 0x03,
            Page::Config => 0x04,
        }
    }
}

/// The PWM page that a mapping function's page number names.
pub open spec fn pwm_page(frame: u8) -> Page {
    if frame == 0 {
        Page::Pwm1
    } else {
        Page::Pwm2
    }
}

/// Unlock, then select `page`.
pub open spec fn bank_plan(page: Page) -> Seq<Step> {
    select_plan(page_code(page))
}

/// Select `page`, then write `value` to `register`.
pub open spec fn register_plan(page: Page, register: u8, value: u8) -> Seq<Step> {
    bank_plan(page).push(Step::Write(seq![register, value]))
}

/// A bulk transfer from register 0 that sets `n` registers to `value`.
pub open spec fn bulk_transfer(value: u8, n: nat) -> Seq<u8> {
    seq![0u8] + Seq::new(n, |i: int| value)
}

/// Set every register of the page pair `first`, `second` to `value`.
pub open spec fn pair_plan(first: Page, second: Page, value: u8) -> Seq<Step> {
    bank_plan(first).push(Step::Write(bulk_transfer(value, FIRST_BANK_LEN as nat))) + bank_plan(
        second,
    ).push(Step::Write(bulk_transfer(value, SECOND_BANK_LEN as nat)))
}

pub open spec fn fill_plan(brightness: u8) -> Seq<Step> {
    pair_plan(Page::Pwm1, Page::Pwm2, brightness)
}

pub open spec fn scaling_plan(scale: u8) -> Seq<Step> {
    pair_plan(Page::Scale1, Page::Scale2, scale)
}

pub open spec fn shutdown_plan(yes: bool) -> Seq<Step> {
    register_plan(Page::Config, CONFIG_REGISTER, if yes { 0 } else { 1 })
}

pub open spec fn reset_plan() -> Seq<Step> {
    register_plan(Page::Config, RESET_REGISTER, RESET)
}

/// Reset, enter shutdown, set the maximum current limit, leave shutdown.
pub open spec fn setup_plan() -> Seq<Step> {
    reset_plan() + shutdown_plan(true) + register_plan(Page::Config, CURRENT_REGISTER, 0xFF)
        + shutdown_plan(false)
}

/// A buffer that starts at register 0 and sets `n` registers to `value`.
fn bank_buffer(value: u8, n: usize) -> (buf: Vec<u8>)
    ensures
        buf@ == bulk_transfer(value, n as nat),
{
    let mut buf: Vec<u8> = Vec::new();
    buf.push(0);
    let mut i: usize = 0;
    while i < n
        invariant
            i <= n,
            buf@ == bulk_transfer(value, i as nat),
        decreases n - i,
    {
        buf.push(value);
        i += 1;
        assert(buf@ =~= bulk_transfer(value, i as nat));
    }
    buf
}

/// A handle on one IS31FL3741 behind the transport `I2C`.
pub struct IS31FL3741<I2C, F> {
    /// The bus the device sits on.
    pub i2c: I2C,
    /// The 7-bit slave address; `0x74` on most boards.
    pub address: u8,
    /// Largest accepted x coordinate.
    pub width: u8,
    /// Largest accepted y coordinate.
    pub height: u8,
    /// Maps (x, y) to a PWM register and its page (0 for the first page).
    pub calc_pixel: F,
}

impl<I2C, E, F> IS31FL3741<I2C, F> where I2C: I2cWrite<Error = E>, F: Fn(u8, u8) -> (u8, u8) {
    /// All but the transport stayed as it was.
    pub open spec fn keeps(&self, other: &Self) -> bool {
        &&& other.address == self.address
        &&& other.width == self.width
        &&& other.height == self.height
        &&& other.calc_pixel == self.calc_pixel
    }

    pub fn new(i2c: I2C, address: u8, width: u8, height: u8, calc_pixel: F) -> (r: Self)
        ensures
            r.i2c == i2c,
            r.address == address,
            r.width == width,
            r.height == height,
            r.calc_pixel == calc_pixel,
    {
        IS31FL3741 { i2c, address, width, height, calc_pixel }
    }

    fn write(&mut self, buf: &[u8]) -> (r: Result<(), E>)
        ensures
            sends(
                old(self).i2c.transfers(),
                final(self).i2c.transfers(),
                old(self).address,
                seq![Step::Write(buf@)],
                r,
            ),
            old(self).keeps(final(self)),
    {
        let ghost before = self.i2c.transfers();
        let r = self.i2c.write(self.address, buf);
        proof { lemma_sends_write(before, self.address, buf@, r); }
        r
    }

    fn unlock(&mut self) -> (r: Result<(), E>)
        ensures
            sends(
                old(self).i2c.transfers(),
                final(self).i2c.transfers(),
                old(self).address,
                seq![Step::Write(unlock_transfer())],
                r,
            ),
            old(self).keeps(final(self)),
    {
        let buf: [u8; 2] = [CONFIG_LOCK_REGISTER, CONFIG_WRITE_ENABLE];
        assert(buf@ =~= unlock_transfer());
        self.write(&buf)
    }

    fn bank(&mut self, bank: Page) -> (r: Result<(), E>)
        ensures
            sends(old(self).i2c.transfers(), final(self).i2c.transfers(), old(self).address, bank_plan(bank), r),
            old(self).keeps(final(self)),
    {
        let ghost s0 = self.i2c.transfers();
        let ghost a = self.address;
        let ghost unlock = seq![Step::Write(unlock_transfer())];
        let ghost select = seq![Step::Write(seq![PAGE_SELECT_REGISTER, page_code(bank)])];
        assert(bank_plan(bank) =~= unlock + select);
        match self.unlock() {
            Err(e) => {
                proof { lemma_sends_failed(s0, self.i2c.transfers(), a, unlock, select, e); }
                return Err(e);
            },
            Ok(()) => {},
        }
        let ghost s1 = self.i2c.transfers();
        let buf: [u8; 2] = [PAGE_SELECT_REGISTER, bank.code()];
        assert(buf@ =~= seq![PAGE_SELECT_REGISTER, page_code(bank)]);
        let r = self.write(&buf);
        proof { lemma_sends_then(s0, s1, self.i2c.transfers(), a, unlock, select, r); }
        r
    }

    fn write_register(&mut self, bank: Page, register: u8, value: u8) -> (r: Result<(), E>)
        ensures
            sends(
                old(self).i2c.transfers(),
                final(self).i2c.transfers(),
                old(self).address,
                register_plan(bank, register, value),
                r,
            ),
            old(self).keeps(final(self)),
    {
        let ghost s0 = self.i2c.transfers();
        let ghost a = self.address;
        let ghost tail = seq![Step::Write(seq![register, value])];
        assert(register_plan(bank, register, value) =~= bank_plan(bank) + tail);
        match self.bank(bank) {
            Err(e) => {
                proof { lemma_sends_failed(s0, self.i2c.transfers(), a, bank_plan(bank), tail, e); }
                return Err(e);
            },
            Ok(()) => {},
        }
        let ghost s1 = self.i2c.transfers();
        let buf: [u8; 2] = [register, value];
        assert(buf@ =~= seq![register, value]);
        let r = self.write(&buf);
        proof { lemma_sends_then(s0, s1, self.i2c.transfers(), a, bank_plan(bank), tail, r); }
        r
    }

    /// Enter (`yes`) or leave software shutdown.
    pub fn shutdown(&mut self, yes: bool) -> (r: Result<(), E>)
        ensures
            sends(old(self).i2c.transfers(), final(self).i2c.transfers(), old(self).address, shutdown_plan(yes), r),
            old(self).keeps(final(self)),
    {
        self.write_register(Page::Config, CONFIG_REGISTER, if yes { 0 } else { 1 })
    }

    /// Write the reset command, then wait 10 ms for the chip to settle; no
    /// wait after a failed write.
    pub fn reset<DEL: DelayMs>(&mut self, delay: &mut DEL) -> (r: Result<(), E>)
        ensures
            sends(old(self).i2c.transfers(), final(self).i2c.transfers(), old(self).address, reset_plan(), r),
            final(delay).waits() == old(delay).waits() + if r is Ok {
                seq![10u8]
            } else {
                seq![]
            },
            old(self).keeps(final(self)),
    {
        match self.write_register(Page::Config, RESET_REGISTER, RESET) {
            Err(e) => {
                assert(delay.waits() =~= delay.waits() + seq![]);
                return Err(e);
            },
            Ok(()) => {},
        }
        let ghost w0 = delay.waits();
        delay.delay_ms(10);
        assert(delay.waits() =~= w0 + seq![10u8]);
        Ok(())
    }

    /// Select `first` and set all its registers to `value`, then the same for `second`.
    fn fill_pair(&mut self, first: Page, second: Page, value: u8) -> (r: Result<(), E>)
        ensures
            sends(
                old(self).i2c.transfers(),
                final(self).i2c.transfers(),
                old(self).address,
                pair_plan(first, second, value),
                r,
            ),
            old(self).keeps(final(self)),
    {
        let ghost s0 = self.i2c.transfers();
        let ghost a = self.address;
        let mut buf = bank_buffer(value, FIRST_BANK_LEN);
        let ghost p1 = bank_plan(first);
        let ghost p2 = seq![Step::Write(bulk_transfer(value, FIRST_BANK_LEN as nat))];
        let ghost p3 = bank_plan(second);
        let ghost p4 = seq![Step::Write(bulk_transfer(value, SECOND_BANK_LEN as nat))];
        assert(pair_plan(first, second, value) =~= p1 + p2 + p3 + p4);
        match self.bank(first) {
            Err(e) => {
                proof { lemma_sends_failed(s0, self.i2c.transfers(), a, p1, p2 + p3 + p4, e); }
                assert(p1 + (p2 + p3 + p4) =~= p1 + p2 + p3 + p4);
                return Err(e);
            },
            Ok(()) => {},
        }
        let ghost s1 = self.i2c.transfers();
        match self.write(buf.as_slice()) {
            Err(e) => {
                proof {
                    lemma_sends_then(s0, s1, self.i2c.transfers(), a, p1, p2, Err(e));
                    lemma_sends_failed(s0, self.i2c.transfers(), a, p1 + p2, p3 + p4, e);
                }
                assert(p1 + p2 + (p3 + p4) =~= p1 + p2 + p3 + p4);
                return Err(e);
            },
            Ok(()) => {},
        }
        proof { lemma_sends_then(s0, s1, self.i2c.transfers(), a, p1, p2, Ok(())); }
        let ghost s2 = self.i2c.transfers();
        match self.bank(second) {
            Err(e) => {
                proof {
                    lemma_sends_then(s0, s2, self.i2c.transfers(), a, p1 + p2, p3, Err(e));
                    lemma_sends_failed(s0, self.i2c.transfers(), a, p1 + p2 + p3, p4, e);
                }
                return Err(e);
            },
            Ok(()) => {},
        }
        proof { lemma_sends_then(s0, s2, self.i2c.transfers(), a, p1 + p2, p3, Ok(())); }
        let ghost s3 = self.i2c.transfers();
        buf.truncate(SECOND_BANK_LEN + 1);
        assert(buf@ =~= bulk_transfer(value, SECOND_BANK_LEN as nat));
        let r = self.write(buf.as_slice());
        proof { lemma_sends_then(s0, s3, self.i2c.transfers(), a, p1 + p2 + p3, p4, r); }
        r
    }

    /// Set every LED to `brightness` (0 is off, 255 is full).
    pub fn fill(&mut self, brightness: u8) -> (r: Result<(), E>)
        ensures
            sends(old(self).i2c.transfers(), final(self).i2c.transfers(), old(self).address, fill_plan(brightness), r),
            old(self).keeps(final(self)),
    {
        self.fill_pair(Page::Pwm1, Page::Pwm2, brightness)
    }

    /// Set the current available to every LED (0 is none, 255 is the maximum).
    pub fn set_scaling(&mut self, scale: u8) -> (r: Result<(), E>)
        ensures
            sends(old(self).i2c.transfers(), final(self).i2c.transfers(), old(self).address, scaling_plan(scale), r),
            old(self).keeps(final(self)),
    {
        self.fill_pair(Page::Scale1, Page::Scale2, scale)
    }

    /// Bring the chip up: reset (and wait 10 ms), enter shutdown, wait 10 ms,
    /// set the maximum current limit, leave shutdown. Should run before any
    /// other operation. It stops at the first failed transfer.
    pub fn setup<DEL: DelayMs>(&mut self, delay: &mut DEL) -> (r: Result<(), Error<E>>)
        ensures
            sends(old(self).i2c.transfers(), final(self).i2c.transfers(), old(self).address, setup_plan(), bus_outcome(r)),
            r is Err ==> r->Err_0 is I2cError,
            final(delay).waits() == old(delay).waits() + setup_waits(
                final(self).i2c.transfers().len() - old(self).i2c.transfers().len(),
            ),
            old(self).keeps(final(self)),
    {
        let ghost s0 = self.i2c.transfers();
        let ghost w0 = delay.waits();
        let ghost a = self.address;
        let ghost p1 = reset_plan();
        let ghost p2 = shutdown_plan(true);
        let ghost p3 = register_plan(Page::Config, CURRENT_REGISTER, 0xFF);
        let ghost p4 = shutdown_plan(false);
        match self.reset(delay) {
            Err(e) => {
                proof { lemma_sends_failed(s0, self.i2c.transfers(), a, p1, p2 + p3 + p4, e); }
                assert(p1 + (p2 + p3 + p4) =~= setup_plan());
                assert(delay.waits() =~= w0 + setup_waits(self.i2c.transfers().len() - s0.len()));
                return Err(Error::I2cError(e));
            },
            Ok(()) => {},
        }
        let ghost s1 = self.i2c.transfers();
        match self.shutdown(true) {
            Err(e) => {
                proof {
                    lemma_sends_then(s0, s1, self.i2c.transfers(), a, p1, p2, Err(e));
                    lemma_sends_failed(s0, self.i2c.transfers(), a, p1 + p2, p3 + p4, e);
                }
                assert(p1 + p2 + (p3 + p4) =~= setup_plan());
                assert(delay.waits() =~= w0 + setup_waits(self.i2c.transfers().len() - s0.len()));
                return Err(Error::I2cError(e));
            },
            Ok(()) => {},
        }
        proof { lemma_sends_then(s0, s1, self.i2c.transfers(), a, p1, p2, Ok(())); }
        delay.delay_ms(10);
        let ghost s2 = self.i2c.transfers();
        match self.write_register(Page::Config, CURRENT_REGISTER, 0xFF) {
            Err(e) => {
                proof {
                    lemma_sends_then(s0, s2, self.i2c.transfers(), a, p1 + p2, p3, Err(e));
                    lemma_sends_failed(s0, self.i2c.transfers(), a, p1 + p2 + p3, p4, e);
                }
                assert(delay.waits() =~= w0 + setup_waits(self.i2c.transfers().len() - s0.len()));
                return Err(Error::I2cError(e));
            },
            Ok(()) => {},
        }
        proof { lemma_sends_then(s0, s2, self.i2c.transfers(), a, p1 + p2, p3, Ok(())); }
        let ghost s3 = self.i2c.transfers();
        let r = self.shutdown(false);
        proof { lemma_sends_then(s0, s3, self.i2c.transfers(), a, p1 + p2 + p3, p4, r); }
        assert(delay.waits() =~= w0 + setup_waits(self.i2c.transfers().len() - s0.len()));
        match r {
            Err(e) => Err(Error::I2cError(e)),
            Ok(()) => Ok(()),
        }
    }

    /// Set the LED at (x, y) to `brightness`. A coordinate beyond `width` or
    /// `height` is refused, carrying the first offending value, before any
    /// transfer and without calling the mapping.
    pub fn pixel(&mut self, x: u8, y: u8, brightness: u8) -> (r: Result<(), Error<E>>)
        requires
            x <= old(self).width && y <= old(self).height ==> old(self).calc_pixel.requires((x, y)),
        ensures
            x > old(self).width ==> r == Err::<(), Error<E>>(Error::InvalidLocation(x)),
            x <= old(self).width && y > old(self).height ==> r == Err::<(), Error<E>>(
                Error::InvalidLocation(y),
            ),
            x > old(self).width || y > old(self).height ==> *final(self) == *old(self),
            x <= old(self).width && y <= old(self).height ==> {
                &&& exists|m: (u8, u8)| #[trigger]
                    old(self).calc_pixel.ensures((x, y), m) && sends(
                        old(self).i2c.transfers(),
                        final(self).i2c.transfers(),
                        old(self).address,
                        register_plan(pwm_page(m.1), m.0, brightness),
                        bus_outcome(r),
                    )
                &&& r is Err ==> r->Err_0 is I2cError
            },
            old(self).keeps(final(self)),
    {
        if x > self.width {
            return Err(Error::InvalidLocation(x));
        }
        if y > self.height {
            return Err(Error::InvalidLocation(y));
        }
        let (pixel, frame) = (self.calc_pixel)(x, y);
        let bank = if frame == 0 { Page::Pwm1 } else { Page::Pwm2 };
        let r = self.write_register(bank, pixel, brightness);
        assert(old(self).calc_pixel.ensures((x, y), (pixel, frame)));
        match r {
            Err(e) => Err(Error::I2cError(e)),
            Ok(()) => Ok(()),
        }
    }

    /// Change the slave address; meant to be called before `setup`.
    pub fn set_address(&mut self, address: u8)
        ensures
            *final(self) == (IS31FL3741 { address, ..*old(self) }),
    {
        self.address = address;
    }
}

/// Bring-up sends, in this order and each behind its own unlock and
/// configuration-page select: the reset command, shutdown on, the maximum
/// current limit, shutdown off.
pub proof fn lemma_setup_order()
    ensures
        setup_plan() == seq![
            Step::Write(seq![0xFEu8, 0xC5]), Step::Write(seq![0xFDu8, 0x04]), Step::Write(seq![0x3Fu8, 0xAE]),
            Step::Write(seq![0xFEu8, 0xC5]), Step::Write(seq![0xFDu8, 0x04]), Step::Write(seq![0x00u8, 0x00]),
            Step::Write(seq![0xFEu8, 0xC5]), Step::Write(seq![0xFDu8, 0x04]), Step::Write(seq![0x01u8, 0xFF]),
            Step::Write(seq![0xFEu8, 0xC5]), Step::Write(seq![0xFDu8, 0x04]), Step::Write(seq![0x00u8, 0x01]),
        ],
{
    assert(unlock_transfer() =~= seq![0xFEu8, 0xC5]);
    assert(setup_plan() =~= seq![
        Step::Write(seq![0xFEu8, 0xC5]), Step::Write(seq![0xFDu8, 0x04]), Step::Write(seq![0x3Fu8, 0xAE]),
        Step::Write(seq![0xFEu8, 0xC5]), Step::Write(seq![0xFDu8, 0x04]), Step::Write(seq![0x00u8, 0x00]),
        Step::Write(seq![0xFEu8, 0xC5]), Step::Write(seq![0xFDu8, 0x04]), Step::Write(seq![0x01u8, 0xFF]),
        Step::Write(seq![0xFEu8, 0xC5]), Step::Write(seq![0xFDu8, 0x04]), Step::Write(seq![0x00u8, 0x01]),
    ]);
}

} // verus!
