//! The IS31FL3743A: 198 LEDs behind one PWM page and one scaling page, with
//! a configuration register that also selects how many scan lines are active.
use vstd::prelude::*;

use crate::addresses::{CONFIG_LOCK_REGISTER, CONFIG_WRITE_ENABLE, PAGE_SELECT_REGISTER};
use crate::bus::{
    lemma_sends_failed, lemma_sends_read, lemma_sends_then, lemma_sends_write, select_plan, sends,
    setup_waits, unlock_transfer, DelayMs, I2cRead, I2cWrite, Step,
};
use crate::{bus_outcome, Error};

verus! {

/// LED registers on the PWM page and on the scaling page.
pub const MATRIX_LEN: usize = 0xC6;

/// The first LED register of the PWM and scaling pages.
pub const FIRST_LED_REGISTER: u8 = 0x01;

/// Configuration register: scan lines in the upper nibble, shutdown in bit 0.
pub const CONFIG_REGISTER: u8 = 0x00;

/// Global current-limit register.
pub const CURRENT_REGISTER: u8 = 0x01;

/// Register that resets the chip when it is written the reset command.
pub const RESET_REGISTER: u8 = 0x2F;

/// The reset command.
pub const RESET: u8 = 0xAE;

/// The register pages of the chip.
#[derive(Clone, Copy, Debug, PartialEq, Eq, Structural)]
pub enum Page {
    Pwm,
    Scaling,
    Config,
}

pub open spec fn page_code(page: Page) -> u8 {
    match page {
        Page::Pwm => 0x00,
        Page::Scaling => 0x01,
        Page::Config => 0x02,
    }
}

impl Page {
    pub fn code(&self) -> (r: u8)
        ensures
            r == page_code(*self),
    {
        match self {
            Page::Pwm => 0x00,
            Page::Scaling => 0x01,
            Page::Config => 0x02,
        }
    }
}

/// Which scan lines (SW pins) are driven; the rest of the matrix stays dark
/// and the active lines get a longer duty cycle.
#[derive(Clone, Copy, Debug, PartialEq, Eq, Structural)]
pub enum SwSetting {
    Sw1Sw11,
    Sw1Sw10,
    Sw1Sw9,
    Sw1Sw8,
    Sw1Sw7,
    Sw1Sw6,
    Sw1Sw5,
    Sw1Sw4,
    Sw1Sw3,
    Sw1Sw2,
    /// No scanning: every CS pin works as a plain current sink.
    NoScan,
}

/// The four-bit code of a setting in the configuration register.
pub open spec fn sw_code(setting: SwSetting) -> u8 {
    match setting {
        SwSetting::Sw1Sw11 => 0,
        SwSetting::Sw1Sw10 => 1,
        SwSetting::Sw1Sw9 => 2,
        SwSetting::Sw1Sw8 => 3,
        SwSetting::Sw1Sw7 => 4,
        SwSetting::Sw1Sw6 => 5,
        SwSetting::Sw1Sw5 => 6,
        SwSetting::Sw1Sw4 => 7,
        SwSetting::Sw1Sw3 => 8,
        SwSetting::Sw1Sw2 => 9,
        SwSetting::NoScan => 10,
    }
}

impl SwSetting {
    pub fn code(&self) -> (r: u8)
        ensures
            r == sw_code(*self),
    {
        match self {
            SwSetting::Sw1Sw11 => 0,
            SwSetting::Sw1Sw10 => 1,
            SwSetting::Sw1Sw9 => 2,
            SwSetting::Sw1Sw8 => 3,
            SwSetting::Sw1Sw7 => 4,
            SwSetting::Sw1Sw6 => 5,
            SwSetting::Sw1Sw5 => 6,
            SwSetting::Sw1Sw4 => 7,
            SwSetting::Sw1Sw3 => 8,
            SwSetting::Sw1Sw2 => 9,
            SwSetting::NoScan => 10,
        }
    }
}

/// The configuration value `config` with its upper nibble replaced by the code of `setting`.
pub open spec fn sw_config(config: u8, setting: SwSetting) -> u8 {
    (config % 16 + 16 * sw_code(setting)) as u8
}

/// Unlock, then select `page`.
pub open spec fn bank_plan(page: Page) -> Seq<Step> {
    select_plan(page_code(page))
}

/// Select `page`, then write `value` to `register`.
pub open spec fn register_plan(page: Page, register: u8, value: u8) -> Seq<Step> {
    bank_plan(page).push(Step::Write(seq![register, value]))
}

/// Select `page`, address `register`, and read back `value`.
pub open spec fn read_plan(page: Page, register: u8, value: u8) -> Seq<Step> {
    bank_plan(page).push(Step::Write(seq![register])).push(Step::Read(seq![value]))
}

/// A transfer that writes `values` to the LED registers from the first on.
pub open spec fn led_transfer(values: Seq<u8>) -> Seq<u8> {
    seq![FIRST_LED_REGISTER] + values
}

/// `n` copies of `value`.
pub open spec fn uniform(value: u8, n: nat) -> Seq<u8> {
    Seq::new(n, |i: int| value)
}

pub open spec fn fill_matrix_plan(values: Seq<u8>) -> Seq<Step> {
    bank_plan(Page::Pwm).push(Step::Write(led_transfer(values)))
}

pub open spec fn fill_plan(brightness: u8) -> Seq<Step> {
    fill_matrix_plan(uniform(brightness, MATRIX_LEN as nat))
}

pub open spec fn scaling_plan(scale: u8) -> Seq<Step> {
    bank_plan(Page::Scaling).push(Step::Write(led_transfer(uniform(scale, MATRIX_LEN as nat))))
}

pub open spec fn read_matrix_plan(values: Seq<u8>) -> Seq<Step> {
    bank_plan(Page::Pwm).push(Step::Write(seq![FIRST_LED_REGISTER])).push(Step::Read(values))
}

pub open spec fn shutdown_plan(yes: bool) -> Seq<Step> {
    register_plan(Page::Config, CONFIG_REGISTER, if yes { 0 } else { 1 })
}

pub open spec fn reset_plan() -> Seq<Step> {
    register_plan(Page::Config, RESET_REGISTER, RESET)
}

/// Reset, enter shutdown, set the maximum current limit, leave shutdown.
pub open spec fn setup_plan() -> Seq<Step> {
    reset_plan() + shutdown_plan(true) + register_plan(Page::Config, CURRENT_REGISTER, 0xFF)
        + shutdown_plan(false)
}

/// Read the configuration register as `config`, then write it back with the
/// scan-line code of `setting`.
pub open spec fn sw_plan(config: u8, setting: SwSetting) -> Seq<Step> {
    read_plan(Page::Config, CONFIG_REGISTER, config) + register_plan(
        Page::Config,
        CONFIG_REGISTER,
        sw_config(config, setting),
    )
}

/// Read the configuration, the first scaling register and the matrix.
pub open spec fn capture_plan(config: u8, scale: u8, matrix: Seq<u8>) -> Seq<Step> {
    read_plan(Page::Config, CONFIG_REGISTER, config) + read_plan(
        Page::Scaling,
        FIRST_LED_REGISTER,
        scale,
    ) + read_matrix_plan(matrix)
}

/// Write back what `capture_plan` read.
pub open spec fn restore_plan(config: u8, scale: u8, matrix: Seq<u8>) -> Seq<Step> {
    register_plan(Page::Config, CONFIG_REGISTER, config) + scaling_plan(scale) + fill_matrix_plan(
        matrix,
    )
}

pub open spec fn reset_restore_plan(config: u8, scale: u8, matrix: Seq<u8>) -> Seq<Step> {
    capture_plan(config, scale, matrix) + setup_plan() + restore_plan(config, scale, matrix)
}

/// A buffer that writes `value` to every LED register.
fn led_buffer(value: u8) -> (buf: Vec<u8>)
    ensures
        buf@ == led_transfer(uniform(value, MATRIX_LEN as nat)),
{
    let mut buf: Vec<u8> = Vec::new();
    buf.push(FIRST_LED_REGISTER);
    let mut i: usize = 0;
    while i < MATRIX_LEN
        invariant
            i <= MATRIX_LEN,
            buf@ == led_transfer(uniform(value, i as nat)),
        decreases MATRIX_LEN - i,
    {
        buf.push(value);
        i += 1;
        assert(buf@ =~= led_transfer(uniform(value, i as nat)));
    }
    buf
}

/// A handle on one IS31FL3743A behind the transport `I2C`.
pub struct IS31FL3743<I2C, F> {
    /// The bus the device sits on.
    pub i2c: I2C,
    /// The 7-bit slave address.
    pub address: u8,
    /// Largest accepted x coordinate.
    pub width: u8,
    /// Largest accepted y coordinate.
    pub height: u8,
    /// Maps (x, y) to an LED register of the PWM page.
    pub calc_pixel: F,
}

impl<I2C, E, F> IS31FL3743<I2C, F> where I2C: I2cRead + I2cWrite<Error = E>, F: Fn(u8, u8) -> u8 {
    /// All but the transport stayed as it was.
    pub open spec fn keeps(&self, other: &Self) -> bool {
        &&& other.address == self.address
        &&& other.width == self.width
        &&& other.height == self.height
        &&& other.calc_pixel == self.calc_pixel
    }

    /// Going from `self` to `after`, the transport made the steps of `plan`
    /// to this handle's address, with `outcome` (see `sends`).
    pub open spec fn made(&self, after: &Self, plan: Seq<Step>, outcome: Result<(), E>) -> bool {
        sends(self.i2c.transfers(), after.i2c.transfers(), self.address, plan, outcome)
    }

    pub fn new(i2c: I2C, address: u8, width: u8, height: u8, calc_pixel: F) -> (r: Self)
        ensures
            r.i2c == i2c,
            r.address == address,
            r.width == width,
            r.height == height,
            r.calc_pixel == calc_pixel,
    {
        IS31FL3743 { i2c, address, width, height, calc_pixel }
    }

    fn write(&mut self, buf: &[u8]) -> (r: Result<(), E>)
        ensures
            old(self).made(final(self), seq![Step::Write(buf@)], r),
            old(self).keeps(final(self)),
    {
        let ghost before = self.i2c.transfers();
        let r = self.i2c.write(self.address, buf);
        proof { lemma_sends_write(before, self.address, buf@, r); }
        r
    }

    fn read(&mut self, buf: &mut [u8]) -> (r: Result<(), E>)
        ensures
            final(buf)@.len() == old(buf)@.len(),
            old(self).made(final(self), seq![Step::Read(final(buf)@)], r),
            old(self).keeps(final(self)),
    {
        let ghost before = self.i2c.transfers();
        let r = self.i2c.read(self.address, buf);
        proof { lemma_sends_read(before, self.address, buf@, r); }
        r
    }

    fn bank(&mut self, bank: Page) -> (r: Result<(), E>)
        ensures
            old(self).made(final(self), bank_plan(bank), r),
            old(self).keeps(final(self)),
    {
        let ghost s0 = self.i2c.transfers();
        let ghost a = self.address;
        let ghost unlock = seq![Step::Write(unlock_transfer())];
        let ghost select = seq![Step::Write(seq![PAGE_SELECT_REGISTER, page_code(bank)])];
        assert(bank_plan(bank) =~= unlock + select);
        let buf: [u8; 2] = [CONFIG_LOCK_REGISTER, CONFIG_WRITE_ENABLE];
        assert(buf@ =~= unlock_transfer());
        match self.write(&buf) {
            Err(e) => {
                proof { lemma_sends_failed(s0, self.i2c.transfers(), a, unlock, select, e); }
                return Err(e);
            },
            Ok(()) => {},
        }
        let ghost s1 = self.i2c.transfers();
        let buf: [u8; 2] = [PAGE_SELECT_REGISTER, bank.code()];
        assert(buf@ =~= seq![PAGE_SELECT_REGISTER, page_code(bank)]);
        let r = self.write(&buf);
        proof { lemma_sends_then(s0, s1, self.i2c.transfers(), a, unlock, select, r); }
        r
    }

    /// Select `bank`, then write `buf` in one transfer.
    fn bank_write(&mut self, bank: Page, buf: &[u8]) -> (r: Result<(), E>)
        ensures
            old(self).made(final(self), bank_plan(bank).push(Step::Write(buf@)), r),
            old(self).keeps(final(self)),
    {
        let ghost s0 = self.i2c.transfers();
        let ghost a = self.address;
        let ghost tail = seq![Step::Write(buf@)];
        assert(bank_plan(bank).push(Step::Write(buf@)) =~= bank_plan(bank) + tail);
        match self.bank(bank) {
            Err(e) => {
                proof { lemma_sends_failed(s0, self.i2c.transfers(), a, bank_plan(bank), tail, e); }
                return Err(e);
            },
            Ok(()) => {},
        }
        let ghost s1 = self.i2c.transfers();
        let r = self.write(buf);
        proof { lemma_sends_then(s0, s1, self.i2c.transfers(), a, bank_plan(bank), tail, r); }
        r
    }

    fn write_register(&mut self, bank: Page, register: u8, value: u8) -> (r: Result<(), E>)
        ensures
            old(self).made(final(self), register_plan(bank, register, value), r),
            old(self).keeps(final(self)),
    {
        let buf: [u8; 2] = [register, value];
        assert(buf@ =~= seq![register, value]);
        self.bank_write(bank, &buf)
    }

    /// Read one register of `bank`: select the page, write the register's
    /// number, read one byte.
    pub fn read_register(&mut self, bank: Page, register: u8) -> (r: Result<u8, E>)
        ensures
            r matches Ok(v) ==> old(self).made(final(self), read_plan(bank, register, v), Ok(())),
            r matches Err(e) ==> old(self).made(final(self), read_plan(bank, register, 0), Err(e)),
            old(self).keeps(final(self)),
    {
        let ghost s0 = self.i2c.transfers();
        let ghost a = self.address;
        let abuf: [u8; 1] = [register];
        assert(abuf@ =~= seq![register]);
        let ghost first = bank_plan(bank).push(Step::Write(seq![register]));
        match self.bank_write(bank, &abuf) {
            Err(e) => {
                proof {
                    lemma_sends_failed(s0, self.i2c.transfers(), a, first, seq![Step::Read(seq![0u8])], e);
                    assert(first + seq![Step::Read(seq![0u8])] =~= read_plan(bank, register, 0));
                }
                return Err(e);
            },
            Ok(()) => {},
        }
        let ghost s1 = self.i2c.transfers();
        let mut buf: [u8; 1] = [0];
        let r = self.read(&mut buf);
        match r {
            Err(e) => {
                proof {
                    lemma_sends_then(s0, s1, self.i2c.transfers(), a, first, seq![Step::Read(buf@)], Err(e));
                    assert(first + seq![Step::Read(buf@)] == first.push(Step::Read(buf@)));
                    let p = read_plan(bank, register, 0);
                    assert((first + seq![Step::Read(buf@)]).take(first.len() as int) =~= p.take(first.len() as int));
                }
                Err(e)
            },
            Ok(()) => {
                proof {
                    lemma_sends_then(s0, s1, self.i2c.transfers(), a, first, seq![Step::Read(buf@)], Ok(()));
                    assert(buf@ =~= seq![buf[0]]);
                    assert(first + seq![Step::Read(buf@)] =~= read_plan(bank, register, buf[0]));
                }
                Ok(buf[0])
            },
        }
    }

    /// Set every LED to `brightness` (0 is off, 255 is full).
    pub fn fill(&mut self, brightness: u8) -> (r: Result<(), E>)
        ensures
            old(self).made(final(self), fill_plan(brightness), r),
            old(self).keeps(final(self)),
    {
        let buf = led_buffer(brightness);
        self.bank_write(Page::Pwm, buf.as_slice())
    }

    /// Write a whole frame: `brightnesses[i]` goes to LED register `i + 1`.
    pub fn fill_matrix(&mut self, brightnesses: &[u8]) -> (r: Result<(), E>)
        requires
            brightnesses@.len() == MATRIX_LEN,
        ensures
            old(self).made(final(self), fill_matrix_plan(brightnesses@), r),
            old(self).keeps(final(self)),
    {
        let mut buf: Vec<u8> = Vec::new();
        buf.push(FIRST_LED_REGISTER);
        let mut i: usize = 0;
        while i < brightnesses.len()
            invariant
                i <= brightnesses@.len(),
                buf@ == led_transfer(brightnesses@.take(i as int)),
            decreases brightnesses@.len() - i,
        {
            buf.push(brightnesses[i]);
            i += 1;
            assert(buf@ =~= led_transfer(brightnesses@.take(i as int)));
        }
        assert(brightnesses@.take(i as int) =~= brightnesses@);
        self.bank_write(Page::Pwm, buf.as_slice())
    }

    /// Read the whole frame back: entry `i` is LED register `i + 1`.
    pub fn read_matrix(&mut self) -> (r: Result<[u8; 198], E>)
        ensures
            r matches Ok(m) ==> old(self).made(final(self), read_matrix_plan(m@), Ok(())),
            r matches Err(e) ==> old(self).made(
                final(self),
                read_matrix_plan(uniform(0, MATRIX_LEN as nat)),
                Err(e),
            ),
            old(self).keeps(final(self)),
    {
        let ghost s0 = self.i2c.transfers();
        let ghost a = self.address;
        let ghost zero = uniform(0, MATRIX_LEN as nat);
        let abuf: [u8; 1] = [FIRST_LED_REGISTER];
        assert(abuf@ =~= seq![FIRST_LED_REGISTER]);
        let ghost first = bank_plan(Page::Pwm).push(Step::Write(seq![FIRST_LED_REGISTER]));
        match self.bank_write(Page::Pwm, &abuf) {
            Err(e) => {
                proof {
                    lemma_sends_failed(s0, self.i2c.transfers(), a, first, seq![Step::Read(zero)], e);
                    assert(first + seq![Step::Read(zero)] =~= read_matrix_plan(zero));
                }
                return Err(e);
            },
            Ok(()) => {},
        }
        let ghost s1 = self.i2c.transfers();
        let mut buf: [u8; 198] = [0; 198];
        let r = self.read(&mut buf);
        match r {
            Err(e) => {
                proof {
                    lemma_sends_then(s0, s1, self.i2c.transfers(), a, first, seq![Step::Read(buf@)], Err(e));
                    let p = read_matrix_plan(zero);
                    assert((first + seq![Step::Read(buf@)]).take(first.len() as int) =~= p.take(first.len() as int));
                }
                Err(e)
            },
            Ok(()) => {
                proof {
                    lemma_sends_then(s0, s1, self.i2c.transfers(), a, first, seq![Step::Read(buf@)], Ok(()));
                    assert(first + seq![Step::Read(buf@)] =~= read_matrix_plan(buf@));
                }
                Ok(buf)
            },
        }
    }

    /// Set the current available to every LED (0 is none, 255 is the maximum).
    pub fn set_scaling(&mut self, scale: u8) -> (r: Result<(), E>)
        ensures
            old(self).made(final(self), scaling_plan(scale), r),
            old(self).keeps(final(self)),
    {
        let buf = led_buffer(scale);
        self.bank_write(Page::Scaling, buf.as_slice())
    }

    /// Enter (`yes`) or leave software shutdown.
    pub fn shutdown(&mut self, yes: bool) -> (r: Result<(), E>)
        ensures
            old(self).made(final(self), shutdown_plan(yes), r),
            old(self).keeps(final(self)),
    {
        self.write_register(Page::Config, CONFIG_REGISTER, if yes { 0 } else { 1 })
    }

    /// Write the reset command, then wait 10 ms for the chip to settle; no
    /// wait after a failed write.
    pub fn reset<DEL: DelayMs>(&mut self, delay: &mut DEL) -> (r: Result<(), E>)
        ensures
            old(self).made(final(self), reset_plan(), r),
            final(delay).waits() == old(delay).waits() + if r is Ok {
                seq![10u8]
            } else {
                seq![]
            },
            old(self).keeps(final(self)),
    {
        match self.write_register(Page::Config, RESET_REGISTER, RESET) {
            Err(e) => {
                assert(delay.waits() =~= delay.waits() + seq![]);
                return Err(e);
            },
            Ok(()) => {},
        }
        let ghost w0 = delay.waits();
        delay.delay_ms(10);
        assert(delay.waits() =~= w0 + seq![10u8]);
        Ok(())
    }

    /// Bring the chip up: reset (and wait 10 ms), enter shutdown, wait 10 ms,
    /// set the maximum current limit, leave shutdown. Should run before any
    /// other operation. It stops at the first failed transfer.
    pub fn setup<DEL: DelayMs>(&mut self, delay: &mut DEL) -> (r: Result<(), Error<E>>)
        ensures
            old(self).made(final(self), setup_plan(), bus_outcome(r)),
            r is Err ==> r->Err_0 is I2cError,
            final(delay).waits() == old(delay).waits() + setup_waits(
                final(self).i2c.transfers().len() - old(self).i2c.transfers().len(),
            ),
            old(self).keeps(final(self)),
    {
        let ghost s0 = self.i2c.transfers();
        let ghost w0 = delay.waits();
        let ghost a = self.address;
        let ghost p1 = reset_plan();
        let ghost p2 = shutdown_plan(true);
        let ghost p3 = register_plan(Page::Config, CURRENT_REGISTER, 0xFF);
        let ghost p4 = shutdown_plan(false);
        match self.reset(delay) {
            Err(e) => {
                proof { lemma_sends_failed(s0, self.i2c.transfers(), a, p1, p2 + p3 + p4, e); }
                assert(p1 + (p2 + p3 + p4) =~= setup_plan());
                assert(delay.waits() =~= w0 + setup_waits(self.i2c.transfers().len() - s0.len()));
                return Err(Error::I2cError(e));
            },
            Ok(()) => {},
        }
        let ghost s1 = self.i2c.transfers();
        match self.shutdown(true) {
            Err(e) => {
                proof {
                    lemma_sends_then(s0, s1, self.i2c.transfers(), a, p1, p2, Err(e));
                    lemma_sends_failed(s0, self.i2c.transfers(), a, p1 + p2, p3 + p4, e);
                }
                assert(p1 + p2 + (p3 + p4) =~= setup_plan());
                assert(delay.waits() =~= w0 + setup_waits(self.i2c.transfers().len() - s0.len()));
                return Err(Error::I2cError(e));
            },
            Ok(()) => {},
        }
        proof { lemma_sends_then(s0, s1, self.i2c.transfers(), a, p1, p2, Ok(())); }
        delay.delay_ms(10);
        let ghost s2 = self.i2c.transfers();
        match self.write_register(Page::Config, CURRENT_REGISTER, 0xFF) {
            Err(e) => {
                proof {
                    lemma_sends_then(s0, s2, self.i2c.transfers(), a, p1 + p2, p3, Err(e));
                    lemma_sends_failed(s0, self.i2c.transfers(), a, p1 + p2 + p3, p4, e);
                }
                assert(delay.waits() =~= w0 + setup_waits(self.i2c.transfers().len() - s0.len()));
                return Err(Error::I2cError(e));
            },
            Ok(()) => {},
        }
        proof { lemma_sends_then(s0, s2, self.i2c.transfers(), a, p1 + p2, p3, Ok(())); }
        let ghost s3 = self.i2c.transfers();
        let r = self.shutdown(false);
        proof { lemma_sends_then(s0, s3, self.i2c.transfers(), a, p1 + p2 + p3, p4, r); }
        assert(delay.waits() =~= w0 + setup_waits(self.i2c.transfers().len() - s0.len()));
        match r {
            Err(e) => Err(Error::I2cError(e)),
            Ok(()) => Ok(()),
        }
    }

    /// Set the LED at (x, y) to `brightness`. A coordinate beyond `width` or
    /// `height` is refused, carrying the first offending value, before any
    /// transfer and without calling the mapping.
    pub fn pixel(&mut self, x: u8, y: u8, brightness: u8) -> (r: Result<(), Error<E>>)
        requires
            x <= old(self).width && y <= old(self).height ==> old(self).calc_pixel.requires((x, y)),
        ensures
            x > old(self).width ==> r == Err::<(), Error<E>>(Error::InvalidLocation(x)),
            x <= old(self).width && y > old(self).height ==> r == Err::<(), Error<E>>(
                Error::InvalidLocation(y),
            ),
            x > old(self).width || y > old(self).height ==> *final(self) == *old(self),
            x <= old(self).width && y <= old(self).height ==> {
                &&& exists|m: u8| #[trigger]
                    old(self).calc_pixel.ensures((x, y), m) && old(self).made(
                        final(self),
                        register_plan(Page::Pwm, m, brightness),
                        bus_outcome(r),
                    )
                &&& r is Err ==> r->Err_0 is I2cError
            },
            old(self).keeps(final(self)),
    {
        if x > self.width {
            return Err(Error::InvalidLocation(x));
        }
        if y > self.height {
            return Err(Error::InvalidLocation(y));
        }
        let pixel = (self.calc_pixel)(x, y);
        let r = self.write_register(Page::Pwm, pixel, brightness);
        assert(old(self).calc_pixel.ensures((x, y), pixel));
        match r {
            Err(e) => Err(Error::I2cError(e)),
            Ok(()) => Ok(()),
        }
    }

    /// Change the slave address; meant to be called before `setup`.
    pub fn set_address(&mut self, address: u8)
        ensures
            *final(self) == (IS31FL3743 { address, ..*old(self) }),
    {
        self.address = address;
    }

    /// Choose the active scan lines: read the configuration register, then
    /// write it back with its upper nibble set to the code of `setting` and
    /// its lower nibble as read.
    pub fn sw_enablement(&mut self, setting: SwSetting) -> (r: Result<(), E>)
        ensures
            exists|config: u8| old(self).made(final(self), #[trigger] sw_plan(config, setting), r),
            old(self).keeps(final(self)),
    {
        let ghost s0 = self.i2c.transfers();
        let ghost a = self.address;
        let config = match self.read_register(Page::Config, CONFIG_REGISTER) {
            Err(e) => {
                proof {
                    lemma_sends_failed(
                        s0,
                        self.i2c.transfers(),
                        a,
                        read_plan(Page::Config, CONFIG_REGISTER, 0),
                        register_plan(Page::Config, CONFIG_REGISTER, sw_config(0, setting)),
                        e,
                    );
                    assert(old(self).made(self, sw_plan(0, setting), Err(e)));
                }
                return Err(e);
            },
            Ok(c) => c,
        };
        let ghost s1 = self.i2c.transfers();
        let code = setting.code();
        let value = (config & 0x0F) | (code << 4u8);
        assert(value == ((config % 16) + 16 * code) as u8) by (bit_vector)
            requires
                value == (config & 0x0F) | (code << 4u8),
                code < 16,
        ;
        let r = self.write_register(Page::Config, CONFIG_REGISTER, value);
        proof {
            lemma_sends_then(
                s0,
                s1,
                self.i2c.transfers(),
                a,
                read_plan(Page::Config, CONFIG_REGISTER, config),
                register_plan(Page::Config, CONFIG_REGISTER, value),
                r,
            );
            assert(old(self).made(self, sw_plan(config, setting), r));
        }
        r
    }

    /// Reset the chip without losing its state: read the configuration
    /// register, the first scaling register and the whole frame, run
    /// `setup`, then write back the configuration, that scaling value to
    /// every LED, and the frame. It stops at the first failed transfer.
    pub fn reset_restore<DEL: DelayMs>(&mut self, delay: &mut DEL) -> (r: Result<(), Error<E>>)
        ensures
            exists|config: u8, scale: u8, matrix: Seq<u8>|
                matrix.len() == MATRIX_LEN && old(self).made(
                    final(self),
                    #[trigger] reset_restore_plan(config, scale, matrix),
                    bus_outcome(r),
                ),
            r is Err ==> r->Err_0 is I2cError,
            final(delay).waits() == old(delay).waits() + setup_waits(
                final(self).i2c.transfers().len() - old(self).i2c.transfers().len() - 12,
            ),
            old(self).keeps(final(self)),
    {
        let ghost s0 = self.i2c.transfers();
        let ghost w0 = delay.waits();
        let ghost a = self.address;
        let ghost zero = uniform(0, MATRIX_LEN as nat);
        assert(delay.waits() =~= w0 + setup_waits(-12));
        let config = match self.read_register(Page::Config, CONFIG_REGISTER) {
            Err(e) => {
                proof {
                    let p = read_plan(Page::Config, CONFIG_REGISTER, 0);
                    let rest = read_plan(Page::Scaling, FIRST_LED_REGISTER, 0) + read_matrix_plan(zero)
                        + setup_plan() + restore_plan(0, 0, zero);
                    lemma_sends_failed(s0, self.i2c.transfers(), a, p, rest, e);
                    assert(p + rest =~= reset_restore_plan(0, 0, zero));
                    assert(old(self).made(self, reset_restore_plan(0, 0, zero), Err(e)));
                }
                return Err(Error::I2cError(e));
            },
            Ok(c) => c,
        };
        let ghost p1 = read_plan(Page::Config, CONFIG_REGISTER, config);
        let ghost s1 = self.i2c.transfers();
        let scale = match self.read_register(Page::Scaling, FIRST_LED_REGISTER) {
            Err(e) => {
                proof {
                    let p = read_plan(Page::Scaling, FIRST_LED_REGISTER, 0);
                    lemma_sends_then(s0, s1, self.i2c.transfers(), a, p1, p, Err(e));
                    let rest = read_matrix_plan(zero) + setup_plan() + restore_plan(config, 0, zero);
                    lemma_sends_failed(s0, self.i2c.transfers(), a, p1 + p, rest, e);
                    assert(p1 + p + rest =~= reset_restore_plan(config, 0, zero));
                    assert(old(self).made(self, reset_restore_plan(config, 0, zero), Err(e)));
                }
                return Err(Error::I2cError(e));
            },
            Ok(v) => v,
        };
        let ghost p2 = read_plan(Page::Scaling, FIRST_LED_REGISTER, scale);
        proof { lemma_sends_then(s0, s1, self.i2c.transfers(), a, p1, p2, Ok(())); }
        let ghost s2 = self.i2c.transfers();
        let matrix = match self.read_matrix() {
            Err(e) => {
                proof {
                    let p = read_matrix_plan(zero);
                    lemma_sends_then(s0, s2, self.i2c.transfers(), a, p1 + p2, p, Err(e));
                    let rest = setup_plan() + restore_plan(config, scale, zero);
                    lemma_sends_failed(s0, self.i2c.transfers(), a, p1 + p2 + p, rest, e);
                    assert(p1 + p2 + p + rest =~= reset_restore_plan(config, scale, zero));
                    assert(old(self).made(self, reset_restore_plan(config, scale, zero), Err(e)));
                }
                return Err(Error::I2cError(e));
            },
            Ok(m) => m,
        };
        let ghost m = matrix@;
        let ghost p3 = read_matrix_plan(m);
        proof { lemma_sends_then(s0, s2, self.i2c.transfers(), a, p1 + p2, p3, Ok(())); }
        let ghost s3 = self.i2c.transfers();
        assert(s3.len() == s0.len() + 12);
        let ghost p4 = setup_plan();
        let ghost p5 = register_plan(Page::Config, CONFIG_REGISTER, config);
        let ghost p6 = scaling_plan(scale);
        let ghost p7 = fill_matrix_plan(m);
        assert(reset_restore_plan(config, scale, m) =~= p1 + p2 + p3 + p4 + p5 + p6 + p7);
        match self.setup(delay) {
            Err(err) => {
                proof {
                    let e = err->I2cError_0;
                    lemma_sends_then(s0, s3, self.i2c.transfers(), a, p1 + p2 + p3, p4, Err(e));
                    lemma_sends_failed(s0, self.i2c.transfers(), a, p1 + p2 + p3 + p4, p5 + p6 + p7, e);
                    assert(p1 + p2 + p3 + p4 + (p5 + p6 + p7) =~= p1 + p2 + p3 + p4 + p5 + p6 + p7);
                    assert(old(self).made(self, reset_restore_plan(config, scale, m), Err(e)));
                }
                return Err(err);
            },
            Ok(()) => {},
        }
        proof { lemma_sends_then(s0, s3, self.i2c.transfers(), a, p1 + p2 + p3, p4, Ok(())); }
        let ghost s4 = self.i2c.transfers();
        assert(delay.waits() =~= w0 + seq![10u8, 10u8]);
        match self.write_register(Page::Config, CONFIG_REGISTER, config) {
            Err(e) => {
                proof {
                    lemma_sends_then(s0, s4, self.i2c.transfers(), a, p1 + p2 + p3 + p4, p5, Err(e));
                    lemma_sends_failed(s0, self.i2c.transfers(), a, p1 + p2 + p3 + p4 + p5, p6 + p7, e);
                    assert(p1 + p2 + p3 + p4 + p5 + (p6 + p7) =~= p1 + p2 + p3 + p4 + p5 + p6 + p7);
                    assert(old(self).made(self, reset_restore_plan(config, scale, m), Err(e)));
                }
                return Err(Error::I2cError(e));
            },
            Ok(()) => {},
        }
        proof { lemma_sends_then(s0, s4, self.i2c.transfers(), a, p1 + p2 + p3 + p4, p5, Ok(())); }
        let ghost s5 = self.i2c.transfers();
        match self.set_scaling(scale) {
            Err(e) => {
                proof {
                    lemma_sends_then(s0, s5, self.i2c.transfers(), a, p1 + p2 + p3 + p4 + p5, p6, Err(e));
                    lemma_sends_failed(s0, self.i2c.transfers(), a, p1 + p2 + p3 + p4 + p5 + p6, p7, e);
                    assert(old(self).made(self, reset_restore_plan(config, scale, m), Err(e)));
                }
                return Err(Error::I2cError(e));
            },
            Ok(()) => {},
        }
        proof { lemma_sends_then(s0, s5, self.i2c.transfers(), a, p1 + p2 + p3 + p4 + p5, p6, Ok(())); }
        let ghost s6 = self.i2c.transfers();
        let r = self.fill_matrix(&matrix);
        proof {
            lemma_sends_then(s0, s6, self.i2c.transfers(), a, p1 + p2 + p3 + p4 + p5 + p6, p7, r);
            assert(old(self).made(self, reset_restore_plan(config, scale, m), r));
        }
        match r {
            Err(e) => Err(Error::I2cError(e)),
            Ok(()) => Ok(()),
        }
    }
}

/// The configuration value written by `sw_enablement` keeps the lower nibble
/// of the value read and carries the setting's code in the upper nibble.
pub proof fn lemma_sw_config_nibbles(config: u8, setting: SwSetting)
    ensures
        sw_config(config, setting) % 16 == config % 16,
        sw_config(config, setting) / 16 == sw_code(setting),
        sw_code(setting) <= 10,
{
}

/// Bring-up sends, in this order and each behind its own unlock and
/// configuration-page select: the reset command, shutdown on, the maximum
/// current limit, shutdown off.
pub proof fn lemma_setup_order()
    ensures
        setup_plan() == seq![
            Step::Write(seq![0xFEu8, 0xC5]), Step::Write(seq![0xFDu8, 0x02]), Step::Write(seq![0x2Fu8, 0xAE]),
            Step::Write(seq![0xFEu8, 0xC5]), Step::Write(seq![0xFDu8, 0x02]), Step::Write(seq![0x00u8, 0x00]),
            Step::Write(seq![0xFEu8, 0xC5]), Step::Write(seq![0xFDu8, 0x02]), Step::Write(seq![0x01u8, 0xFF]),
            Step::Write(seq![0xFEu8, 0xC5]), Step::Write(seq![0xFDu8, 0x02]), Step::Write(seq![0x00u8, 0x01]),
        ],
{
    assert(unlock_transfer() =~= seq![0xFEu8, 0xC5]);
    assert(setup_plan() =~= seq![
        Step::Write(seq![0xFEu8, 0xC5]), Step::Write(seq![0xFDu8, 0x02]), Step::Write(seq![0x2Fu8, 0xAE]),
        Step::Write(seq![0xFEu8, 0xC5]), Step::Write(seq![0xFDu8, 0x02]), Step::Write(seq![0x00u8, 0x00]),
        Step::Write(seq![0xFEu8, 0xC5]), Step::Write(seq![0xFDu8, 0x02]), Step::Write(seq![0x01u8, 0xFF]),
        Step::Write(seq![0xFEu8, 0xC5]), Step::Write(seq![0xFDu8, 0x02]), Step::Write(seq![0x00u8, 0x01]),
    ]);
}

} // verus!
