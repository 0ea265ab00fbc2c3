use is31fl3741::{DelayMs, Error, I2cWrite, TransferLog, WaitLog, IS31FL3741};

#[derive(Default)]
struct Recorder {
    writes: Vec<(u8, Vec<u8>)>,
    fail_at: Option<usize>,
}

impl I2cWrite for Recorder {
    type Error = u32;

    fn transfers(&self) -> TransferLog<u32> {
        unreachable!()
    }

    fn write(&mut self, address: u8, bytes: &[u8]) -> Result<(), u32> {
        let n = self.writes.len();
        self.writes.push((address, bytes.to_vec()));
        if self.fail_at == Some(n) {
            Err(77)
        } else {
            Ok(())
        }
    }
}

#[derive(Default)]
struct Clock {
    waits: Vec<u8>,
}

impl DelayMs for Clock {
    fn waits(&self) -> WaitLog {
        unreachable!()
    }

    fn delay_ms(&mut self, ms: u8) {
        self.waits.push(ms);
    }
}

fn grid(x: u8, y: u8) -> (u8, u8) {
    let index = y as u16 * 13 + x as u16;
    if index < 180 {
        (index as u8, 0)
    } else {
        ((index - 180) as u8, 1)
    }
}

fn device(fail_at: Option<usize>) -> IS31FL3741<Recorder, fn(u8, u8) -> (u8, u8)> {
    let bus = Recorder { writes: Vec::new(), fail_at };
    IS31FL3741::new(bus, 0x74, 13, 9, grid as fn(u8, u8) -> (u8, u8))
}

fn bytes(d: &IS31FL3741<Recorder, fn(u8, u8) -> (u8, u8)>) -> Vec<Vec<u8>> {
    d.i2c.writes.iter().map(|w| w.1.clone()).collect()
}

fn select(page: u8) -> Vec<Vec<u8>> {
    vec![vec![0xFE, 0xC5], vec![0xFD, page]]
}

#[test]
fn setup_then_pixel_records_exact_bus_traffic() {
    let mut d = device(None);
    let mut clock = Clock::default();
    assert!(d.setup(&mut clock).is_ok());
    let mut expected = Vec::new();
    for step in [vec![0x3F, 0xAE], vec![0x00, 0x00], vec![0x01, 0xFF], vec![0x00, 0x01]] {
        expected.extend(select(4));
        expected.push(step);
    }
    assert_eq!(bytes(&d), expected);
    assert_eq!(clock.waits, vec![10, 10]);
    assert!(d.i2c.writes.iter().all(|w| w.0 == 0x74));

    assert!(d.pixel(0, 0, 255).is_ok());
    let all = bytes(&d);
    assert_eq!(all.len(), expected.len() + 3);
    assert_eq!(all[12..].to_vec(), vec![vec![0xFE, 0xC5], vec![0xFD, 0x00], vec![0x00, 0xFF]]);
}

#[test]
fn pixel_on_second_page() {
    let mut d = device(None);
    assert!(d.pixel(11, 8, 0x40).is_ok());
    // index 8 * 13 + 11 = 115 on the first page
    assert_eq!(bytes(&d), vec![vec![0xFE, 0xC5], vec![0xFD, 0x00], vec![115, 0x40]]);
    let mut d = device(None);
    assert!(d.pixel(13, 13, 0x40).is_err());
    let mut d = IS31FL3741::new(Recorder::default(), 0x74, 20, 20, grid as fn(u8, u8) -> (u8, u8));
    assert!(d.pixel(0, 14, 7).is_ok());
    // index 182 lands at register 2 of the second page
    assert_eq!(bytes(&d), vec![vec![0xFE, 0xC5], vec![0xFD, 0x01], vec![2, 7]]);
}

#[test]
fn pixel_out_of_range_is_refused_without_traffic() {
    let mut d = device(None);
    assert!(matches!(d.pixel(14, 0, 1), Err(Error::InvalidLocation(14))));
    assert!(matches!(d.pixel(3, 10, 1), Err(Error::InvalidLocation(10))));
    assert!(matches!(d.pixel(200, 100, 1), Err(Error::InvalidLocation(200))));
    assert!(d.i2c.writes.is_empty());
}

#[test]
fn pixel_bound_is_inclusive() {
    let mut d = device(None);
    assert!(d.pixel(13, 9, 1).is_ok());
    assert_eq!(bytes(&d)[2], vec![130, 1]);
}

#[test]
fn fill_writes_both_pwm_pages() {
    let mut d = device(None);
    assert!(d.fill(0x22).is_ok());
    let all = bytes(&d);
    assert_eq!(all.len(), 6);
    assert_eq!(all[0..2].to_vec(), select(0));
    assert_eq!(all[2].len(), 181);
    assert_eq!(all[2][0], 0);
    assert!(all[2][1..].iter().all(|b| *b == 0x22));
    assert_eq!(all[3..5].to_vec(), select(1));
    assert_eq!(all[5].len(), 172);
    assert_eq!(all[5][0], 0);
    assert!(all[5][1..].iter().all(|b| *b == 0x22));
}

#[test]
fn set_scaling_writes_both_scaling_pages() {
    let mut d = device(None);
    assert!(d.set_scaling(0xFF).is_ok());
    let all = bytes(&d);
    assert_eq!(all[0..2].to_vec(), select(2));
    assert_eq!(all[2].len(), 181);
    assert!(all[2][1..].iter().all(|b| *b == 0xFF));
    assert_eq!(all[3..5].to_vec(), select(3));
    assert_eq!(all[5].len(), 172);
}

#[test]
fn shutdown_and_reset_bytes() {
    let mut d = device(None);
    assert!(d.shutdown(true).is_ok());
    assert!(d.shutdown(false).is_ok());
    let mut clock = Clock::default();
    assert!(d.reset(&mut clock).is_ok());
    let all = bytes(&d);
    assert_eq!(all[2], vec![0x00, 0x00]);
    assert_eq!(all[5], vec![0x00, 0x01]);
    assert_eq!(all[6..9].to_vec(), vec![vec![0xFE, 0xC5], vec![0xFD, 0x04], vec![0x3F, 0xAE]]);
    assert_eq!(clock.waits, vec![10]);
}

#[test]
fn set_address_moves_later_traffic() {
    let mut d = device(None);
    d.set_address(0x30);
    assert_eq!(d.address, 0x30);
    assert!(d.shutdown(false).is_ok());
    assert!(d.i2c.writes.iter().all(|w| w.0 == 0x30));
}

#[test]
fn bus_error_stops_the_sequence() {
    let mut d = device(Some(4));
    let mut clock = Clock::default();
    let r = d.setup(&mut clock);
    assert!(matches!(r, Err(Error::I2cError(77))));
    assert_eq!(d.i2c.writes.len(), 5);
    assert_eq!(clock.waits, vec![10]);

    let mut d = device(Some(1));
    assert_eq!(d.fill(3), Err(77));
    assert_eq!(d.i2c.writes.len(), 2);

    let mut d = device(Some(2));
    assert!(matches!(d.pixel(1, 1, 9), Err(Error::I2cError(77))));
    assert_eq!(d.i2c.writes.len(), 3);
}

#[test]
fn error_from_transport_error() {
    let e: Error<u32> = Error::from(5u32);
    assert!(matches!(e, Error::I2cError(5)));
}

/// Replays recorded transfers on a register model of the chip.
fn replay(writes: &[Vec<u8>]) -> std::collections::HashMap<(u8, u8), u8> {
    let mut regs = std::collections::HashMap::new();
    let mut unlocked = false;
    let mut page = 0u8;
    for w in writes {
        if w[0] == 0xFE {
            unlocked = w.len() == 2 && w[1] == 0xC5;
        } else if w[0] == 0xFD {
            if unlocked && w.len() == 2 {
                page = w[1];
            }
            unlocked = false;
        } else {
            for (i, v) in w[1..].iter().enumerate() {
                regs.insert((page, w[0] + i as u8), *v);
            }
        }
    }
    regs
}

#[test]
fn fill_then_clear_one_pixel() {
    let mut d = device(None);
    assert!(d.fill(0x80).is_ok());
    assert!(d.pixel(5, 2, 0).is_ok());
    let regs = replay(&bytes(&d));
    for (page, len) in [(0u8, 180u8), (1, 171)] {
        for r in 0..len {
            let want = if page == 0 && r == 31 { 0 } else { 0x80 };
            assert_eq!(regs[&(page, r)], want);
        }
    }
}

#[test]
fn pixel_stops_at_each_failed_transfer() {
    for k in 0..3usize {
        let mut d = device(Some(k));
        assert!(matches!(d.pixel(2, 1, 5), Err(Error::I2cError(77))));
        assert_eq!(d.i2c.writes.len(), k + 1);
        assert!(d.i2c.writes.iter().all(|w| w.0 == 0x74));
    }
}

#[test]
fn failed_unlock_sends_no_page_select() {
    let mut d = device(Some(0));
    assert_eq!(d.set_scaling(9), Err(77));
    assert_eq!(bytes(&d), vec![vec![0xFE, 0xC5]]);
}

#[test]
fn reset_does_not_wait_after_failure() {
    let mut d = device(Some(2));
    let mut clock = Clock::default();
    assert_eq!(d.reset(&mut clock), Err(77));
    assert!(clock.waits.is_empty());
    let mut d = device(Some(7));
    let mut clock = Clock::default();
    assert!(d.setup(&mut clock).is_err());
    assert_eq!(d.i2c.writes.len(), 8);
    assert_eq!(clock.waits, vec![10, 10]);
}
