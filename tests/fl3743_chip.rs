use is31fl3741::fl3743::Page;
use is31fl3741::{
    DelayMs, Error, I2cRead, I2cWrite, SwSetting, TransferLog, UnknownDevice, WaitLog, IS31FL3743,
};

/// A simulated IS31FL3743A: pages 0 (PWM), 1 (scaling) and 2 (configuration).
struct SimChip {
    regs: [[u8; 256]; 3],
    unlocked: bool,
    page: usize,
    pointer: usize,
    writes: Vec<(u8, Vec<u8>)>,
    reads: usize,
    fail_read: bool,
}

impl SimChip {
    fn new() -> SimChip {
        SimChip {
            regs: [[0; 256]; 3],
            unlocked: false,
            page: 0,
            pointer: 0,
            writes: Vec::new(),
            reads: 0,
            fail_read: false,
        }
    }
}

impl I2cWrite for SimChip {
    type Error = &'static str;

    fn transfers(&self) -> TransferLog<&'static str> {
        unreachable!()
    }

    fn write(&mut self, address: u8, bytes: &[u8]) -> Result<(), &'static str> {
        self.writes.push((address, bytes.to_vec()));
        match bytes[0] {
            0xFE => self.unlocked = bytes.len() == 2 && bytes[1] == 0xC5,
            0xFD => {
                if self.unlocked && bytes.len() == 2 {
                    self.page = bytes[1] as usize;
                }
                self.unlocked = false;
            }
            start => {
                if self.page == 2 && start == 0x2F && bytes.get(1) == Some(&0xAE) {
                    self.regs = [[0; 256]; 3];
                    return Ok(());
                }
                self.pointer = start as usize;
                for (i, v) in bytes[1..].iter().enumerate() {
                    self.regs[self.page][start as usize + i] = *v;
                }
            }
        }
        Ok(())
    }
}

impl I2cRead for SimChip {
    fn read(&mut self, _address: u8, buffer: &mut [u8]) -> Result<(), &'static str> {
        if self.fail_read {
            return Err("nak");
        }
        self.reads += 1;
        for (i, b) in buffer.iter_mut().enumerate() {
            *b = self.regs[self.page][self.pointer + i];
        }
        Ok(())
    }
}

struct NoWait;

impl DelayMs for NoWait {
    fn waits(&self) -> WaitLog {
        unreachable!()
    }

    fn delay_ms(&mut self, _ms: u8) {}
}

fn chip() -> IS31FL3743<SimChip, fn(u8, u8) -> u8> {
    IS31FL3743::new(SimChip::new(), 0x20, 197, 0, (|x: u8, _y: u8| x + 1) as fn(u8, u8) -> u8)
}

const SETTINGS: [(SwSetting, u8); 11] = [
    (SwSetting::Sw1Sw11, 0),
    (SwSetting::Sw1Sw10, 1),
    (SwSetting::Sw1Sw9, 2),
    (SwSetting::Sw1Sw8, 3),
    (SwSetting::Sw1Sw7, 4),
    (SwSetting::Sw1Sw6, 5),
    (SwSetting::Sw1Sw5, 6),
    (SwSetting::Sw1Sw4, 7),
    (SwSetting::Sw1Sw3, 8),
    (SwSetting::Sw1Sw2, 9),
    (SwSetting::NoScan, 10),
];

#[test]
fn sw_enablement_keeps_lower_nibble_for_every_setting() {
    for (setting, code) in SETTINGS {
        for lower in [0x0u8, 0x1, 0x9, 0xF] {
            let mut d = chip();
            d.i2c.regs[2][0] = 0xF0 | lower;
            assert!(d.sw_enablement(setting).is_ok());
            assert_eq!(d.i2c.regs[2][0], (code << 4) | lower);
            assert_eq!(d.i2c.reads, 1);
        }
    }
}

#[test]
fn sw_enablement_transfers() {
    let mut d = chip();
    d.i2c.regs[2][0] = 0x01;
    assert!(d.sw_enablement(SwSetting::Sw1Sw9).is_ok());
    let w: Vec<Vec<u8>> = d.i2c.writes.iter().map(|w| w.1.clone()).collect();
    assert_eq!(
        w,
        vec![
            vec![0xFE, 0xC5],
            vec![0xFD, 0x02],
            vec![0x00],
            vec![0xFE, 0xC5],
            vec![0xFD, 0x02],
            vec![0x00, 0x21],
        ]
    );
}

#[test]
fn failed_read_stops_sw_enablement() {
    let mut d = chip();
    d.i2c.fail_read = true;
    assert_eq!(d.sw_enablement(SwSetting::Sw1Sw4), Err("nak"));
    assert_eq!(d.i2c.writes.len(), 3);
}

#[test]
fn fill_and_read_matrix() {
    let mut d = chip();
    assert!(d.fill(0x55).is_ok());
    assert_eq!(d.i2c.writes[2].1.len(), 199);
    assert_eq!(d.i2c.writes[2].1[0], 0x01);
    assert!(d.pixel(4, 0, 0).is_ok());
    let m = d.read_matrix().unwrap();
    for (i, v) in m.iter().enumerate() {
        assert_eq!(*v, if i == 4 { 0 } else { 0x55 });
    }
}

#[test]
fn fill_matrix_writes_frame_in_order() {
    let mut d = chip();
    let frame: Vec<u8> = (0..198u32).map(|i| (i * 7 % 256) as u8).collect();
    assert!(d.fill_matrix(&frame).is_ok());
    assert_eq!(d.i2c.writes.len(), 3);
    assert_eq!(d.i2c.writes[1].1, vec![0xFD, 0x00]);
    assert_eq!(d.i2c.regs[0][1..=198].to_vec(), frame);
    assert_eq!(d.read_matrix().unwrap().to_vec(), frame);
}

#[test]
fn read_register_returns_chip_value() {
    let mut d = chip();
    d.i2c.regs[1][5] = 0x99;
    assert_eq!(d.read_register(Page::Scaling, 5), Ok(0x99));
    let w: Vec<Vec<u8>> = d.i2c.writes.iter().map(|w| w.1.clone()).collect();
    assert_eq!(w, vec![vec![0xFE, 0xC5], vec![0xFD, 0x01], vec![5]]);
}

#[test]
fn reset_restore_round_trips_state() {
    let mut d = chip();
    d.i2c.regs[2][0] = 0x71;
    assert!(d.set_scaling(0x3C).is_ok());
    let frame: Vec<u8> = (0..198u32).map(|i| (255 - i) as u8).collect();
    assert!(d.fill_matrix(&frame).is_ok());
    assert!(d.reset_restore(&mut NoWait).is_ok());
    assert_eq!(d.i2c.regs[2][0], 0x71);
    assert!(d.i2c.regs[1][1..=198].iter().all(|v| *v == 0x3C));
    assert_eq!(d.read_matrix().unwrap().to_vec(), frame);
    assert_eq!(d.i2c.regs[2][0x01], 0xFF);
}

#[test]
fn reset_restore_reports_read_failure() {
    let mut d = chip();
    d.i2c.fail_read = true;
    assert!(matches!(d.reset_restore(&mut NoWait), Err(Error::I2cError("nak"))));
    assert_eq!(d.i2c.writes.len(), 3);
}

#[test]
fn setup_and_shutdown_use_configuration_page() {
    let mut d = chip();
    assert!(d.setup(&mut NoWait).is_ok());
    let w: Vec<Vec<u8>> = d.i2c.writes.iter().map(|w| w.1.clone()).collect();
    assert_eq!(w.len(), 12);
    for (k, step) in [vec![0x2F, 0xAE], vec![0x00, 0x00], vec![0x01, 0xFF], vec![0x00, 0x01]]
        .iter()
        .enumerate()
    {
        assert_eq!(w[3 * k], vec![0xFE, 0xC5]);
        assert_eq!(w[3 * k + 1], vec![0xFD, 0x02]);
        assert_eq!(&w[3 * k + 2], step);
    }
    assert_eq!(d.i2c.regs[2][0], 0x01);
}

#[test]
fn pixel_bounds_on_second_generation() {
    let mut d = chip();
    assert!(matches!(d.pixel(198, 0, 1), Err(Error::InvalidLocation(198))));
    assert!(matches!(d.pixel(0, 1, 1), Err(Error::InvalidLocation(1))));
    assert!(d.i2c.writes.is_empty());
    assert!(d.pixel(197, 0, 9).is_ok());
    assert_eq!(d.i2c.regs[0][198], 9);
}

#[test]
fn unknown_device_preset() {
    let mut dev = UnknownDevice::configure(SimChip::new());
    assert_eq!(dev.device.address, 0x20);
    assert_eq!(dev.device.width, 198);
    assert_eq!(dev.device.height, 1);
    assert!(dev.setup(&mut NoWait).is_ok());
    assert!(dev.set_scaling(0xFF).is_ok());
    dev.device.set_address(0x23);
    assert!(dev.device.sw_enablement(SwSetting::Sw1Sw9).is_ok());
    let bus = dev.unwrap();
    assert!(bus.writes[..15].iter().all(|w| w.0 == 0x20));
    assert!(bus.writes[15..].iter().all(|w| w.0 == 0x23));
    assert!(bus.regs[1][1..=198].iter().all(|v| *v == 0xFF));
    assert_eq!(bus.regs[2][0], 0x21);
}
