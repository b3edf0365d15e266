use lunamisc::register::{
    EmbeddedFunctionsRegister, I2cBus, PrimaryRegister, Register, RegisterAccess, RegisterError,
};

/// A sensor on a simulated bus: two pages of registers, where bit 7 of
/// `FUNC_CFG_ACCESS` (address 1, present on both pages) selects the page.
struct FakeSensor {
    pages: [[u8; 256]; 2],
    fail_reads: bool,
    fail_writes: bool,
    writes: Vec<Vec<u8>>,
}

impl FakeSensor {
    fn new() -> Self {
        FakeSensor { pages: [[0; 256]; 2], fail_reads: false, fail_writes: false, writes: Vec::new() }
    }

    fn page(&self, reg: usize) -> usize {
        if reg == 1 {
            0
        } else if self.pages[0][1] & 0x80 != 0 {
            1
        } else {
            0
        }
    }
}

impl I2cBus for FakeSensor {
    fn write_read(&mut self, address: u8, write: &[u8], read: &mut [u8]) -> Result<(), ()> {
        assert_eq!(address, 0x6a);
        if self.fail_reads {
            return Err(());
        }
        let start = write[0] as usize;
        for (i, b) in read.iter_mut().enumerate() {
            let reg = start + i;
            *b = self.pages[self.page(reg)][reg];
        }
        Ok(())
    }

    fn write(&mut self, address: u8, bytes: &[u8]) -> Result<(), ()> {
        assert_eq!(address, 0x6a);
        self.writes.push(bytes.to_vec());
        if self.fail_writes {
            return Err(());
        }
        let start = bytes[0] as usize;
        for (i, b) in bytes[1..].iter().enumerate() {
            let reg = start + i;
            let page = self.page(reg);
            self.pages[page][reg] = *b;
        }
        Ok(())
    }
}

#[test]
fn update_reg_keeps_bits_outside_mask() {
    let mut sensor = FakeSensor::new();
    sensor.pages[0][0x10] = 0b1010_1010;
    let mut access = RegisterAccess::new(sensor, 0x6a);
    access.update_reg(PrimaryRegister::CTRL1_XL.into(), 0xF0, 0xF0).unwrap();
    assert_eq!(access.read_reg(PrimaryRegister::CTRL1_XL.into()), Ok(0xFA));
    let sensor = access.destroy();
    assert_eq!(sensor.writes, vec![vec![0x10, 0xFA]]);
}

#[test]
fn embedded_register_switches_page_and_back() {
    let mut sensor = FakeSensor::new();
    sensor.pages[1][0x04] = 0x33;
    sensor.pages[0][0x04] = 0x44;
    sensor.pages[0][0x01] = 0x05;
    let mut access = RegisterAccess::new(sensor, 0x6a);
    let emb: Register = EmbeddedFunctionsRegister::EMB_FUNC_EN_A.into();
    assert_eq!(access.read_reg(emb), Ok(0x33));
    // Reading again needs no switch.
    assert_eq!(access.read_reg(emb), Ok(0x33));
    assert_eq!(access.read_reg(PrimaryRegister::S4S_TPH_L.into()), Ok(0x44));
    let sensor = access.destroy();
    // The switch keeps the other bits of FUNC_CFG_ACCESS.
    assert_eq!(sensor.writes, vec![vec![0x01, 0x85], vec![0x01, 0x05]]);
}

#[test]
fn direct_write_of_func_cfg_access_is_tracked() {
    let mut sensor = FakeSensor::new();
    sensor.pages[1][0x05] = 0x77;
    let mut access = RegisterAccess::new(sensor, 0x6a);
    access.write_reg_addresses(0x01, &[0x80]).unwrap();
    // The embedded page is already selected: no switch is written.
    assert_eq!(access.read_reg(EmbeddedFunctionsRegister::EMB_FUNC_EN_B.into()), Ok(0x77));
    let sensor = access.destroy();
    assert_eq!(sensor.writes, vec![vec![0x01, 0x80]]);
}

#[test]
fn write_regs_writes_consecutive_registers() {
    let sensor = FakeSensor::new();
    let mut access = RegisterAccess::new(sensor, 0x6a);
    access.write_regs(PrimaryRegister::CTRL1_XL.into(), &[1, 2, 3]).unwrap();
    let mut buf = [0u8; 3];
    access.read_regs(PrimaryRegister::CTRL1_XL.into(), &mut buf).unwrap();
    assert_eq!(buf, [1, 2, 3]);
    access.write_reg(PrimaryRegister::CTRL3_C.into(), 9).unwrap();
    assert_eq!(access.read_reg(PrimaryRegister::CTRL3_C.into()), Ok(9));
}

#[test]
fn too_many_bytes_is_invalid_data() {
    let sensor = FakeSensor::new();
    let mut access = RegisterAccess::new(sensor, 0x6a);
    let data = [0u8; 129];
    assert_eq!(access.write_reg_addresses(0x00, &data), Err(RegisterError::InvalidData));
    let sensor = access.destroy();
    assert!(sensor.writes.is_empty());
}

#[test]
fn bus_failures_are_reported() {
    let mut sensor = FakeSensor::new();
    sensor.fail_reads = true;
    let mut access = RegisterAccess::new(sensor, 0x6a);
    assert_eq!(access.read_reg(PrimaryRegister::WHO_AM_I.into()), Err(RegisterError::I2cReadError));
    assert_eq!(access.update_reg_address(0x10, 1, 1), Err(RegisterError::I2cReadError));
    let mut sensor = access.destroy();
    sensor.fail_reads = false;
    sensor.fail_writes = true;
    let mut access = RegisterAccess::new(sensor, 0x6a);
    assert_eq!(access.write_reg(PrimaryRegister::CTRL2_G.into(), 1), Err(RegisterError::I2cWriteError));
    assert_eq!(
        access.read_reg(EmbeddedFunctionsRegister::PAGE_SEL.into()),
        Err(RegisterError::I2cWriteError)
    );
}

#[test]
fn register_addresses() {
    assert_eq!(PrimaryRegister::FUNC_CFG_ACCESS.address(), 0x01);
    assert_eq!(PrimaryRegister::WHO_AM_I.address(), 0x0F);
    assert_eq!(PrimaryRegister::FIFO_DATA_OUT_Z_H.address(), 0x7E);
    assert_eq!(EmbeddedFunctionsRegister::MLC7_SRC.address(), 0x77);
    assert_eq!(EmbeddedFunctionsRegister::PAGE_SEL.address(), 0x02);
}
