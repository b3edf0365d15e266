//! Register access to an LSM6DSOX inertial sensor over I²C.
//!
//! The sensor's registers lie on two pages: the primary registers and the
//! embedded functions registers, switched by bit 7 of `FUNC_CFG_ACCESS`.
//! [`RegisterAccess`] keeps track of the page that is selected and switches it
//! before each access where needed. Every transfer it makes on the bus is
//! recorded in a ghost log, over which the contracts state what was sent.

use vstd::prelude::*;

verus! {

/// The errors of a register access.
#[derive(Clone, Copy, Debug, PartialEq, Eq, Structural)]
pub enum RegisterError {
    /// Reading from the bus failed.
    I2cReadError,
    /// Writing to the bus failed.
    I2cWriteError,
    /// More bytes than registers can be addressed were given.
    InvalidData,
}

/// An I²C bus controller: the application adapts its driver to this.
pub trait I2cBus {
    /// Writes `write` to the device at `address`, then reads into `read`.
    fn write_read(&mut self, address: u8, write: &[u8], read: &mut [u8]) -> Result<(), ()>;

    /// Writes `bytes` to the device at `address`.
    fn write(&mut self, address: u8, bytes: &[u8]) -> Result<(), ()>;
}

/// A transfer made on the bus, and whether the bus reported success.
pub enum BusOp {
    WriteRead { address: u8, write: Seq<u8>, read: Seq<u8>, ok: bool },
    Write { address: u8, bytes: Seq<u8>, ok: bool },
}

/// The address of `FUNC_CFG_ACCESS`, which selects the register page.
pub open spec fn func_cfg_access() -> u8 {
    0x01
}

/// The bits of `old` outside `mask`, and those of `data` inside it.
pub open spec fn merged(old: u8, data: u8, mask: u8) -> u8 {
    (old & !mask) | (data & mask)
}

/// Whether the embedded functions page is selected after `value` was written
/// to `reg_address`, where `selected` said so before.
pub open spec fn page_after(selected: bool, reg_address: u8, value: u8) -> bool {
    if reg_address == func_cfg_access() {
        value & 0x80 != 0
    } else {
        selected
    }
}

/// The page selection after `data` was written to consecutive registers from
/// `reg_address` on.
pub open spec fn page_after_all(selected: bool, reg_address: u8, data: Seq<u8>) -> bool
    decreases data.len(),
{
    if data.len() == 0 {
        selected
    } else {
        page_after(
            page_after_all(selected, reg_address, data.drop_last()),
            (reg_address + data.len() - 1) as u8,
            data.last(),
        )
    }
}

/// `ops` are the transfers of a read-modify-write of register `reg_address`
/// on the device at `address`, ending in `ok`: a read of the register, then,
/// where it succeeded, a write of the bits of `data` under `mask` over what was
/// read.
pub open spec fn is_update(ops: Seq<BusOp>, address: u8, reg_address: u8, data: u8, mask: u8, ok: bool) -> bool {
    &&& ops.len() >= 1
    &&& ops[0] matches BusOp::WriteRead { address: a, write: w, read: rd, ok: read_ok }
    &&& a == address
    &&& w == seq![reg_address]
    &&& rd.len() == 1
    &&& if read_ok {
        ops.len() == 2 && ops[1] == (BusOp::Write {
            address,
            bytes: seq![reg_address, merged(rd[0], data, mask)],
            ok,
        })
    } else {
        ops.len() == 1 && !ok
    }
}

/// The page selection after the read-modify-write `ops` of `reg_address`.
pub open spec fn page_after_update(selected: bool, ops: Seq<BusOp>, reg_address: u8, data: u8, mask: u8) -> bool {
    if ops[0]->WriteRead_ok {
        page_after(selected, reg_address, merged(ops[0]->WriteRead_read[0], data, mask))
    } else {
        selected
    }
}

/// All registers which are accessible from the primary SPI/I2C/MIPI I3C
/// interfaces: the normal configuration registers (see [`PrimaryRegister`])
/// and the [`EmbeddedFunctionsRegister`]s.
#[derive(Clone, Copy, Debug, PartialEq, Eq, Structural)]
pub enum Register {
    Primary(PrimaryRegister),
    EmbeddedFunctions(EmbeddedFunctionsRegister),
}

impl From<PrimaryRegister> for Register {
    fn from(reg: PrimaryRegister) -> (r: Self) {
        Register::Primary(reg)
    }
}

impl vstd::std_specs::convert::FromSpecImpl<PrimaryRegister> for Register {
    open spec fn obeys_from_spec() -> bool {
        true
    }

    open spec fn from_spec(v: PrimaryRegister) -> Register {
        Register::Primary(v)
    }
}

impl From<EmbeddedFunctionsRegister> for Register {
    fn from(reg: EmbeddedFunctionsRegister) -> (r: Self) {
        Register::EmbeddedFunctions(reg)
    }
}

impl vstd::std_specs::convert::FromSpecImpl<EmbeddedFunctionsRegister> for Register {
    open spec fn obeys_from_spec() -> bool {
        true
    }

    open spec fn from_spec(v: EmbeddedFunctionsRegister) -> Register {
        Register::EmbeddedFunctions(v)
    }
}

impl Register {
    /// Whether the register lies on the embedded functions page.
    pub open spec fn is_embedded(self) -> bool {
        self is EmbeddedFunctions
    }

    /// The register's address on its page.
    pub open spec fn page_address(self) -> u8 {
        match self {
            Register::Primary(r) => r.spec_address(),
            Register::EmbeddedFunctions(r) => r.spec_address(),
        }
    }
}

/// Registers which are accessible from the primary SPI/I2C/MIPI I3C interfaces.
///
/// **Note:** These Register names correspond to the normal function registers.
/// When embedded function access is enabled in `FUNC_CFG_ACCESS` these addresses correspond to different registers.
#[allow(non_camel_case_types)]
#[derive(Clone, Copy, Debug, PartialEq, Eq, Structural)]
pub enum PrimaryRegister {
    FUNC_CFG_ACCESS,
    PIN_CTRL,
    S4S_TPH_L,
    S4S_TPH_H,
    S4S_RR,
    FIFO_CTRL1,
    FIFO_CTRL2,
    FIFO_CTRL3,
    FIFO_CTRL4,
    COUNTER_BDR_REG1,
    COUNTER_BDR_REG2,
    INT1_CTRL,
    INT2_CTRL,
    WHO_AM_I,
    CTRL1_XL,
    CTRL2_G,
    CTRL3_C,
    CTRL4_C,
    CTRL5_C,
    CTRL6_C,
    CTRL7_G,
    CTRL8_XL,
    CTRL9_XL,
    CTRL10_C,
    ALL_INT_SRC,
    WAKE_UP_SRC,
    TAP_SRC,
    D6D_SRC,
    STATUS_REG,
    OUT_TEMP_L,
    OUT_TEMP_H,
    OUTX_L_G,
    OUTX_H_G,
    OUTY_L_G,
    OUTY_H_G,
    OUTZ_L_G,
    OUTZ_H_G,
    OUTX_L_A,
    OUTX_H_A,
    OUTY_L_A,
    OUTY_H_A,
    OUTZ_L_A,
    OUTZ_H_A,
    EMB_FUNC_STATUS_MAINPAGE,
    FSM_STATUS_A_MAINPAGE,
    FSM_STATUS_B_MAINPAGE,
    MLC_STATUS_MAINPAGE,
    STATUS_MASTER_MAINPAGE,
    FIFO_STATUS1,
    FIFO_STATUS2,
    TIMESTAMP0,
    TIMESTAMP1,
    TIMESTAMP2,
    TIMESTAMP3,
    UI_STATUS_REG_OIS,
    UI_OUTX_L_G_OIS,
    UI_OUTX_H_G_OIS,
    UI_OUTY_L_G_OIS,
    UI_OUTY_H_G_OIS,
    UI_OUTZ_L_G_OIS,
    UI_OUTZ_H_G_OIS,
    UI_OUTX_L_A_OIS,
    UI_OUTX_H_A_OIS,
    UI_OUTY_L_A_OIS,
    UI_OUTY_H_A_OIS,
    UI_OUTZ_L_A_OIS,
    UI_OUTZ_H_A_OIS,
    TAP_CFG0,
    TAP_CFG1,
    TAP_CFG2,
    TAP_THS_6D,
    INT_DUR2,
    WAKE_UP_THS,
    WAKE_UP_DUR,
    FREE_FALL,
    MD1_CFG,
    MD2_CFG,
    S4S_ST_CMD_CODE,
    S4S_DT_REG,
    I3C_BUS_AVB,
    INTERNAL_FREQ_FINE,
    UI_INT_OIS,
    UI_CTRL1_OIS,
    UI_CTRL2_OIS,
    UI_CTRL3_OIS,
    X_OFS_USR,
    Y_OFS_USR,
    Z_OFS_USR,
    FIFO_DATA_OUT_TAG,
    FIFO_DATA_OUT_X_L,
    FIFO_DATA_OUT_X_H,
    FIFO_DATA_OUT_Y_L,
    FIFO_DATA_OUT_Y_H,
    FIFO_DATA_OUT_Z_L,
    FIFO_DATA_OUT_Z_H,
}

impl PrimaryRegister {
    /// The register's address on its page.
    pub open spec fn spec_address(self) -> u8 {
        match self {
            PrimaryRegister::FUNC_CFG_ACCESS => 0x01,
            PrimaryRegister::PIN_CTRL => 0x02,
            PrimaryRegister::S4S_TPH_L => 0x04,
            PrimaryRegister::S4S_TPH_H => 0x05,
            PrimaryRegister::S4S_RR => 0x06,
            PrimaryRegister::FIFO_CTRL1 => 0x07,
            PrimaryRegister::FIFO_CTRL2 => 0x08,
            PrimaryRegister::FIFO_CTRL3 => 0x09,
            PrimaryRegister::FIFO_CTRL4 => 0x0A,
            PrimaryRegister::COUNTER_BDR_REG1 => 0x0B,
            PrimaryRegister::COUNTER_BDR_REG2 => 0x0C,
            PrimaryRegister::INT1_CTRL => 0x0D,
            PrimaryRegister::INT2_CTRL => 0x0E,
            PrimaryRegister::WHO_AM_I => 0x0F,
            PrimaryRegister::CTRL1_XL => 0x10,
            PrimaryRegister::CTRL2_G => 0x11,
            PrimaryRegister::CTRL3_C => 0x12,
            PrimaryRegister::CTRL4_C => 0x13,
            PrimaryRegister::CTRL5_C => 0x14,
            PrimaryRegister::CTRL6_C => 0x15,
            PrimaryRegister::CTRL7_G => 0x16,
            PrimaryRegister::CTRL8_XL => 0x17,
            PrimaryRegister::CTRL9_XL => 0x18,
            PrimaryRegister::CTRL10_C => 0x19,
            PrimaryRegister::ALL_INT_SRC => 0x1A,
            PrimaryRegister::WAKE_UP_SRC => 0x1B,
            PrimaryRegister::TAP_SRC => 0x1C,
            PrimaryRegister::D6D_SRC => 0x1D,
            PrimaryRegister::STATUS_REG => 0x1E,
            PrimaryRegister::OUT_TEMP_L => 0x20,
            PrimaryRegister::OUT_TEMP_H => 0x21,
            PrimaryRegister::OUTX_L_G => 0x22,
            PrimaryRegister::OUTX_H_G => 0x23,
            PrimaryRegister::OUTY_L_G => 0x24,
            PrimaryRegister::OUTY_H_G => 0x25,
            PrimaryRegister::OUTZ_L_G => 0x26,
            PrimaryRegister::OUTZ_H_G => 0x27,
            PrimaryRegister::OUTX_L_A => 0x28,
            PrimaryRegister::OUTX_H_A => 0x29,
            PrimaryRegister::OUTY_L_A => 0x2A,
            PrimaryRegister::OUTY_H_A => 0x2B,
            PrimaryRegister::OUTZ_L_A => 0x2C,
            PrimaryRegister::OUTZ_H_A => 0x2D,
            PrimaryRegister::EMB_FUNC_STATUS_MAINPAGE => 0x35,
            PrimaryRegister::FSM_STATUS_A_MAINPAGE => 0x36,
            PrimaryRegister::FSM_STATUS_B_MAINPAGE => 0x37,
            PrimaryRegister::MLC_STATUS_MAINPAGE => 0x38,
            PrimaryRegister::STATUS_MASTER_MAINPAGE => 0x39,
            PrimaryRegister::FIFO_STATUS1 => 0x3A,
            PrimaryRegister::FIFO_STATUS2 => 0x3B,
            PrimaryRegister::TIMESTAMP0 => 0x40,
            PrimaryRegister::TIMESTAMP1 => 0x41,
            PrimaryRegister::TIMESTAMP2 => 0x42,
            PrimaryRegister::TIMESTAMP3 => 0x43,
            PrimaryRegister::UI_STATUS_REG_OIS => 0x49,
            PrimaryRegister::UI_OUTX_L_G_OIS => 0x4A,
            PrimaryRegister::UI_OUTX_H_G_OIS => 0x4B,
            PrimaryRegister::UI_OUTY_L_G_OIS => 0x4C,
            PrimaryRegister::UI_OUTY_H_G_OIS => 0x4D,
            PrimaryRegister::UI_OUTZ_L_G_OIS => 0x4E,
            PrimaryRegister::UI_OUTZ_H_G_OIS => 0x4F,
            PrimaryRegister::UI_OUTX_L_A_OIS => 0x50,
            PrimaryRegister::UI_OUTX_H_A_OIS => 0x51,
            PrimaryRegister::UI_OUTY_L_A_OIS => 0x52,
            PrimaryRegister::UI_OUTY_H_A_OIS => 0x53,
            PrimaryRegister::UI_OUTZ_L_A_OIS => 0x54,
            PrimaryRegister::UI_OUTZ_H_A_OIS => 0x55,
            PrimaryRegister::TAP_CFG0 => 0x56,
            PrimaryRegister::TAP_CFG1 => 0x57,
            PrimaryRegister::TAP_CFG2 => 0x58,
            PrimaryRegister::TAP_THS_6D => 0x59,
            PrimaryRegister::INT_DUR2 => 0x5A,
            PrimaryRegister::WAKE_UP_THS => 0x5B,
            PrimaryRegister::WAKE_UP_DUR => 0x5C,
            PrimaryRegister::FREE_FALL => 0x5D,
            PrimaryRegister::MD1_CFG => 0x5E,
            PrimaryRegister::MD2_CFG => 0x5F,
            PrimaryRegister::S4S_ST_CMD_CODE => 0x60,
            PrimaryRegister::S4S_DT_REG => 0x61,
            PrimaryRegister::I3C_BUS_AVB => 0x62,
            PrimaryRegister::INTERNAL_FREQ_FINE => 0x63,
            PrimaryRegister::UI_INT_OIS => 0x6F,
            PrimaryRegister::UI_CTRL1_OIS => 0x70,
            PrimaryRegister::UI_CTRL2_OIS => 0x71,
            PrimaryRegister::UI_CTRL3_OIS => 0x72,
            PrimaryRegister::X_OFS_USR => 0x73,
            PrimaryRegister::Y_OFS_USR => 0x74,
            PrimaryRegister::Z_OFS_USR => 0x75,
            PrimaryRegister::FIFO_DATA_OUT_TAG => 0x78,
            PrimaryRegister::FIFO_DATA_OUT_X_L => 0x79,
            PrimaryRegister::FIFO_DATA_OUT_X_H => 0x7A,
            PrimaryRegister::FIFO_DATA_OUT_Y_L => 0x7B,
            PrimaryRegister::FIFO_DATA_OUT_Y_H => 0x7C,
            PrimaryRegister::FIFO_DATA_OUT_Z_L => 0x7D,
            PrimaryRegister::FIFO_DATA_OUT_Z_H => 0x7E,
        }
    }

    /// The register's address on its page.
    pub fn address(self) -> (r: u8)
        ensures
            r == self.spec_address(),
    {
        match self {
            PrimaryRegister::FUNC_CFG_ACCESS => 0x01,
            PrimaryRegister::PIN_CTRL => 0x02,
            PrimaryRegister::S4S_TPH_L => 0x04,
            PrimaryRegister::S4S_TPH_H => 0x05,
            PrimaryRegister::S4S_RR => 0x06,
            PrimaryRegister::FIFO_CTRL1 => 0x07,
            PrimaryRegister::FIFO_CTRL2 => 0x08,
            PrimaryRegister::FIFO_CTRL3 => 0x09,
            PrimaryRegister::FIFO_CTRL4 => 0x0A,
            PrimaryRegister::COUNTER_BDR_REG1 => 0x0B,
            PrimaryRegister::COUNTER_BDR_REG2 => 0x0C,
            PrimaryRegister::INT1_CTRL => 0x0D,
            PrimaryRegister::INT2_CTRL => 0x0E,
            PrimaryRegister::WHO_AM_I => 0x0F,
            PrimaryRegister::CTRL1_XL => 0x10,
            PrimaryRegister::CTRL2_G => 0x11,
            PrimaryRegister::CTRL3_C => 0x12,
            PrimaryRegister::CTRL4_C => 0x13,
            PrimaryRegister::CTRL5_C => 0x14,
            PrimaryRegister::CTRL6_C => 0x15,
            PrimaryRegister::CTRL7_G => 0x16,
            PrimaryRegister::CTRL8_XL => 0x17,
            PrimaryRegister::CTRL9_XL => 0x18,
            PrimaryRegister::CTRL10_C => 0x19,
            PrimaryRegister::ALL_INT_SRC => 0x1A,
            PrimaryRegister::WAKE_UP_SRC => 0x1B,
            PrimaryRegister::TAP_SRC => 0x1C,
            PrimaryRegister::D6D_SRC => 0x1D,
            PrimaryRegister::STATUS_REG => 0x1E,
            PrimaryRegister::OUT_TEMP_L => 0x20,
            PrimaryRegister::OUT_TEMP_H => 0x21,
            PrimaryRegister::OUTX_L_G => 0x22,
            PrimaryRegister::OUTX_H_G => 0x23,
            PrimaryRegister::OUTY_L_G => 0x24,
            PrimaryRegister::OUTY_H_G => 0x25,
            PrimaryRegister::OUTZ_L_G => 0x26,
            PrimaryRegister::OUTZ_H_G => 0x27,
            PrimaryRegister::OUTX_L_A => 0x28,
            PrimaryRegister::OUTX_H_A => 0x29,
            PrimaryRegister::OUTY_L_A => 0x2A,
            PrimaryRegister::OUTY_H_A => 0x2B,
            PrimaryRegister::OUTZ_L_A => 0x2C,
            PrimaryRegister::OUTZ_H_A => 0x2D,
            PrimaryRegister::EMB_FUNC_STATUS_MAINPAGE => 0x35,
            PrimaryRegister::FSM_STATUS_A_MAINPAGE => 0x36,
            PrimaryRegister::FSM_STATUS_B_MAINPAGE => 0x37,
            PrimaryRegister::MLC_STATUS_MAINPAGE => 0x38,
            PrimaryRegister::STATUS_MASTER_MAINPAGE => 0x39,
            PrimaryRegister::FIFO_STATUS1 => 0x3A,
            PrimaryRegister::FIFO_STATUS2 => 0x3B,
            PrimaryRegister::TIMESTAMP0 => 0x40,
            PrimaryRegister::TIMESTAMP1 => 0x41,
            PrimaryRegister::TIMESTAMP2 => 0x42,
            PrimaryRegister::TIMESTAMP3 => 0x43,
            PrimaryRegister::UI_STATUS_REG_OIS => 0x49,
            PrimaryRegister::UI_OUTX_L_G_OIS => 0x4A,
            PrimaryRegister::UI_OUTX_H_G_OIS => 0x4B,
            PrimaryRegister::UI_OUTY_L_G_OIS => 0x4C,
            PrimaryRegister::UI_OUTY_H_G_OIS => 0x4D,
            PrimaryRegister::UI_OUTZ_L_G_OIS => 0x4E,
            PrimaryRegister::UI_OUTZ_H_G_OIS => 0x4F,
            PrimaryRegister::UI_OUTX_L_A_OIS => 0x50,
            PrimaryRegister::UI_OUTX_H_A_OIS => 0x51,
            PrimaryRegister::UI_OUTY_L_A_OIS => 0x52,
            PrimaryRegister::UI_OUTY_H_A_OIS => 0x53,
            PrimaryRegister::UI_OUTZ_L_A_OIS => 0x54,
            PrimaryRegister::UI_OUTZ_H_A_OIS => 0x55,
            PrimaryRegister::TAP_CFG0 => 0x56,
            PrimaryRegister::TAP_CFG1 => 0x57,
            PrimaryRegister::TAP_CFG2 => 0x58,
            PrimaryRegister::TAP_THS_6D => 0x59,
            PrimaryRegister::INT_DUR2 => 0x5A,
            PrimaryRegister::WAKE_UP_THS => 0x5B,
            PrimaryRegister::WAKE_UP_DUR => 0x5C,
            PrimaryRegister::FREE_FALL => 0x5D,
            PrimaryRegister::MD1_CFG => 0x5E,
            PrimaryRegister::MD2_CFG => 0x5F,
            PrimaryRegister::S4S_ST_CMD_CODE => 0x60,
            PrimaryRegister::S4S_DT_REG => 0x61,
            PrimaryRegister::I3C_BUS_AVB => 0x62,
            PrimaryRegister::INTERNAL_FREQ_FINE => 0x63,
            PrimaryRegister::UI_INT_OIS => 0x6F,
            PrimaryRegister::UI_CTRL1_OIS => 0x70,
            PrimaryRegister::UI_CTRL2_OIS => 0x71,
            PrimaryRegister::UI_CTRL3_OIS => 0x72,
            PrimaryRegister::X_OFS_USR => 0x73,
            PrimaryRegister::Y_OFS_USR => 0x74,
            PrimaryRegister::Z_OFS_USR => 0x75,
            PrimaryRegister::FIFO_DATA_OUT_TAG => 0x78,
            PrimaryRegister::FIFO_DATA_OUT_X_L => 0x79,
            PrimaryRegister::FIFO_DATA_OUT_X_H => 0x7A,
            PrimaryRegister::FIFO_DATA_OUT_Y_L => 0x7B,
            PrimaryRegister::FIFO_DATA_OUT_Y_H => 0x7C,
            PrimaryRegister::FIFO_DATA_OUT_Z_L => 0x7D,
            PrimaryRegister::FIFO_DATA_OUT_Z_H => 0x7E,
        }
    }
}

/// Embedded Functions Registers
#[allow(non_camel_case_types)]
#[derive(Clone, Copy, Debug, PartialEq, Eq, Structural)]
pub enum EmbeddedFunctionsRegister {
    PAGE_SEL,
    EMB_FUNC_EN_A,
    EMB_FUNC_EN_B,
    PAGE_ADDRESS,
    PAGE_VALUE,
    EMB_FUNC_INT1,
    FSM_INT1_A,
    FSM_INT1_B,
    MLC_INT1,
    EMB_FUNC_INT2,
    FSM_INT2_A,
    FSM_INT2_B,
    MLC_INT2,
    EMB_FUNC_STATUS,
    FSM_STATUS_A,
    FSM_STATUS_B,
    MLC_STATUS,
    PAGE_RW,
    EMB_FUNC_FIFO_CFG,
    FSM_ENABLE_A,
    FSM_ENABLE_B,
    FSM_LONG_COUNTER_L,
    FSM_LONG_COUNTER_H,
    FSM_LONG_COUNTER_CLEAR,
    FSM_OUTS1,
    FSM_OUTS2,
    FSM_OUTS3,
    FSM_OUTS4,
    FSM_OUTS5,
    FSM_OUTS6,
    FSM_OUTS7,
    FSM_OUTS8,
    FSM_OUTS9,
    FSM_OUTS10,
    FSM_OUTS11,
    FSM_OUTS12,
    FSM_OUTS13,
    FSM_OUTS14,
    FSM_OUTS15,
    FSM_OUTS16,
    EMB_FUNC_ODR_CFG_B,
    EMB_FUNC_ODR_CFG_C,
    STEP_COUNTER_L,
    STEP_COUNTER_H,
    EMB_FUNC_SRC,
    EMB_FUNC_INIT_A,
    EMB_FUNC_INIT_B,
    MLC0_SRC,
    MLC1_SRC,
    MLC2_SRC,
    MLC3_SRC,
    MLC4_SRC,
    MLC5_SRC,
    MLC6_SRC,
    MLC7_SRC,
}

impl EmbeddedFunctionsRegister {
    /// The register's address on its page.
    pub open spec fn spec_address(self) -> u8 {
        match self {
            EmbeddedFunctionsRegister::PAGE_SEL => 0x02,
            EmbeddedFunctionsRegister::EMB_FUNC_EN_A => 0x04,
            EmbeddedFunctionsRegister::EMB_FUNC_EN_B => 0x05,
            EmbeddedFunctionsRegister::PAGE_ADDRESS => 0x08,
            EmbeddedFunctionsRegister::PAGE_VALUE => 0x09,
            EmbeddedFunctionsRegister::EMB_FUNC_INT1 => 0x0A,
            EmbeddedFunctionsRegister::FSM_INT1_A => 0x0B,
            EmbeddedFunctionsRegister::FSM_INT1_B => 0x0C,
            EmbeddedFunctionsRegister::MLC_INT1 => 0x0D,
            EmbeddedFunctionsRegister::EMB_FUNC_INT2 => 0x0E,
            EmbeddedFunctionsRegister::FSM_INT2_A => 0x0F,
            EmbeddedFunctionsRegister::FSM_INT2_B => 0x10,
            EmbeddedFunctionsRegister::MLC_INT2 => 0x11,
            EmbeddedFunctionsRegister::EMB_FUNC_STATUS => 0x12,
            EmbeddedFunctionsRegister::FSM_STATUS_A => 0x13,
            EmbeddedFunctionsRegister::FSM_STATUS_B => 0x14,
            EmbeddedFunctionsRegister::MLC_STATUS => 0x15,
            EmbeddedFunctionsRegister::PAGE_RW => 0x17,
            EmbeddedFunctionsRegister::EMB_FUNC_FIFO_CFG => 0x44,
            EmbeddedFunctionsRegister::FSM_ENABLE_A => 0x46,
            EmbeddedFunctionsRegister::FSM_ENABLE_B => 0x47,
            EmbeddedFunctionsRegister::FSM_LONG_COUNTER_L => 0x48,
            EmbeddedFunctionsRegister::FSM_LONG_COUNTER_H => 0x49,
            EmbeddedFunctionsRegister::FSM_LONG_COUNTER_CLEAR => 0x4A,
            EmbeddedFunctionsRegister::FSM_OUTS1 => 0x4C,
            EmbeddedFunctionsRegister::FSM_OUTS2 => 0x4D,
            EmbeddedFunctionsRegister::FSM_OUTS3 => 0x4E,
            EmbeddedFunctionsRegister::FSM_OUTS4 => 0x4F,
            EmbeddedFunctionsRegister::FSM_OUTS5 => 0x50,
            EmbeddedFunctionsRegister::FSM_OUTS6 => 0x51,
            EmbeddedFunctionsRegister::FSM_OUTS7 => 0x52,
            EmbeddedFunctionsRegister::FSM_OUTS8 => 0x53,
            EmbeddedFunctionsRegister::FSM_OUTS9 => 0x54,
            EmbeddedFunctionsRegister::FSM_OUTS10 => 0x55,
            EmbeddedFunctionsRegister::FSM_OUTS11 => 0x56,
            EmbeddedFunctionsRegister::FSM_OUTS12 => 0x57,
            EmbeddedFunctionsRegister::FSM_OUTS13 => 0x58,
            EmbeddedFunctionsRegister::FSM_OUTS14 => 0x59,
            EmbeddedFunctionsRegister::FSM_OUTS15 => 0x5A,
            EmbeddedFunctionsRegister::FSM_OUTS16 => 0x5B,
            EmbeddedFunctionsRegister::EMB_FUNC_ODR_CFG_B => 0x5F,
            EmbeddedFunctionsRegister::EMB_FUNC_ODR_CFG_C => 0x60,
            EmbeddedFunctionsRegister::STEP_COUNTER_L => 0x62,
            EmbeddedFunctionsRegister::STEP_COUNTER_H => 0x63,
            EmbeddedFunctionsRegister::EMB_FUNC_SRC => 0x64,
            EmbeddedFunctionsRegister::EMB_FUNC_INIT_A => 0x66,
            EmbeddedFunctionsRegister::EMB_FUNC_INIT_B => 0x67,
            EmbeddedFunctionsRegister::MLC0_SRC => 0x70,
            EmbeddedFunctionsRegister::MLC1_SRC => 0x71,
            EmbeddedFunctionsRegister::MLC2_SRC => 0x72,
            EmbeddedFunctionsRegister::MLC3_SRC => 0x73,
            EmbeddedFunctionsRegister::MLC4_SRC => 0x74,
            EmbeddedFunctionsRegister::MLC5_SRC => 0x75,
            EmbeddedFunctionsRegister::MLC6_SRC => 0x76,
            EmbeddedFunctionsRegister::MLC7_SRC => 0x77,
        }
    }

    /// The register's address on its page.
    pub fn address(self) -> (r: u8)
        ensures
            r == self.spec_address(),
    {
        match self {
            EmbeddedFunctionsRegister::PAGE_SEL => 0x02,
            EmbeddedFunctionsRegister::EMB_FUNC_EN_A => 0x04,
            EmbeddedFunctionsRegister::EMB_FUNC_EN_B => 0x05,
            EmbeddedFunctionsRegister::PAGE_ADDRESS => 0x08,
            EmbeddedFunctionsRegister::PAGE_VALUE => 0x09,
            EmbeddedFunctionsRegister::EMB_FUNC_INT1 => 0x0A,
            EmbeddedFunctionsRegister::FSM_INT1_A => 0x0B,
            EmbeddedFunctionsRegister::FSM_INT1_B => 0x0C,
            EmbeddedFunctionsRegister::MLC_INT1 => 0x0D,
            EmbeddedFunctionsRegister::EMB_FUNC_INT2 => 0x0E,
            EmbeddedFunctionsRegister::FSM_INT2_A => 0x0F,
            EmbeddedFunctionsRegister::FSM_INT2_B => 0x10,
            EmbeddedFunctionsRegister::MLC_INT2 => 0x11,
            EmbeddedFunctionsRegister::EMB_FUNC_STATUS => 0x12,
            EmbeddedFunctionsRegister::FSM_STATUS_A => 0x13,
            EmbeddedFunctionsRegister::FSM_STATUS_B => 0x14,
            EmbeddedFunctionsRegister::MLC_STATUS => 0x15,
            EmbeddedFunctionsRegister::PAGE_RW => 0x17,
            EmbeddedFunctionsRegister::EMB_FUNC_FIFO_CFG => 0x44,
            EmbeddedFunctionsRegister::FSM_ENABLE_A => 0x46,
            EmbeddedFunctionsRegister::FSM_ENABLE_B => 0x47,
            EmbeddedFunctionsRegister::FSM_LONG_COUNTER_L => 0x48,
            EmbeddedFunctionsRegister::FSM_LONG_COUNTER_H => 0x49,
            EmbeddedFunctionsRegister::FSM_LONG_COUNTER_CLEAR => 0x4A,
            EmbeddedFunctionsRegister::FSM_OUTS1 => 0x4C,
            EmbeddedFunctionsRegister::FSM_OUTS2 => 0x4D,
            EmbeddedFunctionsRegister::FSM_OUTS3 => 0x4E,
            EmbeddedFunctionsRegister::FSM_OUTS4 => 0x4F,
            EmbeddedFunctionsRegister::FSM_OUTS5 => 0x50,
            EmbeddedFunctionsRegister::FSM_OUTS6 => 0x51,
            EmbeddedFunctionsRegister::FSM_OUTS7 => 0x52,
            EmbeddedFunctionsRegister::FSM_OUTS8 => 0x53,
            EmbeddedFunctionsRegister::FSM_OUTS9 => 0x54,
            EmbeddedFunctionsRegister::FSM_OUTS10 => 0x55,
            EmbeddedFunctionsRegister::FSM_OUTS11 => 0x56,
            EmbeddedFunctionsRegister::FSM_OUTS12 => 0x57,
            EmbeddedFunctionsRegister::FSM_OUTS13 => 0x58,
            EmbeddedFunctionsRegister::FSM_OUTS14 => 0x59,
            EmbeddedFunctionsRegister::FSM_OUTS15 => 0x5A,
            EmbeddedFunctionsRegister::FSM_OUTS16 => 0x5B,
            EmbeddedFunctionsRegister::EMB_FUNC_ODR_CFG_B => 0x5F,
            EmbeddedFunctionsRegister::EMB_FUNC_ODR_CFG_C => 0x60,
            EmbeddedFunctionsRegister::STEP_COUNTER_L => 0x62,
            EmbeddedFunctionsRegister::STEP_COUNTER_H => 0x63,
            EmbeddedFunctionsRegister::EMB_FUNC_SRC => 0x64,
            EmbeddedFunctionsRegister::EMB_FUNC_INIT_A => 0x66,
            EmbeddedFunctionsRegister::EMB_FUNC_INIT_B => 0x67,
            EmbeddedFunctionsRegister::MLC0_SRC => 0x70,
            EmbeddedFunctionsRegister::MLC1_SRC => 0x71,
            EmbeddedFunctionsRegister::MLC2_SRC => 0x72,
            EmbeddedFunctionsRegister::MLC3_SRC => 0x73,
            EmbeddedFunctionsRegister::MLC4_SRC => 0x74,
            EmbeddedFunctionsRegister::MLC5_SRC => 0x75,
            EmbeddedFunctionsRegister::MLC6_SRC => 0x76,
            EmbeddedFunctionsRegister::MLC7_SRC => 0x77,
        }
    }
}

/// Writing bit 7 under mask `0x80` sets it as written, whatever was read.
proof fn lemma_page_bit(v: u8)
    ensures
        merged(v, 0x00, 0x80) & 0x80 == 0,
        merged(v, 0x80, 0x80) & 0x80 != 0,
{
    assert(((v & !0x80u8) | (0x00u8 & 0x80u8)) & 0x80u8 == 0) by (bit_vector);
    assert(((v & !0x80u8) | (0x80u8 & 0x80u8)) & 0x80u8 != 0) by (bit_vector);
}

/// The page data that selects the page of `reg` in `FUNC_CFG_ACCESS`.
pub open spec fn switch_data(reg: Register) -> u8 {
    if reg.is_embedded() {
        0x80
    } else {
        0x00
    }
}

/// Whether accessing `reg` needs the page switched first.
pub open spec fn needs_switch(selected: bool, reg: Register) -> bool {
    reg.is_embedded() != selected
}

/// The number of transfers of a successful page switch.
pub open spec fn switch_count(selected: bool, reg: Register) -> int {
    if needs_switch(selected, reg) {
        2
    } else {
        0
    }
}

/// `ops` begin with a successful switch to the page of `reg`, where one is
/// needed.
pub open spec fn switch_succeeded(ops: Seq<BusOp>, address: u8, selected: bool, reg: Register) -> bool {
    needs_switch(selected, reg) ==> ops.len() >= 2 && is_update(
        ops.take(2),
        address,
        func_cfg_access(),
        switch_data(reg),
        0x80,
        true,
    )
}

/// `ops` are a switch to the page of `reg` that failed.
pub open spec fn switch_failed(ops: Seq<BusOp>, address: u8, selected: bool, reg: Register) -> bool {
    needs_switch(selected, reg) && is_update(
        ops,
        address,
        func_cfg_access(),
        switch_data(reg),
        0x80,
        false,
    )
}

/// The error reported where the transfer `op` failed.
pub open spec fn failure(op: BusOp) -> RegisterError {
    match op {
        BusOp::WriteRead { .. } => RegisterError::I2cReadError,
        BusOp::Write { .. } => RegisterError::I2cWriteError,
    }
}

/// The page selection that the writes in `log` leave, starting from the
/// primary page: each write of bytes `[reg, d0, d1, ..]` writes `d0, d1, ..`
/// to consecutive registers from `reg` on, whether or not the bus reported
/// success.
pub open spec fn page_from_log(log: Seq<BusOp>) -> bool
    decreases log.len(),
{
    if log.len() == 0 {
        false
    } else {
        let before = page_from_log(log.drop_last());
        match log.last() {
            BusOp::Write { bytes, .. } => if bytes.len() >= 1 {
                page_after_all(before, bytes[0], bytes.skip(1))
            } else {
                before
            },
            BusOp::WriteRead { .. } => before,
        }
    }
}

proof fn lemma_page_after_one(selected: bool, reg: u8, value: u8)
    ensures
        page_after_all(selected, reg, seq![value]) == page_after(selected, reg, value),
{
    assert(seq![value].drop_last() =~= Seq::<u8>::empty());
    assert(page_after_all(selected, reg, Seq::<u8>::empty()) == selected);
    assert((reg + 1 - 1) as u8 == reg);
}

proof fn lemma_log_push(log: Seq<BusOp>, op: BusOp)
    ensures
        page_from_log(log.push(op)) == (match op {
            BusOp::Write { bytes, .. } => if bytes.len() >= 1 {
                page_after_all(page_from_log(log), bytes[0], bytes.skip(1))
            } else {
                page_from_log(log)
            },
            BusOp::WriteRead { .. } => page_from_log(log),
        }),
{
    assert(log.push(op).drop_last() =~= log);
}

/// Manages register access to [`Register`]s, i.e. to [`PrimaryRegister`]s and
/// [`EmbeddedFunctionsRegister`]s
///
/// Since [`PrimaryRegister`]s and [`EmbeddedFunctionsRegister`]s are accessed on different
/// register pages which are switched via the `FUNC_CFG_ACCESS` register, this type keeps track of
/// which register page is currently selected. For each register access, the currently selected
/// register page is switched by updating `FUNC_CFG_ACCESS` if required.
///
/// Methods suffixed with `reg_address` or `reg_addresses` directly access a register address
/// without taking care of selecting the appropriate register page. Even then the selected page
/// is tracked, because all register writes and updates are checked for changing
/// `FUNC_CFG_ACCESS`.
pub struct RegisterAccess<I2C> {
    i2c: I2C,
    address: u8,
    embedded_functions_registers_selected: bool,
    log: Ghost<Seq<BusOp>>,
}

impl<I2C: I2cBus> RegisterAccess<I2C> {
    /// The bus.
    pub closed spec fn bus(&self) -> I2C {
        self.i2c
    }

    /// The device's address on the bus.
    pub closed spec fn device(&self) -> u8 {
        self.address
    }

    /// Whether the embedded functions page is selected.
    pub closed spec fn selected(&self) -> bool {
        self.embedded_functions_registers_selected
    }

    /// Every transfer made on the bus so far, in order.
    pub closed spec fn log(&self) -> Seq<BusOp> {
        self.log@
    }

    /// The page this access believes selected is the one its writes left.
    pub open spec fn well_formed(&self) -> bool {
        self.selected() == page_from_log(self.log())
    }

    /// An access to the device at `address`, with the primary page selected.
    pub fn new(i2c: I2C, address: u8) -> (r: Self)
        ensures
            r.bus() == i2c,
            r.device() == address,
            !r.selected(),
            r.log() == Seq::<BusOp>::empty(),
            r.well_formed(),
    {
        RegisterAccess {
            i2c,
            address,
            embedded_functions_registers_selected: false,
            log: Ghost(Seq::empty()),
        }
    }

    /// Gives the bus back.
    pub fn destroy(self) -> (r: I2C)
        ensures
            r == self.bus(),
    {
        self.i2c
    }

    /// Ensures that the right register page is selected in `FUNC_CFG_ACCESS` to access `reg`
    /// afterwards, and returns the register's address on its page.
    fn select_register_page(&mut self, reg: Register) -> (r: Result<u8, RegisterError>)
        requires
            old(self).well_formed(),
        ensures
            final(self).well_formed(),
            final(self).device() == old(self).device(),
            final(self).log().len() >= old(self).log().len(),
            final(self).log().take(old(self).log().len() as int) == old(self).log(),
            ({
                let ops = final(self).log().skip(old(self).log().len() as int);
                if switch_failed(ops, old(self).device(), old(self).selected(), reg) {
                    r == Err::<u8, RegisterError>(failure(ops.last())) && final(self).selected()
                        == page_after_update(
                        old(self).selected(),
                        ops,
                        func_cfg_access(),
                        switch_data(reg),
                        0x80,
                    )
                } else {
                    &&& switch_succeeded(ops, old(self).device(), old(self).selected(), reg)
                    &&& ops.len() == switch_count(old(self).selected(), reg)
                    &&& r == Ok::<u8, RegisterError>(reg.page_address())
                    &&& final(self).selected() == reg.is_embedded()
                }
            }),
    {
        let ghost n = self.log@.len();
        match reg {
            Register::Primary(reg) => {
                if self.embedded_functions_registers_selected {
                    let u = self.update_reg_address(0x01, 0x00, 0x80);
                    proof {
                        let ops = self.log@.skip(n as int);
                        if u is Ok {
                            assert(ops.take(2) == ops);
                            lemma_page_bit(ops[0]->WriteRead_read[0]);
                        }
                    }
                    match u {
                        Ok(()) => {},
                        Err(e) => return Err(e),
                    }
                    self.embedded_functions_registers_selected = false;
                } else {
                    proof {
                        assert(self.log@.skip(n as int) =~= Seq::<BusOp>::empty());
                    }
                }
                Ok(reg.address())
            },
            Register::EmbeddedFunctions(reg) => {
                if !self.embedded_functions_registers_selected {
                    let u = self.update_reg_address(0x01, 0x80, 0x80);
                    proof {
                        let ops = self.log@.skip(n as int);
                        if u is Ok {
                            assert(ops.take(2) == ops);
                            lemma_page_bit(ops[0]->WriteRead_read[0]);
                        }
                    }
                    match u {
                        Ok(()) => {},
                        Err(e) => return Err(e),
                    }
                    self.embedded_functions_registers_selected = true;
                } else {
                    proof {
                        assert(self.log@.skip(n as int) =~= Seq::<BusOp>::empty());
                    }
                }
                Ok(reg.address())
            },
        }
    }

    /// Reads the register `reg`, switching to its page first where needed.
    pub fn read_reg(&mut self, reg: Register) -> (r: Result<u8, RegisterError>)
        requires
            old(self).well_formed(),
        ensures
            final(self).well_formed(),
            final(self).device() == old(self).device(),
            final(self).log().len() >= old(self).log().len(),
            final(self).log().take(old(self).log().len() as int) == old(self).log(),
            ({
                let ops = final(self).log().skip(old(self).log().len() as int);
                let k = switch_count(old(self).selected(), reg);
                if switch_failed(ops, old(self).device(), old(self).selected(), reg) {
                    r == Err::<u8, RegisterError>(failure(ops.last())) && final(self).selected()
                        == page_after_update(
                        old(self).selected(),
                        ops,
                        func_cfg_access(),
                        switch_data(reg),
                        0x80,
                    )
                } else {
                    &&& switch_succeeded(ops, old(self).device(), old(self).selected(), reg)
                    &&& ops.len() == k + 1
                    &&& ops[k] matches BusOp::WriteRead { address: a, write: w, read: rd, ok }
                    &&& a == old(self).device()
                    &&& w == seq![reg.page_address()]
                    &&& rd.len() == 1
                    &&& r == (if ok {
                        Ok::<u8, RegisterError>(rd[0])
                    } else {
                        Err(RegisterError::I2cReadError)
                    })
                    &&& final(self).selected() == reg.is_embedded()
                }
            }),
    {
        let ghost n = self.log@.len();
        let sel = self.select_register_page(reg);
        if sel.is_err() {
            return match sel {
                Ok(_) => Err(RegisterError::InvalidData),
                Err(e) => Err(e),
            };
        }
        let reg_address = match sel {
            Ok(a) => a,
            Err(_) => 0,
        };
        let ghost m = self.log@.len();
        let mut tbuf = [1u8; 1];
        let rr = self.read_reg_addresses(reg_address, &mut tbuf);
        proof {
            let ops = self.log@.skip(n as int);
            assert(ops.take(m - n) == self.log@.subrange(n as int, m as int));
            if m - n >= 2 {
                assert(ops.take(2) == ops.take(m - n).take(2));
            }
            assert(ops[m - n] == self.log@[m as int]);
            assert(tbuf@ == seq![tbuf[0]]);
        }
        match rr {
            Ok(()) => Ok(tbuf[0]),
            Err(e) => Err(e),
        }
    }

    /// Reads consecutive registers from `reg` on into `buf`, switching to the
    /// page of `reg` first where needed.
    pub fn read_regs(&mut self, reg: Register, buf: &mut [u8]) -> (r: Result<(), RegisterError>)
        requires
            old(self).well_formed(),
        ensures
            final(self).well_formed(),
            final(self).device() == old(self).device(),
            final(self).log().len() >= old(self).log().len(),
            final(self).log().take(old(self).log().len() as int) == old(self).log(),
            ({
                let ops = final(self).log().skip(old(self).log().len() as int);
                let k = switch_count(old(self).selected(), reg);
                if switch_failed(ops, old(self).device(), old(self).selected(), reg) {
                    r == Err::<(), RegisterError>(failure(ops.last())) && final(self).selected()
                        == page_after_update(
                        old(self).selected(),
                        ops,
                        func_cfg_access(),
                        switch_data(reg),
                        0x80,
                    )
                } else {
                    &&& switch_succeeded(ops, old(self).device(), old(self).selected(), reg)
                    &&& ops.len() == k + 1
                    &&& ops[k] == (BusOp::WriteRead {
                        address: old(self).device(),
                        write: seq![reg.page_address()],
                        read: final(buf)@,
                        ok: r is Ok,
                    })
                    &&& r is Err ==> r == Err::<(), RegisterError>(RegisterError::I2cReadError)
                    &&& final(self).selected() == reg.is_embedded()
                }
            }),
    {
        let ghost n = self.log@.len();
        let sel = self.select_register_page(reg);
        if sel.is_err() {
            return match sel {
                Ok(_) => Err(RegisterError::InvalidData),
                Err(e) => Err(e),
            };
        }
        let reg_address = match sel {
            Ok(a) => a,
            Err(_) => 0,
        };
        let ghost m = self.log@.len();
        let rr = self.read_reg_addresses(reg_address, buf);
        proof {
            let ops = self.log@.skip(n as int);
            assert(ops.take(m - n) == self.log@.subrange(n as int, m as int));
            if m - n >= 2 {
                assert(ops.take(2) == ops.take(m - n).take(2));
            }
            assert(ops[m - n] == self.log@[m as int]);
        }
        rr
    }

    /// Writes `data` to the register `reg`, switching to its page first where
    /// needed.
    pub fn write_reg(&mut self, reg: Register, data: u8) -> (r: Result<(), RegisterError>)
        requires
            old(self).well_formed(),
        ensures
            final(self).well_formed(),
            final(self).device() == old(self).device(),
            final(self).log().len() >= old(self).log().len(),
            final(self).log().take(old(self).log().len() as int) == old(self).log(),
            ({
                let ops = final(self).log().skip(old(self).log().len() as int);
                let k = switch_count(old(self).selected(), reg);
                if switch_failed(ops, old(self).device(), old(self).selected(), reg) {
                    r == Err::<(), RegisterError>(failure(ops.last())) && final(self).selected()
                        == page_after_update(
                        old(self).selected(),
                        ops,
                        func_cfg_access(),
                        switch_data(reg),
                        0x80,
                    )
                } else {
                    &&& switch_succeeded(ops, old(self).device(), old(self).selected(), reg)
                    &&& ops.len() == k + 1
                    &&& ops[k] == (BusOp::Write {
                        address: old(self).device(),
                        bytes: seq![reg.page_address(), data],
                        ok: r is Ok,
                    })
                    &&& r is Err ==> r == Err::<(), RegisterError>(RegisterError::I2cWriteError)
                    &&& final(self).selected() == page_after(
                        reg.is_embedded(),
                        reg.page_address(),
                        data,
                    )
                }
            }),
    {
        let ghost n = self.log@.len();
        let sel = self.select_register_page(reg);
        if sel.is_err() {
            return match sel {
                Ok(_) => Err(RegisterError::InvalidData),
                Err(e) => Err(e),
            };
        }
        let reg_address = match sel {
            Ok(a) => a,
            Err(_) => 0,
        };
        let ghost m = self.log@.len();
        let update = [reg_address, data];
        let ghost old_page = self.embedded_functions_registers_selected;
        self.check_register_page_change(reg_address, data);
        let res = self.i2c.write(self.address, &update);
        proof {
            assert(update@ == seq![reg_address, data]);
            assert(update@.skip(1) =~= seq![data]);
            lemma_page_after_one(old_page, reg_address, data);
            lemma_log_push(
                self.log@,
                BusOp::Write { address: self.address, bytes: update@, ok: res is Ok },
            );
            self.log@ = self.log@.push(
                BusOp::Write { address: self.address, bytes: update@, ok: res is Ok },
            );
            let ops = self.log@.skip(n as int);
            assert(ops.take(m - n) == self.log@.subrange(n as int, m as int));
            if m - n >= 2 {
                assert(ops.take(2) == ops.take(m - n).take(2));
            }
            assert(ops[m - n] == self.log@[m as int]);
        }
        match res {
            Ok(()) => Ok(()),
            Err(()) => Err(RegisterError::I2cWriteError),
        }
    }

    /// Writes `data` to consecutive registers from `reg` on, switching to the
    /// page of `reg` first where needed. At most 128 bytes can be written at
    /// once.
    pub fn write_regs(&mut self, reg: Register, data: &[u8]) -> (r: Result<(), RegisterError>)
        requires
            old(self).well_formed(),
            data@.len() <= 128 ==> reg.page_address() + data@.len() <= 256,
        ensures
            final(self).well_formed(),
            final(self).device() == old(self).device(),
            final(self).log().len() >= old(self).log().len(),
            final(self).log().take(old(self).log().len() as int) == old(self).log(),
            ({
                let ops = final(self).log().skip(old(self).log().len() as int);
                let k = switch_count(old(self).selected(), reg);
                if switch_failed(ops, old(self).device(), old(self).selected(), reg) {
                    r == Err::<(), RegisterError>(failure(ops.last())) && final(self).selected()
                        == page_after_update(
                        old(self).selected(),
                        ops,
                        func_cfg_access(),
                        switch_data(reg),
                        0x80,
                    )
                } else if data@.len() > 128 {
                    &&& switch_succeeded(ops, old(self).device(), old(self).selected(), reg)
                    &&& ops.len() == k
                    &&& r == Err::<(), RegisterError>(RegisterError::InvalidData)
                    &&& final(self).selected() == reg.is_embedded()
                } else {
                    &&& switch_succeeded(ops, old(self).device(), old(self).selected(), reg)
                    &&& ops.len() == k + 1
                    &&& ops[k] == (BusOp::Write {
                        address: old(self).device(),
                        bytes: seq![reg.page_address()] + data@,
                        ok: r is Ok,
                    })
                    &&& r is Err ==> r == Err::<(), RegisterError>(RegisterError::I2cWriteError)
                    &&& final(self).selected() == page_after_all(
                        reg.is_embedded(),
                        reg.page_address(),
                        data@,
                    )
                }
            }),
    {
        let ghost n = self.log@.len();
        let sel = self.select_register_page(reg);
        if sel.is_err() {
            return match sel {
                Ok(_) => Err(RegisterError::InvalidData),
                Err(e) => Err(e),
            };
        }
        let reg_address = match sel {
            Ok(a) => a,
            Err(_) => 0,
        };
        let ghost m = self.log@.len();
        let rr = self.write_reg_addresses(reg_address, data);
        proof {
            let ops = self.log@.skip(n as int);
            if data@.len() > 128 {
                assert(ops == self.log@.subrange(n as int, m as int));
            } else {
                assert(ops.take(m - n) == self.log@.subrange(n as int, m as int));
                assert(ops[m - n] == self.log@[m as int]);
            }
            if m - n >= 2 {
                assert(ops.take(2) == self.log@.subrange(n as int, m as int).take(2));
            }
        }
        rr
    }

    /// Updates the bits under `bitmask` of register `reg` with those of `data`,
    /// keeping the others, switching to the page of `reg` first where needed.
    pub fn update_reg(&mut self, reg: Register, data: u8, bitmask: u8) -> (r: Result<(), RegisterError>)
        requires
            old(self).well_formed(),
        ensures
            final(self).well_formed(),
            final(self).device() == old(self).device(),
            final(self).log().len() >= old(self).log().len(),
            final(self).log().take(old(self).log().len() as int) == old(self).log(),
            ({
                let ops = final(self).log().skip(old(self).log().len() as int);
                let k = switch_count(old(self).selected(), reg);
                if switch_failed(ops, old(self).device(), old(self).selected(), reg) {
                    r == Err::<(), RegisterError>(failure(ops.last())) && final(self).selected()
                        == page_after_update(
                        old(self).selected(),
                        ops,
                        func_cfg_access(),
                        switch_data(reg),
                        0x80,
                    )
                } else {
                    &&& switch_succeeded(ops, old(self).device(), old(self).selected(), reg)
                    &&& is_update(
                        ops.skip(k),
                        old(self).device(),
                        reg.page_address(),
                        data,
                        bitmask,
                        r is Ok,
                    )
                    &&& r is Err ==> r == Err::<(), RegisterError>(failure(ops.last()))
                    &&& final(self).selected() == page_after_update(
                        reg.is_embedded(),
                        ops.skip(k),
                        reg.page_address(),
                        data,
                        bitmask,
                    )
                }
            }),
    {
        let ghost n = self.log@.len();
        let sel = self.select_register_page(reg);
        if sel.is_err() {
            return match sel {
                Ok(_) => Err(RegisterError::InvalidData),
                Err(e) => Err(e),
            };
        }
        let reg_address = match sel {
            Ok(a) => a,
            Err(_) => 0,
        };
        let ghost m = self.log@.len();
        let rr = self.update_reg_address(reg_address, data, bitmask);
        proof {
            let ops = self.log@.skip(n as int);
            assert(ops.take(m - n) == self.log@.subrange(n as int, m as int));
            assert(ops.skip(m - n) == self.log@.skip(m as int));
            if m - n >= 2 {
                assert(ops.take(2) == ops.take(m - n).take(2));
            }
        }
        rr
    }

    /// Notes a write of `value` to `reg_address`, which may switch the page.
    fn check_register_page_change(&mut self, reg_address: u8, value: u8)
        ensures
            final(self).selected() == page_after(old(self).selected(), reg_address, value),
            final(self).log() == old(self).log(),
            final(self).device() == old(self).device(),
    {
        if reg_address == 0x01 {
            self.embedded_functions_registers_selected = value & 0x80 != 0;
        }
    }

    /// Directly reads consecutive registers from `reg_address` on into `buf`,
    /// without selecting a page.
    pub fn read_reg_addresses(&mut self, reg_address: u8, buf: &mut [u8]) -> (r: Result<(), RegisterError>)
        requires
            old(self).well_formed(),
        ensures
            final(self).well_formed(),
            final(self).device() == old(self).device(),
            final(self).selected() == old(self).selected(),
            final(self).log() == old(self).log().push(
                BusOp::WriteRead {
                    address: old(self).device(),
                    write: seq![reg_address],
                    read: final(buf)@,
                    ok: r is Ok,
                },
            ),
            r is Err ==> r == Err::<(), RegisterError>(RegisterError::I2cReadError),
    {
        let w = [reg_address];
        let res = self.i2c.write_read(self.address, &w, buf);
        proof {
            assert(w@ == seq![reg_address]);
            lemma_log_push(
                self.log@,
                BusOp::WriteRead { address: self.address, write: w@, read: buf@, ok: res is Ok },
            );
            self.log@ = self.log@.push(
                BusOp::WriteRead { address: self.address, write: w@, read: buf@, ok: res is Ok },
            );
        }
        match res {
            Ok(()) => Ok(()),
            Err(()) => Err(RegisterError::I2cReadError),
        }
    }

    /// Directly writes `data` to consecutive registers from `reg_address` on,
    /// without selecting a page. At most 128 bytes can be written at once.
    pub fn write_reg_addresses(&mut self, reg_address: u8, data: &[u8]) -> (r: Result<(), RegisterError>)
        requires
            old(self).well_formed(),
            data@.len() <= 128 ==> reg_address + data@.len() <= 256,
        ensures
            final(self).well_formed(),
            final(self).device() == old(self).device(),
            data@.len() > 128 ==> r == Err::<(), RegisterError>(RegisterError::InvalidData) && final(self).log()
                == old(self).log() && final(self).selected() == old(self).selected(),
            data@.len() <= 128 ==> {
                &&& final(self).log() == old(self).log().push(
                    BusOp::Write {
                        address: old(self).device(),
                        bytes: seq![reg_address] + data@,
                        ok: r is Ok,
                    },
                )
                &&& final(self).selected() == page_after_all(old(self).selected(), reg_address, data@)
                &&& r is Err ==> r == Err::<(), RegisterError>(RegisterError::I2cWriteError)
            },
    {
        if data.len() > 128 {
            return Err(RegisterError::InvalidData);
        }
        let ghost sel0 = self.embedded_functions_registers_selected;
        let mut update: Vec<u8> = Vec::new();
        update.push(reg_address);
        let mut i: usize = 0;
        while i < data.len()
            invariant
                0 <= i <= data@.len() <= 128,
                reg_address + data@.len() <= 256,
                update@ == seq![reg_address] + data@.take(i as int),
                self.embedded_functions_registers_selected == page_after_all(
                    sel0,
                    reg_address,
                    data@.take(i as int),
                ),
                self.log@ == old(self).log@,
                self.address == old(self).address,
            decreases data@.len() - i,
        {
            let byte = data[i];
            update.push(byte);
            let a: u8 = reg_address + i as u8;
            proof {
                assert(data@.take(i + 1).drop_last() == data@.take(i as int));
                assert(data@.take(i + 1).last() == byte);
                assert(update@ == seq![reg_address] + data@.take(i + 1));
            }
            self.check_register_page_change(a, byte);
            i = i + 1;
        }
        proof {
            assert(data@.take(data@.len() as int) == data@);
        }
        let res = self.i2c.write(self.address, update.as_slice());
        proof {
            assert(update@.skip(1) =~= data@);
            lemma_log_push(
                self.log@,
                BusOp::Write { address: self.address, bytes: update@, ok: res is Ok },
            );
            self.log@ = self.log@.push(
                BusOp::Write { address: self.address, bytes: update@, ok: res is Ok },
            );
        }
        match res {
            Ok(()) => Ok(()),
            Err(()) => Err(RegisterError::I2cWriteError),
        }
    }

    /// Directly updates the bits under `bitmask` of the register at `reg_address` with those of
    /// `data`, keeping the others, without selecting a page.
    pub fn update_reg_address(&mut self, reg_address: u8, data: u8, bitmask: u8) -> (r: Result<
        (),
        RegisterError,
    >)
        requires
            old(self).well_formed(),
        ensures
            final(self).well_formed(),
            final(self).device() == old(self).device(),
            final(self).log().len() >= old(self).log().len(),
            final(self).log().take(old(self).log().len() as int) == old(self).log(),
            ({
                let ops = final(self).log().skip(old(self).log().len() as int);
                &&& is_update(ops, old(self).device(), reg_address, data, bitmask, r is Ok)
                &&& final(self).selected() == page_after_update(
                    old(self).selected(),
                    ops,
                    reg_address,
                    data,
                    bitmask,
                )
                &&& r is Err ==> r == Err::<(), RegisterError>(failure(ops.last()))
            }),
    {
        let ghost n = self.log@.len();
        let mut buf = [0u8; 1];
        let rr = self.read_reg_addresses(reg_address, &mut buf);
        if rr.is_err() {
            proof {
                assert(self.log@.skip(n as int) == seq![self.log@.last()]);
            }
            return rr;
        }
        let val = (buf[0] & !bitmask) | (data & bitmask);
        let update = [reg_address, val];
        let ghost old_page = self.embedded_functions_registers_selected;
        self.check_register_page_change(reg_address, val);
        let res = self.i2c.write(self.address, &update);
        proof {
            assert(update@ == seq![reg_address, val]);
            assert(update@.skip(1) =~= seq![val]);
            lemma_page_after_one(old_page, reg_address, val);
            lemma_log_push(
                self.log@,
                BusOp::Write { address: self.address, bytes: update@, ok: res is Ok },
            );
            self.log@ = self.log@.push(
                BusOp::Write { address: self.address, bytes: update@, ok: res is Ok },
            );
            let ops = self.log@.skip(n as int);
            assert(ops[0] == self.log@[n as int]);
            assert(buf@ == seq![buf[0]]);
        }
        match res {
            Ok(()) => Ok(()),
            Err(()) => Err(RegisterError::I2cWriteError),
        }
    }
}

/// An update sets the bits under the mask to those of the data, and keeps
/// the others as they were read.
pub proof fn law_update_merges_bits(old: u8, data: u8, mask: u8)
    ensures
        merged(old, data, mask) & mask == data & mask,
        merged(old, data, mask) & !mask == old & !mask,
{
    assert(((old & !mask) | (data & mask)) & mask == data & mask) by (bit_vector);
    assert(((old & !mask) | (data & mask)) & !mask == old & !mask) by (bit_vector);
}

/// The register of the primary page at address `a`, read the other way
/// round from the datasheet's register map: `None` where there is none.
pub open spec fn primary_register_at(a: u8) -> Option<PrimaryRegister> {
    match a {
        0x01u8 => Some(PrimaryRegister::FUNC_CFG_ACCESS),
        0x02u8 => Some(PrimaryRegister::PIN_CTRL),
        0x04u8 => Some(PrimaryRegister::S4S_TPH_L),
        0x05u8 => Some(PrimaryRegister::S4S_TPH_H),
        0x06u8 => Some(PrimaryRegister::S4S_RR),
        0x07u8 => Some(PrimaryRegister::FIFO_CTRL1),
        0x08u8 => Some(PrimaryRegister::FIFO_CTRL2),
        0x09u8 => Some(PrimaryRegister::FIFO_CTRL3),
        0x0Au8 => Some(PrimaryRegister::FIFO_CTRL4),
        0x0Bu8 => Some(PrimaryRegister::COUNTER_BDR_REG1),
        0x0Cu8 => Some(PrimaryRegister::COUNTER_BDR_REG2),
        0x0Du8 => Some(PrimaryRegister::INT1_CTRL),
        0x0Eu8 => Some(PrimaryRegister::INT2_CTRL),
        0x0Fu8 => Some(PrimaryRegister::WHO_AM_I),
        0x10u8 => Some(PrimaryRegister::CTRL1_XL),
        0x11u8 => Some(PrimaryRegister::CTRL2_G),
        0x12u8 => Some(PrimaryRegister::CTRL3_C),
        0x13u8 => Some(PrimaryRegister::CTRL4_C),
        0x14u8 => Some(PrimaryRegister::CTRL5_C),
        0x15u8 => Some(PrimaryRegister::CTRL6_C),
        0x16u8 => Some(PrimaryRegister::CTRL7_G),
        0x17u8 => Some(PrimaryRegister::CTRL8_XL),
        0x18u8 => Some(PrimaryRegister::CTRL9_XL),
        0x19u8 => Some(PrimaryRegister::CTRL10_C),
        0x1Au8 => Some(PrimaryRegister::ALL_INT_SRC),
        0x1Bu8 => Some(PrimaryRegister::WAKE_UP_SRC),
        0x1Cu8 => Some(PrimaryRegister::TAP_SRC),
        0x1Du8 => Some(PrimaryRegister::D6D_SRC),
        0x1Eu8 => Some(PrimaryRegister::STATUS_REG),
        0x20u8 => Some(PrimaryRegister::OUT_TEMP_L),
        0x21u8 => Some(PrimaryRegister::OUT_TEMP_H),
        0x22u8 => Some(PrimaryRegister::OUTX_L_G),
        0x23u8 => Some(PrimaryRegister::OUTX_H_G),
        0x24u8 => Some(PrimaryRegister::OUTY_L_G),
        0x25u8 => Some(PrimaryRegister::OUTY_H_G),
        0x26u8 => Some(PrimaryRegister::OUTZ_L_G),
        0x27u8 => Some(PrimaryRegister::OUTZ_H_G),
        0x28u8 => Some(PrimaryRegister::OUTX_L_A),
        0x29u8 => Some(PrimaryRegister::OUTX_H_A),
        0x2Au8 => Some(PrimaryRegister::OUTY_L_A),
        0x2Bu8 => Some(PrimaryRegister::OUTY_H_A),
        0x2Cu8 => Some(PrimaryRegister::OUTZ_L_A),
        0x2Du8 => Some(PrimaryRegister::OUTZ_H_A),
        0x35u8 => Some(PrimaryRegister::EMB_FUNC_STATUS_MAINPAGE),
        0x36u8 => Some(PrimaryRegister::FSM_STATUS_A_MAINPAGE),
        0x37u8 => Some(PrimaryRegister::FSM_STATUS_B_MAINPAGE),
        0x38u8 => Some(PrimaryRegister::MLC_STATUS_MAINPAGE),
        0x39u8 => Some(PrimaryRegister::STATUS_MASTER_MAINPAGE),
        0x3Au8 => Some(PrimaryRegister::FIFO_STATUS1),
        0x3Bu8 => Some(PrimaryRegister::FIFO_STATUS2),
        0x40u8 => Some(PrimaryRegister::TIMESTAMP0),
        0x41u8 => Some(PrimaryRegister::TIMESTAMP1),
        0x42u8 => Some(PrimaryRegister::TIMESTAMP2),
        0x43u8 => Some(PrimaryRegister::TIMESTAMP3),
        0x49u8 => Some(PrimaryRegister::UI_STATUS_REG_OIS),
        0x4Au8 => Some(PrimaryRegister::UI_OUTX_L_G_OIS),
        0x4Bu8 => Some(PrimaryRegister::UI_OUTX_H_G_OIS),
        0x4Cu8 => Some(PrimaryRegister::UI_OUTY_L_G_OIS),
        0x4Du8 => Some(PrimaryRegister::UI_OUTY_H_G_OIS),
        0x4Eu8 => Some(PrimaryRegister::UI_OUTZ_L_G_OIS),
        0x4Fu8 => Some(PrimaryRegister::UI_OUTZ_H_G_OIS),
        0x50u8 => Some(PrimaryRegister::UI_OUTX_L_A_OIS),
        0x51u8 => Some(PrimaryRegister::UI_OUTX_H_A_OIS),
        0x52u8 => Some(PrimaryRegister::UI_OUTY_L_A_OIS),
        0x53u8 => Some(PrimaryRegister::UI_OUTY_H_A_OIS),
        0x54u8 => Some(PrimaryRegister::UI_OUTZ_L_A_OIS),
        0x55u8 => Some(PrimaryRegister::UI_OUTZ_H_A_OIS),
        0x56u8 => Some(PrimaryRegister::TAP_CFG0),
        0x57u8 => Some(PrimaryRegister::TAP_CFG1),
        0x58u8 => Some(PrimaryRegister::TAP_CFG2),
        0x59u8 => Some(PrimaryRegister::TAP_THS_6D),
        0x5Au8 => Some(PrimaryRegister::INT_DUR2),
        0x5Bu8 => Some(PrimaryRegister::WAKE_UP_THS),
        0x5Cu8 => Some(PrimaryRegister::WAKE_UP_DUR),
        0x5Du8 => Some(PrimaryRegister::FREE_FALL),
        0x5Eu8 => Some(PrimaryRegister::MD1_CFG),
        0x5Fu8 => Some(PrimaryRegister::MD2_CFG),
        0x60u8 => Some(PrimaryRegister::S4S_ST_CMD_CODE),
        0x61u8 => Some(PrimaryRegister::S4S_DT_REG),
        0x62u8 => Some(PrimaryRegister::I3C_BUS_AVB),
        0x63u8 => Some(PrimaryRegister::INTERNAL_FREQ_FINE),
        0x6Fu8 => Some(PrimaryRegister::UI_INT_OIS),
        0x70u8 => Some(PrimaryRegister::UI_CTRL1_OIS),
        0x71u8 => Some(PrimaryRegister::UI_CTRL2_OIS),
        0x72u8 => Some(PrimaryRegister::UI_CTRL3_OIS),
        0x73u8 => Some(PrimaryRegister::X_OFS_USR),
        0x74u8 => Some(PrimaryRegister::Y_OFS_USR),
        0x75u8 => Some(PrimaryRegister::Z_OFS_USR),
        0x78u8 => Some(PrimaryRegister::FIFO_DATA_OUT_TAG),
        0x79u8 => Some(PrimaryRegister::FIFO_DATA_OUT_X_L),
        0x7Au8 => Some(PrimaryRegister::FIFO_DATA_OUT_X_H),
        0x7Bu8 => Some(PrimaryRegister::FIFO_DATA_OUT_Y_L),
        0x7Cu8 => Some(PrimaryRegister::FIFO_DATA_OUT_Y_H),
        0x7Du8 => Some(PrimaryRegister::FIFO_DATA_OUT_Z_L),
        0x7Eu8 => Some(PrimaryRegister::FIFO_DATA_OUT_Z_H),
        _ => None,
    }
}

/// Every register of the primary page is the one found at its address.
proof fn lemma_primary_register_at(r: PrimaryRegister)
    ensures
        primary_register_at(r.spec_address()) == Some(r),
{
    match r {
        PrimaryRegister::FUNC_CFG_ACCESS => {},
        PrimaryRegister::PIN_CTRL => {},
        PrimaryRegister::S4S_TPH_L => {},
        PrimaryRegister::S4S_TPH_H => {},
        PrimaryRegister::S4S_RR => {},
        PrimaryRegister::FIFO_CTRL1 => {},
        PrimaryRegister::FIFO_CTRL2 => {},
        PrimaryRegister::FIFO_CTRL3 => {},
        PrimaryRegister::FIFO_CTRL4 => {},
        PrimaryRegister::COUNTER_BDR_REG1 => {},
        PrimaryRegister::COUNTER_BDR_REG2 => {},
        PrimaryRegister::INT1_CTRL => {},
        PrimaryRegister::INT2_CTRL => {},
        PrimaryRegister::WHO_AM_I => {},
        PrimaryRegister::CTRL1_XL => {},
        PrimaryRegister::CTRL2_G => {},
        PrimaryRegister::CTRL3_C => {},
        PrimaryRegister::CTRL4_C => {},
        PrimaryRegister::CTRL5_C => {},
        PrimaryRegister::CTRL6_C => {},
        PrimaryRegister::CTRL7_G => {},
        PrimaryRegister::CTRL8_XL => {},
        PrimaryRegister::CTRL9_XL => {},
        PrimaryRegister::CTRL10_C => {},
        PrimaryRegister::ALL_INT_SRC => {},
        PrimaryRegister::WAKE_UP_SRC => {},
        PrimaryRegister::TAP_SRC => {},
        PrimaryRegister::D6D_SRC => {},
        PrimaryRegister::STATUS_REG => {},
        PrimaryRegister::OUT_TEMP_L => {},
        PrimaryRegister::OUT_TEMP_H => {},
        PrimaryRegister::OUTX_L_G => {},
        PrimaryRegister::OUTX_H_G => {},
        PrimaryRegister::OUTY_L_G => {},
        PrimaryRegister::OUTY_H_G => {},
        PrimaryRegister::OUTZ_L_G => {},
        PrimaryRegister::OUTZ_H_G => {},
        PrimaryRegister::OUTX_L_A => {},
        PrimaryRegister::OUTX_H_A => {},
        PrimaryRegister::OUTY_L_A => {},
        PrimaryRegister::OUTY_H_A => {},
        PrimaryRegister::OUTZ_L_A => {},
        PrimaryRegister::OUTZ_H_A => {},
        PrimaryRegister::EMB_FUNC_STATUS_MAINPAGE => {},
        PrimaryRegister::FSM_STATUS_A_MAINPAGE => {},
        PrimaryRegister::FSM_STATUS_B_MAINPAGE => {},
        PrimaryRegister::MLC_STATUS_MAINPAGE => {},
        PrimaryRegister::STATUS_MASTER_MAINPAGE => {},
        PrimaryRegister::FIFO_STATUS1 => {},
        PrimaryRegister::FIFO_STATUS2 => {},
        PrimaryRegister::TIMESTAMP0 => {},
        PrimaryRegister::TIMESTAMP1 => {},
        PrimaryRegister::TIMESTAMP2 => {},
        PrimaryRegister::TIMESTAMP3 => {},
        PrimaryRegister::UI_STATUS_REG_OIS => {},
        PrimaryRegister::UI_OUTX_L_G_OIS => {},
        PrimaryRegister::UI_OUTX_H_G_OIS => {},
        PrimaryRegister::UI_OUTY_L_G_OIS => {},
        PrimaryRegister::UI_OUTY_H_G_OIS => {},
        PrimaryRegister::UI_OUTZ_L_G_OIS => {},
        PrimaryRegister::UI_OUTZ_H_G_OIS => {},
        PrimaryRegister::UI_OUTX_L_A_OIS => {},
        PrimaryRegister::UI_OUTX_H_A_OIS => {},
        PrimaryRegister::UI_OUTY_L_A_OIS => {},
        PrimaryRegister::UI_OUTY_H_A_OIS => {},
        PrimaryRegister::UI_OUTZ_L_A_OIS => {},
        PrimaryRegister::UI_OUTZ_H_A_OIS => {},
        PrimaryRegister::TAP_CFG0 => {},
        PrimaryRegister::TAP_CFG1 => {},
        PrimaryRegister::TAP_CFG2 => {},
        PrimaryRegister::TAP_THS_6D => {},
        PrimaryRegister::INT_DUR2 => {},
        PrimaryRegister::WAKE_UP_THS => {},
        PrimaryRegister::WAKE_UP_DUR => {},
        PrimaryRegister::FREE_FALL => {},
        PrimaryRegister::MD1_CFG => {},
        PrimaryRegister::MD2_CFG => {},
        PrimaryRegister::S4S_ST_CMD_CODE => {},
        PrimaryRegister::S4S_DT_REG => {},
        PrimaryRegister::I3C_BUS_AVB => {},
        PrimaryRegister::INTERNAL_FREQ_FINE => {},
        PrimaryRegister::UI_INT_OIS => {},
        PrimaryRegister::UI_CTRL1_OIS => {},
        PrimaryRegister::UI_CTRL2_OIS => {},
        PrimaryRegister::UI_CTRL3_OIS => {},
        PrimaryRegister::X_OFS_USR => {},
        PrimaryRegister::Y_OFS_USR => {},
        PrimaryRegister::Z_OFS_USR => {},
        PrimaryRegister::FIFO_DATA_OUT_TAG => {},
        PrimaryRegister::FIFO_DATA_OUT_X_L => {},
        PrimaryRegister::FIFO_DATA_OUT_X_H => {},
        PrimaryRegister::FIFO_DATA_OUT_Y_L => {},
        PrimaryRegister::FIFO_DATA_OUT_Y_H => {},
        PrimaryRegister::FIFO_DATA_OUT_Z_L => {},
        PrimaryRegister::FIFO_DATA_OUT_Z_H => {},
    }
}

/// No two registers of the primary page share an address: reading or
/// writing one register never reaches another.
pub proof fn law_primary_addresses_distinct(r1: PrimaryRegister, r2: PrimaryRegister)
    ensures
        r1.spec_address() == r2.spec_address() ==> r1 == r2,
{
    lemma_primary_register_at(r1);
    lemma_primary_register_at(r2);
}

/// The register of the embedded functions page at address `a`, read the other way
/// round from the datasheet's register map: `None` where there is none.
pub open spec fn embedded_register_at(a: u8) -> Option<EmbeddedFunctionsRegister> {
    match a {
        0x02u8 => Some(EmbeddedFunctionsRegister::PAGE_SEL),
        0x04u8 => Some(EmbeddedFunctionsRegister::EMB_FUNC_EN_A),
        0x05u8 => Some(EmbeddedFunctionsRegister::EMB_FUNC_EN_B),
        0x08u8 => Some(EmbeddedFunctionsRegister::PAGE_ADDRESS),
        0x09u8 => Some(EmbeddedFunctionsRegister::PAGE_VALUE),
        0x0Au8 => Some(EmbeddedFunctionsRegister::EMB_FUNC_INT1),
        0x0Bu8 => Some(EmbeddedFunctionsRegister::FSM_INT1_A),
        0x0Cu8 => Some(EmbeddedFunctionsRegister::FSM_INT1_B),
        0x0Du8 => Some(EmbeddedFunctionsRegister::MLC_INT1),
        0x0Eu8 => Some(EmbeddedFunctionsRegister::EMB_FUNC_INT2),
        0x0Fu8 => Some(EmbeddedFunctionsRegister::FSM_INT2_A),
        0x10u8 => Some(EmbeddedFunctionsRegister::FSM_INT2_B),
        0x11u8 => Some(EmbeddedFunctionsRegister::MLC_INT2),
        0x12u8 => Some(EmbeddedFunctionsRegister::EMB_FUNC_STATUS),
        0x13u8 => Some(EmbeddedFunctionsRegister::FSM_STATUS_A),
        0x14u8 => Some(EmbeddedFunctionsRegister::FSM_STATUS_B),
        0x15u8 => Some(EmbeddedFunctionsRegister::MLC_STATUS),
        0x17u8 => Some(EmbeddedFunctionsRegister::PAGE_RW),
        0x44u8 => Some(EmbeddedFunctionsRegister::EMB_FUNC_FIFO_CFG),
        0x46u8 => Some(EmbeddedFunctionsRegister::FSM_ENABLE_A),
        0x47u8 => Some(EmbeddedFunctionsRegister::FSM_ENABLE_B),
        0x48u8 => Some(EmbeddedFunctionsRegister::FSM_LONG_COUNTER_L),
        0x49u8 => Some(EmbeddedFunctionsRegister::FSM_LONG_COUNTER_H),
        0x4Au8 => Some(EmbeddedFunctionsRegister::FSM_LONG_COUNTER_CLEAR),
        0x4Cu8 => Some(EmbeddedFunctionsRegister::FSM_OUTS1),
        0x4Du8 => Some(EmbeddedFunctionsRegister::FSM_OUTS2),
        0x4Eu8 => Some(EmbeddedFunctionsRegister::FSM_OUTS3),
        0x4Fu8 => Some(EmbeddedFunctionsRegister::FSM_OUTS4),
        0x50u8 => Some(EmbeddedFunctionsRegister::FSM_OUTS5),
        0x51u8 => Some(EmbeddedFunctionsRegister::FSM_OUTS6),
        0x52u8 => Some(EmbeddedFunctionsRegister::FSM_OUTS7),
        0x53u8 => Some(EmbeddedFunctionsRegister::FSM_OUTS8),
        0x54u8 => Some(EmbeddedFunctionsRegister::FSM_OUTS9),
        0x55u8 => Some(EmbeddedFunctionsRegister::FSM_OUTS10),
        0x56u8 => Some(EmbeddedFunctionsRegister::FSM_OUTS11),
        0x57u8 => Some(EmbeddedFunctionsRegister::FSM_OUTS12),
        0x58u8 => Some(EmbeddedFunctionsRegister::FSM_OUTS13),
        0x59u8 => Some(EmbeddedFunctionsRegister::FSM_OUTS14),
        0x5Au8 => Some(EmbeddedFunctionsRegister::FSM_OUTS15),
        0x5Bu8 => Some(EmbeddedFunctionsRegister::FSM_OUTS16),
        0x5Fu8 => Some(EmbeddedFunctionsRegister::EMB_FUNC_ODR_CFG_B),
        0x60u8 => Some(EmbeddedFunctionsRegister::EMB_FUNC_ODR_CFG_C),
        0x62u8 => Some(EmbeddedFunctionsRegister::STEP_COUNTER_L),
        0x63u8 => Some(EmbeddedFunctionsRegister::STEP_COUNTER_H),
        0x64u8 => Some(EmbeddedFunctionsRegister::EMB_FUNC_SRC),
        0x66u8 => Some(EmbeddedFunctionsRegister::EMB_FUNC_INIT_A),
        0x67u8 => Some(EmbeddedFunctionsRegister::EMB_FUNC_INIT_B),
        0x70u8 => Some(EmbeddedFunctionsRegister::MLC0_SRC),
        0x71u8 => Some(EmbeddedFunctionsRegister::MLC1_SRC),
        0x72u8 => Some(EmbeddedFunctionsRegister::MLC2_SRC),
        0x73u8 => Some(EmbeddedFunctionsRegister::MLC3_SRC),
        0x74u8 => Some(EmbeddedFunctionsRegister::MLC4_SRC),
        0x75u8 => Some(EmbeddedFunctionsRegister::MLC5_SRC),
        0x76u8 => Some(EmbeddedFunctionsRegister::MLC6_SRC),
        0x77u8 => Some(EmbeddedFunctionsRegister::MLC7_SRC),
        _ => None,
    }
}

/// Every register of the embedded functions page is the one found at its address.
proof fn lemma_embedded_register_at(r: EmbeddedFunctionsRegister)
    ensures
        embedded_register_at(r.spec_address()) == Some(r),
{
    match r {
        EmbeddedFunctionsRegister::PAGE_SEL => {},
        EmbeddedFunctionsRegister::EMB_FUNC_EN_A => {},
        EmbeddedFunctionsRegister::EMB_FUNC_EN_B => {},
        EmbeddedFunctionsRegister::PAGE_ADDRESS => {},
        EmbeddedFunctionsRegister::PAGE_VALUE => {},
        EmbeddedFunctionsRegister::EMB_FUNC_INT1 => {},
        EmbeddedFunctionsRegister::FSM_INT1_A => {},
        EmbeddedFunctionsRegister::FSM_INT1_B => {},
        EmbeddedFunctionsRegister::MLC_INT1 => {},
        EmbeddedFunctionsRegister::EMB_FUNC_INT2 => {},
        EmbeddedFunctionsRegister::FSM_INT2_A => {},
        EmbeddedFunctionsRegister::FSM_INT2_B => {},
        EmbeddedFunctionsRegister::MLC_INT2 => {},
        EmbeddedFunctionsRegister::EMB_FUNC_STATUS => {},
        EmbeddedFunctionsRegister::FSM_STATUS_A => {},
        EmbeddedFunctionsRegister::FSM_STATUS_B => {},
        EmbeddedFunctionsRegister::MLC_STATUS => {},
        EmbeddedFunctionsRegister::PAGE_RW => {},
        EmbeddedFunctionsRegister::EMB_FUNC_FIFO_CFG => {},
        EmbeddedFunctionsRegister::FSM_ENABLE_A => {},
        EmbeddedFunctionsRegister::FSM_ENABLE_B => {},
        EmbeddedFunctionsRegister::FSM_LONG_COUNTER_L => {},
        EmbeddedFunctionsRegister::FSM_LONG_COUNTER_H => {},
        EmbeddedFunctionsRegister::FSM_LONG_COUNTER_CLEAR => {},
        EmbeddedFunctionsRegister::FSM_OUTS1 => {},
        EmbeddedFunctionsRegister::FSM_OUTS2 => {},
        EmbeddedFunctionsRegister::FSM_OUTS3 => {},
        EmbeddedFunctionsRegister::FSM_OUTS4 => {},
        EmbeddedFunctionsRegister::FSM_OUTS5 => {},
        EmbeddedFunctionsRegister::FSM_OUTS6 => {},
        EmbeddedFunctionsRegister::FSM_OUTS7 => {},
        EmbeddedFunctionsRegister::FSM_OUTS8 => {},
        EmbeddedFunctionsRegister::FSM_OUTS9 => {},
        EmbeddedFunctionsRegister::FSM_OUTS10 => {},
        EmbeddedFunctionsRegister::FSM_OUTS11 => {},
        EmbeddedFunctionsRegister::FSM_OUTS12 => {},
        EmbeddedFunctionsRegister::FSM_OUTS13 => {},
        EmbeddedFunctionsRegister::FSM_OUTS14 => {},
        EmbeddedFunctionsRegister::FSM_OUTS15 => {},
        EmbeddedFunctionsRegister::FSM_OUTS16 => {},
        EmbeddedFunctionsRegister::EMB_FUNC_ODR_CFG_B => {},
        EmbeddedFunctionsRegister::EMB_FUNC_ODR_CFG_C => {},
        EmbeddedFunctionsRegister::STEP_COUNTER_L => {},
        EmbeddedFunctionsRegister::STEP_COUNTER_H => {},
        EmbeddedFunctionsRegister::EMB_FUNC_SRC => {},
        EmbeddedFunctionsRegister::EMB_FUNC_INIT_A => {},
        EmbeddedFunctionsRegister::EMB_FUNC_INIT_B => {},
        EmbeddedFunctionsRegister::MLC0_SRC => {},
        EmbeddedFunctionsRegister::MLC1_SRC => {},
        EmbeddedFunctionsRegister::MLC2_SRC => {},
        EmbeddedFunctionsRegister::MLC3_SRC => {},
        EmbeddedFunctionsRegister::MLC4_SRC => {},
        EmbeddedFunctionsRegister::MLC5_SRC => {},
        EmbeddedFunctionsRegister::MLC6_SRC => {},
        EmbeddedFunctionsRegister::MLC7_SRC => {},
    }
}

/// No two registers of the embedded functions page share an address: reading or
/// writing one register never reaches another.
pub proof fn law_embedded_addresses_distinct(r1: EmbeddedFunctionsRegister, r2: EmbeddedFunctionsRegister)
    ensures
        r1.spec_address() == r2.spec_address() ==> r1 == r2,
{
    lemma_embedded_register_at(r1);
    lemma_embedded_register_at(r2);
}

/// The sensors' outputs lie as the datasheet lays them out: the
/// temperature at `0x20` and `0x21`, then the gyroscope's X, Y and Z, then
/// the accelerometer's, each axis a low byte followed by its high byte, so
/// that a burst read of six bytes from `OUTX_L_G` or `OUTX_L_A` gives one
/// sensor's three axes in order.
pub proof fn law_output_registers_in_datasheet_order()
    ensures
        PrimaryRegister::OUT_TEMP_L.spec_address() == 0x20,
        PrimaryRegister::OUT_TEMP_H.spec_address() == 0x21,
        PrimaryRegister::OUTX_L_G.spec_address() == 0x22,
        PrimaryRegister::OUTX_H_G.spec_address() == 0x23,
        PrimaryRegister::OUTY_L_G.spec_address() == 0x24,
        PrimaryRegister::OUTY_H_G.spec_address() == 0x25,
        PrimaryRegister::OUTZ_L_G.spec_address() == 0x26,
        PrimaryRegister::OUTZ_H_G.spec_address() == 0x27,
        PrimaryRegister::OUTX_L_A.spec_address() == 0x28,
        PrimaryRegister::OUTX_H_A.spec_address() == 0x29,
        PrimaryRegister::OUTY_L_A.spec_address() == 0x2A,
        PrimaryRegister::OUTY_H_A.spec_address() == 0x2B,
        PrimaryRegister::OUTZ_L_A.spec_address() == 0x2C,
        PrimaryRegister::OUTZ_H_A.spec_address() == 0x2D,
        PrimaryRegister::WHO_AM_I.spec_address() == 0x0F,
        PrimaryRegister::FUNC_CFG_ACCESS.spec_address() == 0x01,
{
}

} // verus!
