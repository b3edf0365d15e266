//! The settings the sensor driver writes, each as a register, a mask of the
//! bits it owns there, and the bits to write under that mask.

use vstd::prelude::*;

use crate::register::PrimaryRegister;

verus! {

/// An output data rate, by the code the sensor takes for it in the upper four
/// bits of its control register.
#[derive(Clone, Copy, Debug, PartialEq, Eq, Structural)]
pub struct DataRate(pub u8);

/// An accelerometer full scale, by its code in bits 2 and 3 of `CTRL1_XL`.
#[derive(Clone, Copy, Debug, PartialEq, Eq, Structural)]
pub struct AccelerometerScale(pub u8);

/// A gyroscope full scale, by its code in bits 1 to 3 of `CTRL2_G`.
#[derive(Clone, Copy, Debug, PartialEq, Eq, Structural)]
pub struct GyroscopeScale(pub u8);

/// Which taps are recognized, and whether tap interrupts are latched.
#[derive(Clone, Copy, Debug, PartialEq, Eq)]
pub struct TapCfg {
    /// Tap recognition on the X, Y and Z axes.
    pub en_x_y_z: (bool, bool, bool),
    /// Latched interrupts.
    pub lir: bool,
}

#[derive(Clone, Copy, Debug, PartialEq, Eq, Structural)]
pub enum Axis {
    X,
    Y,
    Z,
}

#[derive(Clone, Copy, Debug, PartialEq, Eq, Structural)]
pub enum TapMode {
    Single,
    SingleAndDouble,
}

#[derive(Clone, Copy, Debug, PartialEq, Eq, Structural)]
pub enum InterruptLine {
    INT1,
    INT2,
}

#[derive(Clone, Copy, Debug, PartialEq, Eq, Structural)]
pub enum InterruptSource {
    SleepChange,
    SingleTap,
    WakeUp,
    FreeFall,
    DoubleTap,
    D6d,
    EmbeddedFunctions,
    SHUB,
    Timestamp,
}

/// A setting to write: one register, the bits it owns there, and their value.
#[derive(Clone, Copy, Debug, PartialEq, Eq)]
pub enum Command {
    SwReset,
    SetDataRateXl(DataRate),
    SetAccelScale(AccelerometerScale),
    SetDataRateG(DataRate),
    SetGyroScale(GyroscopeScale),
    TapEnable(TapCfg),
    TapThreshold(Axis, u8),
    TapDuration(u8),
    TapQuiet(u8),
    TapShock(u8),
    TapMode(TapMode),
    InterruptEnable(bool),
    MapInterrupt(InterruptLine, InterruptSource, bool),
}

/// `1` shifted left by `n` where `b` holds, otherwise `0`.
pub open spec fn flag(b: bool, n: u8) -> u8 {
    if b {
        (1u8 << n) as u8
    } else {
        0u8
    }
}

/// The register a command writes.
pub open spec fn command_register(c: Command) -> PrimaryRegister {
    match c {
        Command::SwReset => PrimaryRegister::CTRL3_C,
        Command::SetDataRateXl(_) => PrimaryRegister::CTRL1_XL,
        Command::SetAccelScale(_) => PrimaryRegister::CTRL1_XL,
        Command::TapEnable(_) => PrimaryRegister::TAP_CFG0,
        Command::TapThreshold(Axis::X, _) => PrimaryRegister::TAP_CFG1,
        Command::TapThreshold(Axis::Y, _) => PrimaryRegister::TAP_CFG2,
        Command::TapThreshold(Axis::Z, _) => PrimaryRegister::TAP_THS_6D,
        Command::TapDuration(_) => PrimaryRegister::INT_DUR2,
        Command::TapQuiet(_) => PrimaryRegister::INT_DUR2,
        Command::TapShock(_) => PrimaryRegister::INT_DUR2,
        Command::TapMode(_) => PrimaryRegister::WAKE_UP_THS,
        Command::InterruptEnable(_) => PrimaryRegister::TAP_CFG2,
        Command::MapInterrupt(InterruptLine::INT1, _, _) => PrimaryRegister::MD1_CFG,
        Command::MapInterrupt(InterruptLine::INT2, _, _) => PrimaryRegister::MD2_CFG,
        Command::SetDataRateG(_) => PrimaryRegister::CTRL2_G,
        Command::SetGyroScale(_) => PrimaryRegister::CTRL2_G,
    }
}

/// The bit an interrupt source is routed with in an `MDx_CFG` register:
/// `None` for a source that the line does not offer.
pub open spec fn route_bit(line: InterruptLine, source: InterruptSource) -> Option<u8> {
    match source {
        InterruptSource::SleepChange => Some(7),
        InterruptSource::SingleTap => Some(6),
        InterruptSource::WakeUp => Some(5),
        InterruptSource::FreeFall => Some(4),
        InterruptSource::DoubleTap => Some(3),
        InterruptSource::D6d => Some(2),
        InterruptSource::EmbeddedFunctions => Some(1),
        InterruptSource::SHUB => if line is INT1 {
            Some(0)
        } else {
            None
        },
        InterruptSource::Timestamp => if line is INT2 {
            Some(0)
        } else {
            None
        },
    }
}

/// The bits a command writes under its mask.
pub open spec fn command_bits(c: Command) -> u8 {
    match c {
        Command::SwReset => 0x01,
        Command::SetDataRateXl(dr) => dr.0,
        Command::SetAccelScale(fs) => fs.0,
        Command::TapEnable(cfg) => flag(cfg.en_x_y_z.0, 3) | flag(cfg.en_x_y_z.1, 2) | flag(
            cfg.en_x_y_z.2,
            1,
        ) | flag(cfg.lir, 0),
        Command::TapThreshold(_, value) => value,
        Command::TapDuration(value) => (value << 4u8) as u8,
        Command::TapQuiet(value) => (value << 2u8) as u8,
        Command::TapShock(value) => value,
        Command::TapMode(mode) => flag(mode is SingleAndDouble, 7),
        Command::InterruptEnable(en) => flag(en, 7),
        Command::MapInterrupt(line, source, en) => match route_bit(line, source) {
            Some(n) => flag(en, n),
            None => 0,
        },
        Command::SetDataRateG(dr) => dr.0,
        Command::SetGyroScale(fs) => fs.0,
    }
}

/// The bits of its register that a command owns.
pub open spec fn command_mask(c: Command) -> u8 {
    match c {
        Command::SwReset => 0x01,
        Command::SetDataRateXl(_) => 0xF0,
        Command::SetAccelScale(_) => 0b0000_1100,
        Command::TapEnable(_) => 0b0000_1111,
        Command::TapThreshold(_, _) => 0b0001_1111,
        Command::TapDuration(_) => 0xF0,
        Command::TapQuiet(_) => 0x0C,
        Command::TapShock(_) => 0x03,
        Command::TapMode(_) => 0x80,
        Command::InterruptEnable(_) => 0x80,
        Command::MapInterrupt(line, source, _) => match route_bit(line, source) {
            Some(n) => flag(true, n),
            None => 0,
        },
        Command::SetDataRateG(_) => 0xF0,
        Command::SetGyroScale(_) => 0b0000_1110,
    }
}

/// `1` shifted left by `n` where `b` holds, otherwise `0`.
fn flag_bit(b: bool, n: u8) -> (r: u8)
    requires
        n < 8,
    ensures
        r == flag(b, n),
{
    if b {
        1u8 << n
    } else {
        0
    }
}

/// The bit an interrupt source is routed with on a line; see [`route_bit`].
fn route_bit_of(line: InterruptLine, source: InterruptSource) -> (r: Option<u8>)
    ensures
        r == route_bit(line, source),
        r matches Some(n) ==> n < 8,
{
    match source {
        InterruptSource::SleepChange => Some(7),
        InterruptSource::SingleTap => Some(6),
        InterruptSource::WakeUp => Some(5),
        InterruptSource::FreeFall => Some(4),
        InterruptSource::DoubleTap => Some(3),
        InterruptSource::D6d => Some(2),
        InterruptSource::EmbeddedFunctions => Some(1),
        InterruptSource::SHUB => match line {
            InterruptLine::INT1 => Some(0),
            InterruptLine::INT2 => None,
        },
        InterruptSource::Timestamp => match line {
            InterruptLine::INT1 => None,
            InterruptLine::INT2 => Some(0),
        },
    }
}

impl Command {
    /// The register the command writes.
    pub fn register(&self) -> (r: PrimaryRegister)
        ensures
            r == command_register(*self),
    {
        match *self {
            Command::SwReset => PrimaryRegister::CTRL3_C,
            Command::SetDataRateXl(_) => PrimaryRegister::CTRL1_XL,
            Command::SetAccelScale(_) => PrimaryRegister::CTRL1_XL,
            Command::TapEnable(_) => PrimaryRegister::TAP_CFG0,
            Command::TapThreshold(Axis::X, _) => PrimaryRegister::TAP_CFG1,
            Command::TapThreshold(Axis::Y, _) => PrimaryRegister::TAP_CFG2,
            Command::TapThreshold(Axis::Z, _) => PrimaryRegister::TAP_THS_6D,
            Command::TapDuration(_) => PrimaryRegister::INT_DUR2,
            Command::TapQuiet(_) => PrimaryRegister::INT_DUR2,
            Command::TapShock(_) => PrimaryRegister::INT_DUR2,
            Command::TapMode(_) => PrimaryRegister::WAKE_UP_THS,
            Command::InterruptEnable(_) => PrimaryRegister::TAP_CFG2,
            Command::MapInterrupt(InterruptLine::INT1, _, _) => PrimaryRegister::MD1_CFG,
            Command::MapInterrupt(InterruptLine::INT2, _, _) => PrimaryRegister::MD2_CFG,
            Command::SetDataRateG(_) => PrimaryRegister::CTRL2_G,
            Command::SetGyroScale(_) => PrimaryRegister::CTRL2_G,
        }
    }

    /// The bits the command writes under its mask: booleans shifted to their
    /// place, numbers shifted to their field.
    pub fn bits(&self) -> (r: u8)
        ensures
            r == command_bits(*self),
    {
        match *self {
            Command::SwReset => 0x01,
            Command::SetDataRateXl(dr) => dr.0,
            Command::SetAccelScale(fs) => fs.0,
            Command::TapEnable(cfg) => flag_bit(cfg.en_x_y_z.0, 3) | flag_bit(cfg.en_x_y_z.1, 2)
                | flag_bit(cfg.en_x_y_z.2, 1) | flag_bit(cfg.lir, 0),
            Command::TapThreshold(_, value) => value,
            Command::TapDuration(value) => value << 4u8,
            Command::TapQuiet(value) => value << 2u8,
            Command::TapShock(value) => value,
            Command::TapMode(mode) => flag_bit(
                match mode {
                    TapMode::Single => false,
                    TapMode::SingleAndDouble => true,
                },
                7,
            ),
            Command::InterruptEnable(en) => flag_bit(en, 7),
            Command::MapInterrupt(line, source, en) => match route_bit_of(line, source) {
                Some(n) => flag_bit(en, n),
                None => 0,
            },
            Command::SetDataRateG(dr) => dr.0,
            Command::SetGyroScale(fs) => fs.0,
        }
    }

    /// The bits of its register that the command owns.
    pub fn mask(&self) -> (r: u8)
        ensures
            r == command_mask(*self),
    {
        match *self {
            Command::SwReset => 0x01,
            Command::SetDataRateXl(_) => 0xF0,
            Command::SetAccelScale(_) => 0b0000_1100,
            Command::TapEnable(_) => 0b0000_1111,
            Command::TapThreshold(_, _) => 0b0001_1111,
            Command::TapDuration(_) => 0xF0,
            Command::TapQuiet(_) => 0x0C,
            Command::TapShock(_) => 0x03,
            Command::TapMode(_) => 0x80,
            Command::InterruptEnable(_) => 0x80,
            Command::MapInterrupt(line, source, _) => match route_bit_of(line, source) {
                Some(n) => flag_bit(true, n),
                None => 0,
            },
            Command::SetDataRateG(_) => 0xF0,
            Command::SetGyroScale(_) => 0b0000_1110,
        }
    }
}

/// A command that enables, routes or selects something owns exactly the bit
/// it sets: its bits lie within its mask.
pub proof fn law_flag_commands_stay_in_mask(c: Command)
    requires
        c is TapEnable || c is TapMode || c is InterruptEnable || c is MapInterrupt,
    ensures
        command_bits(c) & !command_mask(c) == 0,
{
    match c {
        Command::TapEnable(cfg) => {
            let (x, y, z) = cfg.en_x_y_z;
            let l = cfg.lir;
            assert(flag(x, 3) | flag(y, 2) | flag(z, 1) | flag(l, 0) <= 15) by {
                assert((1u8 << 3u8) == 8u8 && (1u8 << 2u8) == 4u8 && (1u8 << 1u8) == 2u8 && (1u8
                    << 0u8) == 1u8) by (bit_vector);
                let (a, b, d, e) = (flag(x, 3), flag(y, 2), flag(z, 1), flag(l, 0));
                assert(a <= 8 && b <= 4 && d <= 2 && e <= 1);
                assert((a == 0 || a == 8) && (b == 0 || b == 4) && (d == 0 || d == 2) && (e == 0
                    || e == 1));
                assert((a == 0u8 || a == 8u8) && (b == 0u8 || b == 4u8) && (d == 0u8 || d == 2u8)
                    && (e == 0u8 || e == 1u8) ==> a | b | d | e <= 15u8) by (bit_vector);
            }
            let v = command_bits(c);
            assert(v <= 15u8 ==> v & !15u8 == 0u8) by (bit_vector);
        },
        Command::TapMode(mode) => {
            let v = command_bits(c);
            assert((1u8 << 7u8) == 128u8) by (bit_vector);
            assert(v == 0u8 || v == 128u8);
            assert((v == 0u8 || v == 128u8) ==> v & !128u8 == 0u8) by (bit_vector);
        },
        Command::InterruptEnable(en) => {
            let v = command_bits(c);
            assert((1u8 << 7u8) == 128u8) by (bit_vector);
            assert(v == 0u8 || v == 128u8);
            assert((v == 0u8 || v == 128u8) ==> v & !128u8 == 0u8) by (bit_vector);
        },
        Command::MapInterrupt(line, source, en) => {
            let v = command_bits(c);
            let m = command_mask(c);
            match route_bit(line, source) {
                Some(n) => {
                    assert(n < 8);
                    let one = (1u8 << n) as u8;
                    assert(v == 0u8 || v == one);
                    assert(m == one);
                    assert((v == 0u8 || v == one) ==> v & !one == 0u8) by (bit_vector);
                },
                None => {
                    assert(v == 0u8 && m == 0u8);
                    assert(0u8 & !0u8 == 0u8) by (bit_vector);
                },
            }
        },
        _ => {},
    }
}

/// Whether two commands change the same setting of the device (with
/// possibly different values): the same command, on the same axis or for
/// the same line and source where it names one.
pub open spec fn same_setting(c1: Command, c2: Command) -> bool {
    match (c1, c2) {
        (Command::SwReset, Command::SwReset) => true,
        (Command::SetDataRateXl(_), Command::SetDataRateXl(_)) => true,
        (Command::SetAccelScale(_), Command::SetAccelScale(_)) => true,
        (Command::SetDataRateG(_), Command::SetDataRateG(_)) => true,
        (Command::SetGyroScale(_), Command::SetGyroScale(_)) => true,
        (Command::TapEnable(_), Command::TapEnable(_)) => true,
        (Command::TapThreshold(a1, _), Command::TapThreshold(a2, _)) => a1 == a2,
        (Command::TapDuration(_), Command::TapDuration(_)) => true,
        (Command::TapQuiet(_), Command::TapQuiet(_)) => true,
        (Command::TapShock(_), Command::TapShock(_)) => true,
        (Command::TapMode(_), Command::TapMode(_)) => true,
        (Command::InterruptEnable(_), Command::InterruptEnable(_)) => true,
        (Command::MapInterrupt(l1, s1, _), Command::MapInterrupt(l2, s2, _)) => l1 == l2 && s1
            == s2,
        _ => false,
    }
}

/// Two commands that change different settings never touch the same bit:
/// where they write the same register, their masks are disjoint, so the
/// one cannot undo what the other set.
pub proof fn law_settings_own_disjoint_bits(c1: Command, c2: Command)
    requires
        command_register(c1) == command_register(c2),
        !same_setting(c1, c2),
    ensures
        command_mask(c1) & command_mask(c2) == 0,
{
    assert(forall|a: u8, b: u8| #[trigger] (a & b) == b & a) by (bit_vector);
    assert(0xF0u8 & 0x0Cu8 == 0u8 && 0xF0u8 & 0x0Eu8 == 0u8 && 0xF0u8 & 0x03u8 == 0u8 && 0x0Cu8
        & 0x03u8 == 0u8 && 0x1Fu8 & 0x80u8 == 0u8) by (bit_vector);
    assert(forall|n1: u8, n2: u8|
        n1 < 8 && n2 < 8 && n1 != n2 ==> #[trigger] ((1u8 << n1) & (1u8 << n2)) == 0u8)
        by (bit_vector);
    assert(forall|m: u8| #[trigger] (m & 0u8) == 0u8) by (bit_vector);
    match c1 {
        Command::MapInterrupt(l1, s1, _) => {
            assert(c2 is MapInterrupt);
            let (l2, s2) = (c2->MapInterrupt_0, c2->MapInterrupt_1);
            assert(l1 == l2);
            assert(s1 != s2);
            match (route_bit(l1, s1), route_bit(l2, s2)) {
                (Some(n1), Some(n2)) => {
                    assert(n1 != n2 && n1 < 8 && n2 < 8);
                    assert(command_mask(c1) == (1u8 << n1));
                    assert(command_mask(c2) == (1u8 << n2));
                    assert(((1u8 << n1) & (1u8 << n2)) == 0u8);
                },
                (None, _) => {
                    assert(command_mask(c1) == 0u8);
                    assert(command_mask(c2) & 0u8 == 0u8);
                },
                (_, None) => {
                    assert(command_mask(c2) == 0u8);
                    assert(command_mask(c1) & 0u8 == 0u8);
                },
            }
        },
        Command::SwReset => {
            assert(false);
        },
        Command::SetDataRateXl(_) => {
            assert(c2 is SetAccelScale);
        },
        Command::SetAccelScale(_) => {
            assert(c2 is SetDataRateXl);
        },
        Command::SetDataRateG(_) => {
            assert(c2 is SetGyroScale);
        },
        Command::SetGyroScale(_) => {
            assert(c2 is SetDataRateG);
        },
        Command::TapEnable(_) => {
            assert(false);
        },
        Command::TapThreshold(a1, _) => {
            assert(a1 is Y && c2 is InterruptEnable);
        },
        Command::InterruptEnable(_) => {
            assert(c2 is TapThreshold && c2->TapThreshold_0 is Y);
        },
        Command::TapDuration(_) => {
            assert(c2 is TapQuiet || c2 is TapShock);
        },
        Command::TapQuiet(_) => {
            assert(c2 is TapDuration || c2 is TapShock);
        },
        Command::TapShock(_) => {
            assert(c2 is TapDuration || c2 is TapQuiet);
        },
        Command::TapMode(_) => {
            assert(false);
        },
    }
}

/// The accelerometer's settings (data rate and full scale) are written to
/// its control register `CTRL1_XL` (address `0x10`), the gyroscope's to its
/// own, `CTRL2_G` (address `0x11`), whatever the values.
pub proof fn law_sensor_settings_go_to_their_sensor(
    rate: DataRate,
    accel: AccelerometerScale,
    gyro: GyroscopeScale,
)
    ensures
        command_register(Command::SetDataRateXl(rate)) == PrimaryRegister::CTRL1_XL,
        command_register(Command::SetAccelScale(accel)) == PrimaryRegister::CTRL1_XL,
        command_register(Command::SetDataRateG(rate)) == PrimaryRegister::CTRL2_G,
        command_register(Command::SetGyroScale(gyro)) == PrimaryRegister::CTRL2_G,
        PrimaryRegister::CTRL1_XL.spec_address() == 0x10,
        PrimaryRegister::CTRL2_G.spec_address() == 0x11,
{
}

} // verus!
