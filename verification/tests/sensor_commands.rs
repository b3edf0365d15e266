use lunamisc::command::{
    Axis, Command, DataRate, InterruptLine, InterruptSource, TapCfg, TapMode,
};
use lunamisc::register::PrimaryRegister;

#[test]
fn tap_enable_packs_its_flags() {
    let c = Command::TapEnable(TapCfg { en_x_y_z: (true, false, true), lir: true });
    assert_eq!(c.register(), PrimaryRegister::TAP_CFG0);
    assert_eq!(c.bits(), 0b1011);
    assert_eq!(c.mask(), 0b1111);
}

#[test]
fn thresholds_go_to_their_axis_register() {
    assert_eq!(Command::TapThreshold(Axis::X, 9).register(), PrimaryRegister::TAP_CFG1);
    assert_eq!(Command::TapThreshold(Axis::Y, 9).register(), PrimaryRegister::TAP_CFG2);
    assert_eq!(Command::TapThreshold(Axis::Z, 9).register(), PrimaryRegister::TAP_THS_6D);
    assert_eq!(Command::TapThreshold(Axis::Z, 9).bits(), 9);
    assert_eq!(Command::TapThreshold(Axis::Z, 9).mask(), 0x1F);
}

#[test]
fn durations_are_shifted_into_their_field() {
    assert_eq!(Command::TapDuration(0x5).bits(), 0x50);
    assert_eq!(Command::TapQuiet(0x3).bits(), 0x0C);
    assert_eq!(Command::TapShock(0x2).bits(), 0x02);
    assert_eq!(Command::TapDuration(0x5).register(), PrimaryRegister::INT_DUR2);
}

#[test]
fn interrupts_are_routed_by_line() {
    let c = Command::MapInterrupt(InterruptLine::INT1, InterruptSource::SingleTap, true);
    assert_eq!(c.register(), PrimaryRegister::MD1_CFG);
    assert_eq!((c.bits(), c.mask()), (0b0100_0000, 0b0100_0000));
    let c = Command::MapInterrupt(InterruptLine::INT2, InterruptSource::Timestamp, true);
    assert_eq!(c.register(), PrimaryRegister::MD2_CFG);
    assert_eq!((c.bits(), c.mask()), (1, 1));
    let c = Command::MapInterrupt(InterruptLine::INT2, InterruptSource::SHUB, true);
    assert_eq!((c.bits(), c.mask()), (0, 0));
}

#[test]
fn modes_and_rates() {
    assert_eq!(Command::TapMode(TapMode::SingleAndDouble).bits(), 0x80);
    assert_eq!(Command::TapMode(TapMode::Single).bits(), 0);
    assert_eq!(Command::InterruptEnable(true).register(), PrimaryRegister::TAP_CFG2);
    assert_eq!(Command::SetDataRateXl(DataRate(0x40)).bits(), 0x40);
    assert_eq!(Command::SetDataRateG(DataRate(0x40)).register(), PrimaryRegister::CTRL2_G);
    assert_eq!(Command::SwReset.register(), PrimaryRegister::CTRL3_C);
}
