use lunamisc::sequenced::{default_window_size, Sequenced, SequencedRecvError};
use lunamisc::uint::UInt;

#[test]
fn default_window_is_two_bytes_of_128() {
    assert_eq!(default_window_size(), UInt::U16(128));
}

#[test]
fn outgoing_packets_carry_the_counter() {
    let layer = Sequenced::new(UInt::U16(128), ());
    let mut data = bytes::BytesMut::from(&[7u8, 8][..]);
    layer.stamp_outgoing(&mut data);
    assert_eq!(&data[..], &[7, 8, 0, 0]);
}

#[test]
fn stale_packets_are_dropped() {
    let mut layer = Sequenced::new(UInt::U16(128), ());
    assert_eq!(layer.check_incoming::<()>(&[9, 0, 0]).unwrap(), Some(1));
    assert_eq!(layer.check_incoming::<()>(&[9, 0, 0]).unwrap(), None);
    assert_eq!(layer.check_incoming::<()>(&[1, 2, 0, 5]).unwrap(), Some(2));
    assert_eq!(layer.check_incoming::<()>(&[3, 0, 4]).unwrap(), None);
    let mut data = bytes::BytesMut::new();
    layer.stamp_outgoing(&mut data);
    assert_eq!(&data[..], &[0, 6]);
}

#[test]
fn wrapped_numbers_are_stale_at_the_start() {
    let mut layer = Sequenced::new(UInt::U8(16), ());
    assert_eq!(layer.check_incoming::<()>(&[1, 250]).unwrap(), None);
    assert_eq!(layer.check_incoming::<()>(&[1, 3]).unwrap(), Some(1));
}

#[test]
fn short_packet_is_refused() {
    let mut layer = Sequenced::new(UInt::U32(128), ());
    assert!(matches!(
        layer.check_incoming::<()>(&[1, 2, 3]),
        Err(SequencedRecvError::PacketTooSmall)
    ));
}
