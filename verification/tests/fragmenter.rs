use lunamisc::fragment::{
    encode_fragment, parse_fragment, FragmentRecvError, FragmentSendError, FragmentTrailer,
    FixedParity, FragmenterBuilder, Redundancy, SetInfo, TrailerWidths,
};
use lunamisc::uint::{UInt, UIntVariant};

/// Half as many parity fragments as data fragments, rounded as `f32` does.
struct Half;

impl Redundancy for Half {
    fn parity_for(&self, data_fragments: u64) -> u64 {
        self.redundant_fragments(data_fragments)
    }

    fn data_for(&self, fragments: u64) -> u64 {
        self.data_fragments(fragments)
    }

    fn redundant_fragments(&self, data_fragments: u64) -> u64 {
        (data_fragments as f32 * 0.5).round() as u64
    }

    fn data_fragments(&self, fragments: u64) -> u64 {
        (fragments as f32 / 1.5).round() as u64
    }
}

fn big_data(len: usize) -> Vec<u8> {
    (0..len).map(|i| (i * 31 % 251) as u8).collect()
}

#[test]
fn encodes_trailer_big_endian() {
    let widths = TrailerWidths {
        padding: UIntVariant::U16,
        count: UIntVariant::U8,
        id: UIntVariant::U32,
    };
    let trailer = FragmentTrailer {
        index: 2,
        id: 7,
        complete: Some(SetInfo { padding: 1, count: 5 }),
    };
    let packet = encode_fragment(&[1, 2, 3], trailer, widths);
    assert_eq!(packet, vec![1, 2, 3, 0, 1, 5, 2, 0, 0, 0, 7, 255]);
    let partial = FragmentTrailer { index: 4, id: 7, complete: None };
    assert_eq!(encode_fragment(&[9], partial, widths), vec![9, 4, 0, 0, 0, 7, 0]);
}

#[test]
fn parses_what_was_encoded() {
    let widths = TrailerWidths {
        padding: UIntVariant::U16,
        count: UIntVariant::U16,
        id: UIntVariant::U32,
    };
    let trailer = FragmentTrailer {
        index: 300,
        id: 0xdead_beef,
        complete: Some(SetInfo { padding: 17, count: 301 }),
    };
    let packet = encode_fragment(&[5, 6, 7, 8], trailer, widths);
    let (payload, parsed) = parse_fragment::<()>(&packet, widths).unwrap();
    assert_eq!(payload, vec![5, 6, 7, 8]);
    assert_eq!(parsed, trailer);
}

#[test]
fn short_fragment_is_too_small() {
    let widths = TrailerWidths {
        padding: UIntVariant::U16,
        count: UIntVariant::U16,
        id: UIntVariant::U32,
    };
    assert!(matches!(
        parse_fragment::<()>(&[1, 2, 3, 0], widths),
        Err(FragmentRecvError::PacketTooSmall)
    ));
}

#[test]
fn default_builder_settings() {
    let b = FragmenterBuilder::default();
    assert_eq!(b.max_fragment_size, 1450);
    assert_eq!(b.max_fragment_count, UInt::U16(u16::MAX));
    assert_eq!(b.max_active_fragment_sets, UInt::U16(256));
    assert_eq!(b.fragment_id_type, UIntVariant::U32);
}

#[test]
fn send_then_receive_gives_the_packet_back() {
    let mut a = FragmenterBuilder::default().build((), Half);
    let mut b = FragmenterBuilder::default().build((), Half);
    let data = big_data(5000);
    let fragments = a.send::<()>(data.clone()).unwrap();
    for f in &fragments {
        assert!(f.len() <= 1450);
    }
    let mut got = None;
    for f in fragments {
        if let Some(d) = b.receive::<()>(f).unwrap() {
            got = Some(d);
            break;
        }
    }
    assert_eq!(got, Some(data));
}

#[test]
fn lost_fragments_are_recovered() {
    let mut a = FragmenterBuilder::default().build((), Half);
    let mut b = FragmenterBuilder::default().build((), Half);
    let data = big_data(4557);
    let fragments = a.send::<()>(data.clone()).unwrap();
    assert!(fragments.len() >= 5);
    let mut got = None;
    for (i, f) in fragments.into_iter().enumerate() {
        if i == 0 || i == 2 {
            continue;
        }
        if let Some(d) = b.receive::<()>(f).unwrap() {
            got = Some(d);
            break;
        }
    }
    assert_eq!(got, Some(data));
}

#[test]
fn empty_packet_passes_through() {
    let mut a = FragmenterBuilder::default().build((), Half);
    let mut b = FragmenterBuilder::default().build((), Half);
    let fragments = a.send::<()>(Vec::new()).unwrap();
    assert_eq!(fragments, vec![Vec::<u8>::new()]);
    assert_eq!(b.receive::<()>(Vec::new()).unwrap(), Some(Vec::new()));
}

#[test]
fn duplicate_fragment_is_refused() {
    let mut a = FragmenterBuilder::default().build((), Half);
    let mut b = FragmenterBuilder::default().build((), Half);
    let fragments = a.send::<()>(big_data(3000)).unwrap();
    assert_eq!(b.receive::<()>(fragments[0].clone()).unwrap(), None);
    assert!(matches!(
        b.receive::<()>(fragments[0].clone()),
        Err(FragmentRecvError::DuplicateFragment)
    ));
}

#[test]
fn too_small_packet_is_refused() {
    let mut b = FragmenterBuilder::default().build((), Half);
    assert!(matches!(b.receive::<()>(vec![1, 2, 0]), Err(FragmentRecvError::PacketTooSmall)));
}

#[test]
fn packet_with_too_many_fragments_is_refused() {
    let builder = FragmenterBuilder {
        max_fragment_size: 40,
        max_fragment_count: UInt::U8(4),
        max_active_fragment_sets: UInt::U8(4),
        fragment_id_type: UIntVariant::U8,
    };
    let mut a = builder.build((), Half);
    assert!(matches!(a.send::<()>(big_data(1000)), Err(FragmentSendError::PacketTooBig)));
}

#[test]
fn fragment_of_unknown_index_is_refused() {
    let widths = TrailerWidths {
        padding: UIntVariant::U16,
        count: UIntVariant::U16,
        id: UIntVariant::U32,
    };
    let mut b = FragmenterBuilder::default().build((), Half);
    let first = FragmentTrailer { index: 0, id: 9, complete: Some(SetInfo { padding: 0, count: 4 }) };
    assert_eq!(b.receive::<()>(encode_fragment(&[1, 2], first, widths)).unwrap(), None);
    let stray = FragmentTrailer { index: 5, id: 9, complete: None };
    assert!(matches!(
        b.receive::<()>(encode_fragment(&[3, 4], stray, widths)),
        Err(FragmentRecvError::BadFragmentIndex)
    ));
}

#[test]
fn large_sets_use_the_wide_field() {
    let builder = FragmenterBuilder {
        max_fragment_size: 40,
        max_fragment_count: UInt::U16(u16::MAX),
        max_active_fragment_sets: UInt::U16(16),
        fragment_id_type: UIntVariant::U32,
    };
    let mut a = builder.build((), Half);
    let mut b = builder.build((), Half);
    let data = big_data(6000);
    let fragments = a.send::<()>(data.clone()).unwrap();
    assert!(fragments.len() >= 256);
    let mut got = None;
    for (i, f) in fragments.into_iter().enumerate() {
        if i % 7 == 3 {
            continue;
        }
        if let Some(d) = b.receive::<()>(f).unwrap() {
            got = Some(d);
            break;
        }
    }
    assert_eq!(got, Some(data));
}

#[test]
fn parity_count_decides_the_size_of_a_set() {
    let mut a = FragmenterBuilder::default().build((), Half);
    let data = big_data(5000);
    let data_count = a.data_fragment_count(data.len());
    assert!(data_count >= 4);
    let too_many = u16::MAX as u64 - data_count + 1;
    assert!(matches!(
        a.send_with_parity::<()>(data.clone(), too_many),
        Err(FragmentSendError::PacketTooBig)
    ));
    let fragments = a.send_with_parity::<()>(data.clone(), 2).unwrap();
    assert_eq!(fragments.len() as u64, data_count + 2);
    for (i, f) in fragments.iter().enumerate() {
        assert_eq!(*f.last().unwrap(), if i < 3 { 255 } else { 0 });
    }
}

#[test]
fn data_fragment_count_rounds_up() {
    let a = FragmenterBuilder::default().build((), Half);
    assert_eq!(a.data_fragment_count(1), 1);
    assert_eq!(a.data_fragment_count(2), 1);
    let mut p = 2usize;
    while a.data_fragment_count(p + 2) == 1 {
        p += 2;
    }
    assert_eq!(a.data_fragment_count(p + 2), 2);
    assert_eq!(a.data_fragment_count(3 * p), 3);
}

#[test]
fn odd_sized_large_set_is_unencodable() {
    let mut found = false;
    for size in 30..60u64 {
        let builder = FragmenterBuilder {
            max_fragment_size: size,
            max_fragment_count: UInt::U16(u16::MAX),
            max_active_fragment_sets: UInt::U16(16),
            fragment_id_type: UIntVariant::U32,
        };
        let mut a = builder.build((), Half);
        let mut p = 2usize;
        while a.data_fragment_count(p + 2) == 1 {
            p += 2;
        }
        let len = 300 * (p + 1);
        if a.data_fragment_count(len) == 300 {
            assert!(matches!(
                a.send_with_parity::<()>(big_data(len), 1),
                Err(FragmentSendError::Unencodable)
            ));
            assert!(a.send_with_parity::<()>(big_data(len), 0).is_ok());
            found = true;
            break;
        }
    }
    assert!(found);
}

#[test]
fn fixed_parity_sets_survive_lost_fragments() {
    let mut a = FragmenterBuilder::default().build((), FixedParity(2));
    let mut b = FragmenterBuilder::default().build((), FixedParity(2));
    let data = big_data(5000);
    let count = a.data_fragment_count(data.len());
    let fragments = a.send::<()>(data.clone()).unwrap();
    assert_eq!(fragments.len() as u64, count + 2);
    assert!(fragments[..3].iter().all(|f| *f.last().unwrap() == 255));
    assert!(fragments[3..].iter().all(|f| *f.last().unwrap() == 0));
    let mut got = None;
    for (i, f) in fragments.into_iter().enumerate() {
        if i == 1 || i == 4 {
            continue;
        }
        if let Some(d) = b.receive::<()>(f).unwrap() {
            got = Some(d);
            break;
        }
    }
    assert_eq!(got, Some(data));
}
