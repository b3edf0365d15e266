use lunamisc::ecc::{
    decode_blocks, encode_blocks, tail_block_len, tail_data_len, ECCRecvError, EccSizing, NoParity, ECC,
};

/// A quarter as many parity bytes as data bytes, as `f32` computes it.
struct Quarter;

impl EccSizing for Quarter {
    fn block_ecc(&self) -> usize {
        self.block_ecc_len()
    }

    fn tail_ecc(&self, data_len: usize) -> usize {
        self.tail_ecc_len(data_len)
    }

    fn tail_ecc_within(&self, block_len: usize) -> usize {
        self.tail_ecc_len_within(block_len)
    }

    fn block_ecc_len(&self) -> usize {
        (0.25f32 * 255.0).round() as usize
    }

    fn tail_ecc_len(&self, data_len: usize) -> usize {
        (data_len as f32 * 0.25).ceil() as usize
    }

    fn tail_ecc_len_within(&self, block_len: usize) -> usize {
        (block_len as f32 * (1.0 - 1.0 / 1.25)).ceil() as usize
    }
}

fn payload(len: usize) -> Vec<u8> {
    (0..len).map(|i| (i * 7 % 256) as u8).collect()
}

#[test]
fn blocks_have_their_sizes() {
    let data = payload(1000);
    let msg = encode_blocks(&data, 64, 12).unwrap();
    assert_eq!(msg.len(), 5 * 255 + 45 + 12);
    assert_eq!(&msg[..191], &data[..191]);
    assert_eq!(&msg[255..255 + 191], &data[191..382]);
}

#[test]
fn decoding_gives_back_the_packet() {
    let layer = ECC::new(Quarter, ());
    let data = payload(1000);
    let msg = layer.encode(&data).unwrap();
    assert_eq!(layer.decode::<()>(&msg).unwrap(), data);
}

#[test]
fn corrupted_bytes_are_corrected() {
    let layer = ECC::new(Quarter, ());
    let data = payload(700);
    let mut msg = layer.encode(&data).unwrap();
    msg[3] ^= 0xff;
    msg[300] = msg[300].wrapping_add(1);
    let last = msg.len() - 1;
    msg[last] ^= 0x55;
    assert_eq!(layer.decode::<()>(&msg).unwrap(), data);
}

#[test]
fn badly_corrupted_block_is_not_given_back() {
    let data = payload(500);
    let mut msg = encode_blocks(&data, 8, 4).unwrap();
    for b in msg.iter_mut().take(100) {
        *b = b.wrapping_mul(3).wrapping_add(1);
    }
    assert!(decode_blocks::<()>(&msg, 8, 4).map_or(true, |d| d != data));
}

#[test]
fn oversized_parity_cannot_encode() {
    assert!(encode_blocks(&[1, 2, 3], 255, 0).is_none());
    assert!(encode_blocks(&[1, 2, 3], 10, 300).is_none());
}

#[test]
fn block_shorter_than_its_parity_is_too_corrupted() {
    assert!(matches!(decode_blocks::<()>(&[1, 2], 4, 5), Err(ECCRecvError::TooCorrupted)));
}

#[test]
fn empty_packet_encodes_to_nothing() {
    assert_eq!(encode_blocks(&[], 64, 0), Some(Vec::new()));
    assert_eq!(decode_blocks::<()>(&[], 64, 0).unwrap(), Vec::<u8>::new());
}

#[test]
fn last_block_lengths() {
    assert_eq!(tail_data_len(1000, 32), 1000 % 223);
    assert_eq!(tail_data_len(446, 32), 0);
    assert_eq!(tail_block_len(600), 90);
    assert_eq!(tail_block_len(510), 0);
}

#[test]
fn parity_beyond_what_the_decoder_takes_is_refused() {
    let data = payload(55);
    let msg = encode_blocks(&data, 200, 0).unwrap();
    assert_eq!(msg.len(), 255);
    assert!(matches!(decode_blocks::<()>(&msg, 200, 0), Err(ECCRecvError::TooCorrupted)));
    let data = payload(85);
    let ok = encode_blocks(&data, 170, 0).unwrap();
    assert_eq!(ok.len(), 255);
    assert_eq!(decode_blocks::<()>(&ok, 170, 0).unwrap(), data);
}

#[test]
fn no_parity_passes_packets_through() {
    let layer = ECC::new(NoParity, ());
    let data = payload(600);
    let msg = layer.encode(&data).unwrap();
    assert_eq!(msg, data);
    assert_eq!(layer.decode::<()>(&msg).unwrap(), data);
}
