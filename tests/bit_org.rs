use audiomodem::bit_org::BitOrg;

fn fold_bytes(acc: (u32, u64), &v: &u8) -> (u32, u64) {
    (acc.0 + 1, (acc.1 << 8) + v as u64)
}

#[test]
fn test_basic_bitorg_usage() {
    let mut bitorg = BitOrg::new();
    bitorg.push_bits(8, 0xaa);
    assert_eq!(bitorg.pop_one(), Some(0xaa));

    bitorg.push_bits(16, 0xaabb);
    assert_eq!(bitorg.pop_one(), Some(0xaa));
    assert_eq!(bitorg.pop_one(), Some(0xbb));

    bitorg.push_bits(4, 0xd);
    assert_eq!(bitorg.pop_one(), None);
    bitorg.push_bits(4, 0xa);
    assert_eq!(bitorg.pop_one(), Some(0xda));
}

#[test]
fn test_reading_bitorg() {
    const DATA: &[u8] = b"Hello World";

    let mut bitorg = BitOrg::new();
    DATA.chunks(4)
        .map(|v| v.iter().fold((0, 0), fold_bytes))
        .for_each(|v| bitorg.push_bits(v.0 * 8, v.1));

    let mut buffer = [0u8; 64];
    let n = bitorg.read(&mut buffer);

    assert_eq!(DATA, &buffer[..n]);
}

#[test]
fn test_pushing_in_fours() {
    let mut bitorg = BitOrg::new();
    let mut buffer = [0u8; 32];

    for v in [4, 8, 6, 5, 6, 12, 6, 12, 6, 15, 2, 0, 5, 7, 6, 15, 7, 2, 6, 12, 6, 4] {
        bitorg.push_bits(4, v);
    }

    let count = bitorg.read(&mut buffer);

    assert_eq!(&buffer[..count], b"Hello World");
}

#[test]
fn test_pushing_in_fives() {
    let mut bitorg = BitOrg::new();
    let mut buffer = [0u8; 32];

    for v in [9, 1, 18, 22, 24, 27, 3, 15, 4, 1, 11, 22, 30, 28, 19, 12, 12, 16] {
        bitorg.push_bits(5, v);
    }

    let count = bitorg.read(&mut buffer);

    assert_eq!(&buffer[..count], b"Hello World");
}

#[test]
fn test_pushing_in_17s() {
    let mut bitorg = BitOrg::new();
    let mut buffer = [0u8; 32];

    for v in [37066, 111025, 96514, 95991, 19852, 65536] {
        bitorg.push_bits(17, v);
    }

    let _count = bitorg.read(&mut buffer);

    // An extra zero bit sits in the last 17-bit group, so only the first
    // eleven bytes are the message.
    assert_eq!(&buffer[..11], b"Hello World");
}

#[test]
fn push_and_read_back_two_nibbles() {
    let mut bitorg = BitOrg::new();
    bitorg.push_bits(4, 0xD);
    bitorg.push_bits(4, 0xA);
    let mut buffer = [0u8; 4];
    let n = bitorg.read(&mut buffer);
    assert_eq!(&buffer[..n], &[0xDA]);
}

#[test]
fn single_bits_in_whole_bytes_read_back() {
    let bits = [true, false, true, true, false, false, true, false, false, true, true, true, true, false, false, false];
    let mut bitorg = BitOrg::new();
    for &b in bits.iter() {
        bitorg.push_bits(1, b as u64);
    }
    let mut buffer = [0u8; 8];
    let n = bitorg.read(&mut buffer);
    assert_eq!(&buffer[..n], &[0b1011_0010, 0b0111_1000]);
}

#[test]
fn push_keeps_only_the_low_bits() {
    let mut bitorg = BitOrg::new();
    bitorg.push_bits(8, 0xfff0_0012);
    assert_eq!(bitorg.pop_one(), Some(0x12));
    bitorg.push_bits(64, 0x0102_0304_0506_0708);
    let mut buffer = [0u8; 8];
    assert_eq!(bitorg.read(&mut buffer), 8);
    assert_eq!(buffer, [1, 2, 3, 4, 5, 6, 7, 8]);
}

#[test]
fn read_stops_at_the_buffer_end() {
    let mut bitorg = BitOrg::new();
    bitorg.push_bits(24, 0x414243);
    let mut buffer = [0u8; 2];
    assert_eq!(bitorg.read(&mut buffer), 2);
    assert_eq!(&buffer, b"AB");
    assert_eq!(bitorg.pop_one(), Some(b'C'));
    assert_eq!(bitorg.pop_one(), None);
}
