use gzcodec::crc::crc32_bitwise;
use gzcodec::crc::Crc;

#[test]
fn crc_of_hello_world() {
    let mut crc = Crc::new();
    crc.update(b"Hello World");
    assert_eq!(crc.sum(), 0x4A17B156);
    assert_eq!(crc.amount(), 11);
}

#[test]
fn crc_of_nothing_is_zero() {
    let crc = Crc::new();
    assert_eq!(crc.sum(), 0);
    assert_eq!(crc.amount(), 0);
}

#[test]
fn crc_in_pieces_is_crc_of_the_whole() {
    let mut whole = Crc::new();
    whole.update(b"123456789");
    assert_eq!(whole.sum(), 0xCBF43926);
    let mut pieces = Crc::new();
    pieces.update(b"1234");
    pieces.update(b"");
    pieces.update(b"56789");
    assert_eq!(pieces.sum(), 0xCBF43926);
    assert_eq!(pieces.amount(), 9);
}

#[test]
fn crc_reset_forgets() {
    let mut crc = Crc::new();
    crc.update(b"abc");
    crc.reset();
    assert_eq!(crc.sum(), 0);
    assert_eq!(crc.amount(), 0);
    crc.update(b"Hello World");
    assert_eq!(crc.sum(), 0x4A17B156);
}

#[test]
fn bitwise_checksum_of_known_inputs() {
    assert_eq!(crc32_bitwise(0, b""), 0);
    assert_eq!(crc32_bitwise(0, b"123456789"), 0xCBF43926);
    assert_eq!(crc32_bitwise(0, b"Hello World"), 0x4A17B156);
    assert_eq!(crc32_bitwise(crc32_bitwise(0, b"Hello"), b" World"), 0x4A17B156);
}

#[test]
fn fast_hasher_agrees_with_the_definition() {
    let mut data = Vec::new();
    let mut seed: u32 = 12345;
    for _ in 0..3000 {
        seed = seed.wrapping_mul(1103515245).wrapping_add(12345);
        data.push((seed >> 16) as u8);
    }
    for len in [0usize, 1, 2, 3, 15, 16, 17, 63, 64, 65, 127, 128, 129, 1000, 3000] {
        let mut crc = Crc::new();
        crc.update(&data[..len]);
        assert_eq!(crc.sum(), crc32_bitwise(0, &data[..len]));
        let cut = len / 3;
        let mut pieces = Crc::new();
        pieces.update(&data[..cut]);
        let mid = pieces.sum();
        pieces.update(&data[cut..len]);
        assert_eq!(pieces.sum(), crc.sum());
        assert_eq!(pieces.sum(), crc32_bitwise(mid, &data[cut..len]));
        assert_eq!(pieces.amount() as usize, len);
    }
}
