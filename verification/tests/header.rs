use msg_transmitter::{four_vecu8_to_number, number_to_four_vecu8, DATA_SIZE};

#[test]
fn number_to_four_vecu8_zero() {
    assert_eq!(number_to_four_vecu8(0), vec![0, 0, 0, 0]);
}

#[test]
fn number_to_four_vecu8_small_values() {
    assert_eq!(number_to_four_vecu8(1), vec![0, 0, 0, 1]);
    assert_eq!(number_to_four_vecu8(255), vec![0, 0, 0, 255]);
    assert_eq!(number_to_four_vecu8(256), vec![0, 0, 1, 0]);
    assert_eq!(number_to_four_vecu8(258), vec![0, 0, 1, 2]);
}

#[test]
fn number_to_four_vecu8_big_endian_order() {
    assert_eq!(number_to_four_vecu8(0x0102_0304), vec![1, 2, 3, 4]);
    assert_eq!(number_to_four_vecu8(0x00ab_cdef), vec![0, 0xab, 0xcd, 0xef]);
}

#[test]
fn number_to_four_vecu8_largest() {
    assert_eq!(number_to_four_vecu8(0xffff_ffff), vec![255, 255, 255, 255]);
    assert_eq!(number_to_four_vecu8(1 << 24), vec![1, 0, 0, 0]);
}

#[test]
fn number_to_four_vecu8_always_four_bytes() {
    for n in [0u64, 7, 300, 70_000, 20_000_000, 4_000_000_000] {
        assert_eq!(number_to_four_vecu8(n).len(), DATA_SIZE);
    }
}

#[test]
fn four_vecu8_to_number_values() {
    assert_eq!(four_vecu8_to_number(vec![0, 0, 0, 0]), 0);
    assert_eq!(four_vecu8_to_number(vec![0, 0, 1, 2]), 258);
    assert_eq!(four_vecu8_to_number(vec![1, 2, 3, 4]), 0x0102_0304);
    assert_eq!(four_vecu8_to_number(vec![255, 255, 255, 255]), 0xffff_ffff);
}

#[test]
fn header_roundtrip_number_first() {
    for n in [0u64, 1, 255, 256, 65_535, 65_536, 16_777_215, 16_777_216, 123_456_789, 0xffff_ffff] {
        assert_eq!(four_vecu8_to_number(number_to_four_vecu8(n)), n);
    }
}

#[test]
fn header_roundtrip_bytes_first() {
    for b in [[0u8, 0, 0, 0], [9, 8, 7, 6], [0, 255, 0, 255], [128, 0, 0, 1]] {
        assert_eq!(number_to_four_vecu8(four_vecu8_to_number(b.to_vec())), b.to_vec());
    }
}
