use mips_assembler::image::{
    bit_listing, le_bytes, read_bits, read_le_bytes, read_listing, word_bits,
};

#[test]
fn word_is_written_as_32_digits() {
    assert_eq!(word_bits(0), "00000000000000000000000000000000");
    assert_eq!(word_bits(1), "00000000000000000000000000000001");
    assert_eq!(word_bits(0x8000_0000), "10000000000000000000000000000000");
    assert_eq!(word_bits(0x8fa80004), "10001111101010000000000000000100");
    assert_eq!(word_bits(u32::MAX), "11111111111111111111111111111111");
    for word in [0u32, 7, 0x01494020, 0xdead_beef, u32::MAX] {
        assert_eq!(word_bits(word), format!("{:032b}", word));
    }
}

#[test]
fn digits_are_read_as_a_word() {
    assert_eq!(read_bits("00000000000000000000000000000000"), Some(0));
    assert_eq!(read_bits("10001111101010000000000000000100"), Some(0x8fa80004));
    assert_eq!(read_bits("11111111111111111111111111111111"), Some(u32::MAX));
    assert_eq!(read_bits(""), None);
    assert_eq!(read_bits("1"), None);
    assert_eq!(read_bits("1000111110101000000000000000010"), None);
    assert_eq!(read_bits("100011111010100000000000000001000"), None);
    assert_eq!(read_bits("1000111110101000000000000000010x"), None);
    assert_eq!(read_bits("20001111101010000000000000000100"), None);
    assert_eq!(read_bits(" 0001111101010000000000000000100"), None);
    for word in [0u32, 1, 2, 0x5555_5555, 0xaaaa_aaaa, 0x0800_0000, u32::MAX] {
        assert_eq!(read_bits(&word_bits(word)), Some(word));
    }
}

#[test]
fn listing_has_one_line_per_word() {
    assert_eq!(bit_listing(&vec![]), "");
    assert_eq!(bit_listing(&vec![5]), "00000000000000000000000000000101\n");
    assert_eq!(
        bit_listing(&vec![0x8fa80004, 0]),
        "10001111101010000000000000000100\n00000000000000000000000000000000\n"
    );
}

#[test]
fn listing_is_read_back() {
    assert_eq!(read_listing(""), Some(vec![]));
    assert_eq!(read_listing("\n\n"), Some(vec![]));
    assert_eq!(read_listing("00000000000000000000000000000101"), Some(vec![5]));
    assert_eq!(
        read_listing("  10001111101010000000000000000100\r\n\n00000000000000000000000000000000\n"),
        Some(vec![0x8fa80004, 0])
    );
    assert_eq!(read_listing("101\n"), None);
    assert_eq!(read_listing("00000000000000000000000000000101\nx\n"), None);
    assert_eq!(
        read_listing("0000000000000000 0000000000000101\n"),
        None
    );
    let words = vec![0x01494020, 0x8fa80004, 0x00094080, 0x08000000, u32::MAX];
    assert_eq!(read_listing(&bit_listing(&words)), Some(words));
}

#[test]
fn words_are_written_least_significant_byte_first() {
    assert_eq!(le_bytes(&vec![]), Vec::<u8>::new());
    assert_eq!(le_bytes(&vec![0x8fa80004]), vec![0x04, 0x00, 0xa8, 0x8f]);
    assert_eq!(
        le_bytes(&vec![1, 0xdead_beef]),
        vec![1, 0, 0, 0, 0xef, 0xbe, 0xad, 0xde]
    );
    for word in [0u32, 0x0102_0304, 0xff00_00ff, u32::MAX] {
        assert_eq!(le_bytes(&vec![word]), word.to_le_bytes().to_vec());
    }
}

#[test]
fn bytes_are_read_as_words() {
    assert_eq!(read_le_bytes(&vec![]), Some(vec![]));
    assert_eq!(read_le_bytes(&vec![0x04, 0x00, 0xa8, 0x8f]), Some(vec![0x8fa80004]));
    assert_eq!(
        read_le_bytes(&vec![1, 0, 0, 0, 0xef, 0xbe, 0xad, 0xde]),
        Some(vec![1, 0xdead_beef])
    );
    assert_eq!(read_le_bytes(&vec![1]), None);
    assert_eq!(read_le_bytes(&vec![1, 2, 3]), None);
    assert_eq!(read_le_bytes(&vec![1, 2, 3, 4, 5]), None);
    let words = vec![0x01494020, 0x8fa80004, 0, u32::MAX];
    assert_eq!(read_le_bytes(&le_bytes(&words)), Some(words));
}
