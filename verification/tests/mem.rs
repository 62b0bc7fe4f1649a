use noontide_emu::mem::{
    load_image, read, read_word, to_be_bytes, to_signed, to_unsigned, write_word, MEM_SIZE,
};

#[test]
fn word_is_read_most_significant_byte_first() {
    let mem = [0x01u8, 0x02, 0x03, 0x04, 0x05, 0x06, 0x07, 0x08, 0xff];
    assert_eq!(read_word(&mem, 0), 0x0102_0304_0506_0708);
    assert_eq!(read_word(&mem, 1), 0x0203_0405_0607_08ff);
    assert_eq!(read(&mem, 0), 0x0102_0304_0506_0708);
}

#[test]
fn negative_word_is_read_as_signed() {
    let mem = [0xffu8; 8];
    assert_eq!(read(&mem, 0), -1);
    assert_eq!(read_word(&mem, 0), u64::MAX);
    let min = [0x80u8, 0, 0, 0, 0, 0, 0, 0];
    assert_eq!(read(&min, 0), i64::MIN);
}

#[test]
fn write_stores_the_bytes_and_keeps_the_rest() {
    let mut mem = [0xaau8; 12];
    noontide_emu::mem::write(&mut mem, 2, &[1, 2, 3, 4, 5, 6, 7, 8]);
    assert_eq!(mem, [0xaa, 0xaa, 1, 2, 3, 4, 5, 6, 7, 8, 0xaa, 0xaa]);
}

#[test]
fn written_word_is_read_back() {
    let mut mem = vec![0u8; 64];
    for word in [0u64, 1, 0xff, 0x100, 0xdead_beef_0bad_f00d, u64::MAX, 1 << 63] {
        write_word(&mut mem, 16, word);
        assert_eq!(read_word(&mem, 16), word);
        assert_eq!(to_be_bytes(word), word.to_be_bytes());
        assert_eq!(read(&mem, 16), word as i64);
    }
}

#[test]
fn write_word_keeps_words_that_do_not_overlap() {
    let mut mem = vec![0u8; 64];
    write_word(&mut mem, 0, 0x1111_1111_1111_1111);
    write_word(&mut mem, 16, 0x3333_3333_3333_3333);
    write_word(&mut mem, 8, 0x2222_2222_2222_2222);
    assert_eq!(read_word(&mem, 0), 0x1111_1111_1111_1111);
    assert_eq!(read_word(&mem, 8), 0x2222_2222_2222_2222);
    assert_eq!(read_word(&mem, 16), 0x3333_3333_3333_3333);
    assert_eq!(read_word(&mem, 4), 0x1111_1111_2222_2222);
}

#[test]
fn signed_and_unsigned_readings_agree() {
    for value in [0i64, 1, -1, i64::MAX, i64::MIN, 42, -42] {
        assert_eq!(to_unsigned(value), value as u64);
        assert_eq!(to_signed(value as u64), value);
    }
}

#[test]
fn image_holds_the_program_and_zeros() {
    let image = load_image(&[1, 2, 3]).unwrap();
    assert_eq!(image.len(), MEM_SIZE);
    assert_eq!(MEM_SIZE, 0x14000000);
    assert_eq!(image[..4], [1, 2, 3, 0]);
    assert!(image[3..].iter().all(|byte| *byte == 0));
    let empty = load_image(&[]).unwrap();
    assert_eq!(empty.len(), MEM_SIZE);
    assert!(empty.iter().all(|byte| *byte == 0));
}

#[test]
fn program_that_is_larger_than_the_image_is_refused() {
    let mut program = vec![7u8; MEM_SIZE];
    let image = load_image(&program).unwrap();
    assert!(image == program);
    program.push(7);
    assert!(load_image(&program).is_none());
}
