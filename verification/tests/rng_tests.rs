use niceview_lib::rng::{combine_words, fill_bytes_from};

#[test]
fn words_combine_high_first() {
    assert_eq!(combine_words(0x0123_4567, 0x89ab_cdef), 0x0123_4567_89ab_cdef);
    assert_eq!(combine_words(0, u32::MAX), 0xffff_ffff);
    assert_eq!(combine_words(u32::MAX, 0), 0xffff_ffff_0000_0000);
}

#[test]
fn bytes_take_low_byte() {
    let mut dest = [0u8; 3];
    fill_bytes_from(&mut dest, &[0x1234, 0xff, 0xabcd_ef01]);
    assert_eq!(dest, [0x34, 0xff, 0x01]);
}
