use otel_multivariate_time_series::bitmap::{
    clear_nth_bit, is_valid_value, reset_validity_bitmap, set_nth_bit, validity_bitmap,
};

#[test]
fn test() {
    let slots = 100;
    let size = (slots + (8 - 1)) / 8;
    let mut validity_bitmap: Vec<u8> = validity_bitmap(slots);
    assert_eq!(validity_bitmap.len(), size);

    set_nth_bit(&mut validity_bitmap, 0);
    set_nth_bit(&mut validity_bitmap, 2);
    set_nth_bit(&mut validity_bitmap, 10);

    assert_eq!(&format!("{:08b}", validity_bitmap[0]), "00000101");
    assert_eq!(&format!("{:08b}", validity_bitmap[1]), "00000100");
    assert_eq!(&format!("{:08b}", validity_bitmap[2]), "00000000");
    assert_eq!(&format!("{:08b}", validity_bitmap[3]), "00000000");
    assert_eq!(&format!("{:08b}", validity_bitmap[4]), "00000000");
    assert_eq!(&format!("{:08b}", validity_bitmap[5]), "00000000");
    assert_eq!(&format!("{:08b}", validity_bitmap[6]), "00000000");
    assert_eq!(&format!("{:08b}", validity_bitmap[7]), "00000000");
    assert_eq!(&format!("{:08b}", validity_bitmap[8]), "00000000");
    assert_eq!(&format!("{:08b}", validity_bitmap[9]), "00000000");
    assert_eq!(&format!("{:08b}", validity_bitmap[10]), "00000000");
    assert_eq!(&format!("{:08b}", validity_bitmap[11]), "00000000");
    assert_eq!(&format!("{:08b}", validity_bitmap[12]), "00000000");

    reset_validity_bitmap(&mut validity_bitmap);
    assert_eq!(&format!("{:08b}", validity_bitmap[0]), "00000000");
    assert_eq!(&format!("{:08b}", validity_bitmap[1]), "00000000");
    assert_eq!(&format!("{:08b}", validity_bitmap[2]), "00000000");
    assert_eq!(&format!("{:08b}", validity_bitmap[3]), "00000000");
    assert_eq!(&format!("{:08b}", validity_bitmap[4]), "00000000");
    assert_eq!(&format!("{:08b}", validity_bitmap[5]), "00000000");
    assert_eq!(&format!("{:08b}", validity_bitmap[6]), "00000000");
    assert_eq!(&format!("{:08b}", validity_bitmap[7]), "00000000");
    assert_eq!(&format!("{:08b}", validity_bitmap[8]), "00000000");
    assert_eq!(&format!("{:08b}", validity_bitmap[9]), "00000000");
    assert_eq!(&format!("{:08b}", validity_bitmap[10]), "00000000");
    assert_eq!(&format!("{:08b}", validity_bitmap[11]), "00000000");
    assert_eq!(&format!("{:08b}", validity_bitmap[12]), "00000000");
}

#[test]
fn bitmap_sizes_round_up_to_whole_bytes() {
    assert_eq!(validity_bitmap(0).len(), 0);
    assert_eq!(validity_bitmap(1).len(), 1);
    assert_eq!(validity_bitmap(8).len(), 1);
    assert_eq!(validity_bitmap(9).len(), 2);
    assert!(validity_bitmap(9).iter().all(|b| *b == 0));
}

#[test]
fn set_and_clear_read_back() {
    let mut bm = validity_bitmap(16);
    set_nth_bit(&mut bm, 15);
    set_nth_bit(&mut bm, 3);
    assert!(is_valid_value(&bm, 15));
    assert!(is_valid_value(&bm, 3));
    assert!(!is_valid_value(&bm, 4));
    clear_nth_bit(&mut bm, 15);
    assert!(!is_valid_value(&bm, 15));
    assert!(is_valid_value(&bm, 3));
    assert_eq!(bm, vec![0b0000_1000, 0]);
}

#[test]
fn reset_keeps_length() {
    let mut bm = vec![0xff, 0x01, 0x80];
    reset_validity_bitmap(&mut bm);
    assert_eq!(bm, vec![0, 0, 0]);
    let mut empty: Vec<u8> = vec![];
    reset_validity_bitmap(&mut empty);
    assert!(empty.is_empty());
}
