use defmt_print::storage::FlashStorage;

#[test]
fn image_holds_a_copy() {
    let storage = FlashStorage::new(&[1, 2, 3, 4, 5]);
    assert_eq!(5, storage.capacity());
    assert_eq!(0, FlashStorage::new(&[]).capacity());
}

#[test]
fn read_inside_the_image() {
    let mut storage = FlashStorage::new(&[10, 11, 12, 13, 14, 15]);
    let mut bytes = [0u8; 3];
    assert_eq!(Ok(()), storage.try_read(1, &mut bytes));
    assert_eq!([11, 12, 13], bytes);
    assert_eq!(Ok(()), storage.try_read(0, &mut bytes));
    assert_eq!([10, 11, 12], bytes);
    let mut none: [u8; 0] = [];
    assert_eq!(Ok(()), storage.try_read(5, &mut none));
    assert_eq!(6, storage.capacity());
}

#[test]
fn read_up_to_the_end_leaves_the_buffer() {
    let mut storage = FlashStorage::new(&[10, 11, 12, 13, 14, 15]);
    let mut bytes = [7u8; 3];
    // the read would end exactly at the end of the image
    assert_eq!(Ok(()), storage.try_read(3, &mut bytes));
    assert_eq!([7, 7, 7], bytes);
    assert_eq!(Ok(()), storage.try_read(4, &mut bytes));
    assert_eq!([7, 7, 7], bytes);
    assert_eq!(Ok(()), storage.try_read(u32::MAX, &mut bytes));
    assert_eq!([7, 7, 7], bytes);
    let mut none: [u8; 0] = [];
    assert_eq!(Ok(()), storage.try_read(6, &mut none));
}
