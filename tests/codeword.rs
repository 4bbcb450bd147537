use rpeg::block_packing::{pack_block, unpack_block};

#[test]
fn pack_unpack_round_trip() {
    let w = pack_block(300, 5, -5, 0, 3, 7).unwrap();
    assert_eq!(
        unpack_block(w),
        (Some(300), Some(5), Some(-5), Some(0), Some(3), Some(7))
    );
}

#[test]
fn pack_layout_is_exact() {
    assert_eq!(pack_block(300, 5, -5, 0, 3, 7), Some(0x9617_6037));
    assert_eq!(pack_block(511, -1, -1, -1, 15, 15), Some(u32::MAX));
    assert_eq!(pack_block(0, 0, 0, 0, 0, 0), Some(0));
}

#[test]
fn pack_rejects_each_field() {
    assert_eq!(pack_block(512, 0, 0, 0, 0, 0), None);
    assert_eq!(pack_block(0, 16, 0, 0, 0, 0), None);
    assert_eq!(pack_block(0, 0, -17, 0, 0, 0), None);
    assert_eq!(pack_block(0, 0, 0, 16, 0, 0), None);
    assert_eq!(pack_block(0, 0, 0, 0, 16, 0), None);
    assert_eq!(pack_block(0, 0, 0, 0, 0, 16), None);
}

#[test]
fn unpack_reads_fields() {
    assert_eq!(
        unpack_block(u32::MAX),
        (Some(511), Some(-1), Some(-1), Some(-1), Some(15), Some(15))
    );
    assert_eq!(
        unpack_block(0x9617_6037),
        (Some(300), Some(5), Some(-5), Some(0), Some(3), Some(7))
    );
}
