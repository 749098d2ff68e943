use dhara_rs::{closest_cousin, d_bit, meta_get_alt, meta_get_id, meta_set_alt, meta_set_id, trace_not_found, trace_step, DharaError};

#[test]
fn meta_fields_round_trip() {
    let mut meta = [0u8; 132];
    meta_set_id(&mut meta, 0x01020304);
    assert_eq!(meta_get_id(&meta), 0x01020304);
    assert_eq!(meta[0..4], [4u8, 3, 2, 1]);
    for level in 0..32 {
        meta_set_alt(&mut meta, level, 1000 + level as u32);
    }
    for level in 0..32 {
        assert_eq!(meta_get_alt(&meta, level), 1000 + level as u32);
    }
    // Setting one pointer leaves the id and the other pointers alone.
    meta_set_alt(&mut meta, 7, 5);
    assert_eq!(meta_get_alt(&meta, 7), 5);
    assert_eq!(meta_get_alt(&meta, 8), 1008);
    assert_eq!(meta_get_id(&meta), 0x01020304);
}

#[test]
fn radix_bits() {
    assert_eq!(d_bit(0), 0x8000_0000);
    assert_eq!(d_bit(31), 1);
    assert_eq!(d_bit(4), 0x0800_0000);
}

#[test]
fn not_found_path() {
    let mut meta = [0u8; 132];
    meta_set_id(&mut meta, 77);
    meta_set_alt(&mut meta, 0, 12);
    meta_set_alt(&mut meta, 1, 13);
    assert_eq!(trace_not_found(&mut meta, 2), Err(DharaError::NotFound));
    assert_eq!(meta_get_id(&meta), 77);
    assert_eq!(meta_get_alt(&meta, 0), 12);
    assert_eq!(meta_get_alt(&meta, 1), 13);
    for level in 2..32 {
        assert_eq!(meta_get_alt(&meta, level), 0xffffffff);
    }
}

#[test]
fn cousin_choice() {
    let mut meta = [0xffu8; 132];
    // No alt-pointer at any level: the sector is the only one.
    assert_eq!(closest_cousin(&meta), None);
    meta_set_alt(&mut meta, 0, 7);
    assert_eq!(closest_cousin(&meta), Some(0));
    meta_set_alt(&mut meta, 12, 9);
    assert_eq!(closest_cousin(&meta), Some(12));
}

#[test]
fn trace_step_records_alt_pointer() {
    let mut meta = [0xffu8; 132];
    meta_set_id(&mut meta, 0x8000_0000);
    meta_set_alt(&mut meta, 0, 33);
    meta_set_alt(&mut meta, 1, 44);
    let mut new_meta = [0xffu8; 132];
    // Sector 0 leaves sector 0x8000_0000's path at level 0: page 5 is
    // recorded there and the trace follows the alt-pointer 33.
    assert_eq!(trace_step(0, &meta, 5, 0, &mut new_meta), Some(33));
    assert_eq!(meta_get_alt(&new_meta, 0), 5);
    // At level 1 the paths agree: the alt-pointer is copied.
    assert_eq!(trace_step(0x8000_0000, &meta, 5, 1, &mut new_meta), None);
    assert_eq!(meta_get_alt(&new_meta, 1), 44);
}
