use tetris::utils::{
    buffer_len, find_memory_type, first_true, pack_image_rows, push_constant_size, row_pitch,
    upload_layout,
};

#[test]
fn push_constants_of_sizes() {
    assert_eq!(push_constant_size::<u32>(), 1);
    assert_eq!(push_constant_size::<u64>(), 2);
    assert_eq!(push_constant_size::<[f32; 7]>(), 7);
    assert_eq!(push_constant_size::<[[f32; 4]; 4]>(), 16);
}

#[test]
fn buffer_lengths() {
    assert_eq!(buffer_len::<u8>(10), 10);
    assert_eq!(buffer_len::<[f32; 9]>(6), 216);
    assert_eq!(buffer_len::<u64>(0), 0);
}

#[test]
fn memory_type_search() {
    let props = [0x1u16, 0x2 | 0x4, 0x2 | 0x4 | 0x8, 0x1];
    // wants CPU visible (0x2): type 1 if the mask allows it.
    assert_eq!(find_memory_type(0b1111, &props, 0x2), Some(1));
    assert_eq!(find_memory_type(0b1101, &props, 0x2), Some(2));
    assert_eq!(find_memory_type(0b1001, &props, 0x2), None);
    assert_eq!(find_memory_type(0b1000, &props, 0x1), Some(3));
    assert_eq!(find_memory_type(0, &props, 0), None);
    assert_eq!(find_memory_type(0b10, &props, 0), Some(1));
}

#[test]
fn first_true_flags() {
    assert_eq!(first_true(&[false, true, true]), Some(1));
    assert_eq!(first_true(&[false, false]), None);
    assert_eq!(first_true(&[]), None);
}

#[test]
fn row_pitch_rounds_up_to_alignment() {
    assert_eq!(row_pitch(10, 1), 40);
    assert_eq!(row_pitch(10, 256), 256);
    assert_eq!(row_pitch(64, 256), 256);
    assert_eq!(row_pitch(65, 256), 512);
    assert_eq!(row_pitch(3, 4), 12);
    // The alignment is taken as a u32 first.
    assert_eq!(row_pitch(3, 0x1_0000_0004), 12);
}

#[test]
fn upload_layout_of_image() {
    let l = upload_layout(65, 3, 256);
    assert_eq!(l.row_pitch, 512);
    assert_eq!(l.upload_size, 1536);
    assert_eq!(l.buffer_width, 128);
}

#[test]
fn rows_packed_at_pitch() {
    let pixels: Vec<u8> = (1..=16).collect();
    let out = pack_image_rows(&pixels, 2, 2, 12);
    assert_eq!(out, vec![1, 2, 3, 4, 5, 6, 7, 8, 0, 0, 0, 0, 9, 10, 11, 12, 13, 14, 15, 16, 0, 0, 0, 0]);
    assert_eq!(pack_image_rows(&pixels, 0, 0, 0), Vec::<u8>::new());
}

#[test]
fn memory_type_search_over_many_types() {
    let mut props = vec![0u16; 70];
    props[5] = 0x2;
    props[66] = 0x2;
    assert_eq!(find_memory_type(u64::MAX, &props, 0x2), Some(5));
    assert_eq!(find_memory_type(1 << 5, &props, 0x2), Some(5));
}
