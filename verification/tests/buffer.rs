use halld::buffer::{add_externs, add_file_data, align_buffer};

#[test]
fn align_buffer_pads_to_four_bytes() {
    for (len, padded) in [(0usize, 0usize), (1, 4), (2, 4), (3, 4), (4, 4), (5, 8), (7, 8), (8, 8)] {
        let mut v = vec![0xAB; len];
        align_buffer(&mut v);
        assert_eq!(v.len(), padded);
        assert!(v[..len].iter().all(|b| *b == 0xAB));
        assert!(v[len..].iter().all(|b| *b == 0));
    }
}

#[test]
fn padding_is_idempotent() {
    let mut v = vec![1, 2, 3, 4, 5];
    align_buffer(&mut v);
    let once = v.clone();
    align_buffer(&mut v);
    assert_eq!(v, once);
    let mut aligned = vec![9, 8, 7, 6];
    align_buffer(&mut aligned);
    assert_eq!(aligned, vec![9, 8, 7, 6]);
}

#[test]
fn add_file_data_appends_and_pads() {
    let mut v = vec![1, 0, 0, 0];
    add_file_data(&mut v, &[2, 3]);
    assert_eq!(v, vec![1, 0, 0, 0, 2, 3, 0, 0]);
    add_file_data(&mut v, &[]);
    assert_eq!(v, vec![1, 0, 0, 0, 2, 3, 0, 0]);
}

#[test]
fn add_externs_writes_big_endian_indices() {
    let mut v = vec![0xAA, 0xBB, 0xCC, 0xDD];
    add_externs(&mut v, &[3]);
    assert_eq!(v, vec![0xAA, 0xBB, 0xCC, 0xDD, 0x00, 0x03, 0x00, 0x00]);
    let mut w = Vec::new();
    add_externs(&mut w, &[0x0102, 0xFFFE]);
    assert_eq!(w, vec![0x01, 0x02, 0xFF, 0xFE]);
    add_externs(&mut w, &[1, 2, 3]);
    assert_eq!(w, vec![0x01, 0x02, 0xFF, 0xFE, 0, 1, 0, 2, 0, 3, 0, 0]);
}

#[test]
fn empty_extern_list_leaves_no_trailer() {
    let mut v = vec![1, 2, 3, 4];
    add_externs(&mut v, &[]);
    assert_eq!(v, vec![1, 2, 3, 4]);
}
