use hvdevices::bytes::{
    fill_from, get_be16, get_be32, get_be64, get_le16, get_le32, get_le64, overwrite, push_be16,
    push_be32, push_le16, push_le32, push_le64, range_of, same_bytes, zeroed,
};

#[test]
fn integers_survive_their_bytes() {
    let mut little = Vec::new();
    push_le16(&mut little, 0x1234);
    push_le32(&mut little, 0x89ab_cdef);
    push_le64(&mut little, 0x0123_4567_89ab_cdef);
    assert_eq!(little[..2], [0x34, 0x12]);
    assert_eq!(get_le16(&little, 0), 0x1234);
    assert_eq!(get_le32(&little, 2), 0x89ab_cdef);
    assert_eq!(get_le64(&little, 6), 0x0123_4567_89ab_cdef);
    let mut big = Vec::new();
    push_be16(&mut big, 0x1234);
    push_be32(&mut big, 0x89ab_cdef);
    push_be32(&mut big, 1);
    assert_eq!(big[..2], [0x12, 0x34]);
    assert_eq!(get_be16(&big, 0), 0x1234);
    assert_eq!(get_be32(&big, 2), 0x89ab_cdef);
    assert_eq!(get_be64(&big, 2), 0x89ab_cdef_0000_0001);
}

#[test]
fn ranges_are_copied() {
    let mut bytes = zeroed(4);
    overwrite(&mut bytes, 1, &[7, 8]);
    assert_eq!(bytes, [0, 7, 8, 0]);
    assert_eq!(range_of(&bytes, 1, 3), [7, 8]);
    let mut data = [0; 2];
    fill_from(&mut data, &bytes, 2);
    assert_eq!(data, [8, 0]);
    assert!(same_bytes(&[1, 2], &[1, 2]));
    assert!(!same_bytes(&[1, 2], &[1]));
}
