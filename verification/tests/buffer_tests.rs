use o_::buffer::Buffer;

fn bytes(b: &Buffer) -> Vec<u8> {
    b.to_vec()
}

#[test]
fn new_buffer_is_zeroed() {
    let b = Buffer::new(4);
    assert_eq!(bytes(&b), vec![0, 0, 0, 0]);
    assert_eq!(b.len(), 4);
    assert!(!b.is_empty());
    assert!(Buffer::new(0).is_empty());
}

#[test]
fn from_slice_copies() {
    let b = Buffer::from_slice(&[1, 2, 3]);
    assert_eq!(b.as_slice(), &[1, 2, 3]);
    assert_eq!(b.get(1), Some(2));
    assert_eq!(b.get(3), None);
}

#[test]
fn from_string_utf8_default() {
    let b = Buffer::from_string("hé", None);
    assert_eq!(bytes(&b), vec![0x68, 0xc3, 0xa9]);
    let other = Buffer::from_string("hé", Some("utf8"));
    assert_eq!(bytes(&other), vec![0x68, 0xc3, 0xa9]);
}

#[test]
fn from_string_hex() {
    let b = Buffer::from_string("  48656c6c6f ", Some("hex"));
    assert_eq!(bytes(&b), b"Hello".to_vec());
    let upper = Buffer::from_string("FF0a", Some("hex"));
    assert_eq!(bytes(&upper), vec![0xff, 0x0a]);
    let skipped = Buffer::from_string("zz41", Some("hex"));
    assert_eq!(bytes(&skipped), vec![0x41]);
    let plus = Buffer::from_string("+f", Some("hex"));
    assert_eq!(bytes(&plus), vec![0x0f]);
}

#[test]
fn from_string_base64() {
    let b = Buffer::from_string("SGVsbG8=", Some("base64"));
    assert_eq!(bytes(&b), b"Hello".to_vec());
    let two = Buffer::from_string("SGk=", Some("base64"));
    assert_eq!(bytes(&two), b"Hi".to_vec());
    let noisy = Buffer::from_string("SG k", Some("base64"));
    assert_eq!(bytes(&noisy), b"Hi".to_vec());
}

#[test]
fn from_string_utf16_names() {
    for name in ["utf16le", "ucs2", "utf16"] {
        let b = Buffer::from_string("A😀", Some(name));
        assert_eq!(bytes(&b), vec![0x41, 0x00, 0x3d, 0xd8, 0x00, 0xde]);
    }
}

#[test]
fn to_string_encodings() {
    let b = Buffer::from_slice(b"Hello");
    assert_eq!(b.to_string(Some("hex")), "48656c6c6f");
    assert_eq!(b.to_string(Some("base64")), "SGVsbG8=");
    assert_eq!(b.to_string(None), "Hello");
    assert_eq!(Buffer::from_slice(&[0xe9]).to_string(Some("latin1")), "é");
    assert_eq!(Buffer::from_slice(&[0xff, 0x41]).to_string(None), "\u{FFFD}A");
    assert_eq!(Buffer::from_slice(&[0x41, 0x00, 0x42]).to_string(Some("utf16le")), "AB");
    assert_eq!(Buffer::from_slice(&[0x00, 0xd8, 0x41, 0x00]).to_string(Some("ucs2")), "\u{FFFD}A");
    assert_eq!(Buffer::from_slice(&[1, 2, 3, 4]).to_string(Some("base64")), "AQIDBA==");
}

#[test]
fn roundtrips_hold() {
    let data: Vec<u8> = (0..=255u8).collect();
    let b = Buffer::from_slice(&data);
    let hex = b.to_string(Some("hex"));
    assert!(Buffer::from_string(&hex, Some("hex")).equals(&b));
    let b64 = b.to_string(Some("base64"));
    assert!(Buffer::from_string(&b64, Some("base64")).equals(&b));
    let text = "añ😀z";
    assert_eq!(Buffer::from_string(text, None).to_string(None), text);
    assert_eq!(Buffer::from_string(text, Some("utf16le")).to_string(Some("utf16le")), text);
}

#[test]
fn set_and_get() {
    let mut b = Buffer::new(3);
    b.set(1, 7);
    b.set(5, 9);
    assert_eq!(bytes(&b), vec![0, 7, 0]);
    assert_eq!(b.get(1), Some(7));
}

#[test]
fn as_mut_slice_writes_through() {
    let mut b = Buffer::new(2);
    b.as_mut_slice()[0] = 42;
    assert_eq!(bytes(&b), vec![42, 0]);
}

#[test]
fn copy_within_moves_bytes() {
    let mut b = Buffer::from_slice(&[1, 2, 3, 4, 5]);
    b.copy_within(0, 3, 5);
    assert_eq!(bytes(&b), vec![4, 5, 3, 4, 5]);
    let mut c = Buffer::from_slice(&[1, 2, 3]);
    c.copy_within(2, 0, 2);
    assert_eq!(bytes(&c), vec![1, 2, 3]);
}

#[test]
fn slice_clamps() {
    let b = Buffer::from_slice(&[1, 2, 3, 4]);
    assert_eq!(bytes(&b.slice(1, 3)), vec![2, 3]);
    assert_eq!(bytes(&b.slice(2, 10)), vec![3, 4]);
    assert_eq!(bytes(&b.slice(9, 10)), Vec::<u8>::new());
}

#[test]
fn fill_range() {
    let mut b = Buffer::new(5);
    b.fill(9, 1, 3);
    assert_eq!(bytes(&b), vec![0, 9, 9, 0, 0]);
    b.fill(1, 4, 100);
    assert_eq!(bytes(&b), vec![0, 9, 9, 0, 1]);
    b.fill(2, 4, 2);
    assert_eq!(bytes(&b), vec![0, 9, 9, 0, 1]);
}

#[test]
fn concat_joins() {
    let parts = vec![Buffer::from_slice(&[1]), Buffer::new(0), Buffer::from_slice(&[2, 3])];
    assert_eq!(bytes(&Buffer::concat(&parts)), vec![1, 2, 3]);
    assert!(Buffer::concat(&[]).is_empty());
}

#[test]
fn compare_and_equals() {
    let a = Buffer::from_slice(&[1, 2]);
    let b = Buffer::from_slice(&[1, 3]);
    let c = Buffer::from_slice(&[1, 2, 0]);
    assert_eq!(a.compare(&b), -1);
    assert_eq!(b.compare(&a), 1);
    assert_eq!(a.compare(&c), -1);
    assert_eq!(c.compare(&a), 1);
    assert_eq!(a.compare(&a.clone()), 0);
    assert!(a.equals(&Buffer::from_slice(&[1, 2])));
    assert!(!a.equals(&c));
}

#[test]
fn index_of_and_includes() {
    let b = Buffer::from_slice(&[5, 6, 5, 7]);
    assert_eq!(b.index_of(5, None), Some(0));
    assert_eq!(b.index_of(5, Some(1)), Some(2));
    assert_eq!(b.index_of(8, None), None);
    assert_eq!(b.index_of(5, Some(10)), None);
    assert!(b.includes(7, Some(3)));
    assert!(!b.includes(6, Some(2)));
}

#[test]
fn slices_concat_back() {
    let b = Buffer::from_slice(&[9, 8, 7, 6]);
    for k in 0..=4 {
        let parts = vec![b.slice(0, k), b.slice(k, 4)];
        assert!(Buffer::concat(&parts).equals(&b));
    }
}
