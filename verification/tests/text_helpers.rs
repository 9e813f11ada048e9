use powershellmanager::text::{
    bytes_eq, contains_bytes, parse_u32_bytes, parse_usize_bytes, to_lower, trim,
};

#[test]
fn numeric_parse_edges() {
    assert_eq!(parse_u32_bytes(&b"42".to_vec()), Some(42));
    // Rust's integer syntax allows one leading plus sign.
    assert_eq!(parse_u32_bytes(&b"+42".to_vec()), Some(42));
    assert_eq!(parse_u32_bytes(&b"4294967295".to_vec()), Some(u32::MAX));
    assert_eq!(parse_u32_bytes(&b"4294967296".to_vec()), None);
    assert_eq!(parse_u32_bytes(&b"".to_vec()), None);
    assert_eq!(parse_u32_bytes(&b"+".to_vec()), None);
    assert_eq!(parse_u32_bytes(&b"1 2".to_vec()), None);
    assert_eq!(parse_u32_bytes(&b"-1".to_vec()), None);
    assert_eq!(
        parse_u32_bytes(&b"99999999999999999999999999999".to_vec()),
        None
    );
    assert_eq!(parse_usize_bytes(&b"18446744073709551615".to_vec()), Some(usize::MAX));
    assert_eq!(parse_usize_bytes(&b"18446744073709551616".to_vec()), None);
}

#[test]
fn trim_and_lowercase_are_ascii_only() {
    assert_eq!(trim(&b"  \t hi \r\n".to_vec()), b"hi".to_vec());
    assert_eq!(trim(&b"".to_vec()), b"".to_vec());
    assert_eq!(trim(&b"   ".to_vec()), b"".to_vec());
    assert_eq!(to_lower(&b"MiXeD-09_!".to_vec()), b"mixed-09_!".to_vec());
    // Bytes outside the ASCII range pass through untouched.
    let utf8 = "Grüße".as_bytes().to_vec();
    assert_eq!(to_lower(&utf8), "grüße".as_bytes().to_vec());
}

#[test]
fn byte_comparisons() {
    assert!(bytes_eq(b"abc", b"abc"));
    assert!(!bytes_eq(b"abc", b"abd"));
    assert!(!bytes_eq(b"abc", b"ab"));
    assert!(contains_bytes(&b"hello world".to_vec(), &b"lo wo".to_vec()));
    assert!(contains_bytes(&b"hello".to_vec(), &b"".to_vec()));
    assert!(!contains_bytes(&b"hello".to_vec(), &b"world".to_vec()));
    assert!(!contains_bytes(&b"hi".to_vec(), &b"hello".to_vec()));
}
