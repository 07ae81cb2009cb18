use basic_file_server::protocol::sanitize_filename;
use basic_file_server::protocol::trim_bytes_vec;
use basic_file_server::protocol::u64_to_dec;

#[test]
fn sanitize_strips_parent_tokens() {
    // `../secret` resolves to a name inside the served directory.
    assert_eq!(sanitize_filename(b"../secret"), b"secret".to_vec());
}

#[test]
fn sanitize_strips_separators() {
    assert_eq!(sanitize_filename(b"a/b\\c"), b"abc".to_vec());
    assert_eq!(sanitize_filename(b"/etc/passwd"), b"etcpasswd".to_vec());
}

#[test]
fn sanitize_strips_dotdot_pairs_left_to_right() {
    assert_eq!(sanitize_filename(b"...."), b"".to_vec());
    assert_eq!(sanitize_filename(b"..."), b".".to_vec());
    assert_eq!(sanitize_filename(b"a..b"), b"ab".to_vec());
}

#[test]
fn sanitize_is_a_weak_measure() {
    // Removing separators can leave two dots standing; the result is still
    // a single path component, which the existence check then rejects.
    assert_eq!(sanitize_filename(b"./."), b"..".to_vec());
}

#[test]
fn sanitize_keeps_plain_names() {
    assert_eq!(sanitize_filename(b"hello.txt"), b"hello.txt".to_vec());
    assert_eq!(sanitize_filename(b""), b"".to_vec());
}

#[test]
fn trim_removes_ascii_whitespace() {
    assert_eq!(trim_bytes_vec(b"  GET x \r\n"), b"GET x".to_vec());
    assert_eq!(trim_bytes_vec(b"\n"), b"".to_vec());
    assert_eq!(trim_bytes_vec(b""), b"".to_vec());
    assert_eq!(trim_bytes_vec(b"LIST"), b"LIST".to_vec());
}

#[test]
fn decimal_formatting_matches_display() {
    assert_eq!(u64_to_dec(0), b"0".to_vec());
    assert_eq!(u64_to_dec(7), b"7".to_vec());
    assert_eq!(u64_to_dec(10), b"10".to_vec());
    assert_eq!(u64_to_dec(10485760), b"10485760".to_vec());
    assert_eq!(u64_to_dec(u64::MAX), format!("{}", u64::MAX).into_bytes());
}
