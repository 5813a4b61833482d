use md2html::fingerprint::fingerprint;
use md2html::hex::{encode, BytesToHexChars};

#[test]
fn encode_writes_two_digits_for_each_byte() {
    assert_eq!(encode(&[0xbe, 0xef]), "beef");
    assert_eq!(encode(&[0x00, 0x0f, 0xf0, 0xff]), "000ff0ff");
    assert_eq!(encode(&[0x01, 0x23, 0x45, 0x67, 0x89, 0xab, 0xcd, 0xef]), "0123456789abcdef");
}

#[test]
fn encode_of_nothing_is_empty() {
    assert_eq!(encode(&[]), "");
}

#[test]
fn hex_chars_come_one_by_one() {
    let bytes = [0x1a_u8, 0xf0];
    let mut chars = BytesToHexChars::new(&bytes);
    assert_eq!(chars.len(), 4);
    assert_eq!(chars.size_hint(), (4, Some(4)));
    assert_eq!(chars.next(), Some('1'));
    assert_eq!(chars.len(), 3);
    assert_eq!(chars.next(), Some('a'));
    assert_eq!(chars.next(), Some('f'));
    assert_eq!(chars.size_hint(), (1, Some(1)));
    assert_eq!(chars.next(), Some('0'));
    assert_eq!(chars.len(), 0);
    assert_eq!(chars.next(), None);
    assert_eq!(chars.next(), None);
}

#[test]
fn fingerprint_of_nothing_is_the_known_digest() {
    assert_eq!(
        fingerprint(&[]),
        "af1349b9f5f9a1a6a0404dea36dcc9499bcb25c9adc112b7cc9a93cae41f3262"
    );
}

#[test]
fn fingerprint_is_the_digest_in_hexadecimal() {
    let bytes = b"title: Hello";
    assert_eq!(fingerprint(bytes), blake3::hash(bytes).to_hex().as_str());
    assert_eq!(fingerprint(bytes).len(), 64);
}

#[test]
fn fingerprint_is_stable_and_tells_bytes_apart() {
    assert_eq!(fingerprint(b"same bytes"), fingerprint(b"same bytes"));
    assert_ne!(fingerprint(b"same bytes"), fingerprint(b"same bytes."));
}
