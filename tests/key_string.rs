use keystring::{bytes_to_str, KeyString, CAPACITY};
use std::collections::hash_map::DefaultHasher;
use std::hash::{Hash, Hasher};

fn padded(b: &[u8]) -> Vec<u8> {
    let mut v = b.to_vec();
    v.resize(64, 0);
    v
}

#[test]
fn it_works() {
    let result = keystring::add(2, 2);
    assert_eq!(result, 4);
}

#[test]
fn new_and_default_are_empty() {
    let k = KeyString::new();
    assert_eq!(k.len(), 0);
    assert_eq!(k.as_str(), "");
    assert_eq!(k.raw(), &[0u8; 64][..]);
    let d = KeyString::default();
    assert_eq!(d.raw(), &[0u8; 64][..]);
    assert!(k == d);
    assert_eq!(CAPACITY, 64);
}

#[test]
fn short_text_is_kept() {
    let k = KeyString::from("hello");
    assert_eq!(k.as_str(), "hello");
    assert_eq!(k.as_bytes(), b"hello");
    assert_eq!(k.len(), 5);
    assert_eq!(k.raw(), &padded(b"hello")[..]);
    let full = "x".repeat(64);
    let k = KeyString::from(full.as_str());
    assert_eq!(k.as_str(), full);
    assert_eq!(k.len(), 64);
    let k = KeyString::from("héllo €");
    assert_eq!(k.as_str(), "héllo €");
}

#[test]
fn long_text_is_cut_to_64_bytes() {
    let long = "abcdefgh".repeat(10);
    let k = KeyString::from_text(&long);
    assert_eq!(k.as_str(), &long[..64]);
    assert_eq!(k.len(), 64);
}

#[test]
fn long_text_is_cut_back_to_a_char_boundary() {
    let s = format!("{}é", "a".repeat(63));
    assert_eq!(s.len(), 65);
    let k = KeyString::from(s.as_str());
    assert_eq!(k.as_str(), "a".repeat(63));
    assert_eq!(k.len(), 63);
    assert_eq!(k.raw()[63], 0);

    let s = format!("{}😀", "c".repeat(61));
    let k = KeyString::from(s.as_str());
    assert_eq!(k.as_str(), "c".repeat(61));
    assert_eq!(k.len(), 61);

    let s = format!("{}€", "b".repeat(62));
    let k = KeyString::from(s.as_str());
    assert_eq!(k.as_str(), "b".repeat(62));
    assert_eq!(&k.raw()[62..], &[0u8, 0u8][..]);
}

#[test]
fn raw_bytes_round_trip() {
    let v = KeyString::try_from(&b"key"[..]).unwrap();
    assert_eq!(v.raw(), &padded(b"key")[..]);
    let again = KeyString::try_from(v.raw()).unwrap();
    assert!(again == v);
    assert_eq!(again.raw(), v.raw());

    let w = KeyString::from_bytes(b"a\0b").unwrap();
    assert_eq!(w.raw(), &padded(b"a\0b")[..]);
    assert_eq!(w.as_str(), "a");
    assert_eq!(KeyString::from_bytes(w.raw()).unwrap().raw(), w.raw());
}

#[test]
fn raw_bytes_must_be_utf8() {
    assert!(KeyString::try_from(&[0xffu8, b'a'][..]).is_err());
    assert!(KeyString::from_bytes(&[b'a', 0, 0xc3]).is_err());
    let mut long = vec![b'z'; 63];
    long.push(0xc3);
    long.push(0xa9);
    assert!(KeyString::from_bytes(&long).is_err());
    let mut long = vec![b'z'; 70];
    long[68] = 0xff;
    let k = KeyString::from_bytes(&long).unwrap();
    assert_eq!(k.len(), 64);
}

#[test]
fn push_appends() {
    let mut k = KeyString::from("ab");
    k.push("cd");
    assert_eq!(k.as_str(), "abcd");
    k.push("é");
    assert_eq!(k.as_str(), "abcdé");
    assert_eq!(k.len(), 6);
}

#[test]
fn push_empty_changes_nothing() {
    let mut k = KeyString::from("same");
    let before = k;
    k.push("");
    assert_eq!(k.as_str(), "same");
    assert_eq!(k.len(), before.len());
    assert_eq!(k.raw(), before.raw());

    let mut w = KeyString::from_bytes(b"a\0b").unwrap();
    let before = w;
    w.push("");
    assert_eq!(w.raw(), before.raw());
    assert_eq!(w.raw()[2], b'b');
}

#[test]
fn push_over_capacity_is_ignored() {
    let mut k = KeyString::from("a".repeat(60).as_str());
    let before = k;
    k.push("bcdef");
    assert_eq!(k.raw(), before.raw());
    assert_eq!(k.len(), 60);
}

#[test]
fn push_to_exact_capacity_fills_buffer() {
    let mut k = KeyString::from("a".repeat(60).as_str());
    k.push("bcde");
    assert_eq!(k.len(), 64);
    assert_eq!(k.as_str(), format!("{}bcde", "a".repeat(60)));
    assert!(k.raw().iter().all(|b| *b != 0));
}

#[test]
fn push_writes_at_first_zero() {
    let mut k = KeyString::from_bytes(b"a\0b").unwrap();
    k.push("c");
    assert_eq!(k.as_str(), "ac");
    assert_eq!(k.raw(), &padded(b"ac")[..]);
}

#[test]
fn ordering_and_equality_follow_text() {
    let abc = KeyString::from("abc");
    let abd = KeyString::from("abd");
    assert!(abc < abd);
    assert!(abd > abc);
    assert!(abc != abd);
    assert_eq!(abc.compare(&abd), std::cmp::Ordering::Less);
    assert!(KeyString::from("ab") < abc);
    let mut raw = b"foo".to_vec();
    raw.extend_from_slice(&[0u8; 61]);
    let from_raw = KeyString::try_from(&raw[..]).unwrap();
    assert!(KeyString::from("foo") == from_raw);
    assert!(KeyString::from_bytes(b"foo\0x").unwrap() == from_raw);
}

#[test]
fn decoder_edge_cases() {
    assert_eq!(bytes_to_str(&[]).unwrap(), "");
    assert_eq!(bytes_to_str(&[0u8; 64]).unwrap(), "");
    let mut tail = vec![0u8; 63];
    tail.push(b'x');
    assert_eq!(bytes_to_str(&tail).unwrap(), "");
    assert_eq!(bytes_to_str(b"\0\0key\0\0\0").unwrap(), "key");
    assert_eq!(bytes_to_str(b"x").unwrap(), "");
    assert_eq!(bytes_to_str(b"ab").unwrap(), "ab");
    assert_eq!(bytes_to_str(b"key\0zz").unwrap(), "key");
    assert!(bytes_to_str(&[0, 0xff, 0xfe, 0]).is_err());
}

#[test]
fn checked_integer_parse() {
    assert_eq!(KeyString::from("42").to_i32_checked().unwrap(), 42);
    assert_eq!(KeyString::from("-7").to_i32_checked().unwrap(), -7);
    assert_eq!(KeyString::from("+5").to_i32_checked().unwrap(), 5);
    assert_eq!(KeyString::from("-2147483648").to_i32_checked().unwrap(), i32::MIN);
    assert_eq!(KeyString::from("2147483647").to_i32_checked().unwrap(), i32::MAX);
    assert!(KeyString::from("2147483648").to_i32_checked().is_err());
    assert!(KeyString::from("-2147483649").to_i32_checked().is_err());
    assert!(KeyString::from("abc").to_i32_checked().is_err());
    assert!(KeyString::from("").to_i32_checked().is_err());
    assert!(KeyString::from("-").to_i32_checked().is_err());
    assert!(KeyString::from(" 1").to_i32_checked().is_err());
    assert_eq!(KeyString::from("42").to_i32(), 42);
}

#[test]
fn float_text_reads_back() {
    let k = KeyString::from("4.5");
    let v: f32 = k.as_str().parse().unwrap();
    assert_eq!(v, 4.5);
    assert!(KeyString::from("abc").as_str().parse::<f32>().is_err());
}

#[test]
fn hash_follows_equality() {
    let digest = |k: &KeyString| {
        let mut h = DefaultHasher::new();
        k.hash(&mut h);
        h.finish()
    };
    let a = KeyString::from("foo");
    let b = KeyString::from_bytes(b"foo\0x").unwrap();
    assert!(a == b);
    assert_eq!(digest(&a), digest(&b));
}
