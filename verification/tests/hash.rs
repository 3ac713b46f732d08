use nichy::hash::{base32, content_hash, ALPHABET};
use nichy::snippets::is_valid_id;

#[test]
fn content_hash_is_deterministic() {
    let a = content_hash(false, "struct X;", "x86");
    let b = content_hash(false, "struct X;", "x86");
    assert_eq!(a, b);
}

#[test]
fn content_hash_differs_by_kind() {
    let a = content_hash(false, "Option<u8>", "");
    let b = content_hash(true, "Option<u8>", "");
    assert_ne!(a, b);
}

#[test]
fn content_hash_differs_by_target() {
    let a = content_hash(false, "code", "x86_64-unknown-linux-gnu");
    let b = content_hash(false, "code", "wasm32-unknown-unknown");
    assert_ne!(a, b);
}

#[test]
fn content_hash_resists_field_boundary_confusion() {
    // Without length prefixes, target="a"+content="bc" and target="ab"+content="c"
    // would hash the same. With length prefixes they must differ.
    let a = content_hash(false, "bc", "a");
    let b = content_hash(false, "c", "ab");
    assert_ne!(a, b);
}

#[test]
fn base32_outputs_only_alphabet_chars() {
    let s = content_hash(false, "x", "");
    assert!(s.chars().all(|c| ALPHABET.contains(c)));
}

#[test]
fn content_hash_has_known_values() {
    assert_eq!(
        content_hash(false, "struct X;", "x86"),
        "wbd736rzsegokv25twvjbbgfbmcohsvtxvw77k3k4ekwiorqs76a"
    );
    assert_eq!(
        content_hash(true, "Option<u8>", ""),
        "rbekwllpll7pj7cgcwc3byt4ligz3zclmanti2m75c56pgzu546q"
    );
    assert_eq!(
        content_hash(false, "é→", "wasm32-unknown-unknown"),
        "5adcfyjjrukpmppgzdnt26yc5twhsb2knnsfndggtvc3jompb6hq"
    );
}

#[test]
fn base32_has_known_values() {
    let cases: [(&[u8], &str); 7] = [
        (b"", ""),
        (b"f", "my"),
        (b"fo", "mzxq"),
        (b"foo", "mzxw6"),
        (b"foob", "mzxw6yq"),
        (b"fooba", "mzxw6ytb"),
        (b"foobar", "mzxw6ytboi"),
    ];
    for (bytes, letters) in cases {
        assert_eq!(base32(bytes), letters);
    }
    assert_eq!(base32(&[0xff, 0xff, 0xff, 0xff, 0xff]), "77777777");
}

#[test]
fn every_prefix_of_a_hash_is_a_valid_id() {
    let s = content_hash(true, "u8", "");
    assert_eq!(s.len(), 52);
    for n in 1..=52 {
        assert!(is_valid_id(&s[..n]));
    }
    assert!(!is_valid_id(&format!("{s}a")));
}

/// The whole bytes that a spelling holds.
fn unspelled(s: &str) -> Vec<u8> {
    let (mut bits, mut held, mut out) = (0u32, 0, Vec::new());
    for c in s.chars() {
        bits = (bits << 5) | ALPHABET.find(c).unwrap() as u32;
        held += 5;
        if held >= 8 {
            held -= 8;
            out.push((bits >> held) as u8);
            bits &= (1 << held) - 1;
        }
    }
    out
}

#[test]
fn spellings_are_read_back() {
    for n in 0..=33usize {
        let bytes: Vec<u8> = (0..n).map(|i| (i * 89 + n * 31) as u8).collect();
        assert_eq!(unspelled(&base32(&bytes)), bytes);
    }
}
