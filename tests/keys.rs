use rizzle::{
    decimal_ascii, generate_blowfish_key, generate_url_key, hex_bytes, stream_location, Track,
};

fn track(id: u64, origin: &str, version: u64) -> Track {
    Track {
        id,
        name: String::from("easy"),
        artists: Vec::new(),
        md5_origin: String::from(origin),
        media_version: version,
    }
}

#[test]
fn content_key_of_known_track() {
    let key = generate_blowfish_key(&track(3135553, "abc123def456abc123def456abc123de", 1));
    assert_eq!(key, [101, 50, 49, 57, 63, 63, 122, 110, 103, 44, 115, 54, 55, 105, 55, 50]);
}

#[test]
fn content_key_of_track_zero() {
    let key = generate_blowfish_key(&track(0, "", 0));
    assert_eq!(key, [50, 100, 99, 63, 99, 110, 41, 110, 111, 118, 42, 100, 57, 111, 96, 54]);
}

#[test]
fn content_key_is_raw_bytes_below_128() {
    let key = generate_blowfish_key(&track(987654321, "", 0));
    assert_eq!(key.len(), 16);
    assert!(key.iter().all(|b| *b < 128));
}

#[test]
fn url_fragment_golden_vector() {
    let fragment = generate_url_key(&track(3135553, "abc123def456abc123def456abc123de", 1), 1);
    assert_eq!(
        fragment,
        "516625af42adc48dd67554d8f9b3d3339d535a317f378469cea32c9f11ca8af41b22c2985127a9da66d088a2fbe10f81af3e85f5ab623906baddcce6fc670019d09125d799187c0548a3f44b8f9b50bd"
    );
}

#[test]
fn url_fragment_other_quality() {
    let fragment = generate_url_key(&track(42, "0f0f0f0f0f0f0f0f0f0f0f0f0f0f0f0f", 7), 3);
    assert_eq!(
        fragment,
        "80a07c273d3f6e2a305e2ca7432021b3d2137431a6d0feeead920c5d0c33b46ab95f9fc84259118e24fda0637537856cc695e5414ddc2e3198d57dcb16399c2df21e800e36a7795762c50cf813be2213"
    );
    assert_eq!(fragment.len() % 32, 0);
}

#[test]
fn derivation_is_deterministic() {
    let a = track(3135553, "abc123def456abc123def456abc123de", 1);
    let b = a.clone();
    assert_eq!(generate_blowfish_key(&a), generate_blowfish_key(&b));
    assert_eq!(generate_url_key(&a, 1), generate_url_key(&b, 1));
    assert_eq!(generate_url_key(&a, 1), generate_url_key(&a, 1));
}

#[test]
fn decimal_digits() {
    assert_eq!(decimal_ascii(0), b"0".to_vec());
    assert_eq!(decimal_ascii(3135553), b"3135553".to_vec());
    assert_eq!(decimal_ascii(u64::MAX), b"18446744073709551615".to_vec());
}

#[test]
fn hex_of_bytes() {
    assert_eq!(hex_bytes(&[0x00, 0x0f, 0xa4, 0xff]), b"000fa4ff".to_vec());
    assert_eq!(hex_bytes(&[]), Vec::<u8>::new());
}

#[test]
fn origin_hash_validity() {
    assert!(track(1, "abc123def456abc123def456abc123de", 1).has_valid_origin());
    assert!(track(1, "ABC123DEF456ABC123DEF456ABC123DE", 1).has_valid_origin());
    assert!(!track(1, "abc123", 1).has_valid_origin());
    assert!(!track(1, "", 1).has_valid_origin());
    assert!(!track(1, "abc123def456abc123def456abc123dg", 1).has_valid_origin());
    assert!(!track(1, "abc123def456abc123def456abc123d\u{e9}", 1).has_valid_origin());
}

#[test]
fn stream_location_of_known_track() {
    let t = track(3135553, "abc123def456abc123def456abc123de", 1);
    let (host, path) = stream_location(&t, 1).unwrap();
    assert_eq!(host, "e-cdns-proxy-a.dzcdn.net");
    assert_eq!(path, format!("/mobile/1/{}", generate_url_key(&t, 1)));
    assert!(stream_location(&track(1, "abc", 1), 1).is_none());
}
