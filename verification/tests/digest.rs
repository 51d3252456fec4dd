use wayback_rs::digest::{
    bytes_to_string, compute_digest, compute_digest_gz, is_valid_digest, string_to_bytes, Error,
    DIGEST_CHARS,
};

#[test]
fn round_trip() {
    let digest = "ZHYT52YPEOCHJD5FZINSDYXGQZI22WJ4";

    let bytes = string_to_bytes(&digest).unwrap();
    let string = bytes_to_string(&bytes);

    assert_eq!(digest, string);
}

#[test]
fn decode_gives_the_hash_bytes() {
    // "AAAA...": all bits clear; "7777...": all bits set.
    assert_eq!(
        string_to_bytes("AAAAAAAAAAAAAAAAAAAAAAAAAAAAAAAA"),
        Some([0u8; 20])
    );
    assert_eq!(
        string_to_bytes("77777777777777777777777777777777"),
        Some([255u8; 20])
    );
    let mut bytes = [0u8; 20];
    bytes[0] = 0x08;
    bytes[19] = 0x01;
    assert_eq!(
        string_to_bytes("BAAAAAAAAAAAAAAAAAAAAAAAAAAAAAAB"),
        Some(bytes)
    );
}

#[test]
fn encode_known_hash() {
    // SHA-1 of the empty input.
    let hash: [u8; 20] = [
        0xda, 0x39, 0xa3, 0xee, 0x5e, 0x6b, 0x4b, 0x0d, 0x32, 0x55, 0xbf, 0xef, 0x95, 0x60, 0x18,
        0x90, 0xaf, 0xd8, 0x07, 0x09,
    ];
    assert_eq!(bytes_to_string(&hash), "3I42H3S6NNFQ2MSVX7XZKYAYSCX5QBYJ");
    assert_eq!(
        string_to_bytes("3I42H3S6NNFQ2MSVX7XZKYAYSCX5QBYJ"),
        Some(hash)
    );
}

#[test]
fn decode_rejects_what_is_no_digest() {
    assert_eq!(string_to_bytes(""), None);
    assert_eq!(string_to_bytes("-"), None);
    assert_eq!(string_to_bytes("ZHYT52YPEOCHJD5FZINSDYXGQZI22WJ"), None);
    assert_eq!(string_to_bytes("ZHYT52YPEOCHJD5FZINSDYXGQZI22WJ44"), None);
    assert_eq!(string_to_bytes("zhyt52ypeochjd5fzinsdyxgqzi22wj4"), None);
    assert_eq!(string_to_bytes("ZHYT52YPEOCHJD5FZINSDYXGQZI22WJ1"), None);
    assert_eq!(string_to_bytes("ZHYT52YPEOCHJD5FZINSDYXGQZI22WJ="), None);
    assert_eq!(string_to_bytes("ZHYT52Y=ZHYT52Y=ZHYT52Y=ZHYT52Y="), None);
    assert_eq!(string_to_bytes("AA======AA======AA======AA======"), None);
    // 32 bytes, but not 32 characters.
    assert_eq!(string_to_bytes("ZHYT52YPEOCHJD5FZINSDYXGQZI22é"), None);
}

#[test]
fn validator_accepts_exactly_the_alphabet() {
    assert!(is_valid_digest("ZHYT52YPEOCHJD5FZINSDYXGQZI22WJ4"));
    assert!(is_valid_digest("22222222222222222222222222222222"));
    assert!(is_valid_digest("ZZZZZZZZZZZZZZZZZZZZZZZZZZZZZZZZ"));
    assert!(!is_valid_digest(""));
    assert!(!is_valid_digest("-"));
    assert!(!is_valid_digest("ZHYT52YPEOCHJD5FZINSDYXGQZI22WJ"));
    assert!(!is_valid_digest("ZHYT52YPEOCHJD5FZINSDYXGQZI22WJ44"));
    for bad in ['0', '1', '8', '9', 'a', 'z', '=', ' ', '@', '[', '/', ':'] {
        let mut text = String::from("ZHYT52YPEOCHJD5FZINSDYXGQZI22WJ");
        text.push(bad);
        assert!(!is_valid_digest(&text), "{}", text);
    }
    for good in DIGEST_CHARS {
        let mut text = String::from("ZHYT52YPEOCHJD5FZINSDYXGQZI22WJ");
        text.push(good);
        assert!(is_valid_digest(&text), "{}", text);
        let bytes = string_to_bytes(&text).unwrap();
        assert_eq!(bytes_to_string(&bytes), text);
    }
}

#[test]
fn compute_digest_of_known_inputs() {
    assert_eq!(compute_digest(b""), "3I42H3S6NNFQ2MSVX7XZKYAYSCX5QBYJ");
    // SHA-1("abc") = a9993e364706816aba3e25717850c26c9cd0d89d
    assert_eq!(compute_digest(b"abc"), "VGMT4NSHA2AWVOR6EVYXQUGCNSONBWE5");
}

#[test]
fn compute_digest_gz_reads_through_the_compression() {
    // gzip of the three bytes "abc", without a name or a time.
    let stream: [u8; 23] = [
        0x1f, 0x8b, 0x08, 0x00, 0x00, 0x00, 0x00, 0x00, 0x00, 0x03, 0x4b, 0x4c, 0x4a, 0x06, 0x00,
        0xc2, 0x41, 0x24, 0x35, 0x03, 0x00, 0x00, 0x00,
    ];
    assert_eq!(
        compute_digest_gz(&stream),
        Ok("VGMT4NSHA2AWVOR6EVYXQUGCNSONBWE5".to_string())
    );
    assert_eq!(compute_digest_gz(b"abc"), Err(Error::InvalidGzip));
    assert_eq!(compute_digest_gz(b""), Err(Error::InvalidGzip));
}
