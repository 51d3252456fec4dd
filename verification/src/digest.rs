//! Digests as the Wayback Machine uses them: the SHA-1 hash of a capture,
//! written as 32 characters of Base32.

use data_encoding::BASE32;
use flate2::read::GzDecoder;
use flate2::{Compression, GzBuilder};
use sha1::{Digest, Sha1};
use std::io::{Read, Write};
use vstd::prelude::*;
use vstd::string::*;
use vstd::utf8::*;

verus! {

/// The characters a digest may hold, in ascending order.
pub const DIGEST_CHARS: [char; 32] = [
    '2', '3', '4', '5', '6', '7', 'A', 'B', 'C', 'D', 'E', 'F', 'G', 'H', 'I', 'J', 'K', 'L', 'M',
    'N', 'O', 'P', 'Q', 'R', 'S', 'T', 'U', 'V', 'W', 'X', 'Y', 'Z',
];

/// Whether `c` belongs to the digest alphabet: `2`-`7` or `A`-`Z`.
pub open spec fn is_digest_char(c: char) -> bool {
    ('2' <= c && c <= '7') || ('A' <= c && c <= 'Z')
}

/// Whether `s` is a digest: exactly 32 characters, all of the digest alphabet.
pub open spec fn is_digest_text(s: Seq<char>) -> bool {
    &&& s.len() == 32
    &&& forall|i: int| 0 <= i < s.len() ==> is_digest_char(#[trigger] s[i])
}

/// Whether the byte `b` is the ASCII code of a character of the digest alphabet.
pub open spec fn is_digest_byte(b: u8) -> bool {
    (0x32 <= b && b <= 0x37) || (0x41 <= b && b <= 0x5a)
}

/// Tests one byte against the digest alphabet.
pub fn is_valid_byte(b: u8) -> (valid: bool)
    ensures
        valid == is_digest_byte(b),
{
    (b >= 0x32 && b <= 0x37) || (b >= 0x41 && b <= 0x5a)
}

/// Tests one character against the digest alphabet.
pub fn is_valid_char(c: char) -> (valid: bool)
    ensures
        valid == is_digest_char(c),
{
    (c >= '2' && c <= '7') || (c >= 'A' && c <= 'Z')
}

/// Whether every byte of `bytes` before `end` is of the digest alphabet.
pub open spec fn digest_bytes_upto(bytes: Seq<u8>, end: int) -> bool {
    forall|i: int| 0 <= i < end ==> is_digest_byte(#[trigger] bytes[i])
}

/// For ASCII text, a character is of the digest alphabet exactly when its
/// byte is.
pub proof fn lemma_digest_char_byte(c: char)
    requires
        '\0' <= c <= '\u{7f}',
    ensures
        is_digest_char(c) == is_digest_byte(c as u8),
{
}

/// The characters listed are those of the digest alphabet, each once.
pub proof fn lemma_digest_chars()
    ensures
        forall|i: int| 0 <= i < 32 ==> is_digest_char(#[trigger] DIGEST_CHARS@[i]),
        forall|i: int, j: int|
            0 <= i < j < 32 ==> (#[trigger] DIGEST_CHARS@[i]) < (#[trigger] DIGEST_CHARS@[j]),
{
}

/// Decides whether `input` is a digest.
pub fn is_valid_digest(input: &str) -> (valid: bool)
    ensures
        valid == is_digest_text(input@),
{
    if !input.is_ascii() {
        proof {
            let i = choose|i: int| 0 <= i < input@.len() && !('\0' <= #[trigger] input@[i] <= '\u{7f}');
            assert(!is_digest_char(input@[i]));
        }
        return false;
    }
    let bytes = input.as_bytes();
    proof {
        is_ascii_spec_bytes(input);
    }
    if bytes.len() != 32 {
        return false;
    }
    let mut i: usize = 0;
    while i < 32
        invariant
            i <= 32,
            bytes@.len() == 32,
            input@.len() == 32,
            is_ascii(input),
            bytes@ == input.spec_bytes(),
            forall|k: int| 0 <= k < 32 ==> bytes@[k] == input@[k] as u8,
            forall|k: int| 0 <= k < i ==> is_digest_char(#[trigger] input@[k]),
        decreases 32 - i,
    {
        if !is_valid_byte(bytes[i]) {
            proof {
                lemma_digest_char_byte(input@[i as int]);
            }
            return false;
        }
        proof {
            lemma_digest_char_byte(input@[i as int]);
        }
        i += 1;
    }
    true
}

/// The text as bytes, one per character; meaningful for ASCII text.
pub open spec fn ascii_bytes(text: Seq<char>) -> Seq<u8> {
    Seq::new(text.len(), |i: int| text[i] as u8)
}

/// The number a symbol of the Base32 alphabet stands for: `A`-`Z` are 0 to
/// 25 and `2`-`7` are 26 to 31.
pub open spec fn symbol_value(b: u8) -> u64 {
    if 0x41 <= b && b <= 0x5a {
        (b - 0x41) as u64
    } else if 0x32 <= b && b <= 0x37 {
        (b - 0x32 + 26) as u64
    } else {
        0
    }
}

/// The symbol of the Base32 alphabet that stands for `v`, for `v` below 32.
pub open spec fn symbol_char(v: u64) -> char {
    if v < 26 {
        ((0x41 + v) as u8) as char
    } else {
        ((0x32 + v - 26) as u8) as char
    }
}

/// Five octets as one 40-bit number, the first octet highest.
pub open spec fn pack_octets(b0: u64, b1: u64, b2: u64, b3: u64, b4: u64) -> u64 {
    b0 << 32 | b1 << 24 | b2 << 16 | b3 << 8 | b4
}

/// Eight 5-bit numbers as one 40-bit number, the first highest.
pub open spec fn pack_quintets(
    v0: u64,
    v1: u64,
    v2: u64,
    v3: u64,
    v4: u64,
    v5: u64,
    v6: u64,
    v7: u64,
) -> u64 {
    v0 << 35 | v1 << 30 | v2 << 25 | v3 << 20 | v4 << 15 | v5 << 10 | v6 << 5 | v7
}

/// The `k`-th group of 5 bits of a 40-bit number, counted from the top.
pub open spec fn quintet(x: u64, k: int) -> u64 {
    (x >> ((35 - 5 * k) as u64)) & 31
}

/// The `j`-th group of 8 bits of a 40-bit number, counted from the top.
pub open spec fn octet(x: u64, j: int) -> u64 {
    (x >> ((32 - 8 * j) as u64)) & 255
}

/// The 40 bits held by the `g`-th group of five bytes.
pub open spec fn bits_of_bytes(bytes: Seq<u8>, g: int) -> u64 {
    pack_octets(
        bytes[5 * g] as u64,
        bytes[5 * g + 1] as u64,
        bytes[5 * g + 2] as u64,
        bytes[5 * g + 3] as u64,
        bytes[5 * g + 4] as u64,
    )
}

/// The 40 bits that the `g`-th group of eight symbols stands for.
pub open spec fn bits_of_symbols(text: Seq<u8>, g: int) -> u64 {
    pack_quintets(
        symbol_value(text[8 * g]),
        symbol_value(text[8 * g + 1]),
        symbol_value(text[8 * g + 2]),
        symbol_value(text[8 * g + 3]),
        symbol_value(text[8 * g + 4]),
        symbol_value(text[8 * g + 5]),
        symbol_value(text[8 * g + 6]),
        symbol_value(text[8 * g + 7]),
    )
}

/// The Base32 text of a 20-byte hash: each group of five bytes, most
/// significant bit first, gives eight symbols of five bits each.
pub open spec fn base32_text(bytes: Seq<u8>) -> Seq<char> {
    Seq::new(32, |i: int| symbol_char(quintet(bits_of_bytes(bytes, i / 8), i % 8)))
}

/// The 20 bytes that 32 symbols of the Base32 alphabet stand for.
pub open spec fn base32_bytes(text: Seq<u8>) -> Seq<u8> {
    Seq::new(20, |j: int| octet(bits_of_symbols(text, j / 5), j % 5) as u8)
}

/// The hash a digest stands for.
pub open spec fn digest_to_hash(digest: Seq<char>) -> Seq<u8> {
    base32_bytes(ascii_bytes(digest))
}

/// Calls `BASE32.encode` of data-encoding on a 20-byte hash. The claim is
/// that of RFC 4648, to which the crate says this encoding conforms: the
/// bytes are read in groups of five and each group is written as eight
/// symbols of the alphabet `A`-`Z`, `2`-`7`. Twenty bytes need no padding.
#[verifier::external_body]
fn base32_encode(bytes: &[u8; 20]) -> (text: String)
    ensures
        text@ == base32_text(bytes@),
{
    BASE32.encode(bytes)
}

/// Calls `BASE32.decode_mut` of data-encoding on 32 bytes of input and a
/// buffer of 20. The claim: all twenty bytes are written exactly when every
/// input byte is a symbol of the alphabet, and they are then the bytes that
/// the symbols stand for. Padding or a byte outside the alphabet gives an
/// error or a smaller count.
#[verifier::external_body]
fn base32_decode(input: &[u8], output: &mut [u8; 20]) -> (count: Option<usize>)
    requires
        input@.len() == 32,
    ensures
        count == Some(20usize) <==> digest_bytes_upto(input@, 32),
        count == Some(20usize) ==> final(output)@ == base32_bytes(input@),
{
    BASE32.decode_mut(input, output).ok()
}

/// Decodes a digest into the 20 bytes of its hash. Anything that is not a
/// digest gives `None`.
pub fn string_to_bytes(input: &str) -> (hash: Option<[u8; 20]>)
    ensures
        hash is Some <==> is_digest_text(input@),
        hash matches Some(bytes) ==> bytes@ == digest_to_hash(input@),
{
    if !input.is_ascii() {
        proof {
            let i = choose|i: int| 0 <= i < input@.len() && !('\0' <= #[trigger] input@[i] <= '\u{7f}');
            assert(!is_digest_char(input@[i]));
        }
        return None;
    }
    let bytes = input.as_bytes();
    proof {
        is_ascii_spec_bytes(input);
        assert(bytes@ =~= ascii_bytes(input@));
        assert forall|i: int| 0 <= i < input@.len() implies is_digest_char(#[trigger] input@[i])
            == is_digest_byte(bytes@[i]) by {
            lemma_digest_char_byte(input@[i]);
        }
    }
    if bytes.len() != 32 {
        return None;
    }
    let mut output = [0u8; 20];
    let count = base32_decode(bytes, &mut output);
    proof {
        if digest_bytes_upto(bytes@, 32) {
            assert(is_digest_text(input@));
        }
        if is_digest_text(input@) {
            assert(digest_bytes_upto(bytes@, 32));
        }
    }
    match count {
        Some(n) => if n == 20 {
            Some(output)
        } else {
            None
        },
        None => None,
    }
}

/// Encodes a 20-byte hash as a digest.
pub fn bytes_to_string(bytes: &[u8; 20]) -> (digest: String)
    ensures
        digest@ == base32_text(bytes@),
{
    base32_encode(bytes)
}

/// Eight 5-bit numbers, packed, come back as the quintets of the packed
/// number, and its octets pack to the same number.
proof fn lemma_quintets_packed(
    v0: u64,
    v1: u64,
    v2: u64,
    v3: u64,
    v4: u64,
    v5: u64,
    v6: u64,
    v7: u64,
)
    requires
        v0 < 32,
        v1 < 32,
        v2 < 32,
        v3 < 32,
        v4 < 32,
        v5 < 32,
        v6 < 32,
        v7 < 32,
    ensures
        ({
            let x = pack_quintets(v0, v1, v2, v3, v4, v5, v6, v7);
            &&& quintet(x, 0) == v0
            &&& quintet(x, 1) == v1
            &&& quintet(x, 2) == v2
            &&& quintet(x, 3) == v3
            &&& quintet(x, 4) == v4
            &&& quintet(x, 5) == v5
            &&& quintet(x, 6) == v6
            &&& quintet(x, 7) == v7
            &&& pack_octets(octet(x, 0), octet(x, 1), octet(x, 2), octet(x, 3), octet(x, 4)) == x
        }),
{
    let x = v0 << 35 | v1 << 30 | v2 << 25 | v3 << 20 | v4 << 15 | v5 << 10 | v6 << 5 | v7;
    assert((x >> 35) & 31 == v0 && (x >> 30) & 31 == v1 && (x >> 25) & 31 == v2 && (x >> 20) & 31
        == v3 && (x >> 15) & 31 == v4 && (x >> 10) & 31 == v5 && (x >> 5) & 31 == v6 && (x >> 0)
        & 31 == v7 && (((x >> 32) & 255) << 32 | ((x >> 24) & 255) << 24 | ((x >> 16) & 255) << 16
        | ((x >> 8) & 255) << 8 | ((x >> 0) & 255)) == x) by (bit_vector)
        requires
            x == v0 << 35 | v1 << 30 | v2 << 25 | v3 << 20 | v4 << 15 | v5 << 10 | v6 << 5 | v7,
            v0 < 32,
            v1 < 32,
            v2 < 32,
            v3 < 32,
            v4 < 32,
            v5 < 32,
            v6 < 32,
            v7 < 32,
    ;
}

/// Five octets, packed, come back as the octets of the packed number, and
/// its quintets are below 32 and pack to the same number.
proof fn lemma_octets_packed(b0: u64, b1: u64, b2: u64, b3: u64, b4: u64)
    requires
        b0 < 256,
        b1 < 256,
        b2 < 256,
        b3 < 256,
        b4 < 256,
    ensures
        ({
            let y = pack_octets(b0, b1, b2, b3, b4);
            &&& octet(y, 0) == b0
            &&& octet(y, 1) == b1
            &&& octet(y, 2) == b2
            &&& octet(y, 3) == b3
            &&& octet(y, 4) == b4
            &&& forall|k: int| 0 <= k < 8 ==> #[trigger] quintet(y, k) < 32
            &&& pack_quintets(
                quintet(y, 0),
                quintet(y, 1),
                quintet(y, 2),
                quintet(y, 3),
                quintet(y, 4),
                quintet(y, 5),
                quintet(y, 6),
                quintet(y, 7),
            ) == y
        }),
{
    let y = b0 << 32 | b1 << 24 | b2 << 16 | b3 << 8 | b4;
    assert((y >> 32) & 255 == b0 && (y >> 24) & 255 == b1 && (y >> 16) & 255 == b2 && (y >> 8)
        & 255 == b3 && (y >> 0) & 255 == b4 && (((y >> 35) & 31) << 35 | ((y >> 30) & 31) << 30 | (
    (y >> 25) & 31) << 25 | ((y >> 20) & 31) << 20 | ((y >> 15) & 31) << 15 | ((y >> 10) & 31)
        << 10 | ((y >> 5) & 31) << 5 | ((y >> 0) & 31)) == y) by (bit_vector)
        requires
            y == b0 << 32 | b1 << 24 | b2 << 16 | b3 << 8 | b4,
            b0 < 256,
            b1 < 256,
            b2 < 256,
            b3 < 256,
            b4 < 256,
    ;
    assert forall|k: int| 0 <= k < 8 implies #[trigger] quintet(y, k) < 32 by {
        let s = (35 - 5 * k) as u64;
        assert((y >> s) & 31 < 32) by (bit_vector);
    }
}

/// A symbol's number is below 32 and names the symbol again.
proof fn lemma_symbol_value(b: u8)
    requires
        is_digest_byte(b),
    ensures
        symbol_value(b) < 32,
        symbol_char(symbol_value(b)) == b as char,
{
}

/// The symbol for a number below 32 is of the digest alphabet and stands
/// for that number.
proof fn lemma_symbol_char(v: u64)
    requires
        v < 32,
    ensures
        is_digest_char(symbol_char(v)),
        '\0' <= symbol_char(v) <= '\u{7f}',
        symbol_value(symbol_char(v) as u8) == v,
{
}

/// Decoding a digest and encoding the hash gives the digest back.
pub proof fn lemma_digest_round_trip(digest: Seq<char>)
    requires
        is_digest_text(digest),
    ensures
        digest_to_hash(digest).len() == 20,
        base32_text(digest_to_hash(digest)) == digest,
{
    let text = ascii_bytes(digest);
    let hash = digest_to_hash(digest);
    assert forall|i: int| 0 <= i < 32 implies is_digest_byte(#[trigger] text[i]) && text[i] as char
        == digest[i] by {
        assert(is_digest_char(digest[i]));
    }
    assert forall|i: int| 0 <= i < 32 implies #[trigger] base32_text(hash)[i] == digest[i] by {
        let g = i / 8;
        let k = i % 8;
        assert(i == 8 * g + k);
        assert(0 <= g < 4);
        lemma_symbol_value(text[8 * g]);
        lemma_symbol_value(text[8 * g + 1]);
        lemma_symbol_value(text[8 * g + 2]);
        lemma_symbol_value(text[8 * g + 3]);
        lemma_symbol_value(text[8 * g + 4]);
        lemma_symbol_value(text[8 * g + 5]);
        lemma_symbol_value(text[8 * g + 6]);
        lemma_symbol_value(text[8 * g + 7]);
        let x = bits_of_symbols(text, g);
        lemma_quintets_packed(
            symbol_value(text[8 * g]),
            symbol_value(text[8 * g + 1]),
            symbol_value(text[8 * g + 2]),
            symbol_value(text[8 * g + 3]),
            symbol_value(text[8 * g + 4]),
            symbol_value(text[8 * g + 5]),
            symbol_value(text[8 * g + 6]),
            symbol_value(text[8 * g + 7]),
        );
        assert forall|j: int| 0 <= j < 5 implies hash[5 * g + j] as u64 == #[trigger] octet(x, j) by {
            assert((5 * g + j) / 5 == g);
            assert((5 * g + j) % 5 == j);
            let s = (32 - 8 * j) as u64;
            assert(((x >> s) & 255) < 256) by (bit_vector);
        }
        assert(hash[5 * g] as u64 == octet(x, 0));
        assert(hash[5 * g + 1] as u64 == octet(x, 1));
        assert(hash[5 * g + 2] as u64 == octet(x, 2));
        assert(hash[5 * g + 3] as u64 == octet(x, 3));
        assert(hash[5 * g + 4] as u64 == octet(x, 4));
        assert(bits_of_bytes(hash, g) == x);
        assert(quintet(x, k) == symbol_value(text[i]));
    }
    assert(base32_text(hash) =~= digest);
}

/// Encoding a hash gives a digest, and decoding that digest gives the hash
/// back.
pub proof fn lemma_hash_round_trip(hash: Seq<u8>)
    requires
        hash.len() == 20,
    ensures
        is_digest_text(base32_text(hash)),
        digest_to_hash(base32_text(hash)) == hash,
{
    let digest = base32_text(hash);
    let text = ascii_bytes(digest);
    assert forall|g: int| 0 <= g < 4 implies #[trigger] bits_of_symbols(text, g) == bits_of_bytes(
        hash,
        g,
    ) by {
        let y = bits_of_bytes(hash, g);
        lemma_octets_packed(
            hash[5 * g] as u64,
            hash[5 * g + 1] as u64,
            hash[5 * g + 2] as u64,
            hash[5 * g + 3] as u64,
            hash[5 * g + 4] as u64,
        );
        assert forall|k: int| 0 <= k < 8 implies symbol_value(text[8 * g + k]) == #[trigger] quintet(
            y,
            k,
        ) by {
            assert((8 * g + k) / 8 == g);
            assert((8 * g + k) % 8 == k);
            lemma_symbol_char(quintet(y, k));
        }
        assert(symbol_value(text[8 * g]) == quintet(y, 0));
        assert(symbol_value(text[8 * g + 1]) == quintet(y, 1));
        assert(symbol_value(text[8 * g + 2]) == quintet(y, 2));
        assert(symbol_value(text[8 * g + 3]) == quintet(y, 3));
        assert(symbol_value(text[8 * g + 4]) == quintet(y, 4));
        assert(symbol_value(text[8 * g + 5]) == quintet(y, 5));
        assert(symbol_value(text[8 * g + 6]) == quintet(y, 6));
        assert(symbol_value(text[8 * g + 7]) == quintet(y, 7));
    }
    assert forall|i: int| 0 <= i < 32 implies is_digest_char(#[trigger] digest[i]) by {
        let g = i / 8;
        lemma_octets_packed(
            hash[5 * g] as u64,
            hash[5 * g + 1] as u64,
            hash[5 * g + 2] as u64,
            hash[5 * g + 3] as u64,
            hash[5 * g + 4] as u64,
        );
        lemma_symbol_char(quintet(bits_of_bytes(hash, g), i % 8));
    }
    assert forall|j: int| 0 <= j < 20 implies #[trigger] digest_to_hash(digest)[j] == hash[j] by {
        let g = j / 5;
        assert(j == 5 * g + j % 5);
        assert(bits_of_symbols(text, g) == bits_of_bytes(hash, g));
        lemma_octets_packed(
            hash[5 * g] as u64,
            hash[5 * g + 1] as u64,
            hash[5 * g + 2] as u64,
            hash[5 * g + 3] as u64,
            hash[5 * g + 4] as u64,
        );
    }
    assert(digest_to_hash(digest) =~= hash);
}

/// The SHA-1 hash of a sequence of bytes.
pub uninterp spec fn sha1_hash(input: Seq<u8>) -> Seq<u8>;

/// What a gzip stream decompresses to, or `None` where the bytes are no
/// gzip stream.
pub uninterp spec fn gzip_payload(input: Seq<u8>) -> Option<Seq<u8>>;

/// An I/O error of the standard library, carried through unread.
#[verifier::external_type_specification]
#[verifier::external_body]
pub struct ExIoError(std::io::Error);

/// Calls `Sha1::digest` of the sha1 crate. The result is the SHA-1 hash of
/// the input, which is 20 bytes long.
#[verifier::external_body]
fn sha1_digest(input: &[u8]) -> (hash: [u8; 20])
    ensures
        hash@ == sha1_hash(input@),
{
    Sha1::digest(input).into()
}

/// Reads a `GzDecoder` of flate2 over the input to its end. The bytes read
/// are the payload of the gzip stream; an error means that the input is not
/// one.
#[verifier::external_body]
pub(crate) fn gunzip(input: &[u8]) -> (payload: Result<Vec<u8>, std::io::Error>)
    ensures
        match payload {
            Ok(bytes) => gzip_payload(input@) == Some(bytes@),
            Err(_) => gzip_payload(input@) is None,
        },
{
    let mut buffer = Vec::new();
    match GzDecoder::new(input).read_to_end(&mut buffer) {
        Ok(_) => Ok(buffer),
        Err(error) => Err(error),
    }
}

/// Whether a gzip stream records `name` in its header: the stream begins
/// with the ten fixed bytes of a header, of which the fourth says that a
/// name follows and nothing else, then comes the name, then a zero byte.
pub open spec fn records_name(stream: Seq<u8>, name: Seq<u8>) -> bool {
    &&& stream.len() > 10 + name.len()
    &&& stream[0] == 0x1f
    &&& stream[1] == 0x8b
    &&& stream[2] == 8
    &&& stream[3] == 8
    &&& stream.subrange(10, 10 + name.len() as int) == name
    &&& stream[10 + name.len() as int] == 0
}

/// The gzip stream that packs `content` under the name `filename`, at the
/// default level of compression and with nothing else in its header, or
/// `None` where the packing fails.
pub uninterp spec fn gzip_stream(filename: Seq<char>, content: Seq<u8>) -> Option<Seq<u8>>;

/// Builds a gzip stream with `GzBuilder` of flate2, at the default level of
/// compression, with `filename` as the name recorded in its header, and
/// writes `content` through it into a vector. The builder panics on a name
/// that holds a zero byte, which is left out. The stream depends on the
/// name and the content alone: the header holds no time and no system. The
/// claim is further that a stream that was written decompresses to
/// `content`, and that it begins with the header that the builder makes:
/// the fixed bytes, then the name.
#[verifier::external_body]
pub(crate) fn gzip(filename: &str, content: &[u8]) -> (stream: Result<Vec<u8>, std::io::Error>)
    requires
        !filename@.contains('\0'),
    ensures
        match stream {
            Ok(bytes) => {
                &&& gzip_stream(filename@, content@) == Some(bytes@)
                &&& gzip_payload(bytes@) == Some(content@)
                &&& records_name(bytes@, encode_utf8(filename@))
            },
            Err(_) => gzip_stream(filename@, content@) is None,
        },
{
    let mut encoder = GzBuilder::new().filename(filename).write(Vec::new(), Compression::default());
    match encoder.write_all(content) {
        Ok(_) => encoder.finish(),
        Err(error) => Err(error),
    }
}

/// Why a digest could not be computed or a capture not be packed.
#[derive(Clone, Copy, Debug, PartialEq, Eq, Structural)]
pub enum Error {
    /// The input is not a gzip stream.
    InvalidGzip,
    /// The name to record holds a zero byte.
    InvalidName,
    /// Writing the gzip stream failed.
    Io,
}

/// What packing `content` under the name `filename` comes to: nothing is
/// packed under a name that holds a zero byte, and else the gzip stream is
/// the result, where there is one.
pub open spec fn packed(filename: Seq<char>, content: Seq<u8>) -> Result<Seq<u8>, Error> {
    if filename.contains('\0') {
        Err(Error::InvalidName)
    } else {
        match gzip_stream(filename, content) {
            Some(bytes) => Ok(bytes),
            None => Err(Error::Io),
        }
    }
}

/// The view of what packing gave.
pub open spec fn packed_view(stream: Result<Vec<u8>, Error>) -> Result<Seq<u8>, Error> {
    match stream {
        Ok(bytes) => Ok(bytes@),
        Err(error) => Err(error),
    }
}

/// Packs a capture as a gzip stream that records `filename`. Whatever is
/// packed unpacks to `content` and begins with the header that holds the
/// name.
pub fn compress(filename: &str, content: &[u8]) -> (stream: Result<Vec<u8>, Error>)
    ensures
        packed_view(stream) == packed(filename@, content@),
        stream matches Ok(bytes) ==> {
            &&& gzip_payload(bytes@) == Some(content@)
            &&& records_name(bytes@, encode_utf8(filename@))
        },
{
    if crate::text::contains_char(filename, '\0') {
        return Err(Error::InvalidName);
    }
    match gzip(filename, content) {
        Ok(bytes) => Ok(bytes),
        Err(_) => Err(Error::Io),
    }
}

/// The digest of a capture: the Base32 text of its SHA-1 hash.
pub open spec fn digest_of(content: Seq<u8>) -> Seq<char> {
    base32_text(sha1_hash(content))
}

/// Computes the digest of `input`.
pub fn compute_digest(input: &[u8]) -> (digest: String)
    ensures
        digest@ == digest_of(input@),
        is_digest_text(digest@),
{
    let hash = sha1_digest(input);
    proof {
        lemma_hash_round_trip(hash@);
    }
    bytes_to_string(&hash)
}

/// Computes the digest of what the gzip stream `input` holds, or fails if
/// `input` is no gzip stream.
pub fn compute_digest_gz(input: &[u8]) -> (digest: Result<String, Error>)
    ensures
        match digest {
            Ok(text) => gzip_payload(input@) matches Some(payload) && text@ == digest_of(payload),
            Err(error) => gzip_payload(input@) is None && error == Error::InvalidGzip,
        },
{
    match gunzip(input) {
        Ok(payload) => Ok(compute_digest(payload.as_slice())),
        Err(_) => Err(Error::InvalidGzip),
    }
}

} // verus!
