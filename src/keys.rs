//! Per-track key material: the stream cipher key and the download-path fragment.
use vstd::prelude::*;
use vstd::utf8::encode_utf8;
use vstd::arithmetic::div_mod::lemma_fundamental_div_mod_converse;

use vstd::string::{StrSliceExecFns, StringExecFns};

use crate::model::{is_origin_hash, Track};
use crate::crypto::{
    aes128_encrypt, aes128_encrypt_block, hex_ascii, hex_chars, hex_encode, md5_compute,
    md5_digest,
};

verus! {

/// The fixed secret mixed into every content key.
pub const CONTENT_KEY_SECRET: [u8; 16] = [
    103, 52, 101, 108, 53, 56, 119, 99, 48, 122, 118, 102, 57, 110, 97, 49,
];

/// The fixed AES-128 key of the download-path fragment.
pub const URL_KEY: [u8; 16] = [
    106, 111, 54, 97, 101, 121, 54, 104, 97, 105, 100, 50, 84, 101, 105, 104,
];

/// The separator byte between the fields of the download-path fragment.
pub const URL_SEPARATOR: u8 = 0xa4;

/// The ASCII decimal digits of a natural number, without leading zeros.
pub open spec fn decimal(n: nat) -> Seq<u8>
    decreases n,
{
    if n < 10 {
        seq![(n + 48) as u8]
    } else {
        decimal(n / 10).push((n % 10 + 48) as u8)
    }
}

/// The content key of a track: hex MD5 of its decimal identifier, first half
/// XOR second half XOR the fixed secret.
pub open spec fn content_key(id: u64) -> Seq<u8> {
    let h = hex_ascii(md5_digest(decimal(id as nat)));
    Seq::new(16, |i: int| h[i] ^ h[i + 16] ^ CONTENT_KEY_SECRET@[i])
}

/// The fields of the download-path fragment, joined by the separator byte.
pub open spec fn url_payload(origin: Seq<u8>, quality: nat, id: nat, version: nat) -> Seq<u8> {
    origin + seq![URL_SEPARATOR] + decimal(quality) + seq![URL_SEPARATOR] + decimal(id) + seq![
        URL_SEPARATOR,
    ] + decimal(version)
}

/// Zero bytes appended until the length is a multiple of 16.
pub open spec fn zero_pad16(s: Seq<u8>) -> Seq<u8> {
    let extra = if s.len() % 16 == 0 {
        0
    } else {
        16 - s.len() % 16
    };
    s + Seq::new(extra as nat, |i: int| 0u8)
}

/// The buffer that is encrypted to give the download-path fragment.
pub open spec fn url_plaintext(payload: Seq<u8>) -> Seq<u8> {
    zero_pad16(hex_ascii(md5_digest(payload)) + seq![URL_SEPARATOR] + payload + seq![URL_SEPARATOR])
}

/// AES-128 in electronic-codebook mode: each 16-byte block encrypted on its own.
pub open spec fn aes128_ecb(key: Seq<u8>, data: Seq<u8>) -> Seq<u8> {
    Seq::new(
        data.len(),
        |i: int| aes128_encrypt(key, data.subrange(16 * (i / 16), 16 * (i / 16) + 16))[i % 16],
    )
}

/// The download-path fragment of a track, as hex characters.
pub open spec fn url_fragment(origin: Seq<u8>, quality: nat, id: nat, version: nat) -> Seq<char> {
    hex_chars(aes128_ecb(URL_KEY@, url_plaintext(url_payload(origin, quality, id, version))))
}

/// The ASCII decimal digits of `n`.
pub fn decimal_ascii(n: u64) -> (r: Vec<u8>)
    ensures
        r@ == decimal(n as nat),
    decreases n,
{
    if n < 10 {
        let mut v: Vec<u8> = Vec::new();
        v.push(n as u8 + 48);
        v
    } else {
        let mut v = decimal_ascii(n / 10);
        v.push((n % 10) as u8 + 48);
        v
    }
}

proof fn lemma_hex_chars_ascii(data: Seq<u8>)
    ensures
        vstd::utf8::is_ascii_chars(hex_chars(data)),
        encode_utf8(hex_chars(data)) == hex_ascii(data),
{
    assert(vstd::utf8::is_ascii_chars(hex_chars(data)));
    vstd::utf8::is_ascii_chars_encode_utf8(hex_chars(data));
    assert(encode_utf8(hex_chars(data)) =~= hex_ascii(data));
}

/// Lower-case hex of `data` as ASCII bytes.
pub fn hex_bytes(data: &[u8]) -> (r: Vec<u8>)
    ensures
        r@ == hex_ascii(data@),
{
    let s = hex_encode(data);
    let b = s.as_str().as_bytes();
    proof {
        lemma_hex_chars_ascii(data@);
    }
    let mut out: Vec<u8> = Vec::new();
    let mut i: usize = 0;
    while i < b.len()
        invariant
            b@ == hex_ascii(data@),
            i <= b@.len(),
            out@ == b@.take(i as int),
        decreases b@.len() - i,
    {
        out.push(b[i]);
        i += 1;
        assert(out@ =~= b@.take(i as int));
    }
    assert(out@ =~= b@);
    out
}

/// Appends `s` to `out`.
fn append(out: &mut Vec<u8>, s: &[u8])
    ensures
        final(out)@ == old(out)@ + s@,
{
    let ghost start = out@;
    let mut i: usize = 0;
    while i < s.len()
        invariant
            i <= s@.len(),
            out@ == start + s@.take(i as int),
        decreases s@.len() - i,
    {
        out.push(s[i]);
        i += 1;
        assert(out@ =~= start + s@.take(i as int));
    }
    assert(s@.take(s@.len() as int) =~= s@);
}

proof fn lemma_xor3_ascii(a: u8, b: u8, c: u8)
    requires
        a < 128,
        b < 128,
        c < 128,
    ensures
        a ^ b ^ c < 128,
{
    assert(a < 128 && b < 128 && c < 128 ==> a ^ b ^ c < 128) by (bit_vector);
}

/// The 16-byte content key of a track, which decrypts its stream.
pub fn generate_blowfish_key(track: &Track) -> (r: [u8; 16])
    ensures
        r@ == content_key(track.id),
        md5_digest(decimal(track.id as nat)).len() == 16,
        forall|i: int| 0 <= i < 16 ==> r@[i] < 128,
{
    let id = decimal_ascii(track.id);
    let digest = md5_compute(id.as_slice());
    let h = hex_bytes(&digest);
    let mut key = [0u8; 16];
    let mut i: usize = 0;
    while i < 16
        invariant
            h@ == hex_ascii(md5_digest(decimal(track.id as nat))),
            h@.len() == 32,
            i <= 16,
            forall|k: int| 0 <= k < i ==> key@[k] == content_key(track.id)[k],
            forall|k: int| 0 <= k < i ==> key@[k] < 128,
        decreases 16 - i,
    {
        let s = CONTENT_KEY_SECRET[i];
        proof {
            lemma_xor3_ascii(h@[i as int], h@[i + 16], s);
        }
        key[i] = h[i] ^ h[i + 16] ^ s;
        i += 1;
    }
    assert(key@ =~= content_key(track.id));
    key
}

/// The download-path fragment of a track at the given quality.
pub fn generate_url_key(track: &Track, quality: usize) -> (r: String)
    ensures
        r@ == url_fragment(
            encode_utf8(track.md5_origin@),
            quality as nat,
            track.id as nat,
            track.media_version as nat,
        ),
        ({
            let payload = url_payload(
                encode_utf8(track.md5_origin@),
                quality as nat,
                track.id as nat,
                track.media_version as nat,
            );
            &&& md5_digest(payload).len() == 16
            &&& url_plaintext(payload).len() % 16 == 0
            &&& r@.len() == 2 * url_plaintext(payload).len()
        }),
{
    let ghost payload = url_payload(
        encode_utf8(track.md5_origin@),
        quality as nat,
        track.id as nat,
        track.media_version as nat,
    );
    let mut data: Vec<u8> = Vec::new();
    append(&mut data, track.md5_origin.as_str().as_bytes());
    data.push(URL_SEPARATOR);
    let q = decimal_ascii(quality as u64);
    append(&mut data, q.as_slice());
    data.push(URL_SEPARATOR);
    let id = decimal_ascii(track.id);
    append(&mut data, id.as_slice());
    data.push(URL_SEPARATOR);
    let version = decimal_ascii(track.media_version);
    append(&mut data, version.as_slice());
    assert(data@ =~= payload);

    let digest = md5_compute(data.as_slice());
    let digest_hex = hex_bytes(&digest);
    let mut full: Vec<u8> = Vec::new();
    append(&mut full, digest_hex.as_slice());
    full.push(URL_SEPARATOR);
    append(&mut full, data.as_slice());
    full.push(URL_SEPARATOR);
    let ghost unpadded = full@;
    assert(unpadded =~= hex_ascii(md5_digest(payload)) + seq![URL_SEPARATOR] + payload + seq![URL_SEPARATOR]);
    let rem = full.len() % 16;
    if rem != 0 {
        let extra = 16 - rem;
        let mut k: usize = 0;
        while k < extra
            invariant
                k <= extra,
                full@ == unpadded + Seq::new(k as nat, |i: int| 0u8),
            decreases extra - k,
        {
            full.push(0u8);
            k += 1;
            assert(full@ =~= unpadded + Seq::new(k as nat, |i: int| 0u8));
        }
    } else {
        assert(full@ =~= unpadded + Seq::new(0, |i: int| 0u8));
    }
    assert(full@ =~= url_plaintext(payload));

    let mut out: Vec<u8> = Vec::new();
    let mut b: usize = 0;
    while b < full.len()
        invariant
            full@ == url_plaintext(payload),
            full@.len() % 16 == 0,
            b % 16 == 0,
            b <= full@.len(),
            out@ == aes128_ecb(URL_KEY@, full@).take(b as int),
        decreases full@.len() - b,
    {
        let mut block = [0u8; 16];
        let mut t: usize = 0;
        while t < 16
            invariant
                b + 16 <= full@.len(),
                full@.len() <= usize::MAX,
                t <= 16,
                forall|k: int| 0 <= k < t ==> block@[k] == full@[b + k],
            decreases 16 - t,
        {
            block[t] = full[b + t];
            t += 1;
        }
        assert(block@ =~= full@.subrange(b as int, b + 16));
        let enc = aes128_encrypt_block(&URL_KEY, &block);
        let ghost before = out@;
        append(&mut out, &enc);
        proof {
            let q = b as int / 16;
            assert forall|i: int| 0 <= i < b + 16 implies #[trigger] out@[i] == aes128_ecb(
                URL_KEY@,
                full@,
            )[i] by {
                if i >= b {
                    lemma_fundamental_div_mod_converse(i, 16, q, i - b);
                }
            }
        }
        b += 16;
        assert(out@ =~= aes128_ecb(URL_KEY@, full@).take(b as int));
    }
    assert(out@ =~= aes128_ecb(URL_KEY@, full@));
    hex_encode(out.as_slice())
}

/// The host that serves a track's stream, chosen by the first character of
/// its origin hash.
pub open spec fn cdn_host(origin: Seq<char>) -> Seq<char> {
    "e-cdns-proxy-"@ + origin.take(1) + ".dzcdn.net"@
}

/// The path of a track's stream on its host.
pub open spec fn cdn_path(fragment: Seq<char>) -> Seq<char> {
    "/mobile/1/"@ + fragment
}

/// The host and path of a track's stream at the given quality; none for a
/// track without a well-formed origin hash.
pub fn stream_location(track: &Track, quality: usize) -> (r: Option<(String, String)>)
    ensures
        r is Some <==> is_origin_hash(encode_utf8(track.md5_origin@)),
        r matches Some(loc) ==> {
            &&& loc.0@ == cdn_host(track.md5_origin@)
            &&& loc.1@ == cdn_path(
                url_fragment(
                    encode_utf8(track.md5_origin@),
                    quality as nat,
                    track.id as nat,
                    track.media_version as nat,
                ),
            )
        },
{
    if !track.has_valid_origin() {
        return None;
    }
    proof {
        if track.md5_origin@.len() == 0 {
            assert(encode_utf8(track.md5_origin@) =~= Seq::<u8>::empty());
        }
    }
    let origin = track.md5_origin.as_str();
    let mut host = String::from_str("e-cdns-proxy-");
    host.append(origin.substring_char(0, 1));
    host.append(".dzcdn.net");
    let fragment = generate_url_key(track, quality);
    let mut path = String::from_str("/mobile/1/");
    path.append(fragment.as_str());
    Some((host, path))
}

/// Key derivation is a function of the track metadata alone: tracks with the
/// same identifier get the same content key, and tracks that also share the
/// origin hash and media version get the same download-path fragment at a
/// given quality, in every run.
pub proof fn lemma_derivation_deterministic(a: Track, b: Track, quality: nat)
    requires
        a.id == b.id,
    ensures
        content_key(a.id) == content_key(b.id),
        a.md5_origin@ == b.md5_origin@ && a.media_version == b.media_version ==> url_fragment(
            encode_utf8(a.md5_origin@),
            quality,
            a.id as nat,
            a.media_version as nat,
        ) == url_fragment(encode_utf8(b.md5_origin@), quality, b.id as nat, b.media_version as nat),
{
}

} // verus!
