//! Calls into the hashing, encoding and cipher crates, each behind a contract.
use vstd::prelude::*;

use cipher::{BlockDecrypt, BlockEncrypt, KeyInit};

verus! {

/// The 16-byte MD5 digest of a byte string.
pub uninterp spec fn md5_digest(data: Seq<u8>) -> Seq<u8>;

/// AES-128 encryption of one 16-byte block under a 16-byte key.
pub uninterp spec fn aes128_encrypt(key: Seq<u8>, block: Seq<u8>) -> Seq<u8>;

/// Blowfish (big-endian) decryption of one 8-byte block under a key.
pub uninterp spec fn blowfish_decrypt(key: Seq<u8>, block: Seq<u8>) -> Seq<u8>;

/// The lower-case ASCII hex digit of a value below 16.
pub open spec fn hex_digit(v: u8) -> u8 {
    if v < 10 {
        (v + 48) as u8
    } else {
        (v + 87) as u8
    }
}

/// Lower-case hex of a byte string, as ASCII bytes: two digits per byte, high nibble first.
pub open spec fn hex_ascii(data: Seq<u8>) -> Seq<u8> {
    Seq::new(
        2 * data.len(),
        |i: int|
            if i % 2 == 0 {
                hex_digit(data[i / 2] / 16)
            } else {
                hex_digit(data[i / 2] % 16)
            },
    )
}

/// Lower-case hex of a byte string, as characters.
pub open spec fn hex_chars(data: Seq<u8>) -> Seq<char> {
    hex_ascii(data).map_values(|b: u8| b as char)
}

/// Relies on md5::compute: it returns the MD5 digest of the given bytes.
#[verifier::external_body]
pub(crate) fn md5_compute(data: &[u8]) -> (r: [u8; 16])
    ensures
        r@ == md5_digest(data@),
{
    md5::compute(data).0
}

/// Relies on hex::encode: two lower-case hex digits per byte, high nibble first.
#[verifier::external_body]
pub(crate) fn hex_encode(data: &[u8]) -> (r: String)
    ensures
        r@ == hex_chars(data@),
{
    hex::encode(data)
}

/// Relies on aes::Aes128Enc (KeyInit::new, then BlockEncrypt::encrypt_block):
/// the AES-128 encryption of one block.
#[verifier::external_body]
pub(crate) fn aes128_encrypt_block(key: &[u8; 16], block: &[u8; 16]) -> (r: [u8; 16])
    ensures
        r@ == aes128_encrypt(key@, block@),
{
    let cipher = aes::Aes128Enc::new(key.into());
    let mut out = generic_array::GenericArray::from(*block);
    cipher.encrypt_block(&mut out);
    out.into()
}

/// The `j`-th 8-byte block of a byte string.
pub open spec fn block8(data: Seq<u8>, j: int) -> Seq<u8> {
    data.subrange(8 * j, 8 * j + 8)
}

/// Blowfish decryption of each 8-byte block on its own.
pub open spec fn blowfish_decrypt_ecb(key: Seq<u8>, data: Seq<u8>) -> Seq<u8> {
    Seq::new(data.len(), |i: int| blowfish_decrypt(key, block8(data, i / 8))[i % 8])
}

/// Relies on blowfish::Blowfish (KeyInit::new_from_slice, which accepts keys of
/// 4 to 56 bytes, then BlockDecrypt::decrypt_blocks): each 8-byte block is
/// decrypted on its own.
#[verifier::external_body]
pub(crate) fn blowfish_decrypt_blocks(key: &[u8; 16], data: &[u8]) -> (r: Vec<u8>)
    requires
        data@.len() % 8 == 0,
    ensures
        r@ == blowfish_decrypt_ecb(key@, data@),
{
    let cipher: blowfish::Blowfish = blowfish::Blowfish::new_from_slice(key).unwrap();
    let mut blocks: Vec<generic_array::GenericArray<u8, cipher::consts::U8>> =
        data.chunks_exact(8).map(generic_array::GenericArray::clone_from_slice).collect();
    cipher.decrypt_blocks(&mut blocks);
    blocks.iter().flatten().copied().collect()
}

/// Relies on blowfish::Blowfish (KeyInit::new_from_slice, then
/// BlockEncrypt::encrypt_block): the result decrypts back to the block.
#[verifier::external_body]
pub(crate) fn blowfish_encrypt_block(key: &[u8; 16], block: [u8; 8]) -> (r: [u8; 8])
    ensures
        blowfish_decrypt(key@, r@) == block@,
{
    let cipher: blowfish::Blowfish = blowfish::Blowfish::new_from_slice(key).unwrap();
    let mut b = generic_array::GenericArray::from(block);
    cipher.encrypt_block(&mut b);
    b.into()
}

} // verus!
