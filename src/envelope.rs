//! The cipher envelope: a 16-byte IV, then AES-128-CBC ciphertext whose
//! plaintext carries PKCS#7 padding.
use vstd::prelude::*;

use aes::cipher::BlockDecryptMut;
use aes::cipher::KeyIvInit;

verus! {

/// Length of an AES block, of an AES-128 key and of the IV.
pub const BLOCK_LEN: usize = 16;

/// Why an envelope could not be opened.
#[derive(Debug, Clone, Copy, PartialEq, Eq, Structural)]
pub enum CipherError {
    /// Shorter than an IV, or the ciphertext is not a whole number of blocks.
    MalformedCiphertext,
    /// The decrypted last block does not end in valid PKCS#7 padding
    /// (usually a wrong key).
    PaddingError,
}

#[verifier::external_type_specification]
#[verifier::external_body]
pub struct ExUnpadError(aes::cipher::block_padding::UnpadError);

/// The raw AES-128-CBC decryption of `body` under `key` and `iv`, block by
/// block, before any padding is looked at.
pub uninterp spec fn aes128_cbc_blocks(key: Seq<u8>, iv: Seq<u8>, body: Seq<u8>) -> Seq<u8>;

/// The PKCS#7 padding length at the end of `s`, when `s` ends in valid
/// padding for a 16-byte block: a last byte `n` with `1 <= n <= 16`, and the
/// last `n` bytes all equal to `n`.
pub open spec fn pkcs7_pad_len(s: Seq<u8>) -> Option<int> {
    if s.len() == 0 {
        None
    } else {
        let n = s.last() as int;
        if 1 <= n <= BLOCK_LEN && n <= s.len() && (forall|i: int|
            s.len() - n <= i < s.len() ==> #[trigger] s[i] == n) {
            Some(n)
        } else {
            None
        }
    }
}

/// `s` without its PKCS#7 padding, or `None` when the padding is invalid.
pub open spec fn pkcs7_unpad(s: Seq<u8>) -> Option<Seq<u8>> {
    match pkcs7_pad_len(s) {
        Some(n) => Some(s.take(s.len() - n)),
        None => None,
    }
}

/// `p` followed by PKCS#7 padding up to the next whole block.
pub open spec fn pkcs7_pad(p: Seq<u8>) -> Seq<u8> {
    let n = BLOCK_LEN - p.len() % 16;
    p + Seq::new(n as nat, |i: int| n as u8)
}

/// What opening the envelope `data` with `key` gives.
pub open spec fn open_spec(key: Seq<u8>, data: Seq<u8>) -> Result<Seq<u8>, CipherError> {
    if data.len() < BLOCK_LEN || (data.len() - BLOCK_LEN) % 16 != 0 {
        Err(CipherError::MalformedCiphertext)
    } else {
        let body = data.skip(BLOCK_LEN as int);
        let raw = aes128_cbc_blocks(key, data.take(BLOCK_LEN as int), body);
        if body.len() == 0 {
            Err(CipherError::PaddingError)
        } else {
            match pkcs7_unpad(raw) {
                Some(p) => Ok(p),
                None => Err(CipherError::PaddingError),
            }
        }
    }
}

/// Relies on `cbc::Decryptor::<aes::Aes128>` with
/// `decrypt_padded_vec_mut::<Pkcs7>`: the body is decrypted in CBC mode, and
/// the result is accepted when the body is a non-empty whole number of
/// blocks and the last block ends in valid PKCS#7 padding, which is removed.
#[verifier::external_body]
fn cbc_decrypt_pkcs7(key: &[u8; 16], iv: &[u8], body: &[u8]) -> (r: Result<
    Vec<u8>,
    aes::cipher::block_padding::UnpadError,
>)
    requires
        iv@.len() == BLOCK_LEN,
    ensures
        r is Ok <==> (body@.len() > 0 && body@.len() % 16 == 0 && pkcs7_unpad(
            aes128_cbc_blocks(key@, iv@, body@),
        ) is Some),
        r matches Ok(p) ==> Some(p@) == pkcs7_unpad(aes128_cbc_blocks(key@, iv@, body@)),
{
    let iv = aes::cipher::generic_array::GenericArray::from_slice(iv);
    cbc::Decryptor::<aes::Aes128>::new(key.into(), iv).decrypt_padded_vec_mut::<
        aes::cipher::block_padding::Pkcs7,
    >(body)
}

/// Opens the envelope `data` with `key`: splits off the IV, decrypts the
/// rest and removes the padding.
pub fn decrypt(data: &[u8], key: &[u8; 16]) -> (r: Result<Vec<u8>, CipherError>)
    ensures
        r matches Ok(p) ==> open_spec(key@, data@) == Ok::<Seq<u8>, CipherError>(p@),
        r matches Err(e) ==> open_spec(key@, data@) == Err::<Seq<u8>, CipherError>(e),
{
    if data.len() < BLOCK_LEN || (data.len() - BLOCK_LEN) % BLOCK_LEN != 0 {
        return Err(CipherError::MalformedCiphertext);
    }
    let (iv, body) = data.split_at(BLOCK_LEN);
    assert(iv@ == data@.take(BLOCK_LEN as int));
    assert(body@ == data@.skip(BLOCK_LEN as int));
    match cbc_decrypt_pkcs7(key, iv, body) {
        Ok(p) => Ok(p),
        Err(_) => Err(CipherError::PaddingError),
    }
}

/// Copies the first block of `b` into an array.
pub fn first_block(b: &[u8]) -> (r: [u8; 16])
    requires
        b@.len() >= BLOCK_LEN,
    ensures
        r@ == b@.take(BLOCK_LEN as int),
{
    let mut r = [0u8; 16];
    let mut i: usize = 0;
    while i < BLOCK_LEN
        invariant
            i <= BLOCK_LEN <= b@.len(),
            r@.len() == BLOCK_LEN,
            forall|j: int| 0 <= j < i ==> r@[j] == b@[j],
        decreases BLOCK_LEN - i,
    {
        r[i] = b[i];
        i = i + 1;
    }
    assert(r@ =~= b@.take(BLOCK_LEN as int));
    r
}

/// Opening undoes sealing: when `body` has the length of `p` padded with
/// PKCS#7 and decrypts under `key` and `iv` to that padded text, as the
/// AES-128-CBC encryption of `p` does, the envelope `iv + body` opens to
/// exactly `p`.
pub proof fn lemma_open_sealed(key: Seq<u8>, iv: Seq<u8>, body: Seq<u8>, p: Seq<u8>)
    requires
        iv.len() == BLOCK_LEN,
        body.len() == pkcs7_pad(p).len(),
        aes128_cbc_blocks(key, iv, body) == pkcs7_pad(p),
    ensures
        open_spec(key, iv + body) == Ok::<Seq<u8>, CipherError>(p),
{
    let data = iv + body;
    let s = pkcs7_pad(p);
    let n = 16 - p.len() % 16;
    assert(data.take(16) =~= iv);
    assert(data.skip(16) =~= body);
    assert(1 <= n <= 16);
    assert(s.len() == p.len() + n);
    assert((p.len() + n) % 16 == 0);
    assert(s.last() == n as u8);
    assert(pkcs7_pad_len(s) == Some(n as int));
    assert(s.take(s.len() - n) =~= p);
}

} // verus!
