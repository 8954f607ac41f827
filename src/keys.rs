//! Derivation of a book's content key from its sidecar file, and
//! decryption of the book with that key.
use vstd::prelude::*;
use vstd::utf8::decode_utf8;
use vstd::utf8::encode_utf8;
use vstd::utf8::valid_utf8;
use vstd::utf8::encode_utf8_decode_utf8;
use vstd::utf8::encode_utf8_valid_utf8;
use vstd::utf8::is_ascii_chars;
use vstd::utf8::is_ascii_chars_encode_utf8;
use vstd::string::StringSliceAdditionalSpecFns;
use vstd::string::StrSliceExecFns;

use crate::envelope::decrypt;
use crate::envelope::first_block;
use crate::envelope::open_spec;
use crate::envelope::CipherError;
use crate::envelope::BLOCK_LEN;

verus! {

/// Character offset in the sidecar text where the content key starts.
pub const KEY_START: usize = 68;

/// Character offset in the sidecar text where the content key ends.
pub const KEY_END: usize = 84;

/// Why no content key could be derived from a sidecar file.
#[derive(Debug, Clone, Copy, PartialEq, Eq, Structural)]
pub enum KeyError {
    /// The device identifier has fewer than 16 bytes of key material.
    InvalidDeviceId,
    /// The sidecar envelope could not be opened.
    Cipher(CipherError),
    /// The sidecar plaintext is not UTF-8 text.
    EncodingError,
    /// The sidecar text has fewer than 84 characters.
    ShortMetadata,
    /// The key characters of the sidecar text do not encode to 16 bytes.
    KeyNotAscii,
}

#[verifier::external_type_specification]
#[verifier::external_body]
pub struct ExUtf8Error(core::str::Utf8Error);

/// The key that opens the sidecar: the first 16 bytes of the device
/// identifier's UTF-8 encoding, if it has that many.
pub open spec fn device_key_spec(device_id: Seq<char>) -> Option<Seq<u8>> {
    let b = encode_utf8(device_id);
    if b.len() >= BLOCK_LEN {
        Some(b.take(BLOCK_LEN as int))
    } else {
        None
    }
}

/// The content key held in a sidecar plaintext: the UTF-8 bytes of its
/// characters `[68, 84)`.
pub open spec fn metadata_key_spec(plain: Seq<u8>) -> Result<Seq<u8>, KeyError> {
    if !valid_utf8(plain) {
        Err(KeyError::EncodingError)
    } else {
        let text = decode_utf8(plain);
        if text.len() < KEY_END {
            Err(KeyError::ShortMetadata)
        } else {
            let k = encode_utf8(text.subrange(KEY_START as int, KEY_END as int));
            if k.len() == BLOCK_LEN {
                Ok(k)
            } else {
                Err(KeyError::KeyNotAscii)
            }
        }
    }
}

/// The content key derived from the sidecar file `sidecar` with the device
/// identifier `device_id`.
pub open spec fn content_key_spec(device_id: Seq<char>, sidecar: Seq<u8>) -> Result<
    Seq<u8>,
    KeyError,
> {
    match device_key_spec(device_id) {
        None => Err(KeyError::InvalidDeviceId),
        Some(dk) => match open_spec(dk, sidecar) {
            Err(e) => Err(KeyError::Cipher(e)),
            Ok(plain) => metadata_key_spec(plain),
        },
    }
}

/// Relies on `std::str::from_utf8`: it succeeds exactly on valid UTF-8, and
/// the text it returns is made of the same bytes.
#[verifier::external_body]
fn utf8_text(b: &[u8]) -> (r: Result<&str, core::str::Utf8Error>)
    ensures
        r is Ok <==> valid_utf8(b@),
        r matches Ok(s) ==> s.spec_bytes() == b@,
{
    core::str::from_utf8(b)
}

/// Takes the content key out of a decrypted sidecar plaintext.
pub fn metadata_key(plain: &[u8]) -> (r: Result<[u8; 16], KeyError>)
    ensures
        r matches Ok(k) ==> metadata_key_spec(plain@) == Ok::<Seq<u8>, KeyError>(k@),
        r matches Err(e) ==> metadata_key_spec(plain@) == Err::<Seq<u8>, KeyError>(e),
{
    let text = match utf8_text(plain) {
        Ok(t) => t,
        Err(_) => return Err(KeyError::EncodingError),
    };
    proof {
        encode_utf8_decode_utf8(text@);
        assert(text@ == decode_utf8(plain@));
    }
    if text.unicode_len() < KEY_END {
        return Err(KeyError::ShortMetadata);
    }
    let slice = text.substring_char(KEY_START, KEY_END);
    let bytes = slice.as_bytes();
    if bytes.len() != BLOCK_LEN {
        return Err(KeyError::KeyNotAscii);
    }
    let k = first_block(bytes);
    assert(k@ =~= bytes@);
    Ok(k)
}

/// Derives a book's content key: opens the sidecar file with the key taken
/// from the device identifier, and takes the key out of its plaintext.
pub fn derive_content_key(sidecar: &[u8], device_id: &str) -> (r: Result<[u8; 16], KeyError>)
    ensures
        r matches Ok(k) ==> content_key_spec(device_id@, sidecar@) == Ok::<Seq<u8>, KeyError>(
            k@,
        ),
        r matches Err(e) ==> content_key_spec(device_id@, sidecar@) == Err::<Seq<u8>, KeyError>(
            e,
        ),
{
    let id_bytes = device_id.as_bytes();
    if id_bytes.len() < BLOCK_LEN {
        return Err(KeyError::InvalidDeviceId);
    }
    let dk = first_block(id_bytes);
    match decrypt(sidecar, &dk) {
        Err(e) => Err(KeyError::Cipher(e)),
        Ok(plain) => metadata_key(plain.as_slice()),
    }
}

/// Decrypts a book file with its content key.
pub fn decrypt_book(book: &[u8], key: &[u8; 16]) -> (r: Result<Vec<u8>, CipherError>)
    ensures
        r matches Ok(p) ==> open_spec(key@, book@) == Ok::<Seq<u8>, CipherError>(p@),
        r matches Err(e) ==> open_spec(key@, book@) == Err::<Seq<u8>, CipherError>(e),
{
    decrypt(book, key)
}

/// Why a book entry could not be decrypted.
#[derive(Debug, Clone, Copy, PartialEq, Eq, Structural)]
pub enum EntryError {
    /// No content key came out of the sidecar file.
    Key(KeyError),
    /// The book file could not be opened with the content key.
    Book(CipherError),
}

/// What decrypting one book entry gives: the book opened with the key
/// derived from its own sidecar.
pub open spec fn entry_spec(device_id: Seq<char>, sidecar: Seq<u8>, book: Seq<u8>) -> Result<
    Seq<u8>,
    EntryError,
> {
    match content_key_spec(device_id, sidecar) {
        Err(e) => Err(EntryError::Key(e)),
        Ok(k) => match open_spec(k, book) {
            Err(e) => Err(EntryError::Book(e)),
            Ok(p) => Ok(p),
        },
    }
}

/// Decrypts one book entry from the contents of its sidecar file and of its
/// book file. The outcome depends on these two files and the device
/// identifier alone, so a failure on one entry has no bearing on another.
pub fn decrypt_entry(sidecar: &[u8], book: &[u8], device_id: &str) -> (r: Result<
    Vec<u8>,
    EntryError,
>)
    ensures
        r matches Ok(p) ==> entry_spec(device_id@, sidecar@, book@) == Ok::<Seq<u8>, EntryError>(
            p@,
        ),
        r matches Err(e) ==> entry_spec(device_id@, sidecar@, book@) == Err::<
            Seq<u8>,
            EntryError,
        >(e),
{
    let key = match derive_content_key(sidecar, device_id) {
        Ok(k) => k,
        Err(e) => return Err(EntryError::Key(e)),
    };
    match decrypt_book(book, &key) {
        Ok(p) => Ok(p),
        Err(e) => Err(EntryError::Book(e)),
    }
}

/// Key derivation is a function of the device identifier and the sidecar
/// contents: two derivations from the same inputs give the same outcome.
pub proof fn lemma_derivation_deterministic(
    device_id: Seq<char>,
    sidecar: Seq<u8>,
    r1: Result<Seq<u8>, KeyError>,
    r2: Result<Seq<u8>, KeyError>,
)
    requires
        r1 == content_key_spec(device_id, sidecar),
        r2 == content_key_spec(device_id, sidecar),
    ensures
        r1 == r2,
{
}

/// For a sidecar text of at least 84 ASCII characters, the content key is
/// exactly the bytes of its characters 68 to 83.
pub proof fn lemma_key_offsets(text: Seq<char>)
    requires
        text.len() >= KEY_END,
        is_ascii_chars(text),
    ensures
        metadata_key_spec(encode_utf8(text)) is Ok,
        metadata_key_spec(encode_utf8(text)) matches Ok(k) && k.len() == BLOCK_LEN && forall|i: int|
            0 <= i < BLOCK_LEN ==> k[i] == text[KEY_START + i] as u8,
{
    encode_utf8_valid_utf8(text);
    encode_utf8_decode_utf8(text);
    let sub = text.subrange(KEY_START as int, KEY_END as int);
    assert(is_ascii_chars(sub)) by {
        assert forall|i: int| 0 <= i < sub.len() implies '\0' <= #[trigger] sub[i] <= '\u{7f}' by {
            assert(sub[i] == text[KEY_START + i]);
        }
    }
    is_ascii_chars_encode_utf8(sub);
    let k = encode_utf8(sub);
    assert forall|i: int| 0 <= i < BLOCK_LEN implies k[i] == text[KEY_START + i] as u8 by {
        assert(sub[i] as u8 == k[i]);
    }
}

} // verus!
