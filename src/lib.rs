//! Recovery of book files from an e-reader's encrypted local library.
//!
//! Both the per-book sidecar file and the book file itself are cipher
//! envelopes: a 16-byte IV followed by AES-128-CBC ciphertext with PKCS#7
//! padding. The sidecar is opened with a key taken from the device
//! identifier, and a fixed slice of its text is the key of the book.
pub mod entry;
pub mod envelope;
pub mod keys;
pub mod validate;
