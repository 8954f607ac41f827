use aes::cipher::block_padding::Pkcs7;
use aes::cipher::BlockEncryptMut;
use aes::cipher::KeyIvInit;
use ridi_decrypt::envelope::decrypt;
use ridi_decrypt::envelope::CipherError;
use ridi_decrypt::keys::decrypt_book;
use ridi_decrypt::keys::decrypt_entry;
use ridi_decrypt::keys::derive_content_key;
use ridi_decrypt::keys::metadata_key;
use ridi_decrypt::keys::EntryError;
use ridi_decrypt::keys::KeyError;

const DEVICE_ID: &str = "0a1b2c3d-4e5f-6789-abcd-ef0123456789";
const IV: [u8; 16] = [7, 1, 4, 9, 2, 8, 3, 5, 6, 0, 11, 13, 12, 15, 14, 10];

fn seal(key: &[u8; 16], iv: &[u8; 16], plain: &[u8]) -> Vec<u8> {
    let body = cbc::Encryptor::<aes::Aes128>::new(key.into(), iv.into())
        .encrypt_padded_vec_mut::<Pkcs7>(plain);
    let mut out = iv.to_vec();
    out.extend_from_slice(&body);
    out
}

fn device_key(device_id: &str) -> [u8; 16] {
    let mut k = [0u8; 16];
    k.copy_from_slice(&device_id.as_bytes()[..16]);
    k
}

fn sidecar_text(key: &str) -> String {
    let mut text = String::new();
    for i in 0..68 {
        text.push((b'a' + (i % 26) as u8) as char);
    }
    text.push_str(key);
    while text.len() < 100 {
        text.push('z');
    }
    text
}

#[test]
fn round_trip_recovers_plaintext() {
    let key = *b"sixteen byte key";
    for len in [0usize, 1, 11, 15, 16, 17, 32, 100] {
        let plain: Vec<u8> = (0..len).map(|i| (i * 37 % 251) as u8).collect();
        let sealed = seal(&key, &IV, &plain);
        assert_eq!(decrypt(&sealed, &key), Ok(plain));
    }
}

#[test]
fn derivation_is_deterministic() {
    let sidecar = seal(&device_key(DEVICE_ID), &IV, sidecar_text("0123456789ABCDEF").as_bytes());
    let first = derive_content_key(&sidecar, DEVICE_ID);
    let second = derive_content_key(&sidecar, DEVICE_ID);
    assert!(first.is_ok());
    assert_eq!(first, second);
}

#[test]
fn failing_entry_does_not_stop_the_next() {
    let key_b = *b"FEDCBA9876543210";
    let book_b = seal(&key_b, &IV, b"book b");
    let sidecar_b = seal(&device_key(DEVICE_ID), &IV, sidecar_text("FEDCBA9876543210").as_bytes());
    let sidecar_a = seal(b"not the right ke", &IV, sidecar_text("0123456789ABCDEF").as_bytes());
    let book_a = seal(b"0123456789ABCDEF", &IV, b"book a");
    let a = decrypt_entry(&sidecar_a, &book_a, DEVICE_ID);
    assert!(a.is_err());
    let b = decrypt_entry(&sidecar_b, &book_b, DEVICE_ID);
    assert_eq!(b, Ok(b"book b".to_vec()));
}

#[test]
fn key_is_taken_from_offsets_68_to_84() {
    let text = sidecar_text("KLMNOPQRSTUVWXYZ");
    assert_eq!(text.len(), 100);
    let k = metadata_key(text.as_bytes()).unwrap();
    assert_eq!(&k[..], &text.as_bytes()[68..84]);
    let exact = sidecar_text("0123456789abcdef");
    let short = &exact[..84];
    assert_eq!(metadata_key(short.as_bytes()), Ok(*b"0123456789abcdef"));
}

#[test]
fn derive_content_key_scenario() {
    let sidecar = seal(&device_key(DEVICE_ID), &IV, sidecar_text("0123456789ABCDEF").as_bytes());
    assert_eq!(sidecar.len(), 16 + 112);
    let k = derive_content_key(&sidecar, DEVICE_ID).unwrap();
    assert_eq!(
        k,
        [0x30, 0x31, 0x32, 0x33, 0x34, 0x35, 0x36, 0x37, 0x38, 0x39, 0x41, 0x42, 0x43, 0x44, 0x45, 0x46]
    );
}

#[test]
fn decrypt_book_scenario() {
    let key = *b"0123456789ABCDEF";
    let book = seal(&key, &IV, b"hello world");
    assert_eq!(book.len(), 32);
    let plain = decrypt_book(&book, &key).unwrap();
    assert_eq!(plain.len(), 11);
    assert_eq!(plain, b"hello world".to_vec());
}

#[test]
fn decrypt_entry_end_to_end() {
    let sidecar = seal(&device_key(DEVICE_ID), &IV, sidecar_text("0123456789ABCDEF").as_bytes());
    let book = seal(b"0123456789ABCDEF", &IV, b"%PDF-1.4 content");
    assert_eq!(decrypt_entry(&sidecar, &book, DEVICE_ID), Ok(b"%PDF-1.4 content".to_vec()));
}

#[test]
fn malformed_ciphertext_is_rejected() {
    let key = *b"0123456789ABCDEF";
    assert_eq!(decrypt(&[0u8; 10], &key), Err(CipherError::MalformedCiphertext));
    assert_eq!(decrypt(&[0u8; 20], &key), Err(CipherError::MalformedCiphertext));
    assert_eq!(decrypt(&[], &key), Err(CipherError::MalformedCiphertext));
}

#[test]
fn empty_body_is_a_padding_error() {
    let key = *b"0123456789ABCDEF";
    assert_eq!(decrypt(&IV, &key), Err(CipherError::PaddingError));
}

#[test]
fn wrong_key_is_a_padding_error() {
    let book = seal(b"0123456789ABCDEF", &IV, b"hello world");
    let mut block = book.clone();
    let last = block.len() - 1;
    block[last] ^= 0x5a;
    assert_eq!(decrypt(&block, b"0123456789ABCDEF"), Err(CipherError::PaddingError));
}

#[test]
fn short_device_id_is_rejected() {
    let sidecar = seal(b"0123456789ABCDEF", &IV, sidecar_text("0123456789ABCDEF").as_bytes());
    assert_eq!(derive_content_key(&sidecar, "short"), Err(KeyError::InvalidDeviceId));
}

#[test]
fn sidecar_errors_are_reported() {
    let dk = device_key(DEVICE_ID);
    let bad = seal(&dk, &IV, &[0xff, 0xfe, 0x41]);
    assert_eq!(derive_content_key(&bad, DEVICE_ID), Err(KeyError::EncodingError));
    let short = seal(&dk, &IV, sidecar_text("0123456789ABCDEF")[..83].as_bytes());
    assert_eq!(derive_content_key(&short, DEVICE_ID), Err(KeyError::ShortMetadata));
    let wide = seal(&dk, &IV, sidecar_text("0123456789ABCDé").as_bytes());
    assert_eq!(derive_content_key(&wide, DEVICE_ID), Err(KeyError::KeyNotAscii));
    assert_eq!(
        derive_content_key(&[1u8; 17], DEVICE_ID),
        Err(KeyError::Cipher(CipherError::MalformedCiphertext))
    );
}

#[test]
fn entry_errors_name_the_stage() {
    let sidecar = seal(&device_key(DEVICE_ID), &IV, sidecar_text("0123456789ABCDEF").as_bytes());
    assert_eq!(
        decrypt_entry(&sidecar, &[0u8; 5], DEVICE_ID),
        Err(EntryError::Book(CipherError::MalformedCiphertext))
    );
    assert_eq!(
        decrypt_entry(&[0u8; 5], &[0u8; 32], DEVICE_ID),
        Err(EntryError::Key(KeyError::Cipher(CipherError::MalformedCiphertext)))
    );
}
