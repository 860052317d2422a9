use encrypt_it::crypto::{Crypto, CryptoError};

fn key_with_prefix(prefix: &[u8]) -> [u8; 32] {
    let mut key = [0u8; 32];
    key[..prefix.len()].copy_from_slice(prefix);
    key
}

#[test]
fn des_matches_known_block() {
    // Classic DES example: key 13 34 57 79 9B BC DF F1, block 01 23 45 67 89 AB CD EF.
    let key = key_with_prefix(&[0x13, 0x34, 0x57, 0x79, 0x9B, 0xBC, 0xDF, 0xF1]);
    let data = [0x01, 0x23, 0x45, 0x67, 0x89, 0xAB, 0xCD, 0xEF];
    let out = Crypto::des(&data, &key, true);
    assert_eq!(out.len(), 16);
    assert_eq!(&out[..8], &[0x85, 0xE8, 0x13, 0x54, 0x0F, 0x0A, 0xB4, 0x05]);
}

#[test]
fn des_uses_only_first_eight_key_bytes() {
    let mut a = key_with_prefix(b"12345678");
    let b = key_with_prefix(b"12345678");
    a[20] = 99;
    let data = b"some file content";
    assert_eq!(Crypto::des(data, &a, true), Crypto::des(data, &b, true));
}

#[test]
fn des_round_trip() {
    let key = key_with_prefix(b"rahasia!");
    for len in 0..40usize {
        let data: Vec<u8> = (0..len).map(|i| (i * 7 + 3) as u8).collect();
        let enc = Crypto::des(&data, &key, true);
        assert_eq!(enc.len(), (len / 8 + 1) * 8);
        if len > 0 {
            assert_ne!(&enc[..len], &data[..]);
        }
        let dec = Crypto::des(&enc, &key, false);
        assert_eq!(dec, data);
    }
}

#[test]
fn des_decrypt_keeps_malformed_padding() {
    let key = key_with_prefix(b"kunci123");
    // Encrypt a block whose last byte is 9 (not valid padding): decrypting the
    // first block alone gives it back untouched.
    let block = [1u8, 2, 3, 4, 5, 6, 7, 9];
    let enc = Crypto::des(&block, &key, true);
    let dec = Crypto::des(&enc[..8], &key, false);
    assert_eq!(dec, block.to_vec());
}

#[test]
fn des_decrypt_of_empty_is_empty() {
    let key = key_with_prefix(b"kunci123");
    assert!(Crypto::des(&[], &key, false).is_empty());
}

#[test]
fn des_encrypt_of_empty_is_one_padding_block() {
    let key = key_with_prefix(b"kunci123");
    let enc = Crypto::des(&[], &key, true);
    assert_eq!(enc.len(), 8);
    assert!(Crypto::des(&enc, &key, false).is_empty());
}

#[test]
fn chacha_round_trip() {
    let key = key_with_prefix(b"kata kunci rahasia");
    let mut nonce = [0u8; 24];
    nonce[..5].copy_from_slice(b"nonce");
    let data = b"Isi berkas yang akan dienkripsi.".to_vec();
    let enc = Crypto::chaca20poly1305(&data, &key, &nonce, true).unwrap();
    assert_eq!(enc.len(), data.len() + 16);
    assert_ne!(&enc[..data.len()], &data[..]);
    let dec = Crypto::chaca20poly1305(&enc, &key, &nonce, false).unwrap();
    assert_eq!(dec, data);
}

#[test]
fn chacha_empty_plaintext_gives_tag_only() {
    let key = [7u8; 32];
    let nonce = [1u8; 24];
    let enc = Crypto::chaca20poly1305(&[], &key, &nonce, true).unwrap();
    assert_eq!(enc.len(), 16);
    assert_eq!(Crypto::chaca20poly1305(&enc, &key, &nonce, false).unwrap(), Vec::<u8>::new());
}

#[test]
fn chacha_rejects_tampered_ciphertext() {
    let key = [3u8; 32];
    let nonce = [4u8; 24];
    let mut enc = Crypto::chaca20poly1305(b"hello", &key, &nonce, true).unwrap();
    enc[0] ^= 1;
    assert_eq!(Crypto::chaca20poly1305(&enc, &key, &nonce, false), Err(CryptoError::Decrypting));
}

#[test]
fn chacha_rejects_wrong_key() {
    let key = [3u8; 32];
    let other = [5u8; 32];
    let nonce = [4u8; 24];
    let enc = Crypto::chaca20poly1305(b"hello", &key, &nonce, true).unwrap();
    assert_eq!(Crypto::chaca20poly1305(&enc, &other, &nonce, false), Err(CryptoError::Decrypting));
}

#[test]
fn chacha_rejects_input_shorter_than_tag() {
    let key = [3u8; 32];
    let nonce = [4u8; 24];
    assert_eq!(Crypto::chaca20poly1305(&[1, 2, 3], &key, &nonce, false), Err(CryptoError::Decrypting));
    assert_eq!(Crypto::chaca20poly1305(&[], &key, &nonce, false), Err(CryptoError::Decrypting));
}

#[test]
fn limit_keeps_first_512_bytes() {
    let long: Vec<u8> = (0..600u32).map(|i| (i % 256) as u8).collect();
    let limited = Crypto::limit_ciphertext(long.clone());
    assert_eq!(limited.len(), 512);
    assert_eq!(&limited[..], &long[..512]);
    let short = vec![1u8, 2, 3];
    assert_eq!(Crypto::limit_ciphertext(short.clone()), short);
    let exact: Vec<u8> = vec![9u8; 512];
    assert_eq!(Crypto::limit_ciphertext(exact.clone()), exact);
}

#[test]
fn des_processes_each_block_on_its_own() {
    let key = key_with_prefix(b"blok8key");
    let a = [1u8, 2, 3, 4, 5, 6, 7, 8];
    let b = [9u8, 10, 11, 12, 13, 14, 15, 16];
    let both: Vec<u8> = a.iter().chain(b.iter()).copied().collect();
    let enc_both = Crypto::des(&both, &key, true);
    let enc_a = Crypto::des(&a, &key, true);
    let enc_b = Crypto::des(&b, &key, true);
    assert_eq!(&enc_both[..8], &enc_a[..8]);
    assert_eq!(&enc_both[8..16], &enc_b[..8]);
    assert_eq!(&enc_both[16..], &enc_a[8..]);
}
