use backup_system::crypto::{backup_iv, decrypt_contents, encrypt_contents, key_salt};
use backup_system::{generate_key, BackupError};

const SECRET_KEY: [u8; 16] = [
    0x2d, 0x43, 0x61, 0x76, 0x0a, 0x1b, 0x5f, 0x39, 0x15, 0xfd, 0x27, 0xd3, 0x99, 0x61, 0xb2, 0xd4,
];

#[test]
fn salt_and_iv_are_fixed() {
    assert_eq!(key_salt(), b"this-is-my-salt".to_vec());
    assert_eq!(backup_iv(), (1u8..=16).collect::<Vec<u8>>());
}

#[test]
fn key_is_pbkdf2_of_the_password() {
    let key = generate_key("secret").unwrap();
    assert_eq!(key, SECRET_KEY.to_vec());
}

#[test]
fn key_depends_on_password_alone() {
    let a = generate_key("secret").unwrap();
    let b = generate_key("secret").unwrap();
    let c = generate_key("other").unwrap();
    assert_eq!(a, b);
    assert_ne!(a, c);
    assert_eq!(c.len(), 16);
    assert_ne!(a, b"secret".to_vec());
}

#[test]
fn key_of_empty_password() {
    assert_eq!(generate_key("").unwrap().len(), 16);
}

#[test]
fn sealing_gives_the_aes_cbc_ciphertext() {
    let sealed = encrypt_contents(&SECRET_KEY, b"hello backup").unwrap();
    let expected: Vec<u8> = vec![
        0x6e, 0xb2, 0xfa, 0x92, 0xdd, 0x79, 0x4b, 0x0f, 0x93, 0x79, 0x6e, 0x30, 0xd9, 0xa2, 0x88, 0x90,
    ];
    assert_eq!(sealed, expected);
}

#[test]
fn opening_a_sealed_part_gives_it_back() {
    let key = generate_key("secret").unwrap();
    for data in [Vec::new(), b"x".to_vec(), vec![7u8; 16], (0..=255u8).collect::<Vec<u8>>()] {
        let sealed = encrypt_contents(&key, &data).unwrap();
        assert_ne!(sealed, data);
        assert_eq!(sealed.len(), 16 * (data.len() / 16 + 1));
        assert_eq!(decrypt_contents(&key, &sealed).unwrap(), data);
    }
}

#[test]
fn opening_with_another_key_does_not_give_the_data() {
    let key = generate_key("secret").unwrap();
    let other = generate_key("other").unwrap();
    let data = b"some archive bytes that are long enough".to_vec();
    let sealed = encrypt_contents(&key, &data).unwrap();
    match decrypt_contents(&other, &sealed) {
        Ok(p) => assert_ne!(p, data),
        Err(e) => assert_eq!(e, BackupError::Crypto),
    }
}

#[test]
fn keys_of_the_wrong_length_are_refused() {
    assert_eq!(encrypt_contents(&[1, 2, 3], b"data"), Err(BackupError::Crypto));
    assert_eq!(decrypt_contents(&[0u8; 32], &[0u8; 16]), Err(BackupError::Crypto));
}

#[test]
fn badly_padded_input_is_refused() {
    assert_eq!(decrypt_contents(&SECRET_KEY, &[1, 2, 3]), Err(BackupError::Crypto));
}

#[test]
fn a_whole_block_gains_a_block_of_padding() {
    let key = generate_key("secret").unwrap();
    assert_eq!(encrypt_contents(&key, &[0u8; 16]).unwrap().len(), 32);
    assert_eq!(encrypt_contents(&key, &[0u8; 15]).unwrap().len(), 16);
    assert_eq!(encrypt_contents(&key, &[]).unwrap().len(), 16);
}

#[test]
fn sealing_is_deterministic() {
    let key = generate_key("secret").unwrap();
    assert_eq!(encrypt_contents(&key, b"abc").unwrap(), encrypt_contents(&key, b"abc").unwrap());
}
