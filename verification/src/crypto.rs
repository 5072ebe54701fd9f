//! Key derivation and the symmetric cipher that seals the parts of a backup,
//! both computed by OpenSSL.
use vstd::prelude::*;

use crate::error::BackupError;
use vstd::string::StringSliceAdditionalSpecFns;

verus! {

/// OpenSSL's error stack, carried through as an opaque value.
#[verifier::external_type_specification]
#[verifier::external_body]
pub struct ExErrorStack(openssl::error::ErrorStack);

/// The key that PBKDF2 with HMAC-SHA256 derives from a password and a salt,
/// after `iter` rounds, `len` bytes long.
pub uninterp spec fn pbkdf2_hmac_sha256_key(pass: Seq<u8>, salt: Seq<u8>, iter: nat, len: nat) -> Seq<u8>;

/// AES-128 in CBC mode with PKCS#7 padding: the ciphertext of `data`.
pub uninterp spec fn aes_128_cbc_encryption(key: Seq<u8>, iv: Seq<u8>, data: Seq<u8>) -> Seq<u8>;

/// AES-128 in CBC mode with PKCS#7 padding: the plaintext of `data`, or `None`
/// when `data` does not decrypt to correctly padded blocks.
pub uninterp spec fn aes_128_cbc_decryption(key: Seq<u8>, iv: Seq<u8>, data: Seq<u8>) -> Option<Seq<u8>>;

/// Largest length that OpenSSL's `c_int` lengths can carry.
pub const C_INT_MAX: usize = 0x7fff_ffff;

/// Length of an AES-128 key and of its CBC initialisation vector.
pub const AES_128_KEY_LEN: usize = 16;

/// Rounds of PBKDF2 used to derive a backup key.
pub const KEY_ROUNDS: usize = 1000;

/// Calls `openssl::pkcs5::pbkdf2_hmac` with `MessageDigest::sha256()`, filling `key`.
/// Claimed: the buffer keeps its length, and on success it holds the derived key
/// for these arguments (a function of them alone). OpenSSL can fail for reasons of
/// its own; nothing is claimed of the buffer then. The lengths must fit a `c_int`,
/// or the crate panics.
#[verifier::external_body]
fn pbkdf2_hmac_sha256(pass: &[u8], salt: &[u8], iter: usize, key: &mut Vec<u8>) -> (r: Result<
    (),
    openssl::error::ErrorStack,
>)
    requires
        pass@.len() <= C_INT_MAX,
        salt@.len() <= C_INT_MAX,
        iter <= C_INT_MAX,
        old(key)@.len() <= C_INT_MAX,
    ensures
        final(key)@.len() == old(key)@.len(),
        r is Ok ==> final(key)@ == pbkdf2_hmac_sha256_key(
            pass@,
            salt@,
            iter as nat,
            old(key)@.len(),
        ),
{
    openssl::pkcs5::pbkdf2_hmac(
        pass,
        salt,
        iter,
        openssl::hash::MessageDigest::sha256(),
        key.as_mut_slice(),
    )
}

/// Calls `openssl::symm::encrypt` with `Cipher::aes_128_cbc()` (padding on).
/// Claimed: on success the result is the AES-128-CBC ciphertext of `data` under
/// `key` and `iv`; it is `data` padded to the next whole 16-byte block (PKCS#7
/// always adds one to sixteen bytes, and `encrypt` truncates its buffer to what the
/// update and finalize steps wrote); and that ciphertext decrypts under the same key and IV to `data`
/// (CBC with PKCS#7 padding is invertible; the crate's `Crypter` example shows the
/// round trip). Nothing is claimed when OpenSSL reports an error.
#[verifier::external_body]
fn aes_128_cbc_encrypt(key: &[u8], iv: &[u8], data: &[u8]) -> (r: Result<
    Vec<u8>,
    openssl::error::ErrorStack,
>)
    requires
        key@.len() == AES_128_KEY_LEN,
        iv@.len() == AES_128_KEY_LEN,
        data@.len() <= C_INT_MAX,
    ensures
        r matches Ok(c) ==> c@ == aes_128_cbc_encryption(key@, iv@, data@),
        r matches Ok(c) ==> c@.len() == AES_128_KEY_LEN * (data@.len() / AES_128_KEY_LEN as nat + 1),
        r matches Ok(c) ==> aes_128_cbc_decryption(key@, iv@, c@) == Some(data@),
{
    openssl::symm::encrypt(openssl::symm::Cipher::aes_128_cbc(), key, Some(iv), data)
}

/// Calls `openssl::symm::decrypt` with `Cipher::aes_128_cbc()` (padding on).
/// Claimed: on success the result is the AES-128-CBC plaintext of `data` under
/// `key` and `iv`. OpenSSL fails on badly padded input, and may fail otherwise;
/// nothing is claimed then.
#[verifier::external_body]
fn aes_128_cbc_decrypt(key: &[u8], iv: &[u8], data: &[u8]) -> (r: Result<
    Vec<u8>,
    openssl::error::ErrorStack,
>)
    requires
        key@.len() == AES_128_KEY_LEN,
        iv@.len() == AES_128_KEY_LEN,
        data@.len() <= C_INT_MAX,
    ensures
        r matches Ok(p) ==> aes_128_cbc_decryption(key@, iv@, data@) == Some(p@),
{
    openssl::symm::decrypt(openssl::symm::Cipher::aes_128_cbc(), key, Some(iv), data)
}

/// The length of a sealed part: the plain length padded to the next whole block,
/// a full block more when it is already whole.
pub open spec fn sealed_len(plain_len: nat) -> nat {
    16 * (plain_len / 16 + 1)
}

/// The salt of every backup key: the ASCII bytes of `this-is-my-salt`.
pub open spec fn key_salt_spec() -> Seq<u8> {
    seq![116u8, 104, 105, 115, 45, 105, 115, 45, 109, 121, 45, 115, 97, 108, 116]
}

/// The initialisation vector of every sealed part: the bytes 1 to 16.
pub open spec fn backup_iv_spec() -> Seq<u8> {
    seq![1u8, 2, 3, 4, 5, 6, 7, 8, 9, 10, 11, 12, 13, 14, 15, 16]
}

/// The salt of every backup key.
pub fn key_salt() -> (r: Vec<u8>)
    ensures
        r@ == key_salt_spec(),
{
    let r = vec![116u8, 104, 105, 115, 45, 105, 115, 45, 109, 121, 45, 115, 97, 108, 116];
    assert(r@ =~= key_salt_spec());
    r
}

/// The initialisation vector of every sealed part.
pub fn backup_iv() -> (r: Vec<u8>)
    ensures
        r@ == backup_iv_spec(),
{
    let r = vec![1u8, 2, 3, 4, 5, 6, 7, 8, 9, 10, 11, 12, 13, 14, 15, 16];
    assert(r@ =~= backup_iv_spec());
    r
}

/// The key of a backup: 16 bytes of PBKDF2-HMAC-SHA256 over the password's UTF-8
/// bytes, with the fixed salt and 1000 rounds.
pub open spec fn backup_key_spec(password: Seq<char>) -> Seq<u8> {
    pbkdf2_hmac_sha256_key(
        vstd::utf8::encode_utf8(password),
        key_salt_spec(),
        KEY_ROUNDS as nat,
        AES_128_KEY_LEN as nat,
    )
}

/// Derives the 16-byte key of a backup from its password. The result depends on
/// the password alone; `Err` only when OpenSSL reports a failure.
pub fn generate_key(password: &str) -> (r: Result<Vec<u8>, BackupError>)
    requires
        password.spec_bytes().len() <= C_INT_MAX,
    ensures
        r matches Ok(k) ==> k@ == backup_key_spec(password@) && k@.len() == AES_128_KEY_LEN,
        r matches Err(e) ==> e == BackupError::Crypto,
{
    let mut key: Vec<u8> = vec![0u8; 16];
    let salt = key_salt();
    let pass = password.as_bytes();
    match pbkdf2_hmac_sha256(pass, salt.as_slice(), KEY_ROUNDS, &mut key) {
        Ok(()) => Ok(key),
        Err(_) => Err(BackupError::Crypto),
    }
}

/// Seals the contents of one part under `key` with the fixed IV.
/// A key that is not 16 bytes long is refused, as OpenSSL refuses it.
pub fn encrypt_contents(key: &[u8], contents: &[u8]) -> (r: Result<Vec<u8>, BackupError>)
    requires
        contents@.len() <= C_INT_MAX,
    ensures
        key@.len() != AES_128_KEY_LEN ==> r == Err::<Vec<u8>, BackupError>(BackupError::Crypto),
        r matches Ok(c) ==> c@ == aes_128_cbc_encryption(key@, backup_iv_spec(), contents@),
        r matches Ok(c) ==> c@.len() == sealed_len(contents@.len()),
        r matches Ok(c) ==> aes_128_cbc_decryption(key@, backup_iv_spec(), c@) == Some(contents@),
        r matches Err(e) ==> e == BackupError::Crypto,
{
    if key.len() != AES_128_KEY_LEN {
        return Err(BackupError::Crypto);
    }
    let iv = backup_iv();
    match aes_128_cbc_encrypt(key, iv.as_slice(), contents) {
        Ok(c) => Ok(c),
        Err(_) => Err(BackupError::Crypto),
    }
}

/// Opens a sealed part under `key` with the fixed IV.
/// A key that is not 16 bytes long is refused, as OpenSSL refuses it.
pub fn decrypt_contents(key: &[u8], contents: &[u8]) -> (r: Result<Vec<u8>, BackupError>)
    requires
        contents@.len() <= C_INT_MAX,
    ensures
        key@.len() != AES_128_KEY_LEN ==> r == Err::<Vec<u8>, BackupError>(BackupError::Crypto),
        r matches Ok(p) ==> aes_128_cbc_decryption(key@, backup_iv_spec(), contents@) == Some(p@),
        r matches Err(e) ==> e == BackupError::Crypto,
{
    if key.len() != AES_128_KEY_LEN {
        return Err(BackupError::Crypto);
    }
    let iv = backup_iv();
    match aes_128_cbc_decrypt(key, iv.as_slice(), contents) {
        Ok(p) => Ok(p),
        Err(_) => Err(BackupError::Crypto),
    }
}

/// The key of a backup depends on its password alone: two derivations from the
/// same password that succeed give the same key.
pub proof fn lemma_key_depends_on_password(p1: Seq<char>, p2: Seq<char>, k1: Seq<u8>, k2: Seq<u8>)
    requires
        k1 == backup_key_spec(p1),
        k2 == backup_key_spec(p2),
        p1 == p2,
    ensures
        k1 == k2,
{
}

/// Sealing uses a fixed IV, so it depends on the key and the contents alone: two
/// sealings of the same contents under the same key that succeed give the same bytes.
pub proof fn lemma_sealing_deterministic(
    key1: Seq<u8>,
    key2: Seq<u8>,
    data1: Seq<u8>,
    data2: Seq<u8>,
    sealed1: Seq<u8>,
    sealed2: Seq<u8>,
)
    requires
        sealed1 == aes_128_cbc_encryption(key1, backup_iv_spec(), data1),
        sealed2 == aes_128_cbc_encryption(key2, backup_iv_spec(), data2),
        key1 == key2,
        data1 == data2,
    ensures
        sealed1 == sealed2,
{
}

} // verus!
