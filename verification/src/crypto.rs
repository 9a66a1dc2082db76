//! Cryptographic primitives the ledger relies on. Each function here hands its
//! work to an established implementation; its contract names the result so
//! that the rest of the library can speak about it exactly.

use crate::error::Error;
use crate::error::ErrorKind;
use crate::error::Failure;
use vstd::prelude::*;

verus! {

/// The SHA-256 digest of a byte string.
pub uninterp spec fn sha256_digest(data: Seq<u8>) -> [u8; 32];

/// The root of the binary SHA-256 Merkle tree over the given leaves, absent
/// for an empty list.
pub uninterp spec fn merkle_tree_root(leaves: Seq<Seq<u8>>) -> Option<Seq<u8>>;

/// Whether 33 bytes are the compressed encoding of a secp256k1 public key.
pub uninterp spec fn public_key_parses(key: Seq<u8>) -> bool;

/// Whether a signature is valid for a 32-byte digest under a public key.
pub uninterp spec fn signature_verifies(digest: Seq<u8>, signature: Seq<u8>, key: Seq<u8>) -> bool;

/// The compressed public key that belongs to a secret key.
pub uninterp spec fn public_key_of(secret: Seq<u8>) -> [u8; 33];

/// The deterministic signature of a 32-byte digest under a secret key.
pub uninterp spec fn signature_of(digest: Seq<u8>, secret: Seq<u8>) -> [u8; 64];

/// The Argon2 output for a password and a 16-byte salt under the default
/// parameters, absent where the derivation fails.
pub uninterp spec fn argon2_output(salt: Seq<u8>, password: Seq<u8>) -> Option<Seq<u8>>;

/// The AES-256-GCM ciphertext, tag included, of `data` under a key and a
/// nonce, absent where encryption fails.
pub uninterp spec fn aes_gcm_sealed(key: Seq<u8>, nonce: Seq<u8>, data: Seq<u8>) -> Option<Seq<u8>>;

/// The plaintext that AES-256-GCM recovers from `data` under a key and a
/// nonce, absent where authentication fails.
pub uninterp spec fn aes_gcm_opened(key: Seq<u8>, nonce: Seq<u8>, data: Seq<u8>) -> Option<Seq<u8>>;

/// The number that a byte string stands for, most significant byte first.
pub open spec fn be_value(bytes: Seq<u8>) -> nat
    decreases bytes.len(),
{
    if bytes.len() == 0 {
        0
    } else {
        be_value(bytes.drop_last()) * 256 + bytes.last() as nat
    }
}

/// The order of the secp256k1 group.
pub open spec fn curve_order() -> nat {
    0xFFFF_FFFF_FFFF_FFFF_FFFF_FFFF_FFFF_FFFEu128 as nat * (u128::MAX as nat + 1)
        + 0xBAAE_DCE6_AF48_A03B_BFD2_5E8C_D036_4141u128 as nat
}

/// Whether 64 bytes are a standard secp256k1 signature: two numbers of 32
/// bytes, both below the curve order.
pub open spec fn signature_parses(signature: Seq<u8>) -> bool {
    &&& signature.len() == 64
    &&& be_value(signature.subrange(0, 32)) < curve_order()
    &&& be_value(signature.subrange(32, 64)) < curve_order()
}

/// Whether 32 bytes are a secp256k1 secret key: a number above zero and
/// below the curve order.
pub open spec fn secret_key_parses(secret: Seq<u8>) -> bool {
    &&& secret.len() == 32
    &&& 0 < be_value(secret) < curve_order()
}

/// The leaves of a Merkle tree as plain byte strings.
pub open spec fn leaves_view(leaves: Seq<[u8; 32]>) -> Seq<Seq<u8>> {
    Seq::new(leaves.len(), |i: int| leaves[i]@)
}

/// Hashes with `sha2::Sha256`: the result is the SHA-256 digest of the input.
#[verifier::external_body]
pub(crate) fn sha256(data: &[u8]) -> (digest: [u8; 32])
    ensures
        digest == sha256_digest(data@),
{
    let mut hasher = <sha2::Sha256 as sha2::Digest>::new();
    sha2::Digest::update(&mut hasher, data);
    sha2::Digest::finalize(hasher).into()
}

/// Builds an `rs_merkle::MerkleTree` over the leaves with its SHA-256
/// algorithm and takes `root()`: a tree without leaves has no root, any other
/// tree has one.
#[verifier::external_body]
pub(crate) fn merkle_root(leaves: &Vec<[u8; 32]>) -> (root: Option<[u8; 32]>)
    ensures
        root.is_some() == (leaves.len() > 0),
        match root {
            Some(r) => merkle_tree_root(leaves_view(leaves@)) == Some(r@),
            None => merkle_tree_root(leaves_view(leaves@)).is_none(),
        },
{
    rs_merkle::MerkleTree::<rs_merkle::algorithms::Sha256>::from_leaves(leaves).root()
}

/// Tries `libsecp256k1::PublicKey::parse_compressed` and says whether it
/// accepted the bytes.
#[verifier::external_body]
pub(crate) fn public_key_is_valid(key: &[u8; 33]) -> (ok: bool)
    ensures
        ok == public_key_parses(key@),
{
    libsecp256k1::PublicKey::parse_compressed(key).is_ok()
}

/// Tries `libsecp256k1::Signature::parse_standard` and says whether it
/// accepted the bytes: it does unless one of the two halves is a number not
/// below the curve order.
#[verifier::external_body]
pub(crate) fn signature_is_valid(signature: &[u8; 64]) -> (ok: bool)
    ensures
        ok == signature_parses(signature@),
{
    libsecp256k1::Signature::parse_standard(signature).is_ok()
}

/// Checks a signature with `libsecp256k1::verify`, on a key and a signature
/// that parse.
#[verifier::external_body]
pub(crate) fn verify_signature(digest: &[u8; 32], signature: &[u8; 64], key: &[u8; 33]) -> (ok:
    bool)
    requires
        signature_parses(signature@),
        public_key_parses(key@),
    ensures
        ok == signature_verifies(digest@, signature@, key@),
{
    let message = libsecp256k1::Message::parse(digest);
    let signature = libsecp256k1::Signature::parse_standard(signature).unwrap();
    let key = libsecp256k1::PublicKey::parse_compressed(key).unwrap();
    libsecp256k1::verify(&message, &signature, &key)
}

/// Tries `libsecp256k1::SecretKey::parse` and says whether it accepted the
/// bytes: it does unless they are zero or a number not below the curve
/// order.
#[verifier::external_body]
pub(crate) fn secret_key_is_valid(secret: &[u8; 32]) -> (ok: bool)
    ensures
        ok == secret_key_parses(secret@),
{
    libsecp256k1::SecretKey::parse(secret).is_ok()
}

/// Draws a secret key with `libsecp256k1::SecretKey::random` from the
/// operating system's generator. The bytes returned are those of a key that
/// parsed, whichever key it is.
#[verifier::external_body]
pub(crate) fn random_secret_key() -> (secret: [u8; 32])
    ensures
        secret_key_parses(secret@),
{
    libsecp256k1::SecretKey::random(&mut rand::rngs::OsRng).serialize()
}

/// Derives the public key of a secret key with
/// `libsecp256k1::PublicKey::from_secret_key` and serializes it compressed;
/// what is serialized parses as a public key again.
#[verifier::external_body]
pub(crate) fn derive_public_key(secret: &[u8; 32]) -> (key: [u8; 33])
    requires
        secret_key_parses(secret@),
    ensures
        key == public_key_of(secret@),
        public_key_parses(key@),
{
    let secret = libsecp256k1::SecretKey::parse(secret).unwrap();
    libsecp256k1::PublicKey::from_secret_key(&secret).serialize_compressed()
}

/// Signs a digest with `libsecp256k1::sign`, whose nonce is derived from the
/// key and the digest, and serializes the signature; both halves are below
/// the curve order, so it parses as a standard signature.
#[verifier::external_body]
pub(crate) fn sign_digest(digest: &[u8; 32], secret: &[u8; 32]) -> (signature: [u8; 64])
    requires
        secret_key_parses(secret@),
    ensures
        signature == signature_of(digest@, secret@),
        signature_parses(signature@),
{
    let secret = libsecp256k1::SecretKey::parse(secret).unwrap();
    let (signature, _) = libsecp256k1::sign(&libsecp256k1::Message::parse(digest), &secret);
    signature.serialize()
}

/// Fills an array from `rand::rngs::OsRng`. Nothing is known of the bytes.
#[verifier::external_body]
pub(crate) fn random_array<const N: usize>() -> (bytes: [u8; N]) {
    let mut bytes = [0u8; N];
    rand::RngCore::fill_bytes(&mut rand::rngs::OsRng, &mut bytes);
    bytes
}

/// Runs `argon2::Argon2::default().hash_password` with the salt in its B64
/// form and returns the raw output.
#[verifier::external_body]
pub(crate) fn argon2_derive(salt: &[u8; 16], password: &[u8]) -> (output: Option<Vec<u8>>)
    ensures
        match output {
            Some(o) => argon2_output(salt@, password@) == Some(o@),
            None => argon2_output(salt@, password@).is_none(),
        },
{
    let salt = argon2::password_hash::SaltString::encode_b64(salt).ok()?;
    let hasher = argon2::Argon2::default();
    let hash = argon2::PasswordHasher::hash_password(&hasher, password, &salt).ok()?;
    Some(hash.hash?.as_bytes().to_vec())
}

/// Encrypts with `aes_gcm::Aes256Gcm`. What it returns decrypts, under the
/// same key and nonce, to the data that went in.
#[verifier::external_body]
pub(crate) fn aes_gcm_encrypt(key: &[u8; 32], nonce: &[u8; 12], data: &[u8]) -> (sealed: Option<
    Vec<u8>,
>)
    ensures
        match sealed {
            Some(s) => aes_gcm_sealed(key@, nonce@, data@) == Some(s@) && aes_gcm_opened(
                key@,
                nonce@,
                s@,
            ) == Some(data@),
            None => aes_gcm_sealed(key@, nonce@, data@).is_none(),
        },
{
    let cipher = <aes_gcm::Aes256Gcm as aes_gcm::KeyInit>::new(key.into());
    aes_gcm::aead::Aead::encrypt(&cipher, aes_gcm::Nonce::from_slice(nonce), data).ok()
}

/// Decrypts and authenticates with `aes_gcm::Aes256Gcm`.
#[verifier::external_body]
pub(crate) fn aes_gcm_decrypt(key: &[u8; 32], nonce: &[u8; 12], data: &[u8]) -> (opened: Option<
    Vec<u8>,
>)
    ensures
        match opened {
            Some(o) => aes_gcm_opened(key@, nonce@, data@) == Some(o@),
            None => aes_gcm_opened(key@, nonce@, data@).is_none(),
        },
{
    let cipher = <aes_gcm::Aes256Gcm as aes_gcm::KeyInit>::new(key.into());
    aes_gcm::aead::Aead::decrypt(&cipher, aes_gcm::Nonce::from_slice(nonce), data).ok()
}

/// Reduces a 32-byte seed to 64 bits with `std`'s `DefaultHasher`, as `Hash`
/// for arrays feeds it. The algorithm is that of the standard library in
/// use, so nothing is known of the value.
#[verifier::external_body]
pub(crate) fn hash_to_int(data: &[u8; 32]) -> (ticket: u64) {
    let mut hasher = std::hash::DefaultHasher::new();
    std::hash::Hash::hash(data, &mut hasher);
    std::hash::Hasher::finish(&hasher)
}

/// Reads the system clock: seconds since the Unix epoch. Nothing is known of
/// the value.
#[verifier::external_body]
pub(crate) fn unix_time() -> (seconds: u64) {
    match std::time::SystemTime::now().duration_since(std::time::UNIX_EPOCH) {
        Ok(elapsed) => elapsed.as_secs(),
        Err(_) => 0,
    }
}

/// Copies a slice of known length into an array.
pub fn to_array<const N: usize>(bytes: &[u8]) -> (array: [u8; N])
    requires
        bytes@.len() == N,
    ensures
        array@ == bytes@,
{
    let mut array = [0u8; N];
    let mut i: usize = 0;
    while i < N
        invariant
            i <= N,
            bytes@.len() == N,
            array@.len() == N,
            forall|j: int| 0 <= j < i ==> array@[j] == bytes@[j],
        decreases N - i,
    {
        array[i] = bytes[i];
        i = i + 1;
    }
    assert(array@ =~= bytes@);
    array
}

/// The key that a password and a 16-byte salt give: the Argon2 output where
/// it has 32 bytes.
pub open spec fn password_key(salt: Seq<u8>, password: Seq<u8>) -> Option<Seq<u8>> {
    if salt.len() != 16 {
        None
    } else {
        match argon2_output(salt, password) {
            Some(key) => if key.len() == 32 {
                Some(key)
            } else {
                None
            },
            None => None,
        }
    }
}

/// The failure where no key can be derived.
pub open spec fn no_key() -> Failure {
    (ErrorKind::Fatal, "Invalid password hash"@)
}

/// The failure where a key or a nonce has the wrong length.
pub open spec fn wrong_length() -> Failure {
    (ErrorKind::Fatal, "Invalid key or nonce length"@)
}

/// The failure where the cipher refuses to encrypt.
pub open spec fn not_encrypted() -> Failure {
    (ErrorKind::Fatal, "Encryption failed"@)
}

/// The failure where the data does not authenticate under the key.
pub open spec fn not_decrypted() -> Failure {
    (ErrorKind::Fatal, "Decryption failed"@)
}

/// Derives the encryption key again from a stored salt and the password. It
/// fails, with `Fatal`, exactly where `password_key` has no key.
pub fn restore_key(salt: &[u8], password: &[u8]) -> (result: Result<[u8; 32], Error>)
    ensures
        match result {
            Ok(key) => password_key(salt@, password@) == Some(key@),
            Err(e) => password_key(salt@, password@).is_none() && e.failure() == no_key(),
        },
{
    if salt.len() != 16 {
        return Err(Error::new(ErrorKind::Fatal, "Invalid password hash"));
    }
    let salt_array: [u8; 16] = to_array(salt);
    match argon2_derive(&salt_array, password) {
        Some(output) => {
            if output.len() != 32 {
                return Err(Error::new(ErrorKind::Fatal, "Invalid password hash"));
            }
            Ok(to_array(output.as_slice()))
        },
        None => Err(Error::new(ErrorKind::Fatal, "Invalid password hash")),
    }
}

/// Draws a fresh salt and derives the encryption key from it and the
/// password. Whatever salt was drawn, the key returned is the one that
/// `restore_key` finds again from that salt.
pub fn derive_key(password: &[u8]) -> (result: Result<([u8; 16], [u8; 32]), Error>)
    ensures
        match result {
            Ok((salt, key)) => password_key(salt@, password@) == Some(key@),
            Err(e) => e.failure() == no_key(),
        },
{
    let salt: [u8; 16] = random_array();
    match restore_key(&salt, password) {
        Ok(key) => Ok((salt, key)),
        Err(e) => Err(e),
    }
}

/// Encrypts data under a 32-byte key and a given 12-byte nonce. It fails, with
/// `Fatal`, exactly where the key or the nonce has another length or the
/// cipher refuses.
pub fn encrypt_with_nonce(key: &[u8], nonce: &[u8], data: &[u8]) -> (result: Result<Vec<u8>, Error>)
    ensures
        match result {
            Ok(sealed) => key@.len() == 32 && nonce@.len() == 12 && aes_gcm_sealed(
                key@,
                nonce@,
                data@,
            ) == Some(sealed@) && aes_gcm_opened(key@, nonce@, sealed@) == Some(data@),
            Err(e) => if key@.len() != 32 || nonce@.len() != 12 {
                e.failure() == wrong_length()
            } else {
                aes_gcm_sealed(key@, nonce@, data@).is_none() && e.failure() == not_encrypted()
            },
        },
{
    if key.len() != 32 || nonce.len() != 12 {
        return Err(Error::new(ErrorKind::Fatal, "Invalid key or nonce length"));
    }
    let key_array: [u8; 32] = to_array(key);
    let nonce_array: [u8; 12] = to_array(nonce);
    match aes_gcm_encrypt(&key_array, &nonce_array, data) {
        Some(sealed) => Ok(sealed),
        None => Err(Error::new(ErrorKind::Fatal, "Encryption failed")),
    }
}

/// Encrypts data under a 32-byte key and a fresh nonce, and returns the
/// ciphertext with the nonce. Whatever nonce was drawn, the ciphertext opens
/// under it to the data.
pub fn encrypt_data(key: &[u8], data: &[u8]) -> (result: Result<(Vec<u8>, [u8; 12]), Error>)
    ensures
        match result {
            Ok((sealed, nonce)) => key@.len() == 32 && aes_gcm_sealed(key@, nonce@, data@) == Some(
                sealed@,
            ) && aes_gcm_opened(key@, nonce@, sealed@) == Some(data@),
            Err(e) => if key@.len() != 32 {
                e.failure() == wrong_length()
            } else {
                e.failure() == not_encrypted()
            },
        },
{
    let nonce: [u8; 12] = random_array();
    match encrypt_with_nonce(key, &nonce, data) {
        Ok(sealed) => Ok((sealed, nonce)),
        Err(e) => Err(e),
    }
}

/// Decrypts and authenticates data under a 32-byte key and a 12-byte nonce.
/// It fails, with `Fatal`, exactly where a length is wrong or the data does
/// not authenticate.
pub fn decrypt_data(key: &[u8], data: &[u8], nonce_bytes: &[u8]) -> (result: Result<Vec<u8>, Error>)
    ensures
        match result {
            Ok(opened) => key@.len() == 32 && nonce_bytes@.len() == 12 && aes_gcm_opened(
                key@,
                nonce_bytes@,
                data@,
            ) == Some(opened@),
            Err(e) => if key@.len() != 32 || nonce_bytes@.len() != 12 {
                e.failure() == wrong_length()
            } else {
                aes_gcm_opened(key@, nonce_bytes@, data@).is_none() && e.failure()
                    == not_decrypted()
            },
        },
{
    if key.len() != 32 || nonce_bytes.len() != 12 {
        return Err(Error::new(ErrorKind::Fatal, "Invalid key or nonce length"));
    }
    let key_array: [u8; 32] = to_array(key);
    let nonce_array: [u8; 12] = to_array(nonce_bytes);
    match aes_gcm_decrypt(&key_array, &nonce_array, data) {
        Some(opened) => Ok(opened),
        None => Err(Error::new(ErrorKind::Fatal, "Decryption failed")),
    }
}

} // verus!
