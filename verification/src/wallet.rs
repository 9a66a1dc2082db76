//! A wallet: a secp256k1 secret key with the compressed public key that is
//! its address, and the sealed form in which it is kept on disk.

use crate::codec::hex_encode;
use crate::codec::hex_text;
use crate::codec::push_bytes;
use crate::crypto::aes_gcm_opened;
use crate::crypto::aes_gcm_sealed;
use crate::crypto::decrypt_data;
use crate::crypto::derive_public_key;
use crate::crypto::encrypt_with_nonce;
use crate::crypto::no_key;
use crate::crypto::not_decrypted;
use crate::crypto::not_encrypted;
use crate::crypto::password_key;
use crate::crypto::public_key_of;
use crate::crypto::public_key_parses;
use crate::crypto::random_array;
use crate::crypto::random_secret_key;
use crate::crypto::restore_key;
use crate::crypto::secret_key_is_valid;
use crate::crypto::secret_key_parses;
use crate::crypto::sign_digest;
use crate::crypto::signature_of;
use crate::crypto::signature_parses;
use crate::crypto::to_array;
use crate::error::Error;
use crate::error::ErrorKind;
use crate::error::Failure;
use vstd::prelude::*;
use vstd::slice::slice_subrange;

verus! {

/// The length of the salt at the head of a sealed wallet.
pub const SALT_LENGTH: usize = 16;

/// The length of the nonce that follows the salt.
pub const NONCE_LENGTH: usize = 12;

/// A secret key and its address.
#[derive(Debug)]
pub struct Wallet {
    secret: [u8; 32],
    address: [u8; 33],
}

/// The secret key that a sealed wallet holds for a password: the password and
/// the leading salt give the key, which opens what follows the nonce. There
/// is none where the data is too short, the key cannot be derived, the
/// ciphertext does not authenticate, or what it holds is no secret key.
pub open spec fn sealed_secret(data: Seq<u8>, password: Seq<u8>) -> Option<Seq<u8>> {
    if data.len() < 28 {
        None
    } else {
        match password_key(data.subrange(0, 16), password) {
            Some(key) => match aes_gcm_opened(
                key,
                data.subrange(16, 28),
                data.subrange(28, data.len() as int),
            ) {
                Some(secret) => if secret.len() == 32 && secret_key_parses(secret) {
                    Some(secret)
                } else {
                    None
                },
                None => None,
            },
            None => None,
        }
    }
}

/// Why a sealed wallet does not open, where it does not: the data is too
/// short, the key cannot be derived, the ciphertext does not authenticate,
/// or what it holds is no secret key.
pub open spec fn sealed_failure(data: Seq<u8>, password: Seq<u8>) -> Failure {
    if data.len() < 28 {
        (ErrorKind::Fatal, "Key file is too short"@)
    } else {
        match password_key(data.subrange(0, 16), password) {
            None => no_key(),
            Some(key) => match aes_gcm_opened(
                key,
                data.subrange(16, 28),
                data.subrange(28, data.len() as int),
            ) {
                None => not_decrypted(),
                Some(_) => (ErrorKind::Fatal, "Invalid secret key"@),
            },
        }
    }
}

/// The sealed form of a secret under a password, a salt and a nonce: the
/// salt, the nonce, and the secret encrypted under the key that the password
/// and the salt give. There is none where no key can be derived or the
/// cipher refuses.
pub open spec fn sealed_form(
    secret: Seq<u8>,
    password: Seq<u8>,
    salt: Seq<u8>,
    nonce: Seq<u8>,
) -> Option<Seq<u8>> {
    match password_key(salt, password) {
        Some(key) => match aes_gcm_sealed(key, nonce, secret) {
            Some(sealed) => Some(salt + nonce + sealed),
            None => None,
        },
        None => None,
    }
}

/// Whether `data` is a sealed form of `secret` under `password`: a salt, a
/// nonce and a ciphertext that opens, under the key the salt gives, to the
/// secret.
pub open spec fn seals(data: Seq<u8>, password: Seq<u8>, secret: Seq<u8>) -> bool {
    exists|salt: Seq<u8>, nonce: Seq<u8>, key: Seq<u8>, sealed: Seq<u8>|
        #![trigger password_key(salt, password), aes_gcm_opened(key, nonce, sealed)]
        {
            &&& salt.len() == 16
            &&& nonce.len() == 12
            &&& data == salt + nonce + sealed
            &&& password_key(salt, password) == Some(key)
            &&& aes_gcm_opened(key, nonce, sealed) == Some(secret)
        }
}

/// A wallet that was sealed under a password opens again under it: reading
/// what `write` returned gives back the same secret key, and so the same
/// address.
pub proof fn sealed_wallet_opens(data: Seq<u8>, password: Seq<u8>, secret: Seq<u8>)
    requires
        seals(data, password, secret),
        secret.len() == 32,
        secret_key_parses(secret),
    ensures
        sealed_secret(data, password) == Some(secret),
{
    let (salt, nonce, key, sealed) = choose|
        salt: Seq<u8>,
        nonce: Seq<u8>,
        key: Seq<u8>,
        sealed: Seq<u8>,
    |
        #![trigger password_key(salt, password), aes_gcm_opened(key, nonce, sealed)]
        {
            &&& salt.len() == 16
            &&& nonce.len() == 12
            &&& data == salt + nonce + sealed
            &&& password_key(salt, password) == Some(key)
            &&& aes_gcm_opened(key, nonce, sealed) == Some(secret)
        };
    assert(data.subrange(0, 16) =~= salt);
    assert(data.subrange(16, 28) =~= nonce);
    assert(data.subrange(28, data.len() as int) =~= sealed);
}

impl Clone for Wallet {
    fn clone(&self) -> (wallet: Wallet)
        ensures
            wallet == *self,
    {
        proof {
            use_type_invariant(self);
        }
        Wallet { secret: self.secret, address: self.address }
    }
}

impl Wallet {
    /// The secret is a key, and the address is its public key.
    #[verifier::type_invariant]
    spec fn well_formed(self) -> bool {
        &&& secret_key_parses(self.secret@)
        &&& self.address == public_key_of(self.secret@)
        &&& public_key_parses(self.address@)
    }

    /// The secret key's bytes.
    pub closed spec fn secret_bytes(self) -> Seq<u8> {
        self.secret@
    }

    /// The address: the hexadecimal text of the compressed public key.
    pub open spec fn address_text(self) -> Seq<char> {
        hex_text(public_key_of(self.secret_bytes())@)
    }

    /// A wallet with a freshly drawn secret key.
    pub fn new() -> (wallet: Wallet)
        ensures
            secret_key_parses(wallet.secret_bytes()),
    {
        let secret = random_secret_key();
        let address = derive_public_key(&secret);
        Wallet { secret, address }
    }

    /// The secret key.
    pub fn secret(&self) -> (secret: [u8; 32])
        ensures
            secret@ == self.secret_bytes(),
            secret_key_parses(secret@),
    {
        proof {
            use_type_invariant(self);
        }
        self.secret
    }

    /// The address, 66 hexadecimal digits: those of a public key that parses.
    pub fn address(&self) -> (address: String)
        ensures
            address@ == self.address_text(),
            address@.len() == 66,
            public_key_parses(public_key_of(self.secret_bytes())@),
    {
        proof {
            use_type_invariant(self);
        }
        hex_encode(&self.address)
    }

    /// The wallet of a given secret key. It fails, with `InvalidInput`,
    /// exactly where the bytes are no secret key.
    pub fn from_secret(secret: [u8; 32]) -> (result: Result<Wallet, Error>)
        ensures
            match result {
                Ok(wallet) => secret_key_parses(secret@) && wallet.secret_bytes() == secret@,
                Err(e) => !secret_key_parses(secret@) && e.is(
                    ErrorKind::InvalidInput,
                    "Invalid secret key"@,
                ),
            },
    {
        if !secret_key_is_valid(&secret) {
            return Err(Error::new(ErrorKind::InvalidInput, "Invalid secret key"));
        }
        let address = derive_public_key(&secret);
        Ok(Wallet { secret, address })
    }

    /// Signs a 32-byte digest and returns the signature as 128 hexadecimal
    /// digits. It always succeeds.
    pub fn sign(&self, data: &[u8; 32]) -> (result: Result<String, Error>)
        ensures
            result.is_ok(),
            result.unwrap()@ == hex_text(signature_of(data@, self.secret_bytes())@),
            signature_parses(signature_of(data@, self.secret_bytes())@),
    {
        proof {
            use_type_invariant(self);
        }
        let signature = sign_digest(data, &self.secret);
        Ok(hex_encode(&signature))
    }

    /// Seals the wallet under a password: a fresh salt, a fresh nonce, and the
    /// secret key encrypted under the key that the password and the salt
    /// give. Whatever was drawn, the result seals this wallet's secret.
    pub fn write(&self, password: &[u8]) -> (result: Result<Vec<u8>, Error>)
        ensures
            match result {
                Ok(data) => seals(data@, password@, self.secret_bytes()),
                Err(e) => e.failure() == no_key() || e.failure() == not_encrypted(),
            },
    {
        let salt: [u8; 16] = random_array();
        let nonce: [u8; 12] = random_array();
        self.write_with(password, &salt, &nonce)
    }

    /// Seals the wallet under a password with a given salt and nonce: the
    /// salt, the nonce, and the secret key encrypted under the key that the
    /// password and the salt give. It fails, with `Fatal`, exactly where no
    /// key can be derived or the cipher refuses.
    pub fn write_with(&self, password: &[u8], salt: &[u8; 16], nonce: &[u8; 12]) -> (result: Result<
        Vec<u8>,
        Error,
    >)
        ensures
            match result {
                Ok(data) => seals(data@, password@, self.secret_bytes()) && sealed_form(
                    self.secret_bytes(),
                    password@,
                    salt@,
                    nonce@,
                ) == Some(data@),
                Err(e) => sealed_form(self.secret_bytes(), password@, salt@, nonce@).is_none() && (
                e.failure() == if password_key(salt@, password@).is_none() {
                    no_key()
                } else {
                    not_encrypted()
                }),
            },
    {
        let key = match restore_key(salt, password) {
            Ok(key) => key,
            Err(e) => { return Err(e); },
        };
        let sealed = match encrypt_with_nonce(&key, nonce, &self.secret) {
            Ok(sealed) => sealed,
            Err(e) => { return Err(e); },
        };
        let mut data: Vec<u8> = Vec::new();
        push_bytes(&mut data, salt);
        push_bytes(&mut data, nonce);
        push_bytes(&mut data, sealed.as_slice());
        proof {
            assert(data@ =~= salt@ + nonce@ + sealed@);
            assert(password_key(salt@, password@) == Some(key@));
            assert(aes_gcm_opened(key@, nonce@, sealed@) == Some(self.secret@));
        }
        Ok(data)
    }

    /// Opens a sealed wallet with a password. It succeeds exactly where the
    /// data holds a secret key for that password, and fails with `Fatal`
    /// otherwise; `sealed_failure` says why.
    pub fn read(data: &[u8], password: &[u8]) -> (result: Result<Wallet, Error>)
        ensures
            match result {
                Ok(wallet) => sealed_secret(data@, password@) == Some(wallet.secret_bytes()),
                Err(e) => sealed_secret(data@, password@).is_none() && e.failure()
                    == sealed_failure(data@, password@),
            },
    {
        if data.len() < SALT_LENGTH + NONCE_LENGTH {
            return Err(Error::new(ErrorKind::Fatal, "Key file is too short"));
        }
        let salt = slice_subrange(data, 0, SALT_LENGTH);
        let nonce = slice_subrange(data, SALT_LENGTH, SALT_LENGTH + NONCE_LENGTH);
        let sealed = slice_subrange(data, SALT_LENGTH + NONCE_LENGTH, data.len());
        let key = match restore_key(salt, password) {
            Ok(key) => key,
            Err(e) => { return Err(e); },
        };
        let opened = match decrypt_data(&key, sealed, nonce) {
            Ok(opened) => opened,
            Err(e) => { return Err(e); },
        };
        if opened.len() != 32 {
            return Err(Error::new(ErrorKind::Fatal, "Invalid secret key"));
        }
        let secret: [u8; 32] = to_array(opened.as_slice());
        match Wallet::from_secret(secret) {
            Ok(wallet) => Ok(wallet),
            Err(_) => Err(Error::new(ErrorKind::Fatal, "Invalid secret key")),
        }
    }
}

} // verus!
