use pos_chain::crypto::decrypt_data;
use pos_chain::crypto::derive_key;
use pos_chain::crypto::encrypt_data;
use pos_chain::crypto::encrypt_with_nonce;
use pos_chain::crypto::restore_key;
use pos_chain::error::ErrorKind;
use pos_chain::wallet::Wallet;

const WALLET_PASSWORD: &[u8] = b"password";

#[test]
fn wallet_test_create_write_read_wallet() {
    let wallet = Wallet::new();
    let sealed = wallet.write(WALLET_PASSWORD).unwrap();
    let restored = Wallet::read(&sealed, WALLET_PASSWORD).unwrap();
    assert_eq!(wallet.address(), restored.address());
}

#[test]
fn sealed_wallet_has_salt_nonce_and_ciphertext() {
    let wallet = Wallet::new();
    let sealed = wallet.write(WALLET_PASSWORD).unwrap();
    assert_eq!(sealed.len(), 16 + 12 + 32 + 16);
    let key = restore_key(&sealed[..16], WALLET_PASSWORD).unwrap();
    let secret = decrypt_data(&key, &sealed[28..], &sealed[16..28]).unwrap();
    assert_eq!(secret, wallet.secret().to_vec());
    let again = wallet.write(WALLET_PASSWORD).unwrap();
    assert_ne!(sealed, again);
}

#[test]
fn sealed_wallet_does_not_open_with_another_password() {
    let wallet = Wallet::new();
    let sealed = wallet.write(WALLET_PASSWORD).unwrap();
    let error = Wallet::read(&sealed, b"passwort").unwrap_err();
    assert_eq!(error.kind, ErrorKind::Fatal);
}

#[test]
fn damaged_or_short_wallet_file_does_not_open() {
    let wallet = Wallet::new();
    let mut sealed = wallet.write(WALLET_PASSWORD).unwrap();
    let last = sealed.len() - 1;
    sealed[last] ^= 1;
    assert_eq!(Wallet::read(&sealed, WALLET_PASSWORD).unwrap_err().kind, ErrorKind::Fatal);
    assert_eq!(Wallet::read(&sealed[..27], WALLET_PASSWORD).unwrap_err().kind, ErrorKind::Fatal);
    assert_eq!(Wallet::read(&[], WALLET_PASSWORD).unwrap_err().kind, ErrorKind::Fatal);
}

#[test]
fn wallet_from_secret_has_the_key_of_the_secret() {
    let secret = [7u8; 32];
    let wallet = Wallet::from_secret(secret).unwrap();
    assert_eq!(wallet.secret(), secret);
    let key = libsecp256k1::PublicKey::from_secret_key(
        &libsecp256k1::SecretKey::parse(&secret).unwrap(),
    );
    assert_eq!(wallet.address(), hex::encode(key.serialize_compressed()));
    assert_eq!(wallet.address().len(), 66);
    assert_eq!(wallet.clone().address(), wallet.address());
}

#[test]
fn wallet_from_secret_rejects_what_is_no_key() {
    let error = Wallet::from_secret([0u8; 32]).unwrap_err();
    assert_eq!(error.kind, ErrorKind::InvalidInput);
    assert_eq!(error.message(), "Invalid secret key");
    assert!(Wallet::from_secret([0xffu8; 32]).is_err());
}

#[test]
fn wallet_from_secret_wants_a_number_below_the_curve_order() {
    let order: [u8; 32] =
        hex::decode("fffffffffffffffffffffffffffffffebaaedce6af48a03bbfd25e8cd0364141")
            .unwrap()
            .try_into()
            .unwrap();
    assert!(Wallet::from_secret(order).is_err());
    let mut below = order;
    below[31] -= 1;
    assert_eq!(Wallet::from_secret(below).unwrap().secret(), below);
    let mut above = order;
    above[31] += 1;
    assert!(Wallet::from_secret(above).is_err());
    let mut one = [0u8; 32];
    one[31] = 1;
    assert!(Wallet::from_secret(one).is_ok());
}

#[test]
fn new_wallets_differ() {
    assert_ne!(Wallet::new().address(), Wallet::new().address());
}

#[test]
fn wallet_signature_verifies_under_its_address() {
    let wallet = Wallet::from_secret([7u8; 32]).unwrap();
    let digest = [9u8; 32];
    let text = wallet.sign(&digest).unwrap();
    assert_eq!(text, wallet.sign(&digest).unwrap());
    let signature: [u8; 64] = hex::decode(&text).unwrap().try_into().unwrap();
    let key: [u8; 33] = hex::decode(wallet.address()).unwrap().try_into().unwrap();
    assert!(libsecp256k1::verify(
        &libsecp256k1::Message::parse(&digest),
        &libsecp256k1::Signature::parse_standard(&signature).unwrap(),
        &libsecp256k1::PublicKey::parse_compressed(&key).unwrap(),
    ));
    assert!(!libsecp256k1::verify(
        &libsecp256k1::Message::parse(&[8u8; 32]),
        &libsecp256k1::Signature::parse_standard(&signature).unwrap(),
        &libsecp256k1::PublicKey::parse_compressed(&key).unwrap(),
    ));
}

#[test]
fn derived_key_is_restored_from_its_salt() {
    let (salt, key) = derive_key(WALLET_PASSWORD).unwrap();
    assert_eq!(restore_key(&salt, WALLET_PASSWORD).unwrap(), key);
    assert_ne!(restore_key(&salt, b"other").unwrap(), key);
    assert_ne!(key.to_vec(), WALLET_PASSWORD.to_vec());
    let (other_salt, _) = derive_key(WALLET_PASSWORD).unwrap();
    assert_ne!(salt, other_salt);
}

#[test]
fn restore_key_wants_a_salt_of_sixteen_bytes() {
    assert_eq!(restore_key(&[1u8; 15], WALLET_PASSWORD).unwrap_err().kind, ErrorKind::Fatal);
    assert_eq!(restore_key(&[1u8; 17], WALLET_PASSWORD).unwrap_err().kind, ErrorKind::Fatal);
    assert!(restore_key(&[1u8; 16], WALLET_PASSWORD).is_ok());
}

#[test]
fn encrypted_data_decrypts_to_itself() {
    let key = [3u8; 32];
    let (sealed, nonce) = encrypt_data(&key, b"secret text").unwrap();
    assert_eq!(sealed.len(), 11 + 16);
    assert_ne!(&sealed[..11], b"secret text");
    assert_eq!(decrypt_data(&key, &sealed, &nonce).unwrap(), b"secret text".to_vec());
    assert_eq!(decrypt_data(&[4u8; 32], &sealed, &nonce).unwrap_err().kind, ErrorKind::Fatal);
    assert_eq!(encrypt_with_nonce(&key, &nonce, b"secret text").unwrap(), sealed);
}

#[test]
fn encryption_wants_key_and_nonce_of_the_right_length() {
    assert_eq!(encrypt_data(&[3u8; 31], b"x").unwrap_err().kind, ErrorKind::Fatal);
    assert_eq!(encrypt_with_nonce(&[3u8; 32], &[0u8; 11], b"x").unwrap_err().kind, ErrorKind::Fatal);
    assert_eq!(decrypt_data(&[3u8; 33], b"x", &[0u8; 12]).unwrap_err().kind, ErrorKind::Fatal);
    assert_eq!(decrypt_data(&[3u8; 32], b"x", &[0u8; 13]).unwrap_err().kind, ErrorKind::Fatal);
}

#[test]
fn sealing_with_given_salt_and_nonce_is_fixed() {
    let wallet = Wallet::from_secret([7u8; 32]).unwrap();
    let salt = [1u8; 16];
    let nonce = [2u8; 12];
    let sealed = wallet.write_with(WALLET_PASSWORD, &salt, &nonce).unwrap();
    assert_eq!(sealed, wallet.write_with(WALLET_PASSWORD, &salt, &nonce).unwrap());
    assert_eq!(&sealed[..16], &salt);
    assert_eq!(&sealed[16..28], &nonce);
    let key = restore_key(&salt, WALLET_PASSWORD).unwrap();
    assert_eq!(sealed[28..].to_vec(), encrypt_with_nonce(&key, &nonce, &[7u8; 32]).unwrap());
    assert_eq!(Wallet::read(&sealed, WALLET_PASSWORD).unwrap().secret(), [7u8; 32]);
    assert_ne!(sealed, wallet.write_with(b"other", &salt, &nonce).unwrap());
}
