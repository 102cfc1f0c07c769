use pow_ledger::keygen::{address, generate_curve_keys};
use pow_ledger::wallet::Wallet;
use rand::{Rng, SeedableRng};
use ripemd::Digest;

fn keys_by_hand(seed: u64) -> (secp256k1::SecretKey, secp256k1::PublicKey) {
    let context = secp256k1::Secp256k1::new();
    let mut rng = pcg_rand::Pcg64::seed_from_u64(seed);
    let random_val = rng.gen::<[u8; 32]>();
    let secret_key = secp256k1::SecretKey::from_slice(&random_val).unwrap();
    let public_key = secp256k1::PublicKey::from_secret_key(&context, &secret_key);
    (secret_key, public_key)
}

fn address_by_hand(public_key: &secp256k1::PublicKey) -> String {
    let sha = sha256::digest(&public_key.serialize()[..]);
    let mut hasher = ripemd::Ripemd160::new();
    hasher.update(sha);
    let result = hasher.finalize();
    let mut checksum = hex::decode(sha256::digest(sha256::digest(&result[0..4]))).unwrap();
    let mut all = result.to_vec();
    all.append(&mut checksum);
    bs58::encode(all).into_string()
}

#[test]
fn keys_come_from_the_seed() {
    for seed in [0u64, 1, 420, 1337] {
        let (secret, public) = generate_curve_keys(seed).unwrap();
        let (secret_key, public_key) = keys_by_hand(seed);
        assert_eq!(secret, secret_key.secret_bytes().to_vec());
        assert_eq!(public, public_key.serialize().to_vec());
        assert_eq!(secret.len(), 32);
        assert_eq!(public.len(), 33);
    }
}

#[test]
fn different_seeds_give_different_keys() {
    assert_ne!(generate_curve_keys(1337).unwrap().0, generate_curve_keys(420).unwrap().0);
    assert_eq!(generate_curve_keys(1337).unwrap().1, generate_curve_keys(1337).unwrap().1);
}

#[test]
fn address_is_base58_of_digest_and_checksum() {
    for seed in [420u64, 1337] {
        let (_, public_key) = keys_by_hand(seed);
        let text = address(&public_key.serialize()).unwrap();
        assert_eq!(text, address_by_hand(&public_key));
        assert_eq!(bs58::decode(&text).into_vec().unwrap().len(), 52);
    }
}

#[test]
fn address_of_any_bytes() {
    let text = address(&[1, 2, 3]).unwrap();
    let body = ripemd::Ripemd160::digest(sha256::digest(&[1u8, 2, 3][..]).as_bytes()).to_vec();
    let decoded = bs58::decode(&text).into_vec().unwrap();
    assert_eq!(decoded[0..20].to_vec(), body);
    assert_eq!(
        decoded[20..].to_vec(),
        hex::decode(sha256::digest(sha256::digest(&body[0..4]))).unwrap()
    );
}

#[test]
fn wallet_holds_keys_and_address_of_its_seed() {
    let wallet = Wallet::from_seed(1337).unwrap();
    let (_, public_key) = keys_by_hand(1337);
    assert_eq!(wallet.public_key(), &public_key.serialize().to_vec());
    assert_eq!(wallet.address(), &address_by_hand(&public_key));
}

#[test]
fn wallet_signature_is_accepted_by_the_curve() {
    let wallet = Wallet::from_seed(1337).unwrap();
    let (secret_key, public_key) = keys_by_hand(1337);
    let data = [7u8; 32];
    let signature = wallet.sign(&data);
    let context = secp256k1::Secp256k1::new();
    let message = secp256k1::Message::from_hashed_data::<secp256k1::hashes::sha256::Hash>(&data);
    let parsed = secp256k1::ecdsa::Signature::from_der(&signature).unwrap();
    assert_eq!(context.verify_ecdsa(&message, &parsed, &public_key), Ok(()));
    assert_eq!(parsed, context.sign_ecdsa(&message, &secret_key));
    let other = secp256k1::Message::from_hashed_data::<secp256k1::hashes::sha256::Hash>(&[8u8; 32]);
    assert!(context.verify_ecdsa(&other, &parsed, &public_key).is_err());
}

#[test]
fn wallet_signature_is_accepted_under_its_public_key_bytes() {
    let wallet = Wallet::from_seed(420).unwrap();
    let signature = wallet.sign(b"some data");
    let key = secp256k1::PublicKey::from_slice(wallet.public_key()).unwrap();
    let parsed = secp256k1::ecdsa::Signature::from_der(&signature).unwrap();
    let message =
        secp256k1::Message::from_hashed_data::<secp256k1::hashes::sha256::Hash>(b"some data");
    assert_eq!(secp256k1::Secp256k1::new().verify_ecdsa(&message, &parsed, &key), Ok(()));
}

#[test]
fn signing_is_deterministic() {
    let wallet = Wallet::from_seed(420).unwrap();
    assert_eq!(wallet.sign(b"abc"), wallet.sign(b"abc"));
    assert_ne!(wallet.sign(b"abc"), wallet.sign(b"abd"));
}
