//! Generating the extended key pair of a hardware wallet: a fresh random
//! seed, the BIP 32 master key it gives on the main network, and both keys
//! in their Base58Check text form.
use vstd::prelude::*;

verus! {

/// Calls `secp256k1::SecretKey::new` with the thread's random number
/// generator and returns the key's bytes: 32 random bytes that form a valid
/// secret key. They come from chance, so nothing more is stated of them.
#[verifier::external_body]
fn random_seed() -> (seed: Vec<u8>)
    ensures
        seed@.len() == 32,
{
    secp256k1::SecretKey::new(&mut secp256k1::rand::thread_rng()).secret_bytes().to_vec()
}

/// The 78-byte BIP 32 serialization of the main-network master key of
/// `seed`; `None` when the seed's HMAC-SHA512 gives no valid secret key.
pub uninterp spec fn bip32_master(seed: Seq<u8>) -> Option<Seq<u8>>;

/// Calls `bitcoin::bip32::ExtendedPrivKey::new_master` for the main network
/// and serializes the key with `ExtendedPrivKey::encode`: the master key of
/// `seed`, 78 bytes long, or the text of the error when the seed gives no
/// valid secret key.
#[verifier::external_body]
fn master_key(seed: &Vec<u8>) -> (r: Result<Vec<u8>, String>)
    ensures
        match r {
            Ok(k) => bip32_master(seed@) == Some(k@) && k@.len() == 78,
            Err(_) => bip32_master(seed@) is None,
        },
{
    match bitcoin::bip32::ExtendedPrivKey::new_master(bitcoin::Network::Bitcoin, seed.as_slice()) {
        Ok(k) => Ok(k.encode().to_vec()),
        Err(e) => Err(e.to_string()),
    }
}

/// The 78-byte BIP 32 serialization of the extended public key of the
/// extended private key serialized as `xpriv`.
pub uninterp spec fn bip32_public(xpriv: Seq<u8>) -> Seq<u8>;

/// Calls `bitcoin::bip32::ExtendedPubKey::from_priv` with a new signing
/// context on the private key that `xpriv` serializes, and serializes the
/// public key with `ExtendedPubKey::encode`: 78 bytes. A master key's
/// serialization always decodes again (`ExtendedPrivKey::decode`), which
/// the `requires` asks.
#[verifier::external_body]
fn public_key_of(xpriv: &Vec<u8>) -> (r: Vec<u8>)
    requires
        exists|seed: Seq<u8>| #[trigger] bip32_master(seed) == Some(xpriv@),
    ensures
        r@ == bip32_public(xpriv@),
        r@.len() == 78,
{
    let k = bitcoin::bip32::ExtendedPrivKey::decode(xpriv.as_slice()).expect("a master key decodes");
    bitcoin::bip32::ExtendedPubKey::from_priv(&secp256k1::Secp256k1::new(), &k).encode().to_vec()
}

/// The Base58Check text of `data`: `data` followed by the first four bytes of
/// its double SHA-256, written in base 58.
pub uninterp spec fn base58check_text(data: Seq<u8>) -> Seq<char>;

/// Calls `bitcoin::base58::encode_check` (which `check_encode_slice` calls):
/// the Base58Check text of `data`.
#[verifier::external_body]
fn base58_check(data: &Vec<u8>) -> (r: String)
    ensures
        r@ == base58check_text(data@),
{
    bitcoin::base58::encode_check(data.as_slice())
}

/// Whether `xpriv` and `xpub` are the Base58Check texts of the master key
/// of some 32-byte seed and of that key's public key.
pub open spec fn is_master_key_pair(xpriv: Seq<char>, xpub: Seq<char>) -> bool {
    exists|seed: Seq<u8>, k: Seq<u8>|
        #![trigger bip32_master(seed), bip32_public(k)]
        seed.len() == 32 && bip32_master(seed) == Some(k) && k.len() == 78
            && xpriv == base58check_text(k) && xpub == base58check_text(bip32_public(k))
}

/// The extended key pair of `seed`: the main-network master key and its
/// public key, both in Base58Check text (`xprv...`, `xpub...`). Fails with
/// the text of the key derivation's error when the seed gives no valid
/// master key.
pub fn keypair_from_seed(seed: &Vec<u8>) -> (r: Result<(String, String), String>)
    ensures
        match r {
            Ok((xpriv, xpub)) => bip32_master(seed@) matches Some(k) && xpriv@ == base58check_text(k)
                && xpub@ == base58check_text(bip32_public(k)) && k.len() == 78,
            Err(_) => bip32_master(seed@) is None,
        },
{
    let private_bytes = match master_key(seed) {
        Ok(k) => k,
        Err(e) => return Err(e),
    };
    let public_bytes = public_key_of(&private_bytes);
    let private_text = base58_check(&private_bytes);
    let public_text = base58_check(&public_bytes);
    Ok((private_text, public_text))
}

/// Generates a fresh extended key pair from a random seed: the master private
/// key and its public key, both in Base58Check text (`xprv...`, `xpub...`).
/// Fails with the text of the key derivation's error when the seed gives no
/// valid master key. The seed comes from chance: what is stated is that the
/// two texts are the master key of some 32-byte seed and its public key.
pub fn generate_keypair() -> (r: Result<(String, String), String>)
    ensures
        r matches Ok((xpriv, xpub)) ==> is_master_key_pair(xpriv@, xpub@),
        r is Err ==> exists|seed: Seq<u8>| seed.len() == 32 && #[trigger] bip32_master(seed) is None,
{
    let seed = random_seed();
    let r = keypair_from_seed(&seed);
    proof {
        if r is Ok {
            let k = bip32_master(seed@)->Some_0;
            assert(bip32_master(seed@) == Some(k));
            assert(bip32_public(k) == bip32_public(k));
        }
    }
    r
}

} // verus!
