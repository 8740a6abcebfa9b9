//! Password storage: Argon2id hashes in PHC string form, with a fresh random
//! salt for every hash.

use crate::codec::{b64url_encode, is_b64_symbol, lemma_encode_alphabet, lemma_encode_injective, lemma_encode_len};
use argon2::password_hash::{PasswordHash, PasswordHasher, PasswordVerifier, SaltString};
use argon2::Argon2;
use rand_core::{OsRng, RngCore};
use vstd::prelude::*;
use vstd::string::StringSliceAdditionalSpecFns;

verus! {

/// Whether the PHC string `phc` is a well-formed Argon2 hash of `password`
/// (its own salt and parameters, recomputed and compared).
pub uninterp spec fn argon2_verifies(phc: Seq<char>, password: Seq<u8>) -> bool;

/// The start of every hash this library makes: algorithm Argon2id, version
/// 19 (0x13), 19 MiB of memory, 2 passes, 1 lane.
pub open spec fn default_phc_prefix() -> Seq<char> {
    "$argon2id$v=19$m=19456,t=2,p=1$"@
}

/// The symbol of the standard base64 alphabet for a symbol of the URL-safe
/// one: `-` becomes `+`, `_` becomes `/`, the rest stay.
pub open spec fn standard_symbol(b: u8) -> char {
    if b == 45 {
        '+'
    } else if b == 95 {
        '/'
    } else {
        b as char
    }
}

/// The salt as it stands in a PHC string: standard base64 without padding.
pub open spec fn phc_salt_text(salt: Seq<u8>) -> Seq<char> {
    b64url_encode(salt).map_values(|b: u8| standard_symbol(b))
}

/// The last field of a PHC string: the Argon2id output (version 19, default
/// parameters, 32 bytes) for `password` and `salt`, in standard unpadded base64.
pub uninterp spec fn argon2id_hash_text(password: Seq<u8>, salt: Seq<u8>) -> Seq<char>;

/// The PHC string of `password` hashed with `salt`.
pub open spec fn phc_string(password: Seq<u8>, salt: Seq<u8>) -> Seq<char> {
    default_phc_prefix() + phc_salt_text(salt) + seq!['$'] + argon2id_hash_text(password, salt)
}

/// What holds of every hash of `password`, whichever salt was drawn: it is
/// the PHC string of the password under some 16-byte salt, and it verifies.
pub open spec fn hash_outcome(password: Seq<u8>, phc: Seq<char>) -> bool {
    &&& exists|salt: Seq<u8>| salt.len() == 16 && #[trigger] phc_string(password, salt) == phc
    &&& argon2_verifies(phc, password)
}

/// `rand_core::RngCore::fill_bytes` of `rand_core::OsRng` into 16 bytes, as
/// `SaltString::generate` draws them (crate `rand_core`). The bytes are random:
/// only their number is trusted.
#[verifier::external_body]
fn random_salt() -> (salt: Vec<u8>)
    ensures
        salt@.len() == 16,
{
    let mut bytes = [0u8; 16];
    OsRng.fill_bytes(&mut bytes);
    bytes.to_vec()
}

/// `SaltString::encode_b64` of the salt, then `PasswordHasher::hash_password`
/// of `Argon2::default()` and `to_string` (crates `argon2`, `password-hash`).
/// Trusted to give the PHC string `$argon2id$v=19$m=19456,t=2,p=1$`, the salt
/// in standard unpadded base64, `$`, and the output named
/// `argon2id_hash_text`; and that this string verifies against the password.
/// Hashing fails only for a password longer than `argon2::MAX_PWD_LEN`
/// (2^32 - 1) bytes, which `requires` excludes; 16 bytes always make a salt.
#[verifier::external_body]
fn argon2_hash(password: &[u8], salt: &[u8]) -> (phc: String)
    requires
        password@.len() <= 0xFFFF_FFFF,
        salt@.len() == 16,
    ensures
        phc@ == default_phc_prefix() + phc_salt_text(salt@) + seq!['$'] + argon2id_hash_text(
            password@,
            salt@,
        ),
        argon2_verifies(phc@, password@),
{
    let salt = SaltString::encode_b64(salt).expect("16 bytes make a salt");
    Argon2::default().hash_password(password, &salt).expect("password within Argon2 limits").to_string()
}

/// `PasswordHash::new` then `PasswordVerifier::verify_password` of
/// `Argon2::default()` (crates `argon2`, `password-hash`): trusted to answer
/// `argon2_verifies`; a string that does not parse is answered `false`.
#[verifier::external_body]
fn argon2_verify(phc: &str, password: &[u8]) -> (ok: bool)
    ensures
        ok == argon2_verifies(phc@, password@),
{
    match PasswordHash::new(phc) {
        Ok(parsed) => Argon2::default().verify_password(password, &parsed).is_ok(),
        Err(_) => false,
    }
}

/// Hashes a password for storage with the given 16-byte salt.
pub fn hash_password_with_salt(password: &str, salt: &[u8]) -> (phc: String)
    requires
        password.spec_bytes().len() <= 0xFFFF_FFFF,
        salt@.len() == 16,
    ensures
        phc@ == phc_string(password.spec_bytes(), salt@),
        argon2_verifies(phc@, password.spec_bytes()),
{
    argon2_hash(password.as_bytes(), salt)
}

/// Hashes a password for storage, with a fresh random salt.
pub fn hash_password(password: &str) -> (phc: String)
    requires
        password.spec_bytes().len() <= 0xFFFF_FFFF,
    ensures
        hash_outcome(password.spec_bytes(), phc@),
{
    let salt = random_salt();
    let phc = hash_password_with_salt(password, salt.as_slice());
    assert(phc_string(password.spec_bytes(), salt@) == phc@);
    phc
}

/// Whether `password` matches the stored hash `password_hash`.
pub fn verify_password(password_hash: &str, password: &str) -> (ok: bool)
    ensures
        ok == argon2_verifies(password_hash@, password.spec_bytes()),
{
    argon2_verify(password_hash, password.as_bytes())
}

proof fn lemma_salt_text(salt: Seq<u8>)
    requires
        salt.len() == 16,
    ensures
        phc_salt_text(salt).len() == 22,
{
    lemma_encode_len(salt);
}

/// Fresh salts make fresh strings: hashing one password with two different
/// 16-byte salts gives two different PHC strings.
pub proof fn law_distinct_salts(password: Seq<u8>, salt1: Seq<u8>, salt2: Seq<u8>)
    requires
        salt1.len() == 16,
        salt2.len() == 16,
        salt1 != salt2,
    ensures
        phc_string(password, salt1) != phc_string(password, salt2),
{
    lemma_salt_text(salt1);
    lemma_salt_text(salt2);
    let p1 = phc_string(password, salt1);
    let p2 = phc_string(password, salt2);
    let n = default_phc_prefix().len() as int;
    if p1 == p2 {
        let t1 = phc_salt_text(salt1);
        let t2 = phc_salt_text(salt2);
        assert(p1.subrange(n, n + 22) =~= t1);
        assert(p2.subrange(n, n + 22) =~= t2);
        let e1 = b64url_encode(salt1);
        let e2 = b64url_encode(salt2);
        lemma_encode_alphabet(salt1);
        lemma_encode_alphabet(salt2);
        assert forall|i: int| 0 <= i < e1.len() implies e1[i] == e2[i] by {
            assert(is_b64_symbol(e1[i]));
            assert(is_b64_symbol(e2[i]));
            assert(t1[i] == t2[i]);
        }
        assert(e1 =~= e2);
        lemma_encode_injective(salt1, salt2);
    }
}

/// A stored hash verifies: whatever salt `hash_password` drew, the string it
/// returns for a password is accepted by `verify_password` for that password.
pub proof fn law_hash_then_verify(password: Seq<u8>, phc: Seq<char>, ok: bool)
    requires
        hash_outcome(password, phc),
        ok == argon2_verifies(phc, password),
    ensures
        ok,
{
}

} // verus!
