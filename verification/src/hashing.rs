//! The per-bucket password verifier.
//!
//! A bucket caches one PBKDF2 hash of the password that last opened a
//! connection in it.  A cached connection is reused only after the incoming
//! password verifies against that hash, so a stolen idle connection cannot be
//! ridden with a different password.

use crate::error::PoolError;
use pbkdf2::password_hash::{PasswordHash, PasswordHasher, PasswordVerifier, SaltString};
use vstd::prelude::*;

verus! {

/// PBKDF2 iteration count.  Low by design: the hash never leaves the process,
/// passwords are high-entropy generated credentials, and a larger count would
/// erase the latency win of pooling.
pub const PBKDF2_ROUNDS: u32 = 4096;

/// Length in bytes of the derived key.
pub const PBKDF2_OUTPUT_LENGTH: usize = 32;

/// Whether PBKDF2 verification of `password` against the PHC-formatted hash
/// string `hash` succeeds.  The outcome is a function of the two strings
/// alone: the hash string carries its own algorithm, parameters and salt.
pub uninterp spec fn pbkdf2_matches(password: Seq<char>, hash: Seq<char>) -> bool;

#[verifier::external_type_specification]
#[verifier::external_body]
pub struct ExPasswordHashError(pbkdf2::password_hash::Error);

/// Relies on pbkdf2's `PasswordVerifier::verify_password`: it recomputes the
/// hash from the candidate password with the parameters and salt carried in
/// the stored PHC string and compares outputs, so the result depends on the
/// password and the hash string alone.  An unparseable hash string verifies
/// against nothing.
#[verifier::external_body]
pub(crate) fn verify_password(password: &str, hash: &str) -> (r: bool)
    ensures
        r == pbkdf2_matches(password@, hash@),
{
    match PasswordHash::new(hash) {
        Ok(parsed) => pbkdf2::Pbkdf2.verify_password(password.as_bytes(), &parsed).is_ok(),
        Err(_) => false,
    }
}

/// Relies on pbkdf2's `PasswordHasher::hash_password_customized` with a
/// fresh salt from `SaltString::generate` over rand's `OsRng`: on success
/// the serialized PHC string records the algorithm, parameters, salt and
/// derived key, and `verify_password` of the same password against it
/// recomputes the same key, whatever salt was drawn.
#[verifier::external_body]
pub(crate) fn hash_password_raw(password: &str) -> (r: Result<
    String,
    pbkdf2::password_hash::Error,
>)
    ensures
        r matches Ok(h) ==> pbkdf2_matches(password@, h@),
{
    let salt = SaltString::generate(rand::rngs::OsRng);
    let params = pbkdf2::Params { rounds: PBKDF2_ROUNDS, output_length: PBKDF2_OUTPUT_LENGTH };
    let hash = pbkdf2::Pbkdf2.hash_password_customized(
        password.as_bytes(),
        None,
        None,
        params,
        &salt,
    )?;
    Ok(hash.to_string())
}

/// Hashes a password for the bucket's credential cache.  Failures of the
/// hashing backend are reported as [`PoolError::PasswordHash`].
pub(crate) fn hash_password(password: &str) -> (r: Result<String, PoolError>)
    ensures
        r matches Ok(h) ==> pbkdf2_matches(password@, h@),
        r is Err ==> r == Err::<String, PoolError>(PoolError::PasswordHash),
{
    match hash_password_raw(password) {
        Ok(h) => Ok(h),
        Err(_) => Err(PoolError::PasswordHash),
    }
}

} // verus!
