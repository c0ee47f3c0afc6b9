use crate::error::VaultError;
use crate::types::{KeyMaterial, KEY_SIZE};
use vstd::prelude::*;

verus! {

/// Memory cost of the password hash, in KiB (64 MiB).
pub const KDF_MEMORY_KIB: u32 = 65536;

/// Number of lanes of the password hash.
pub const KDF_LANES: u32 = 4;

/// The raw output of Argon2id, version 0x13, with the given costs and output
/// length, on a password and a salt; `None` where the hash rejects its
/// parameters or inputs.
pub uninterp spec fn argon2id_output(
    password: Seq<u8>,
    salt: Seq<u8>,
    m_cost: u32,
    t_cost: u32,
    p_cost: u32,
    out_len: usize,
) -> Option<Seq<u8>>;

/// Relies on argon2's `Params::new` and `Argon2::hash_password_into`
/// (Argon2id, version 0x13): the output depends on the password, the salt and
/// the parameters alone, and fills the buffer of the requested length. The
/// parameters are accepted when `8 <= m_cost`, `8 * p_cost <= m_cost`,
/// `1 <= t_cost`, `1 <= p_cost <= 2^24 - 1` and `4 <= out_len <= 2^32 - 1`;
/// the inputs when the password has at most `2^32 - 1` bytes and the salt
/// between 8 and `2^32 - 1`. `Params::new` computes `8 * p_cost` in `u32`,
/// hence the bound on `p_cost`.
#[verifier::external_body]
fn argon2id_hash(
    password: &[u8],
    salt: &[u8],
    m_cost: u32,
    t_cost: u32,
    p_cost: u32,
    out_len: usize,
) -> (r: Option<Vec<u8>>)
    requires
        1 <= p_cost <= 0xFFFFFF,
    ensures
        8 <= m_cost && 8 * p_cost <= m_cost && 1 <= t_cost && 4 <= out_len <= 0xFFFFFFFF
            && password@.len() <= 0xFFFFFFFF && 8 <= salt@.len() <= 0xFFFFFFFF ==> r is Some,
        match r {
            Some(k) => argon2id_output(password@, salt@, m_cost, t_cost, p_cost, out_len) == Some(
                k@,
            ) && k@.len() == out_len,
            None => argon2id_output(password@, salt@, m_cost, t_cost, p_cost, out_len) is None,
        },
{
    let params = argon2::Params::new(m_cost, t_cost, p_cost, Some(out_len)).ok()?;
    let hasher = argon2::Argon2::new(argon2::Algorithm::Argon2id, argon2::Version::V0x13, params);
    let mut out = vec![0u8; out_len];
    hasher.hash_password_into(password, salt, &mut out).ok()?;
    Some(out)
}

/// The key derived from a password, a salt and a work factor: `None` for a
/// work factor of zero, or where the hash rejects its inputs.
pub open spec fn derived_key(password: Seq<u8>, salt: Seq<u8>, work_factor: u32) -> Option<
    Seq<u8>,
> {
    if work_factor == 0 {
        None
    } else {
        argon2id_output(password, salt, KDF_MEMORY_KIB, work_factor, KDF_LANES, KEY_SIZE)
    }
}

/// Derives a 32-byte key from a password, a salt and a work factor (the time
/// cost of the memory-hard hash, at least 1).
///
/// The result is a function of the three inputs alone: equal inputs give
/// equal keys.
pub fn derive_key(password: &[u8], salt: &[u8], work_factor: u32) -> (r: Result<
    KeyMaterial,
    VaultError,
>)
    ensures
        match derived_key(password@, salt@, work_factor) {
            Some(k) => r is Ok && r->Ok_0.key@ == k && k.len() == KEY_SIZE,
            None => r matches Err(VaultError::KdfError(_)),
        },
        work_factor >= 1 && password@.len() <= 0xFFFFFFFF && 8 <= salt@.len() <= 0xFFFFFFFF
            ==> r is Ok,
{
    if work_factor == 0 {
        return Err(VaultError::KdfError(String::from_str("work factor must be at least 1")));
    }
    match argon2id_hash(password, salt, KDF_MEMORY_KIB, work_factor, KDF_LANES, KEY_SIZE) {
        Some(key) => Ok(KeyMaterial { key }),
        None => Err(VaultError::KdfError(String::from_str("password hash rejected its inputs"))),
    }
}

} // verus!
