//! Device identifiers: format validation and shard assignment.

use vstd::prelude::*;

verus! {

/// Number of storage shards a device identifier can be mapped onto.
pub const NUM_SHARDS: u64 = 8;

/// Characters admitted in a device identifier: ASCII letters and digits,
/// hyphen, underscore.
pub open spec fn is_id_char(c: char) -> bool {
    let u = c as u32;
    ||| 48 <= u <= 57
    ||| 65 <= u <= 90
    ||| 97 <= u <= 122
    ||| u == 45
    ||| u == 95
}

/// A well-formed device identifier: non-empty, at most `max_len` characters,
/// admissible characters only.
pub open spec fn valid_device_id(s: Seq<char>, max_len: int) -> bool {
    &&& 1 <= s.len() <= max_len
    &&& forall|i: int| 0 <= i < s.len() ==> is_id_char(#[trigger] s[i])
}

fn id_char_ok(c: char) -> (r: bool)
    ensures
        r == is_id_char(c),
{
    let u = c as u32;
    (48 <= u && u <= 57) || (65 <= u && u <= 90) || (97 <= u && u <= 122) || u == 45 || u == 95
}

/// Format check for a device identifier, against the configured length bound.
pub fn validate_device_id(id: &str, max_len: usize) -> (r: Result<(), String>)
    ensures
        r is Ok <==> valid_device_id(id@, max_len as int),
{
    let n = id.unicode_len();
    if n == 0 {
        return Err("Device ID cannot be empty".to_string());
    }
    if n > max_len {
        return Err("Device ID exceeds maximum length".to_string());
    }
    let mut i: usize = 0;
    while i < n
        invariant
            n == id@.len(),
            i <= n,
            forall|j: int| 0 <= j < i ==> is_id_char(#[trigger] id@[j]),
        decreases n - i,
    {
        let c = id.get_char(i);
        if !id_char_ok(c) {
            return Err("Device ID contains invalid characters".to_string());
        }
        i = i + 1;
    }
    Ok(())
}

/// Digest of a device identifier under seahash's fixed seeds; a function of
/// the identifier alone.
pub uninterp spec fn sea_hash_of(s: Seq<char>) -> u64;

/// Relies on seahash::hash: a 64-bit digest of the identifier's bytes,
/// computed with the crate's fixed seeds, depending on the input alone.
#[verifier::external_body]
fn sea_hash(id: &str) -> (r: u64)
    ensures
        r == sea_hash_of(id@),
{
    seahash::hash(id.as_bytes())
}

/// The shard a reading is stored under: the identifier's digest modulo the
/// shard count, or shard 0 when no identifier was supplied.
pub fn get_shard_key(device_id: &Option<String>) -> (r: u64)
    ensures
        r == match device_id {
            Some(id) => sea_hash_of(id@) % NUM_SHARDS,
            None => 0u64,
        },
{
    match device_id {
        Some(id) => sea_hash(id.as_str()) % NUM_SHARDS,
        None => 0,
    }
}

} // verus!
