//! Keys under which the dedup state records what was already sent, and the short
//! hash that names a provider when the caller gives no id.
use vstd::prelude::*;
use crate::strings::{decimal, hex_lower, u8_to_decimal, u64_to_hex};
use vstd::string::StringSliceAdditionalSpecFns;

verus! {

/// `"tier:<tier_name>:<threshold>"`.
pub open spec fn threshold_key_of(tier_name: Seq<char>, threshold: nat) -> Seq<char> {
    "tier:"@ + tier_name + ":"@ + decimal(threshold)
}

/// `"<provider_id>:<tier_name>"`.
pub open spec fn reset_key_of(provider_id: Seq<char>, tier_name: Seq<char>) -> Seq<char> {
    provider_id + ":"@ + tier_name
}

/// `"<provider_id>:tier:<tier_name>:<threshold>"`: one threshold of one tier of one provider.
pub open spec fn threshold_dedup_key_of(
    provider_id: Seq<char>,
    tier_name: Seq<char>,
    threshold: nat,
) -> Seq<char> {
    provider_id + ":"@ + threshold_key_of(tier_name, threshold)
}

/// `"balance:<provider_id>:exhausted"`.
pub open spec fn exhausted_key_of(provider_id: Seq<char>) -> Seq<char> {
    "balance:"@ + provider_id + ":exhausted"@
}

/// The key of one threshold of one tier.
pub fn threshold_key(tier_name: &str, threshold: u8) -> (k: String)
    ensures
        k@ == threshold_key_of(tier_name@, threshold as nat),
{
    let mut k = "tier:".to_owned();
    k.append(tier_name);
    k.append(":");
    let pct = u8_to_decimal(threshold);
    k.append(pct.as_str());
    k
}

/// The key of the reset reminders of one tier of one provider.
pub fn reset_key(provider_id: &str, tier_name: &str) -> (k: String)
    ensures
        k@ == reset_key_of(provider_id@, tier_name@),
{
    let mut k = provider_id.to_owned();
    k.append(":");
    k.append(tier_name);
    k
}

/// The key under which a threshold of one tier of one provider is recorded as sent.
pub fn threshold_dedup_key(provider_id: &str, tier_name: &str, threshold: u8) -> (k: String)
    ensures
        k@ == threshold_dedup_key_of(provider_id@, tier_name@, threshold as nat),
{
    let mut k = provider_id.to_owned();
    k.append(":");
    let t = threshold_key(tier_name, threshold);
    k.append(t.as_str());
    assert(k@ =~= threshold_dedup_key_of(provider_id@, tier_name@, threshold as nat));
    k
}

/// The key under which the "exhausted" notice of a balance provider is recorded.
pub fn exhausted_key(provider_id: &str) -> (k: String)
    ensures
        k@ == exhausted_key_of(provider_id@),
{
    let mut k = "balance:".to_owned();
    k.append(provider_id);
    k.append(":exhausted");
    k
}

/// Start value of the hash. This is the value the project has always used for its
/// provider ids; it is one digit shorter than the standard FNV-1a offset basis
/// (14695981039346656037), so the hashes differ from standard FNV-1a ones and must
/// stay as they are for stored ids to keep matching.
pub const FNV_OFFSET: u64 = 1469598103934665603;

/// Multiplier of the hash.
pub const FNV_PRIME: u64 = 1099511628211;

/// The FNV-1a scheme over `bytes` (xor each byte in, then multiply by `FNV_PRIME`
/// modulo 2^64), started from `FNV_OFFSET`.
pub open spec fn fnv1a(bytes: Seq<u8>) -> u64
    decreases bytes.len(),
{
    if bytes.len() == 0 {
        FNV_OFFSET
    } else {
        (fnv1a(bytes.drop_last()) ^ (bytes.last() as u64)).wrapping_mul(FNV_PRIME)
    }
}

/// The short hash of a string: the low 32 bits of `fnv1a` over its UTF-8 bytes,
/// in lower-case hexadecimal.
pub open spec fn short_hash_of(bytes: Seq<u8>) -> Seq<char> {
    hex_lower((fnv1a(bytes) as nat) % 0x1_0000_0000)
}

/// A short, stable name for `s` (used for a base URL when no provider id is given).
pub fn short_hash(s: &str) -> (r: String)
    ensures
        r@ == short_hash_of(s.spec_bytes()),
{
    let bytes = s.as_bytes();
    let n = bytes.len();
    let mut h: u64 = 1469598103934665603;
    let mut i: usize = 0;
    while i < n
        invariant
            i <= n,
            n == bytes@.len(),
            bytes@ == s.spec_bytes(),
            h == fnv1a(bytes@.subrange(0, i as int)),
        decreases n - i,
    {
        let b = bytes[i];
        assert(bytes@.subrange(0, i + 1).drop_last() =~= bytes@.subrange(0, i as int));
        h = h ^ (b as u64);
        h = h.wrapping_mul(1099511628211);
        i = i + 1;
    }
    assert(bytes@.subrange(0, n as int) =~= bytes@);
    let low = h & 0xffff_ffff;
    assert(low == h % 0x1_0000_0000) by (bit_vector)
        requires
            low == h & 0xffff_ffff,
    ;
    u64_to_hex(low)
}

/// `"<prefix>:<short hash of base_url>"`.
pub open spec fn fallback_provider_id(prefix: Seq<char>, base_url: &str) -> Seq<char> {
    prefix + ":"@ + short_hash_of(base_url.spec_bytes())
}

/// The provider id and display name used for notices: the given ones, else an id
/// made from `prefix` and the hash of the base URL, and the id as the name.
pub fn provider_identity(
    prefix: &str,
    base_url: &str,
    provider_id: Option<String>,
    provider_name: Option<String>,
) -> (r: (String, String))
    ensures
        r.0@ == match provider_id {
            Some(id) => id@,
            None => fallback_provider_id(prefix@, base_url),
        },
        r.1@ == match provider_name {
            Some(name) => name@,
            None => r.0@,
        },
{
    let pid = match provider_id {
        Some(id) => id,
        None => {
            let mut id = prefix.to_owned();
            id.append(":");
            let h = short_hash(base_url);
            id.append(h.as_str());
            id
        },
    };
    let pname = match provider_name {
        Some(name) => name,
        None => pid.clone(),
    };
    (pid, pname)
}

/// Id and name of a balance provider (`"balance:<hash>"` when no id is given).
pub fn balance_identity(
    base_url: &str,
    provider_id: Option<String>,
    provider_name: Option<String>,
) -> (r: (String, String))
    ensures
        r.0@ == match provider_id {
            Some(id) => id@,
            None => fallback_provider_id("balance"@, base_url),
        },
        r.1@ == match provider_name {
            Some(name) => name@,
            None => r.0@,
        },
{
    provider_identity("balance", base_url, provider_id, provider_name)
}

/// Id and name of a coding-plan provider (`"coding_plan:<hash>"` when no id is given).
pub fn coding_plan_identity(
    base_url: &str,
    provider_id: Option<String>,
    provider_name: Option<String>,
) -> (r: (String, String))
    ensures
        r.0@ == match provider_id {
            Some(id) => id@,
            None => fallback_provider_id("coding_plan"@, base_url),
        },
        r.1@ == match provider_name {
            Some(name) => name@,
            None => r.0@,
        },
{
    provider_identity("coding_plan", base_url, provider_id, provider_name)
}

} // verus!
