//! Deterministic local signing of event provenance: FNV-1a over the signer and the
//! payload, written as sixteen lowercase hexadecimal digits.
use vstd::prelude::*;
use crate::text::{digit_char, digit_text};

verus! {

/// The FNV-1a 64-bit offset basis.
pub const FNV_OFFSET_BASIS: u64 = 0xcbf29ce484222325u64;

/// The FNV-1a 64-bit prime.
pub const FNV_PRIME: u64 = 0x100000001b3u64;

/// FNV-1a 64 of `bytes`: xor each byte into the hash, then multiply by the prime,
/// modulo 2^64.
pub open spec fn fnv1a64_spec(bytes: Seq<u8>) -> u64
    decreases bytes.len(),
{
    if bytes.len() == 0 {
        FNV_OFFSET_BASIS
    } else {
        (fnv1a64_spec(bytes.drop_last()) ^ (bytes.last() as u64)).wrapping_mul(FNV_PRIME)
    }
}

/// The last `n` hexadecimal digits of `v`, most significant first.
pub open spec fn hex_digits(v: nat, n: nat) -> Seq<char>
    decreases n,
{
    if n == 0 {
        Seq::empty()
    } else {
        hex_digits(v / 16, (n - 1) as nat).push(digit_char(v % 16))
    }
}

/// The signature of `payload` by `signer_did`.
pub open spec fn sign_spec(signer_did: Seq<char>, payload: Seq<char>) -> Seq<char> {
    let material = signer_did + ":"@ + payload;
    "sig:"@ + hex_digits(fnv1a64_spec(vstd::utf8::encode_utf8(material)) as nat, 16)
}

/// FNV-1a 64 of `bytes`.
fn fnv1a64(bytes: &[u8]) -> (hash: u64)
    ensures
        hash == fnv1a64_spec(bytes@),
{
    let mut hash: u64 = FNV_OFFSET_BASIS;
    let mut i: usize = 0;
    while i < bytes.len()
        invariant
            i <= bytes.len(),
            hash == fnv1a64_spec(bytes@.take(i as int)),
        decreases bytes.len() - i,
    {
        proof {
            assert(bytes@.take(i + 1).drop_last() =~= bytes@.take(i as int));
        }
        hash = hash ^ (bytes[i] as u64);
        hash = hash.wrapping_mul(FNV_PRIME);
        i = i + 1;
    }
    proof {
        assert(bytes@.take(bytes.len() as int) =~= bytes@);
    }
    hash
}

/// The last `n` hexadecimal digits of `v`, zero-padded.
fn hex_text(v: u64, n: usize) -> (s: String)
    ensures
        s@ == hex_digits(v as nat, n as nat),
    decreases n,
{
    if n == 0 {
        String::new()
    } else {
        let mut s = hex_text(v / 16, n - 1);
        s.append(digit_text(v % 16));
        s
    }
}

/// Signs `payload` on behalf of `signer_did`.
pub fn sign(signer_did: &str, payload: &str) -> (signature: String)
    ensures
        signature@ == sign_spec(signer_did@, payload@),
{
    let mut material = String::from_str(signer_did);
    material.append(":");
    material.append(payload);
    let hash = fnv1a64(material.as_str().as_bytes());
    let mut signature = String::from_str("sig:");
    signature.append(hex_text(hash, 16).as_str());
    signature
}

/// Whether `signature` is the signature of `payload` by `signer_did`.
pub fn verify(signer_did: &str, payload: &str, signature: &str) -> (ok: bool)
    ensures
        ok == (signature@ == sign_spec(signer_did@, payload@)),
{
    let expected = sign(signer_did, payload);
    expected == String::from_str(signature)
}

} // verus!
