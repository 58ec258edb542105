//! The earlier, single-key variant of the serial codec: every round of
//! the Feistel network uses the same key, which makes the network its
//! own inverse.  Kept alongside `encoding` because identifiers encoded
//! by either form are still in circulation.

use vstd::prelude::*;

use crate::feistel::{feistel_spec, round_fn};
use crate::serial::{hex_seq_of, i32_as_u32_spec, i32_to_u32, lemma_i32_u32_round_trip,
    lemma_parse_hex_of_render, parse_hex, parse_hex_spec, to_hex, u32_as_i32_spec, u32_to_i32,
    FormatError};

verus! {

/// The fixed key and round count of this codec variant.
pub const LEGACY_KEY: u32 = 0xdeadbeef;

pub const LEGACY_ROUNDS: u32 = 32;

/// The all-equal key schedule.
pub open spec fn const_keys(k: u32, n: nat) -> Seq<u32> {
    Seq::new(n, |i: int| k)
}

/// Run the network with the same key for all `n` rounds.
pub fn feistel(x: u32, n: u32, k: u32) -> (r: u32)
    ensures
        r == feistel_spec(x, const_keys(k, n as nat)),
{
    let mut l: u16 = ((x >> 16) % 0x10000) as u16;
    let mut r: u16 = (x % 0x10000) as u16;
    let mut i: u32 = 0;
    proof {
        assert(const_keys(k, n as nat).take(0) =~= Seq::<u32>::empty());
    }
    while i < n
        invariant
            i <= n,
            (l, r) == crate::feistel::rounds_spec(
                crate::feistel::high_half(x),
                crate::feistel::low_half(x),
                const_keys(k, n as nat).take(i as int),
            ),
        decreases n - i,
    {
        proof {
            assert(const_keys(k, n as nat).take(i + 1) =~= const_keys(k, n as nat).take(
                i as int,
            ).push(k));
            crate::feistel::lemma_rounds_snoc(
                crate::feistel::high_half(x),
                crate::feistel::low_half(x),
                const_keys(k, n as nat).take(i as int),
                k,
            );
        }
        let l1 = r;
        let r1 = l ^ round_fn(r, k);
        l = l1;
        r = r1;
        i += 1;
    }
    proof {
        assert(const_keys(k, n as nat).take(n as int) =~= const_keys(k, n as nat));
    }
    (r as u32) << 16 | (l as u32)
}

/// With a constant schedule the network is an involution: applying it
/// twice gives the input back.
pub proof fn lemma_feistel_involution(x: u32, n: nat, k: u32)
    ensures
        feistel_spec(feistel_spec(x, const_keys(k, n)), const_keys(k, n)) == x,
{
    assert(const_keys(k, n).reverse() =~= const_keys(k, n));
    crate::feistel::lemma_feistel_inverse(x, const_keys(k, n));
}

/// What `encode_serial` produces under the fixed key.
pub open spec fn encode_serial_spec(id: i32) -> Seq<char> {
    hex_seq_of(feistel_spec(i32_as_u32_spec(id), const_keys(LEGACY_KEY, LEGACY_ROUNDS as nat))
        as int)
}

/// What `decode_serial` yields: the parsed word pushed through the same
/// network again, or `FormatError` for a malformed numeral.
pub open spec fn decode_serial_spec(s: Seq<char>) -> Result<i32, FormatError> {
    match parse_hex_spec(s) {
        Some(y) => Ok(
            u32_as_i32_spec(feistel_spec(y, const_keys(LEGACY_KEY, LEGACY_ROUNDS as nat))),
        ),
        None => Err(FormatError),
    }
}

/// Encode an identifier under the fixed key.  Reversible by
/// `decode_serial`; obfuscation only, not audited encryption.
pub fn encode_serial(id: i32) -> (s: String)
    ensures
        s@ == encode_serial_spec(id),
{
    to_hex(feistel(i32_to_u32(id), LEGACY_ROUNDS, LEGACY_KEY))
}

/// Decode an identifier produced by this variant's `encode_serial`.
pub fn decode_serial(s: &str) -> (r: Result<i32, FormatError>)
    ensures
        r == decode_serial_spec(s@),
{
    match parse_hex(s) {
        Some(y) => Ok(u32_to_i32(feistel(y, LEGACY_ROUNDS, LEGACY_KEY))),
        None => Err(FormatError),
    }
}

/// Decoding undoes encoding for every representable identifier.
pub proof fn lemma_serial_round_trip(id: i32)
    ensures
        decode_serial_spec(encode_serial_spec(id)) == Ok::<i32, FormatError>(id),
{
    let y = feistel_spec(i32_as_u32_spec(id), const_keys(LEGACY_KEY, LEGACY_ROUNDS as nat));
    lemma_parse_hex_of_render(y);
    lemma_feistel_involution(i32_as_u32_spec(id), LEGACY_ROUNDS as nat, LEGACY_KEY);
    lemma_i32_u32_round_trip(id);
}

} // verus!
