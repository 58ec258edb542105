//! Pseudo-encryption for serial identifiers: a 32-round Feistel network
//! whose round keys come from a linear congruential schedule.  This must
//! not be considered cryptographically secure; it only obfuscates the
//! integer identifiers that appear in URLs and requests.  Encoding and
//! decoding are proved to round-trip exactly.

use vstd::prelude::*;

use crate::feistel::{feistel_spec, feistel_vec, round_fn, wrap_add32, wrap_add32_spec,
    wrap_mul32, wrap_mul32_spec};
use crate::serial::{i32_as_u32_spec, i32_to_u32, lemma_i32_u32_round_trip,
    lemma_parse_hex_of_render, parse_hex, parse_hex_spec, to_hex, u32_as_i32_spec, u32_to_i32,
    FormatError};
use crate::serial::hex_seq_of;

verus! {

/// The default obfuscation key and round count for public identifiers.
pub const SERIAL_KEY: u32 = 0xdeadbeef;

pub const SERIAL_ROUNDS: usize = 32;

/// One step of the key schedule's linear congruential generator.
pub open spec fn key_round_spec(k: u32) -> u32 {
    wrap_add32_spec(wrap_mul32_spec(k, 4212697711), 2697822563)
}

pub fn key_round(k: u32) -> (r: u32)
    ensures
        r == key_round_spec(k),
{
    wrap_add32(wrap_mul32(k, 4212697711), 2697822563)
}

/// The i-th round key: the schedule applied i + 1 times to the seed.
pub open spec fn key_at(k: u32, i: nat) -> u32
    decreases i,
{
    if i == 0 {
        key_round_spec(k)
    } else {
        key_round_spec(key_at(k, (i - 1) as nat))
    }
}

pub open spec fn round_keys_spec(k: u32, n: nat) -> Seq<u32> {
    Seq::new(n, |i: int| key_at(k, i as nat))
}

/// Derive the `n` round keys for seed `k`.
pub fn round_keys(k: u32, n: usize) -> (keys: Vec<u32>)
    ensures
        keys@ == round_keys_spec(k, n as nat),
{
    let mut keys: Vec<u32> = Vec::new();
    let mut i: usize = 0;
    let mut cur: u32 = k;
    while i < n
        invariant
            i <= n,
            keys@.len() == i,
            forall|j: int| 0 <= j < i ==> keys@[j] == key_at(k, j as nat),
            i == 0 ==> cur == k,
            i > 0 ==> cur == key_at(k, (i - 1) as nat),
        decreases n - i,
    {
        cur = key_round(cur);
        keys.push(cur);
        i += 1;
    }
    proof {
        assert(keys@ =~= round_keys_spec(k, n as nat));
    }
    keys
}

pub open spec fn feistel_encrypt_spec(x: u32, n: nat, k: u32) -> u32 {
    feistel_spec(x, round_keys_spec(k, n))
}

pub open spec fn feistel_decrypt_spec(x: u32, n: nat, k: u32) -> u32 {
    feistel_spec(x, round_keys_spec(k, n).reverse())
}

/// Run the network forward over the derived key schedule.
pub fn feistel_encrypt(x: u32, n: usize, k: u32) -> (r: u32)
    ensures
        r == feistel_encrypt_spec(x, n as nat, k),
{
    let keys = round_keys(k, n);
    feistel_vec(x, &keys)
}

/// Run the network with the key schedule reversed, undoing
/// `feistel_encrypt` for the same `n` and `k`.
pub fn feistel_decrypt(x: u32, n: usize, k: u32) -> (r: u32)
    ensures
        r == feistel_decrypt_spec(x, n as nat, k),
{
    let keys = round_keys(k, n);
    let mut rev: Vec<u32> = Vec::new();
    let mut i: usize = keys.len();
    while i > 0
        invariant
            i <= keys.len(),
            keys@ == round_keys_spec(k, n as nat),
            rev@.len() == keys@.len() - i,
            forall|j: int| 0 <= j < rev@.len() ==> rev@[j] == keys@[keys@.len() - 1 - j],
        decreases i,
    {
        i -= 1;
        rev.push(keys[i]);
    }
    proof {
        assert(rev@ =~= round_keys_spec(k, n as nat).reverse());
    }
    feistel_vec(x, &rev)
}

/// Decryption inverts encryption for every word, round count and key.
pub proof fn lemma_feistel_round_trip(x: u32, n: nat, k: u32)
    ensures
        feistel_decrypt_spec(feistel_encrypt_spec(x, n, k), n, k) == x,
{
    crate::feistel::lemma_feistel_inverse(x, round_keys_spec(k, n));
}

/// What `encode_serial` produces: the identifier's bits pushed through
/// the network under the default key, rendered as lowercase hex.
pub open spec fn encode_serial_spec(id: i32) -> Seq<char> {
    hex_seq_of(feistel_encrypt_spec(i32_as_u32_spec(id), SERIAL_ROUNDS as nat, SERIAL_KEY) as int)
}

/// What `decode_serial` yields: the hex numeral parsed and pushed back
/// through the network, or `FormatError` for anything that is not a hex
/// numeral fitting in 32 bits.
pub open spec fn decode_serial_spec(s: Seq<char>) -> Result<i32, FormatError> {
    match parse_hex_spec(s) {
        Some(y) => Ok(
            u32_as_i32_spec(feistel_decrypt_spec(y, SERIAL_ROUNDS as nat, SERIAL_KEY)),
        ),
        None => Err(FormatError),
    }
}

/// Encode an identifier for use in URLs and requests.  Reversible by
/// `decode_serial`; not an audited cipher, only obfuscation.
pub fn encode_serial(id: i32) -> (s: String)
    ensures
        s@ == encode_serial_spec(id),
{
    to_hex(feistel_encrypt(i32_to_u32(id), SERIAL_ROUNDS, SERIAL_KEY))
}

/// Decode an identifier produced by `encode_serial`.
pub fn decode_serial(s: &str) -> (r: Result<i32, FormatError>)
    ensures
        r == decode_serial_spec(s@),
{
    match parse_hex(s) {
        Some(y) => Ok(u32_to_i32(feistel_decrypt(y, SERIAL_ROUNDS, SERIAL_KEY))),
        None => Err(FormatError),
    }
}

/// Decoding undoes encoding for every representable identifier.
pub proof fn lemma_serial_round_trip(id: i32)
    ensures
        decode_serial_spec(encode_serial_spec(id)) == Ok::<i32, FormatError>(id),
{
    let y = feistel_encrypt_spec(i32_as_u32_spec(id), SERIAL_ROUNDS as nat, SERIAL_KEY);
    lemma_parse_hex_of_render(y);
    lemma_feistel_round_trip(i32_as_u32_spec(id), SERIAL_ROUNDS as nat, SERIAL_KEY);
    lemma_i32_u32_round_trip(id);
}

/// Decode a vector of encoded identifiers; the first malformed entry
/// fails the whole batch.
pub fn decode_serial_vec(v: Vec<String>) -> (r: Result<Vec<i32>, FormatError>)
    ensures
        match r {
            Ok(out) => decode_serial_vec_spec(v@) == Ok::<Seq<i32>, FormatError>(out@),
            Err(e) => decode_serial_vec_spec(v@) == Err::<Seq<i32>, FormatError>(e),
        },
{
    let mut out: Vec<i32> = Vec::new();
    let mut i: usize = 0;
    while i < v.len()
        invariant
            i <= v@.len(),
            out@.len() == i,
            forall|j: int| 0 <= j < i ==> decode_serial_spec(v@[j]@) == Ok::<i32, FormatError>(
                #[trigger] out@[j],
            ),
        decreases v@.len() - i,
    {
        match decode_serial(v[i].as_str()) {
            Ok(id) => out.push(id),
            Err(e) => {
                proof {
                    assert forall|j: int| 0 <= j < i implies decode_serial_spec(
                        #[trigger] v@[j]@,
                    ) is Ok by {
                        assert(decode_serial_spec(v@[j]@) == Ok::<i32, FormatError>(out@[j]));
                    }
                    lemma_decode_vec_err(v@, i as int);
                }
                return Err(e);
            },
        }
        i += 1;
    }
    proof {
        lemma_decode_vec_ok(v@, out@);
    }
    Ok(out)
}

/// What decoding a batch yields: all entries decoded in order, or the
/// error of the first entry that fails.
pub open spec fn decode_serial_vec_spec(v: Seq<String>) -> Result<Seq<i32>, FormatError>
    decreases v.len(),
{
    if v.len() == 0 {
        Ok(Seq::empty())
    } else {
        match decode_serial_vec_spec(v.drop_last()) {
            Ok(pre) => match decode_serial_spec(v.last()@) {
                Ok(id) => Ok(pre.push(id)),
                Err(e) => Err(e),
            },
            Err(e) => Err(e),
        }
    }
}

proof fn lemma_decode_vec_err(v: Seq<String>, i: int)
    requires
        0 <= i < v.len(),
        decode_serial_spec(v[i]@) is Err,
        forall|j: int| 0 <= j < i ==> decode_serial_spec(#[trigger] v[j]@) is Ok,
    ensures
        decode_serial_vec_spec(v) == Err::<Seq<i32>, FormatError>(FormatError),
    decreases v.len(),
{
    if v.len() > 0 {
        if i < v.len() - 1 {
            assert(v.drop_last()[i] == v[i]);
            assert(forall|j: int| 0 <= j < i ==> v.drop_last()[j] == #[trigger] v[j]);
            lemma_decode_vec_err(v.drop_last(), i);
        } else {
            if exists|j: int| 0 <= j < v.len() - 1 && decode_serial_spec(#[trigger] v[j]@) is Err {
                let j = choose|j: int|
                    0 <= j < v.len() - 1 && decode_serial_spec(#[trigger] v[j]@) is Err;
                assert(decode_serial_spec(v[j]@) is Ok);
            } else {
                lemma_decode_vec_all_ok(v.drop_last());
            }
        }
    }
}

proof fn lemma_decode_vec_all_ok(v: Seq<String>)
    requires
        forall|j: int| 0 <= j < v.len() ==> decode_serial_spec(#[trigger] v[j]@) is Ok,
    ensures
        decode_serial_vec_spec(v) is Ok,
    decreases v.len(),
{
    if v.len() > 0 {
        assert(forall|j: int| 0 <= j < v.len() - 1 ==> v.drop_last()[j] == #[trigger] v[j]);
        lemma_decode_vec_all_ok(v.drop_last());
        assert(decode_serial_spec(v.last()@) is Ok);
    }
}

proof fn lemma_decode_vec_ok(v: Seq<String>, out: Seq<i32>)
    requires
        out.len() == v.len(),
        forall|j: int| 0 <= j < v.len() ==> decode_serial_spec(v[j]@) == Ok::<i32, FormatError>(
            #[trigger] out[j],
        ),
    ensures
        decode_serial_vec_spec(v) == Ok::<Seq<i32>, FormatError>(out),
    decreases v.len(),
{
    if v.len() == 0 {
        assert(out =~= Seq::<i32>::empty());
    } else {
        assert(forall|j: int| 0 <= j < v.len() - 1 ==> v.drop_last()[j] == #[trigger] v[j]);
        lemma_decode_vec_ok(v.drop_last(), out.drop_last());
        assert(decode_serial_spec(v.last()@) == Ok::<i32, FormatError>(out.last()));
        assert(out.drop_last().push(out.last()) =~= out);
    }
}

} // verus!
