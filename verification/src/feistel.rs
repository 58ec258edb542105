//! A small balanced Feistel network over 32-bit words, split into two
//! 16-bit halves.  The round function may be arbitrary: the network is
//! invertible by running the rounds with the key schedule reversed, and
//! that inversion is proved here once for any key sequence.

use vstd::prelude::*;

verus! {

/// One mixing round: xor with a key-dependent rotation of the key, one
/// step of a linear congruential generator, then an xorshift permutation.
/// Kept opaque: the network's invertibility does not depend on it.
#[verifier::opaque]
pub open spec fn round_spec(x: u16, k: u32) -> u16 {
    let xu = x as u32;
    let x0 = xu ^ rotr32_spec(k, xu >> 11);
    let x1 = wrap_add32_spec(wrap_mul32_spec(x0, 2697822563), 4212697711);
    let rot = x1 >> 28;
    let xsh = ((((x1 >> 10) ^ x1) >> 12) % 0x10000) as u16;
    rotr16_spec(xsh, rot)
}

pub open spec fn rotr32_spec(v: u32, n: u32) -> u32 {
    if n % 32 == 0 {
        v
    } else {
        (v >> (n % 32)) | (v << ((32 - n % 32) as u32))
    }
}

pub open spec fn rotr16_spec(v: u16, n: u32) -> u16 {
    if n % 16 == 0 {
        v
    } else {
        (v >> ((n % 16) as u16)) | (v << ((16 - n % 16) as u16))
    }
}

pub open spec fn wrap_mul32_spec(a: u32, b: u32) -> u32 {
    (((a as int) * (b as int)) % 0x1_0000_0000) as u32
}

pub open spec fn wrap_add32_spec(a: u32, b: u32) -> u32 {
    (((a as int) + (b as int)) % 0x1_0000_0000) as u32
}

pub fn rotr32(v: u32, n: u32) -> (r: u32)
    ensures
        r == rotr32_spec(v, n),
{
    let s: u32 = n % 32;
    if s == 0 {
        v
    } else {
        (v >> s) | (v << (32 - s))
    }
}

pub fn rotr16(v: u16, n: u32) -> (r: u16)
    ensures
        r == rotr16_spec(v, n),
{
    let s: u32 = n % 16;
    if s == 0 {
        v
    } else {
        (v >> s as u16) | (v << (16 - s) as u16)
    }
}

pub fn wrap_mul32(a: u32, b: u32) -> (r: u32)
    ensures
        r == wrap_mul32_spec(a, b),
{
    proof {
        assert((a as int) * (b as int) < 0x1_0000_0000_0000_0000) by (nonlinear_arith)
            requires
                a < 0x1_0000_0000 && b < 0x1_0000_0000,
        ;
    }
    let p: u64 = (a as u64) * (b as u64);
    (p % 0x1_0000_0000) as u32
}

pub fn wrap_add32(a: u32, b: u32) -> (r: u32)
    ensures
        r == wrap_add32_spec(a, b),
{
    let p: u64 = (a as u64) + (b as u64);
    (p % 0x1_0000_0000) as u32
}

/// Executable round function; the value is pinned to `round_spec` exactly.
pub fn round_fn(x: u16, k: u32) -> (r: u16)
    ensures
        r == round_spec(x, k),
{
    proof {
        reveal(round_spec);
    }
    let xu: u32 = x as u32;
    let x0: u32 = xu ^ rotr32(k, xu >> 11);
    let x1: u32 = wrap_add32(wrap_mul32(x0, 2697822563), 4212697711);
    let rot: u32 = x1 >> 28;
    let xsh: u16 = ((((x1 >> 10) ^ x1) >> 12) % 0x10000) as u16;
    rotr16(xsh, rot)
}

/// The half-swapping rounds of the network, applied from the front of
/// `keys`: `(l, r)` becomes `(r, l ^ F(r, k))` for each key in turn.
pub open spec fn rounds_spec(l: u16, r: u16, keys: Seq<u32>) -> (u16, u16)
    decreases keys.len(),
{
    if keys.len() == 0 {
        (l, r)
    } else {
        rounds_spec(r, l ^ round_spec(r, keys[0]), keys.drop_first())
    }
}

pub proof fn lemma_rounds_snoc(l: u16, r: u16, keys: Seq<u32>, k: u32)
    ensures
        rounds_spec(l, r, keys.push(k)) == ({
            let (l2, r2) = rounds_spec(l, r, keys);
            (r2, (l2 ^ round_spec(r2, k)) as u16)
        }),
    decreases keys.len(),
{
    if keys.len() == 0 {
        assert(keys.push(k)[0] == k);
        assert(keys.push(k).drop_first() =~= Seq::<u32>::empty());
        assert(rounds_spec(l, r, keys.push(k)) == rounds_spec(
            r,
            l ^ round_spec(r, k),
            keys.push(k).drop_first(),
        ));
        assert(rounds_spec(l, r, keys) == (l, r));
        assert(rounds_spec(l, r, keys.push(k)) == (r, (l ^ round_spec(r, k)) as u16));
    } else {
        assert(keys.push(k)[0] == keys[0]);
        assert(keys.push(k).drop_first() =~= keys.drop_first().push(k));
        lemma_rounds_snoc(r, l ^ round_spec(r, keys[0]), keys.drop_first(), k);
        assert(rounds_spec(l, r, keys.push(k)) == rounds_spec(
            r,
            l ^ round_spec(r, keys[0]),
            keys.drop_first().push(k),
        ));
    }
}

/// Running the rounds again, on the swapped output and with the key
/// sequence reversed, undoes the network.
proof fn lemma_rounds_reverse(l: u16, r: u16, keys: Seq<u32>)
    ensures
        ({
            let (l2, r2) = rounds_spec(l, r, keys);
            rounds_spec(r2, l2, keys.reverse()) == (r, l)
        }),
    decreases keys.len(),
{
    if keys.len() == 0 {
    } else {
        let k0 = keys[0];
        let f = round_spec(r, k0);
        let rest = keys.drop_first();
        let (l2, r2) = rounds_spec(r, (l ^ f) as u16, rest);
        lemma_rounds_reverse(r, l ^ f, rest);
        assert(keys.reverse() =~= rest.reverse().push(k0));
        lemma_rounds_snoc(r2, l2, rest.reverse(), k0);
        assert((l ^ f) ^ round_spec(r, k0) == l) by (bit_vector)
            requires
                f == round_spec(r, k0),
        ;
    }
}

/// Split a word into its high and low halves.
pub open spec fn high_half(x: u32) -> u16 {
    ((x >> 16) % 0x10000) as u16
}

pub open spec fn low_half(x: u32) -> u16 {
    (x % 0x10000) as u16
}

/// Join the two halves the way the network emits them: the final right
/// half becomes the high word, the final left half the low word.
pub open spec fn pack_swapped(l: u16, r: u16) -> u32 {
    (r as u32) << 16 | (l as u32)
}

/// The full network on one word: split, run the rounds, join swapped.
pub open spec fn feistel_spec(x: u32, keys: Seq<u32>) -> u32 {
    let (l2, r2) = rounds_spec(high_half(x), low_half(x), keys);
    pack_swapped(l2, r2)
}

/// The network is a permutation: running it with the reversed key
/// sequence recovers the input word.
pub proof fn lemma_feistel_inverse(x: u32, keys: Seq<u32>)
    ensures
        feistel_spec(feistel_spec(x, keys), keys.reverse()) == x,
{
    let l = high_half(x);
    let r = low_half(x);
    let (l2, r2) = rounds_spec(l, r, keys);
    let y = pack_swapped(l2, r2);
    assert(high_half(y) == r2 && low_half(y) == l2) by (bit_vector)
        requires
            y == (r2 as u32) << 16 | (l2 as u32),
    ;
    lemma_rounds_reverse(l, r, keys);
    assert(pack_swapped(r, l) == x) by (bit_vector)
        requires
            l == ((x >> 16) % 0x10000) as u16,
            r == (x % 0x10000) as u16,
    ;
}

/// Run the network over the keys in `keys`, front to back.
pub fn feistel_vec(x: u32, keys: &Vec<u32>) -> (r: u32)
    ensures
        r == feistel_spec(x, keys@),
{
    let mut l: u16 = ((x >> 16) % 0x10000) as u16;
    let mut r: u16 = (x % 0x10000) as u16;
    let mut i: usize = 0;
    assert(keys@.take(0) =~= Seq::<u32>::empty());
    while i < keys.len()
        invariant
            i <= keys.len(),
            (l, r) == rounds_spec(high_half(x), low_half(x), keys@.take(i as int)),
        decreases keys.len() - i,
    {
        let k = keys[i];
        proof {
            assert(keys@.take(i + 1) =~= keys@.take(i as int).push(k));
            lemma_rounds_snoc(high_half(x), low_half(x), keys@.take(i as int), k);
        }
        let l1 = r;
        let r1 = l ^ round_fn(r, k);
        l = l1;
        r = r1;
        i += 1;
    }
    assert(keys@.take(keys@.len() as int) =~= keys@);
    (r as u32) << 16 | (l as u32)
}

} // verus!
