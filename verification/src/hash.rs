//! The Rabin–Karp rolling hash: a base-256 polynomial evaluated modulo `q`.
//!
//! `poly_val` is the exact (unbounded) polynomial value of a byte string and
//! `hash_of` its residue modulo `q`; the executable functions compute the
//! residue of a window from scratch (`window_hash`), the power `256^(m-1) mod q`
//! (`pow256_mod`), and the constant-time rolling update (`roll_hash`), each
//! proved equal to the mathematical definition.

use vstd::prelude::*;
use vstd::arithmetic::div_mod::{
    lemma_add_mod_noop, lemma_mod_add_multiples_vanish, lemma_mod_bound, lemma_mul_mod_noop_left,
    lemma_mul_mod_noop_right, lemma_sub_mod_noop,
};

verus! {

/// The hash base: one digit per byte value.
pub const BASE: u64 = 256;

/// Largest admissible modulus: for `q <= Q_MAX` every intermediate value of
/// the hash computations fits in a `u64` (the worst case,
/// `BASE * (2q - 1) + 255`, is exactly `u64::MAX` at `q == Q_MAX`).
pub const Q_MAX: u64 = 0x100_0000_0000_0000;

/// The exact base-256 polynomial value of `s` (Horner form, leftmost byte most
/// significant), as an unbounded integer.
pub open spec fn poly_val(s: Seq<u8>) -> int
    decreases s.len(),
{
    if s.len() == 0 {
        0
    } else {
        poly_val(s.drop_last()) * 0x100 + s.last()
    }
}

/// The Rabin–Karp hash of `s` modulo `q`.
pub open spec fn hash_of(s: Seq<u8>, q: int) -> int {
    poly_val(s) % q
}

/// `256^e`.
pub open spec fn pow256(e: nat) -> int
    decreases e,
{
    if e == 0 {
        1
    } else {
        0x100 * pow256((e - 1) as nat)
    }
}

pub proof fn lemma_poly_val_nonneg(s: Seq<u8>)
    ensures
        poly_val(s) >= 0,
    decreases s.len(),
{
    if s.len() > 0 {
        lemma_poly_val_nonneg(s.drop_last());
    }
}

pub proof fn lemma_pow256_pos(e: nat)
    ensures
        pow256(e) >= 1,
    decreases e,
{
    if e > 0 {
        lemma_pow256_pos((e - 1) as nat);
    }
}

/// Splitting a nonempty string at its first byte: the polynomial value is the
/// first byte scaled by `256^(len-1)` plus the value of the rest.
pub proof fn lemma_poly_val_first(s: Seq<u8>)
    requires
        s.len() >= 1,
    ensures
        poly_val(s) == s[0] * pow256((s.len() - 1) as nat) + poly_val(s.drop_first()),
    decreases s.len(),
{
    if s.len() == 1 {
        assert(s.drop_last() =~= Seq::<u8>::empty());
        assert(s.drop_first() =~= Seq::<u8>::empty());
        assert(poly_val(Seq::<u8>::empty()) == 0);
        assert(poly_val(s) == poly_val(s.drop_last()) * 0x100 + s.last());
        assert(s.last() == s[0]);
        assert(pow256(0nat) == 1);
    } else {
        let t = s.drop_last();
        lemma_poly_val_first(t);
        assert(s.drop_first().drop_last() =~= t.drop_first());
        assert(s.drop_first().last() == s.last());
        let a = s[0] as int;
        let p = pow256((t.len() - 1) as nat);
        let x = poly_val(t.drop_first());
        assert(poly_val(t) == a * p + x);
        assert((a * p + x) * 0x100 == a * (0x100 * p) + x * 0x100) by (nonlinear_arith);
        assert(pow256((s.len() - 1) as nat) == 0x100 * p);
        assert(poly_val(s.drop_first()) == x * 0x100 + s.last());
    }
}

/// Appending a byte multiplies the polynomial value by 256 and adds the byte.
pub proof fn lemma_poly_val_push(s: Seq<u8>, b: u8)
    ensures
        poly_val(s.push(b)) == poly_val(s) * 0x100 + b,
{
    assert(s.push(b).drop_last() =~= s);
    assert(s.push(b).last() == b);
}

/// The law behind the rolling update: for every window position, the
/// incrementally rolled hash — drop the leading byte's contribution, shift,
/// add the trailing byte, with the modulus pre-added so no intermediate value
/// is negative — equals a from-scratch recomputation of the hash of the
/// shifted window.
pub proof fn lemma_roll_window(txt: Seq<u8>, i: int, m: int, q: int)
    requires
        1 <= m,
        0 <= i,
        i + m < txt.len(),
        1 < q,
    ensures
        ({
            let t = hash_of(txt.subrange(i, i + m), q);
            let h = pow256((m - 1) as nat) % q;
            hash_of(txt.subrange(i + 1, i + 1 + m), q) == (0x100 * ((t + q - (txt[i] * h) % q)
                % q) + txt[i + m]) % q
        }),
{
    let w = txt.subrange(i, i + m);
    let w2 = txt.subrange(i + 1, i + 1 + m);
    let mid = txt.subrange(i + 1, i + m);
    let a = txt[i] as int;
    let b = txt[i + m] as int;
    let p = pow256((m - 1) as nat);
    let v = poly_val(w);
    let vm = poly_val(mid);

    // v == a * p + vm
    assert(w.drop_first() =~= mid);
    assert(w[0] == txt[i]);
    lemma_poly_val_first(w);

    // poly_val(w2) == vm * 256 + b
    assert(w2.drop_last() =~= mid);
    assert(w2.last() == txt[i + m]);
    assert(poly_val(w2) == vm * 0x100 + b);

    let t = v % q;
    let h = p % q;
    let x = (a * h) % q;

    // x == (a * p) % q
    lemma_mul_mod_noop_right(a, p, q);
    assert(x == (a * p) % q);

    // (t + q - x) % q == vm % q
    lemma_mod_add_multiples_vanish(t - x, q);
    assert((t + q - x) % q == (t - x) % q);
    lemma_sub_mod_noop(v, a * p, q);
    assert(((v % q) - ((a * p) % q)) % q == (v - a * p) % q);
    assert(v - a * p == vm);
    assert((t + q - x) % q == vm % q);

    // (256 * (vm % q) + b) % q == (256 * vm + b) % q
    lemma_mul_mod_noop_right(0x100, vm, q);
    assert((0x100 * (vm % q)) % q == (0x100 * vm) % q);
    lemma_add_mod_noop(0x100 * (vm % q), b, q);
    lemma_add_mod_noop(0x100 * vm, b, q);
    assert((0x100 * (vm % q) + b) % q == (0x100 * vm + b) % q);
}

/// Computes `256^e mod q` by `e` multiplicative steps.
pub fn pow256_mod(e: usize, q: u64) -> (r: u64)
    requires
        1 < q <= Q_MAX,
    ensures
        r == pow256(e as nat) % (q as int),
        r < q,
{
    let mut h: u64 = 1;
    let mut k: usize = 0;
    proof {
        lemma_mod_bound(1, q as int);
        assert(1int % (q as int) == 1) by {
            vstd::arithmetic::div_mod::lemma_small_mod(1nat, q as nat);
        }
    }
    while k < e
        invariant
            k <= e,
            1 < q <= Q_MAX,
            h == pow256(k as nat) % (q as int),
            h < q,
        decreases e - k,
    {
        proof {
            lemma_mul_mod_noop_left(pow256(k as nat), 0x100, q as int);
            assert(pow256((k + 1) as nat) == 0x100 * pow256(k as nat));
            assert(pow256(k as nat) * 0x100 == 0x100 * pow256(k as nat)) by (nonlinear_arith);
            lemma_mod_bound(pow256((k + 1) as nat), q as int);
        }
        h = (h * BASE) % q;
        k = k + 1;
    }
    h
}

/// Computes the hash of `s[start..start+len]` modulo `q` from scratch by
/// Horner's rule.
pub fn window_hash(s: &[u8], start: usize, len: usize, q: u64) -> (r: u64)
    requires
        start + len <= s@.len(),
        1 < q <= Q_MAX,
    ensures
        r == hash_of(s@.subrange(start as int, start + len), q as int),
        r < q,
{
    let n = s.len();
    let mut t: u64 = 0;
    let mut j: usize = 0;
    proof {
        assert(s@.subrange(start as int, start as int) =~= Seq::<u8>::empty());
        vstd::arithmetic::div_mod::lemma_small_mod(0nat, q as nat);
    }
    while j < len
        invariant
            j <= len,
            start + len <= n,
            n == s@.len(),
            1 < q <= Q_MAX,
            t == hash_of(s@.subrange(start as int, start + j), q as int),
            t < q,
        decreases len - j,
    {
        let c = s[start + j];
        proof {
            let pre = s@.subrange(start as int, start + j);
            let post = s@.subrange(start as int, start + j + 1);
            assert(post =~= pre.push(s@[start + j]));
            lemma_poly_val_push(pre, s@[start + j]);
            let pv = poly_val(pre);
            // (256 * (pv % q) + c) % q == (256 * pv + c) % q
            lemma_mul_mod_noop_right(0x100, pv, q as int);
            lemma_add_mod_noop(0x100 * (pv % (q as int)), c as int, q as int);
            lemma_add_mod_noop(0x100 * pv, c as int, q as int);
            assert(pv * 0x100 == 0x100 * pv) by (nonlinear_arith);
            lemma_mod_bound(0x100 * pv + c, q as int);
            lemma_poly_val_nonneg(pre);
        }
        t = (BASE * t + c as u64) % q;
        j = j + 1;
    }
    t
}

/// One rolling update: given the hash of the window of length `m` at `i` and
/// the precomputed `h == 256^(m-1) mod q`, returns the hash of the window at
/// `i + 1` in constant time.
pub fn roll_hash(txt: &[u8], i: usize, m: usize, t: u64, h: u64, q: u64) -> (r: u64)
    requires
        1 <= m,
        i + m < txt@.len(),
        1 < q <= Q_MAX,
        t == hash_of(txt@.subrange(i as int, i + m), q as int),
        h == pow256((m - 1) as nat) % (q as int),
    ensures
        r == hash_of(txt@.subrange(i + 1, i + 1 + m), q as int),
        r < q,
{
    let n = txt.len();
    proof {
        assert(i + m < n);
    }
    let lead = txt[i] as u64;
    let trail = txt[i + m] as u64;
    proof {
        lemma_mod_bound(poly_val(txt@.subrange(i as int, i + m)), q as int);
        lemma_mod_bound(pow256((m - 1) as nat), q as int);
        assert((lead as int) * (h as int) < 0x100 * 0x100_0000_0000_0000) by (nonlinear_arith)
            requires
                lead < 0x100,
                h < 0x100_0000_0000_0000,
        ;
    }
    let x = (lead * h) % q;
    proof {
        lemma_mod_bound((lead as int) * (h as int), q as int);
    }
    let u = (t + q - x) % q;
    proof {
        lemma_mod_bound(t + q - x, q as int);
        lemma_roll_window(txt@, i as int, m as int, q as int);
        lemma_mod_bound(0x100 * (u as int) + trail, q as int);
    }
    (BASE * u + trail) % q
}

} // verus!
