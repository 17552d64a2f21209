use pescan::hash::{pow256_mod, roll_hash, window_hash};

fn lcg_bytes(seed: u64, len: usize) -> Vec<u8> {
    let mut state = seed;
    let mut out = Vec::with_capacity(len);
    for _ in 0..len {
        state = state.wrapping_mul(6364136223846793005).wrapping_add(1442695040888963407);
        out.push((state >> 33) as u8);
    }
    out
}

#[test]
fn window_hash_exact_value() {
    // ((1 * 256 + 2) * 256 + 3) mod 101 == 66051 mod 101 == 98
    let s = [1u8, 2, 3];
    assert_eq!(window_hash(&s, 0, 3, 101), 98);
}

#[test]
fn window_hash_empty_window_is_zero() {
    let s = [7u8, 8, 9];
    assert_eq!(window_hash(&s, 1, 0, 101), 0);
}

#[test]
fn pow256_mod_exact_value() {
    // 256^3 mod 1000 == 16777216 mod 1000 == 216
    assert_eq!(pow256_mod(3, 1000), 216);
    assert_eq!(pow256_mod(0, 101), 1);
    assert_eq!(pow256_mod(1, 101), 256 % 101);
}

#[test]
fn rolled_hash_equals_recomputation_at_every_window() {
    // A randomized buffer of length 10,000, q = 101, base 256: the rolled
    // hash must equal a from-scratch recomputation at every window start.
    let txt = lcg_bytes(42, 10_000);
    let q = 101u64;
    let m = 16usize;
    let h = pow256_mod(m - 1, q);
    let mut t = window_hash(&txt, 0, m, q);
    for i in 0..(txt.len() - m) {
        t = roll_hash(&txt, i, m, t, h, q);
        assert_eq!(t, window_hash(&txt, i + 1, m, q));
    }
}

#[test]
fn rolled_hash_equals_recomputation_small_window() {
    let txt = lcg_bytes(43, 10_000);
    let q = 101u64;
    let m = 1usize;
    let h = pow256_mod(m - 1, q);
    let mut t = window_hash(&txt, 0, m, q);
    for i in 0..(txt.len() - m) {
        t = roll_hash(&txt, i, m, t, h, q);
        assert_eq!(t, window_hash(&txt, i + 1, m, q));
    }
}
