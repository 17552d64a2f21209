//! Exact substring search by Rabin–Karp: the rolling hash filters candidate
//! offsets, byte-wise verification confirms them, so hash collisions can never
//! produce a false report and equal hashes are never taken as proof.

use vstd::prelude::*;

use crate::errors::ScanError;
use crate::hash::{hash_of, pow256, pow256_mod, roll_hash, window_hash, Q_MAX};

verus! {

/// `pat` occurs in `txt` at offset `i`.
pub open spec fn match_at(pat: Seq<u8>, txt: Seq<u8>, i: int) -> bool {
    &&& 0 <= i
    &&& i + pat.len() <= txt.len()
    &&& forall|j: int| 0 <= j < pat.len() ==> txt[i + j] == pat[j]
}

/// The ascending sequence of all offsets below `n` at which `pat` occurs in
/// `txt` — the brute-force scan the matcher is held to.
pub open spec fn matches_below(pat: Seq<u8>, txt: Seq<u8>, n: int) -> Seq<usize>
    decreases n,
{
    if n <= 0 {
        Seq::empty()
    } else if match_at(pat, txt, n - 1) {
        matches_below(pat, txt, n - 1).push((n - 1) as usize)
    } else {
        matches_below(pat, txt, n - 1)
    }
}

/// All offsets at which `pat` occurs in `txt`, in ascending order.
pub open spec fn all_matches(pat: Seq<u8>, txt: Seq<u8>) -> Seq<usize> {
    matches_below(pat, txt, txt.len() - pat.len() + 1)
}

proof fn lemma_matches_below_characterizes(pat: Seq<u8>, txt: Seq<u8>, n: int)
    requires
        txt.len() <= usize::MAX,
        n <= txt.len() + 1,
    ensures
        ({
            let r = matches_below(pat, txt, n);
            &&& forall|k: int|
                0 <= k < r.len() ==> match_at(pat, txt, #[trigger] (r[k]) as int) && r[k] < n
            &&& forall|i: int| 0 <= i < n && #[trigger] match_at(pat, txt, i) ==> r.contains(
                i as usize,
            )
            &&& forall|k1: int, k2: int| 0 <= k1 < k2 < r.len() ==> r[k1] < r[k2]
        }),
    decreases n,
{
    if n > 0 {
        lemma_matches_below_characterizes(pat, txt, n - 1);
        let r0 = matches_below(pat, txt, n - 1);
        let r = matches_below(pat, txt, n);
        if match_at(pat, txt, n - 1) {
            assert(r == r0.push((n - 1) as usize));
            assert forall|i: int| 0 <= i < n && #[trigger] match_at(pat, txt, i) implies r
                .contains(i as usize) by {
                if i < n - 1 {
                    assert(r0.contains(i as usize));
                    let k = choose|k: int| 0 <= k < r0.len() && r0[k] == i as usize;
                    assert(r[k] == i as usize);
                } else {
                    assert(r[r.len() - 1] == i as usize);
                }
            }
        }
    }
}

/// Law: the offset sequence `all_matches` — which the matcher returns —
/// holds an offset if and only if the pattern occurs at that offset (the
/// brute-force criterion), each such offset exactly once, in ascending order.
pub proof fn lemma_all_matches_characterizes(pat: Seq<u8>, txt: Seq<u8>)
    requires
        txt.len() <= usize::MAX,
    ensures
        ({
            let r = all_matches(pat, txt);
            &&& forall|k: int| 0 <= k < r.len() ==> match_at(pat, txt, #[trigger] (r[k]) as int)
            &&& forall|i: int| #[trigger] match_at(pat, txt, i) ==> r.contains(i as usize)
            &&& forall|k1: int, k2: int| 0 <= k1 < k2 < r.len() ==> r[k1] < r[k2]
        }),
{
    lemma_matches_below_characterizes(pat, txt, txt.len() - pat.len() + 1);
}

/// Byte-wise verification of a single candidate offset.
pub fn is_match_at(pat: &[u8], txt: &[u8], i: usize) -> (b: bool)
    requires
        i + pat@.len() <= txt@.len(),
    ensures
        b == match_at(pat@, txt@, i as int),
{
    let m: usize = pat.len();
    let n: usize = txt.len();
    let mut j: usize = 0;
    while j < m
        invariant
            j <= m,
            m == pat@.len(),
            n == txt@.len(),
            i + m <= n,
            forall|jj: int| 0 <= jj < j ==> txt@[i + jj] == pat@[jj],
        decreases m - j,
    {
        if txt[i + j] != pat[j] {
            proof {
                assert(txt@[i + j] != pat@[j as int]);
            }
            return false;
        }
        j = j + 1;
    }
    true
}

/// Rabin–Karp search: every offset at which `pat` occurs in `txt`, in
/// ascending order, computed with a hash of modulus `q` rolled across the
/// text. A pattern longer than the text yields no offsets; only an empty
/// pattern is an error.
pub fn rk_search(pat: &[u8], txt: &[u8], q: u64) -> (r: Result<Vec<usize>, ScanError>)
    requires
        1 < q <= Q_MAX,
    ensures
        match r {
            Ok(offs) => pat@.len() >= 1 && offs@ == all_matches(pat@, txt@),
            Err(e) => e == ScanError::PatternEmpty && pat@.len() == 0,
        },
        pat@.len() > txt@.len() ==> (r matches Ok(offs) ==> offs@.len() == 0),
{
    let m: usize = pat.len();
    let n: usize = txt.len();
    if m == 0 {
        return Err(ScanError::PatternEmpty);
    }
    let mut offs: Vec<usize> = Vec::new();
    if m > n {
        proof {
            assert(all_matches(pat@, txt@) =~= Seq::<usize>::empty());
        }
        return Ok(offs);
    }
    let nm: usize = n - m;
    let p = window_hash(pat, 0, m, q);
    let mut t = window_hash(txt, 0, m, q);
    let h = pow256_mod(m - 1, q);
    proof {
        assert(pat@.subrange(0, m as int) =~= pat@);
        assert(matches_below(pat@, txt@, 0) =~= Seq::<usize>::empty());
    }
    let mut i: usize = 0;
    while i <= nm
        invariant
            1 <= m,
            m == pat@.len(),
            n == txt@.len(),
            nm == n - m,
            1 < q <= Q_MAX,
            i <= nm + 1,
            p == hash_of(pat@, q as int),
            h == pow256((m - 1) as nat) % (q as int),
            i <= nm ==> t == hash_of(txt@.subrange(i as int, i + m), q as int),
            offs@ == matches_below(pat@, txt@, i as int),
        decreases nm + 1 - i,
    {
        let matched = if p == t {
            is_match_at(pat, txt, i)
        } else {
            proof {
                if match_at(pat@, txt@, i as int) {
                    assert(txt@.subrange(i as int, i + m) =~= pat@);
                    assert(false);
                }
            }
            false
        };
        if matched {
            offs.push(i);
        }
        proof {
            assert(offs@ == matches_below(pat@, txt@, i + 1));
        }
        if i < nm {
            t = roll_hash(txt, i, m, t, h, q);
        }
        i = i + 1;
    }
    proof {
        assert(i == nm + 1);
        assert(all_matches(pat@, txt@) == matches_below(pat@, txt@, nm + 1));
    }
    Ok(offs)
}

} // verus!
