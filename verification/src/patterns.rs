//! An ordered set of distinct, nonempty byte patterns, and the multi-pattern
//! search that runs the matcher once per pattern.

use vstd::prelude::*;

use crate::hash::Q_MAX;
use crate::matcher::{all_matches, lemma_all_matches_characterizes, match_at, rk_search};

verus! {

/// Byte-string equality.
fn bytes_eq(a: &[u8], b: &[u8]) -> (r: bool)
    ensures
        r == (a@ == b@),
{
    let na: usize = a.len();
    let nb: usize = b.len();
    if na != nb {
        return false;
    }
    let mut j: usize = 0;
    while j < na
        invariant
            j <= na,
            na == a@.len(),
            na == b@.len(),
            forall|k: int| 0 <= k < j ==> a@[k] == b@[k],
        decreases na - j,
    {
        if a[j] != b[j] {
            return false;
        }
        j = j + 1;
    }
    proof {
        assert(a@ =~= b@);
    }
    true
}

/// An ordered collection of distinct byte patterns, each of length at least
/// one; built once per run and then read-only.
pub struct PatternSet {
    pats: Vec<Vec<u8>>,
}

impl View for PatternSet {
    type V = Seq<Seq<u8>>;

    closed spec fn view(&self) -> Seq<Seq<u8>> {
        self.pats@.map_values(|p: Vec<u8>| p@)
    }
}

/// Every (pattern index, offset) pair at which a pattern of `pats` occurs in
/// `txt`, ordered by pattern index first, offset second.
pub open spec fn all_pair_matches(pats: Seq<Seq<u8>>, txt: Seq<u8>) -> Seq<(usize, usize)>
    decreases pats.len(),
{
    if pats.len() == 0 {
        Seq::empty()
    } else {
        all_pair_matches(pats.drop_last(), txt) + all_matches(pats.last(), txt).map_values(
            |o: usize| (((pats.len() - 1) as usize), o),
        )
    }
}

/// Law: the multi-pattern result holds a (pattern index, offset) pair exactly
/// when that pattern occurs in the text at that offset.
pub proof fn lemma_all_pair_matches_characterizes(pats: Seq<Seq<u8>>, txt: Seq<u8>)
    requires
        txt.len() <= usize::MAX,
        pats.len() <= usize::MAX,
    ensures
        ({
            let r = all_pair_matches(pats, txt);
            &&& forall|k: int|
                0 <= k < r.len() ==> (#[trigger] r[k]).0 < pats.len() && match_at(
                    pats[r[k].0 as int],
                    txt,
                    r[k].1 as int,
                )
            &&& forall|pid: int, off: int|
                0 <= pid < pats.len() && #[trigger] match_at(pats[pid], txt, off) ==> r.contains(
                    (pid as usize, off as usize),
                )
        }),
    decreases pats.len(),
{
    if pats.len() > 0 {
        lemma_all_pair_matches_characterizes(pats.drop_last(), txt);
        lemma_all_matches_characterizes(pats.last(), txt);
        let r0 = all_pair_matches(pats.drop_last(), txt);
        let offs = all_matches(pats.last(), txt);
        let tail = offs.map_values(|o: usize| (((pats.len() - 1) as usize), o));
        let r = all_pair_matches(pats, txt);
        assert(r == r0 + tail);
        assert forall|k: int|
            0 <= k < r.len() implies (#[trigger] r[k]).0 < pats.len() && match_at(
            pats[r[k].0 as int],
            txt,
            r[k].1 as int,
        ) by {
            if k < r0.len() {
                assert(r[k] == r0[k]);
                assert(pats.drop_last()[r0[k].0 as int] == pats[r0[k].0 as int]);
            } else {
                assert(r[k] == tail[k - r0.len()]);
                assert(match_at(pats.last(), txt, offs[k - r0.len()] as int));
            }
        }
        assert forall|pid: int, off: int|
            0 <= pid < pats.len() && #[trigger] match_at(pats[pid], txt, off) implies r.contains(
            (pid as usize, off as usize),
        ) by {
            if pid < pats.len() - 1 {
                assert(pats.drop_last()[pid] == pats[pid]);
                assert(r0.contains((pid as usize, off as usize)));
                let k = choose|k: int|
                    0 <= k < r0.len() && r0[k] == (pid as usize, off as usize);
                assert(r[k] == (pid as usize, off as usize));
            } else {
                assert(pats.last() == pats[pid]);
                assert(offs.contains(off as usize));
                let k = choose|k: int| 0 <= k < offs.len() && offs[k] == off as usize;
                assert(r[r0.len() + k] == (pid as usize, off as usize));
            }
        }
    }
}

impl PatternSet {
    /// Every pattern is nonempty and no two patterns are equal.
    pub open spec fn wf(&self) -> bool {
        &&& forall|k: int| 0 <= k < self@.len() ==> (#[trigger] self@[k]).len() >= 1
        &&& forall|k1: int, k2: int| 0 <= k1 < k2 < self@.len() ==> self@[k1] != self@[k2]
    }

    pub fn new() -> (r: Self)
        ensures
            r@ == Seq::<Seq<u8>>::empty(),
            r.wf(),
    {
        let r = PatternSet { pats: Vec::new() };
        proof {
            assert(r@ =~= Seq::<Seq<u8>>::empty());
        }
        r
    }

    pub fn len(&self) -> (n: usize)
        ensures
            n == self@.len(),
    {
        self.pats.len()
    }

    pub fn pattern(&self, k: usize) -> (p: &Vec<u8>)
        requires
            k < self@.len(),
        ensures
            p@ == self@[k as int],
    {
        &self.pats[k]
    }

    /// Whether some pattern of the set equals `p`.
    pub fn contains_pattern(&self, p: &[u8]) -> (r: bool)
        ensures
            r == self@.contains(p@),
    {
        let n: usize = self.pats.len();
        let mut k: usize = 0;
        while k < n
            invariant
                k <= n,
                n == self@.len(),
                n == self.pats@.len(),
                forall|kk: int| 0 <= kk < k ==> self@[kk] != p@,
            decreases n - k,
        {
            if bytes_eq(self.pats[k].as_slice(), p) {
                proof {
                    assert(self@[k as int] == p@);
                }
                return true;
            }
            k = k + 1;
        }
        false
    }

    /// Adds `p` to the end of the set unless it is empty or already present;
    /// says whether it was added.
    pub fn insert(&mut self, p: Vec<u8>) -> (added: bool)
        requires
            old(self).wf(),
        ensures
            final(self).wf(),
            added == (p@.len() >= 1 && !old(self)@.contains(p@)),
            added ==> final(self)@ == old(self)@.push(p@),
            !added ==> final(self)@ == old(self)@,
    {
        if p.len() == 0 {
            return false;
        }
        if self.contains_pattern(p.as_slice()) {
            return false;
        }
        proof {
            let ghost pre = self.pats@;
            assert(forall|kk: int| 0 <= kk < pre.len() ==> self@[kk] != p@);
        }
        self.pats.push(p);
        proof {
            assert(self@ =~= old(self)@.push(p@));
        }
        true
    }

    /// Runs the matcher once per pattern of the set against `txt`; the
    /// reported pairs are grouped by pattern in set order, offsets ascending
    /// within each pattern.
    pub fn search_all(&self, txt: &[u8], q: u64) -> (r: Vec<(usize, usize)>)
        requires
            self.wf(),
            1 < q <= Q_MAX,
        ensures
            r@ == all_pair_matches(self@, txt@),
    {
        let mut r: Vec<(usize, usize)> = Vec::new();
        let n: usize = self.pats.len();
        proof {
            assert(self@.subrange(0, 0) =~= Seq::<Seq<u8>>::empty());
            assert(r@ =~= all_pair_matches(self@.subrange(0, 0), txt@));
        }
        let mut pid: usize = 0;
        while pid < n
            invariant
                pid <= n,
                n == self@.len(),
                n == self.pats@.len(),
                self.wf(),
                1 < q <= Q_MAX,
                r@ == all_pair_matches(self@.subrange(0, pid as int), txt@),
            decreases n - pid,
        {
            let pat = &self.pats[pid];
            proof {
                assert(self@[pid as int].len() >= 1);
            }
            let offs = match rk_search(pat.as_slice(), txt, q) {
                Ok(o) => o,
                Err(_) => {
                    proof {
                        assert(false);
                    }
                    Vec::new()
                },
            };
            let m: usize = offs.len();
            let ghost base = r@;
            let mut j: usize = 0;
            while j < m
                invariant
                    j <= m,
                    m == offs@.len(),
                    r@ == base + offs@.subrange(0, j as int).map_values(|o: usize| (pid, o)),
                decreases m - j,
            {
                r.push((pid, offs[j]));
                proof {
                    assert(r@ =~= base + offs@.subrange(0, j + 1).map_values(
                        |o: usize| (pid, o),
                    ));
                }
                j = j + 1;
            }
            proof {
                let sub1 = self@.subrange(0, pid + 1);
                assert(sub1.drop_last() =~= self@.subrange(0, pid as int));
                assert(sub1.last() == self@[pid as int]);
                assert(offs@.subrange(0, m as int) =~= offs@);
                assert(r@ =~= all_pair_matches(sub1, txt@));
            }
            pid = pid + 1;
        }
        proof {
            assert(self@.subrange(0, n as int) =~= self@);
        }
        r
    }
}

} // verus!
