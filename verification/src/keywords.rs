//! Parsing a keyword source: one keyword per line, the line terminator (a
//! line feed, or a carriage return and line feed) stripped, empty lines
//! skipped, order preserved.

use vstd::prelude::*;

verus! {

/// A line with its trailing carriage return stripped.
pub open spec fn strip_cr(line: Seq<u8>) -> Seq<u8> {
    if line.len() > 0 && line.last() == 13 {
        line.drop_last()
    } else {
        line
    }
}

/// The index of the first line feed in `s`, or `s.len()` if there is none.
pub open spec fn first_lf(s: Seq<u8>) -> nat
    decreases s.len(),
{
    if s.len() == 0 {
        0
    } else if s[0] == 10 {
        0
    } else {
        1 + first_lf(s.drop_first())
    }
}

/// Zero or one keyword: an empty line yields nothing.
pub open spec fn one_keyword(line: Seq<u8>) -> Seq<Seq<u8>> {
    if line.len() >= 1 {
        seq![line]
    } else {
        Seq::empty()
    }
}

/// The keywords of a text, in order.
pub open spec fn keywords_of(s: Seq<u8>) -> Seq<Seq<u8>>
    decreases s.len(),
{
    if s.len() == 0 {
        Seq::empty()
    } else {
        let i = first_lf(s) as int;
        if i >= s.len() {
            one_keyword(strip_cr(s))
        } else {
            one_keyword(strip_cr(s.subrange(0, i))) + keywords_of(
                s.subrange(i + 1, s.len() as int),
            )
        }
    }
}

proof fn lemma_first_lf_props(s: Seq<u8>)
    ensures
        first_lf(s) <= s.len(),
        first_lf(s) < s.len() ==> s[first_lf(s) as int] == 10,
        forall|j: int| 0 <= j < first_lf(s) ==> s[j] != 10,
    decreases s.len(),
{
    if s.len() > 0 && s[0] != 10 {
        lemma_first_lf_props(s.drop_first());
        assert forall|j: int| 0 <= j < first_lf(s) implies s[j] != 10 by {
            if j > 0 {
                assert(s.drop_first()[j - 1] != 10);
            }
        }
    }
}

proof fn lemma_first_lf_is(s: Seq<u8>, k: int)
    requires
        0 <= k <= s.len(),
        k < s.len() ==> s[k] == 10,
        forall|j: int| 0 <= j < k ==> s[j] != 10,
    ensures
        first_lf(s) == k,
{
    lemma_first_lf_props(s);
    let f = first_lf(s) as int;
    if f < k {
        assert(s[f] == 10);
        assert(s[f] != 10);
    } else if k < f {
        assert(s[k] != 10);
    }
}

/// Law: every keyword the parser yields is nonempty.
pub proof fn lemma_keywords_nonempty(s: Seq<u8>)
    ensures
        forall|k: int| 0 <= k < keywords_of(s).len() ==> (#[trigger] keywords_of(s)[k]).len() >= 1,
    decreases s.len(),
{
    if s.len() > 0 {
        let i = first_lf(s) as int;
        lemma_first_lf_props(s);
        if i < s.len() {
            let head = one_keyword(strip_cr(s.subrange(0, i)));
            let tail = keywords_of(s.subrange(i + 1, s.len() as int));
            lemma_keywords_nonempty(s.subrange(i + 1, s.len() as int));
            assert forall|k: int| 0 <= k < keywords_of(s).len() implies (#[trigger] keywords_of(
                s,
            )[k]).len() >= 1 by {
                if k >= head.len() {
                    assert(keywords_of(s)[k] == tail[k - head.len()]);
                    assert(tail[k - head.len()].len() >= 1);
                }
            }
        }
    }
}

/// Splits a keyword source into its keywords: one per line, the terminator
/// stripped, empty lines skipped, order preserved.
pub fn parse_keywords(s: &[u8]) -> (r: Vec<Vec<u8>>)
    ensures
        r@.map_values(|v: Vec<u8>| v@) == keywords_of(s@),
{
    let n: usize = s.len();
    let mut r: Vec<Vec<u8>> = Vec::new();
    let mut pos: usize = 0;
    proof {
        assert(r@.map_values(|v: Vec<u8>| v@) =~= Seq::<Seq<u8>>::empty());
        assert(s@.subrange(0, n as int) =~= s@);
    }
    while pos < n
        invariant
            pos <= n,
            n == s@.len(),
            keywords_of(s@) == r@.map_values(|v: Vec<u8>| v@) + keywords_of(
                s@.subrange(pos as int, n as int),
            ),
        decreases n - pos,
    {
        let ghost rest = s@.subrange(pos as int, n as int);
        let ghost r_pre = r@;
        let mut j: usize = pos;
        while j < n && s[j] != 10
            invariant
                pos <= j <= n,
                n == s@.len(),
                forall|k: int| pos <= k < j ==> s@[k] != 10,
            decreases n - j,
        {
            j = j + 1;
        }
        proof {
            assert forall|k: int| 0 <= k < j - pos implies rest[k] != 10 by {
                assert(s@[pos + k] != 10);
            }
            lemma_first_lf_is(rest, j - pos);
        }
        let end: usize = if j > pos && s[j - 1] == 13 {
            j - 1
        } else {
            j
        };
        proof {
            let line = if j < n {
                rest.subrange(0, j - pos)
            } else {
                rest
            };
            if j < n {
                assert(line =~= s@.subrange(pos as int, j as int));
            }
            assert(strip_cr(line) =~= s@.subrange(pos as int, end as int));
        }
        if end > pos {
            let mut kw: Vec<u8> = Vec::new();
            let mut k: usize = pos;
            while k < end
                invariant
                    pos <= k <= end,
                    end <= n,
                    n == s@.len(),
                    kw@ == s@.subrange(pos as int, k as int),
                decreases end - k,
            {
                kw.push(s[k]);
                proof {
                    assert(s@.subrange(pos as int, k + 1) =~= s@.subrange(
                        pos as int,
                        k as int,
                    ).push(s@[k as int]));
                }
                k = k + 1;
            }
            r.push(kw);
            proof {
                assert(r@.map_values(|v: Vec<u8>| v@) =~= r_pre.map_values(|v: Vec<u8>| v@).push(
                    s@.subrange(pos as int, end as int),
                ));
            }
        }
        proof {
            let mapped = r@.map_values(|v: Vec<u8>| v@);
            let pre_mapped = r_pre.map_values(|v: Vec<u8>| v@);
            if j < n {
                assert(rest.subrange(j - pos + 1, rest.len() as int) =~= s@.subrange(
                    j + 1,
                    n as int,
                ));
                assert(keywords_of(rest) == one_keyword(s@.subrange(pos as int, end as int))
                    + keywords_of(s@.subrange(j + 1, n as int)));
                assert(mapped == pre_mapped + one_keyword(s@.subrange(pos as int, end as int)));
                assert(keywords_of(s@) =~= mapped + keywords_of(s@.subrange(j + 1, n as int)));
            } else {
                assert(keywords_of(rest) == one_keyword(s@.subrange(pos as int, end as int)));
                assert(s@.subrange(n as int, n as int) =~= Seq::<u8>::empty());
                assert(keywords_of(s@) =~= mapped + keywords_of(s@.subrange(n as int, n as int)));
            }
        }
        pos = if j < n {
            j + 1
        } else {
            n
        };
    }
    proof {
        assert(s@.subrange(n as int, n as int) =~= Seq::<u8>::empty());
        assert(keywords_of(s@) =~= r@.map_values(|v: Vec<u8>| v@));
    }
    r
}

} // verus!
