//! Edit distance between character sequences, with a verified
//! dynamic-programming implementation.  The approximate matcher compares
//! distances as exact rational similarities, so no floating point is needed.

use vstd::prelude::*;

verus! {

pub open spec fn min3(x: nat, y: nat, z: nat) -> nat {
    if x <= y && x <= z {
        x
    } else if y <= z {
        y
    } else {
        z
    }
}

/// The Levenshtein distance: the least number of single-character
/// insertions, deletions and substitutions turning `a` into `b`.
pub open spec fn lev(a: Seq<char>, b: Seq<char>) -> nat
    decreases a.len(), b.len(),
{
    if a.len() == 0 {
        b.len()
    } else if b.len() == 0 {
        a.len()
    } else {
        let cost: nat = if a.last() == b.last() {
            0
        } else {
            1
        };
        min3(
            lev(a.drop_last(), b) + 1,
            lev(a, b.drop_last()) + 1,
            lev(a.drop_last(), b.drop_last()) + cost,
        )
    }
}

/// The distance never exceeds the longer length.
pub proof fn lemma_lev_le_max(a: Seq<char>, b: Seq<char>)
    ensures
        lev(a, b) <= a.len() || lev(a, b) <= b.len(),
        lev(a, b) <= a.len() + b.len(),
    decreases a.len(), b.len(),
{
    if a.len() > 0 && b.len() > 0 {
        lemma_lev_le_max(a.drop_last(), b);
        lemma_lev_le_max(a, b.drop_last());
        lemma_lev_le_max(a.drop_last(), b.drop_last());
    }
}

/// The recurrence over prefixes, as the dynamic program uses it.
proof fn lemma_lev_step(a: Seq<char>, b: Seq<char>, i: int, j: int)
    requires
        1 <= i <= a.len(),
        1 <= j <= b.len(),
    ensures
        lev(a.take(i), b.take(j)) == min3(
            lev(a.take(i - 1), b.take(j)) + 1,
            lev(a.take(i), b.take(j - 1)) + 1,
            lev(a.take(i - 1), b.take(j - 1)) + (if a[i - 1] == b[j - 1] {
                0nat
            } else {
                1nat
            }),
        ),
{
    let x = a.take(i);
    let y = b.take(j);
    assert(x.drop_last() =~= a.take(i - 1));
    assert(y.drop_last() =~= b.take(j - 1));
    assert(x.last() == a[i - 1]);
    assert(y.last() == b[j - 1]);
}

/// Computes the Levenshtein distance between `a` and `b`.
pub fn levenshtein(a: &Vec<char>, b: &Vec<char>) -> (d: usize)
    ensures
        d == lev(a@, b@),
{
    let mut prev: Vec<usize> = Vec::new();
    proof {
        assert(a@.take(0) =~= Seq::<char>::empty());
    }
    prev.push(0);
    let mut jj: usize = 0;
    while jj < b.len()
        invariant
            0 <= jj <= b.len(),
            prev@.len() == jj + 1,
            forall|k: int| 0 <= k <= jj ==> prev@[k] == lev(a@.take(0), b@.take(k)),
        decreases b.len() - jj,
    {
        proof {
            assert(a@.take(0) =~= Seq::<char>::empty());
            assert(b@.take(jj + 1).len() == jj + 1);
        }
        prev.push(jj + 1);
        jj = jj + 1;
    }
    let mut ii: usize = 0;
    while ii < a.len()
        invariant
            0 <= ii <= a.len(),
            prev@.len() == b@.len() + 1,
            forall|k: int| 0 <= k <= b@.len() ==> prev@[k] == lev(a@.take(ii as int), b@.take(k)),
        decreases a.len() - ii,
    {
        let i = ii + 1;
        let mut cur: Vec<usize> = Vec::new();
        proof {
            assert(b@.take(0) =~= Seq::<char>::empty());
            assert(a@.take(i as int).len() == i);
        }
        cur.push(i);
        let mut jj2: usize = 0;
        while jj2 < b.len()
            invariant
                0 <= jj2 <= b.len(),
                i == ii + 1,
                0 <= ii < a.len(),
                prev@.len() == b@.len() + 1,
                cur@.len() == jj2 + 1,
                forall|k: int|
                    0 <= k <= b@.len() ==> prev@[k] == lev(a@.take(ii as int), b@.take(k)),
                forall|k: int| 0 <= k <= jj2 ==> cur@[k] == lev(a@.take(i as int), b@.take(k)),
            decreases b.len() - jj2,
        {
            let j = jj2 + 1;
            let cost: usize = if a[i - 1] == b[j - 1] {
                0
            } else {
                1
            };
            let del = prev[j];
            let ins = cur[j - 1];
            let sub = prev[j - 1];
            proof {
                lemma_lev_le_max(a@.take(i - 1), b@.take(j - 1));
                lemma_lev_le_max(a@.take(i - 1), b@.take(j as int));
                lemma_lev_le_max(a@.take(i as int), b@.take(j - 1));
            }
            let c1: usize = if del == usize::MAX {
                usize::MAX
            } else {
                del + 1
            };
            let c2: usize = if ins == usize::MAX {
                usize::MAX
            } else {
                ins + 1
            };
            let c3: usize = sub + cost;
            let mut m = c1;
            if c2 < m {
                m = c2;
            }
            if c3 < m {
                m = c3;
            }
            proof {
                lemma_lev_step(a@, b@, i as int, j as int);
            }
            cur.push(m);
            jj2 = jj2 + 1;
        }
        prev = cur;
        ii = ii + 1;
    }
    proof {
        assert(a@.take(a@.len() as int) =~= a@);
        assert(b@.take(b@.len() as int) =~= b@);
    }
    prev[b.len()]
}

} // verus!
