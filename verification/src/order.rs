//! The order in which names are listed: lexicographic, character by character.

use vstd::prelude::*;
use vstd::std_specs::iter::IteratorSpec;

verus! {

broadcast use vstd::string::group_string_axioms;

/// `a` and `b` hold the same characters at every position before `k`.
pub open spec fn agree_before(a: Seq<char>, b: Seq<char>, k: int) -> bool {
    forall|i: int| 0 <= i < k ==> a[i] == b[i]
}

/// Position `k` shows that `a` comes before `b`: the two agree before `k`, and
/// there either `a` has ended while `b` goes on, or `a` holds the smaller
/// character.
pub open spec fn precedes_at(a: Seq<char>, b: Seq<char>, k: int) -> bool {
    &&& 0 <= k <= a.len()
    &&& k < b.len()
    &&& agree_before(a, b, k)
    &&& (k == a.len() || a[k] < b[k])
}

/// `a` comes strictly before `b` in lexicographic order.
pub open spec fn name_lt(a: Seq<char>, b: Seq<char>) -> bool {
    exists|k: int| precedes_at(a, b, k)
}

/// No name comes before itself.
pub proof fn lemma_lt_irreflexive(a: Seq<char>)
    ensures
        !name_lt(a, a),
{
}

/// Of two names at most one comes before the other.
pub proof fn lemma_lt_asymmetric(a: Seq<char>, b: Seq<char>)
    requires
        name_lt(a, b),
    ensures
        !name_lt(b, a),
{
    let k = choose|k: int| precedes_at(a, b, k);
    if name_lt(b, a) {
        let j = choose|j: int| precedes_at(b, a, j);
        if j < k {
            assert(a[j] == b[j]);
        } else if k < j {
            assert(b[k] == a[k]);
        }
    }
}

/// If `a` comes before `b` and `b` before `c`, then `a` comes before `c`.
pub proof fn lemma_lt_transitive(a: Seq<char>, b: Seq<char>, c: Seq<char>)
    requires
        name_lt(a, b),
        name_lt(b, c),
    ensures
        name_lt(a, c),
{
    let k = choose|k: int| precedes_at(a, b, k);
    let j = choose|j: int| precedes_at(b, c, j);
    let m = if k <= j {
        k
    } else {
        j
    };
    assert(agree_before(a, c, m)) by {
        assert forall|i: int| 0 <= i < m implies a[i] == c[i] by {
            assert(a[i] == b[i]);
            assert(b[i] == c[i]);
        }
    }
    if j < k {
        assert(a[j] == b[j]);
    } else if k < j {
        assert(b[k] == c[k]);
    }
    assert(precedes_at(a, c, m));
}

/// Two names that agree before `k` are equal, or one comes before the other.
proof fn lemma_total_from(a: Seq<char>, b: Seq<char>, k: int)
    requires
        0 <= k <= a.len(),
        k <= b.len(),
        agree_before(a, b, k),
    ensures
        a == b || name_lt(a, b) || name_lt(b, a),
    decreases a.len() - k,
{
    if k == a.len() && k == b.len() {
        assert(a =~= b);
    } else if k == a.len() {
        assert(precedes_at(a, b, k));
    } else if k == b.len() {
        assert(agree_before(b, a, k));
        assert(precedes_at(b, a, k));
    } else if a[k] == b[k] {
        lemma_total_from(a, b, k + 1);
    } else if a[k] < b[k] {
        assert(precedes_at(a, b, k));
    } else {
        assert(agree_before(b, a, k));
        assert(precedes_at(b, a, k));
    }
}

/// Any two names are equal, or one comes before the other.
pub proof fn lemma_lt_total(a: Seq<char>, b: Seq<char>)
    ensures
        a == b || name_lt(a, b) || name_lt(b, a),
{
    lemma_total_from(a, b, 0);
}

/// Where two names stand to each other.
#[derive(Clone, Copy, Debug, PartialEq, Eq, Structural)]
pub enum Rank {
    /// The first comes before the second.
    Before,
    /// They are the same name.
    Same,
    /// The first comes after the second.
    After,
}

/// What `rank` returns for two names.
pub open spec fn rank_of(a: Seq<char>, b: Seq<char>) -> Rank {
    if a == b {
        Rank::Same
    } else if name_lt(a, b) {
        Rank::Before
    } else {
        Rank::After
    }
}

/// Where `a` stands to `b` in lexicographic order.
pub fn rank(a: &str, b: &str) -> (r: Rank)
    ensures
        r == rank_of(a@, b@),
        r is Before <==> name_lt(a@, b@),
        r is Same <==> a@ == b@,
        r is After <==> name_lt(b@, a@),
{
    let mut left = a.chars();
    let mut right = b.chars();
    let ghost mut k: int = 0;
    proof {
        lemma_lt_irreflexive(a@);
        lemma_lt_total(a@, b@);
        if name_lt(a@, b@) {
            lemma_lt_asymmetric(a@, b@);
        }
    }
    loop
        invariant
            0 <= k <= a@.len(),
            k <= b@.len(),
            agree_before(a@, b@, k),
            left.remaining() == a@.skip(k),
            right.remaining() == b@.skip(k),
            left.obeys_prophetic_iter_laws(),
            right.obeys_prophetic_iter_laws(),
            a@ == b@ || name_lt(a@, b@) || name_lt(b@, a@),
            !(name_lt(a@, b@) && name_lt(b@, a@)),
            !name_lt(a@, a@),
        decreases a@.len() - k,
    {
        let x = left.next();
        let y = right.next();
        match (x, y) {
            (None, None) => {
                assert(a@ =~= b@);
                return Rank::Same;
            },
            (None, Some(_)) => {
                assert(precedes_at(a@, b@, k));
                return Rank::Before;
            },
            (Some(_), None) => {
                assert(agree_before(b@, a@, k));
                assert(precedes_at(b@, a@, k));
                return Rank::After;
            },
            (Some(p), Some(q)) => {
                assert(p == a@[k] && q == b@[k]);
                if p < q {
                    assert(precedes_at(a@, b@, k));
                    return Rank::Before;
                } else if q < p {
                    assert(agree_before(b@, a@, k));
                    assert(precedes_at(b@, a@, k));
                    return Rank::After;
                }
                proof {
                    k = k + 1;
                }
            },
        }
    }
}

} // verus!
