//! A set of names, kept in the order in which a report lists them.

use crate::order::{
    lemma_lt_asymmetric, lemma_lt_irreflexive, lemma_lt_transitive, name_lt, rank, Rank,
};
use vstd::prelude::*;

verus! {

/// Every name comes strictly before all that follow it. Such a sequence holds
/// no name twice.
pub open spec fn strictly_ascending(s: Seq<Seq<char>>) -> bool {
    forall|i: int, j: int| #![trigger s[i], s[j]] 0 <= i < j < s.len() ==> name_lt(s[i], s[j])
}

/// A strictly ascending sequence holds each of its names once.
pub proof fn lemma_ascending_distinct(s: Seq<Seq<char>>)
    requires
        strictly_ascending(s),
    ensures
        s.no_duplicates(),
{
    assert forall|i: int, j: int| 0 <= i < s.len() && 0 <= j < s.len() && i != j implies s[i]
        != s[j] by {
        lemma_lt_irreflexive(s[i]);
        if i < j {
            assert(name_lt(s[i], s[j]));
        } else {
            assert(name_lt(s[j], s[i]));
        }
    }
}

/// A set of names has one listing only: two strictly ascending sequences that
/// hold the same names are the same sequence, whatever the order and the
/// repetitions of the input they were made from.
pub proof fn lemma_ascending_unique(s: Seq<Seq<char>>, t: Seq<Seq<char>>)
    requires
        strictly_ascending(s),
        strictly_ascending(t),
        s.to_set() == t.to_set(),
    ensures
        s == t,
    decreases s.len(),
{
    if s.len() == 0 {
        if t.len() > 0 {
            assert(t.to_set().contains(t[0]));
            assert(s.contains(t[0]));
        }
        assert(s =~= t);
    } else {
        assert(s.to_set().contains(s[0]));
        assert(t.contains(s[0]));
        let j = choose|j: int| 0 <= j < t.len() && t[j] == s[0];
        assert(t.to_set().contains(t[0]));
        assert(s.contains(t[0]));
        let i = choose|i: int| 0 <= i < s.len() && s[i] == t[0];
        if j > 0 {
            // t[0] comes before t[j], which is s[0], which does not come after s[i].
            assert(name_lt(t[0], t[j]));
            if i > 0 {
                assert(name_lt(s[0], s[i]));
                lemma_lt_asymmetric(s[0], s[i]);
            } else {
                lemma_lt_irreflexive(s[0]);
            }
        }
        assert(s[0] == t[0]);
        let s1 = s.drop_first();
        let t1 = t.drop_first();
        assert(strictly_ascending(s1)) by {
            assert forall|a: int, b: int| 0 <= a < b < s1.len() implies name_lt(s1[a], s1[b]) by {
                assert(name_lt(s[a + 1], s[b + 1]));
            }
        }
        assert(strictly_ascending(t1)) by {
            assert forall|a: int, b: int| 0 <= a < b < t1.len() implies name_lt(t1[a], t1[b]) by {
                assert(name_lt(t[a + 1], t[b + 1]));
            }
        }
        lemma_ascending_distinct(s);
        lemma_ascending_distinct(t);
        assert(s1.to_set() =~= t1.to_set()) by {
            assert forall|x: Seq<char>| s1.contains(x) implies t1.contains(x) by {
                let a = choose|a: int| 0 <= a < s1.len() && s1[a] == x;
                assert(s[a + 1] == x);
                assert(s.to_set().contains(x));
                assert(t.contains(x));
                let b = choose|b: int| 0 <= b < t.len() && t[b] == x;
                assert(b != 0);
                assert(t1[b - 1] == x);
            }
            assert forall|x: Seq<char>| t1.contains(x) implies s1.contains(x) by {
                let b = choose|b: int| 0 <= b < t1.len() && t1[b] == x;
                assert(t[b + 1] == x);
                assert(t.to_set().contains(x));
                assert(s.contains(x));
                let a = choose|a: int| 0 <= a < s.len() && s[a] == x;
                assert(a != 0);
                assert(s1[a - 1] == x);
            }
        }
        lemma_ascending_unique(s1, t1);
        assert(s =~= t) by {
            assert(s.len() == t.len());
            assert forall|a: int| 0 <= a < s.len() implies s[a] == t[a] by {
                if a > 0 {
                    assert(s1[a - 1] == t1[a - 1]);
                }
            }
        }
    }
}

/// A set of names. It holds each name once and hands them out in ascending
/// order.
pub struct NameSet {
    names: Vec<String>,
}

impl View for NameSet {
    type V = Seq<Seq<char>>;

    /// The names, in the order in which they are listed.
    closed spec fn view(&self) -> Seq<Seq<char>> {
        self.names.deep_view()
    }
}

impl NameSet {
    #[verifier::type_invariant]
    pub closed spec fn listed_in_order(self) -> bool {
        strictly_ascending(self.names.deep_view())
    }

    /// The set without names.
    pub fn new() -> (r: NameSet)
        ensures
            r@ == Seq::<Seq<char>>::empty(),
    {
        let names: Vec<String> = Vec::new();
        assert(names.deep_view() =~= Seq::<Seq<char>>::empty());
        NameSet { names }
    }

    /// The set of the names in `names`, whatever their order and however often
    /// each is given.
    pub fn from_names(names: &Vec<String>) -> (r: NameSet)
        ensures
            r@.to_set() == names.deep_view().to_set(),
            strictly_ascending(r@),
    {
        let ghost given = names.deep_view();
        let mut set = NameSet::new();
        let mut i: usize = 0;
        assert(set@.to_set() =~= given.take(0).to_set());
        while i < names.len()
            invariant
                given == names.deep_view(),
                i <= names.len(),
                set@.to_set() == given.take(i as int).to_set(),
            decreases names.len() - i,
        {
            let name = names[i].clone();
            set.insert(name);
            proof {
                let head = given.take(i as int);
                let next = given.take(i + 1);
                assert(next.to_set() =~= head.to_set().insert(given[i as int])) by {
                    assert forall|x: Seq<char>| next.contains(x) implies head.contains(x) || x
                        == given[i as int] by {
                        let k = choose|k: int| 0 <= k < next.len() && next[k] == x;
                        if k < i {
                            assert(head[k] == x);
                        }
                    }
                    assert forall|x: Seq<char>| head.contains(x) || x
                        == given[i as int] implies next.contains(x) by {
                        if head.contains(x) {
                            let k = choose|k: int| 0 <= k < head.len() && head[k] == x;
                            assert(next[k] == x);
                        } else {
                            assert(next[i as int] == x);
                        }
                    }
                }
            }
            i += 1;
        }
        proof {
            use_type_invariant(&set);
            assert(given.take(i as int) =~= given);
        }
        set
    }

    /// How many names the set holds.
    pub fn len(&self) -> (r: usize)
        ensures
            r == self@.len(),
    {
        self.names.len()
    }

    /// Whether the set holds no name.
    pub fn is_empty(&self) -> (r: bool)
        ensures
            r == (self@.len() == 0),
    {
        self.names.len() == 0
    }

    /// The names in ascending order, each once.
    pub fn names(&self) -> (r: &Vec<String>)
        ensures
            r.deep_view() == self@,
            strictly_ascending(self@),
    {
        proof {
            use_type_invariant(self);
        }
        &self.names
    }

    /// Where `name` stands among the names: the number of names that come
    /// before it, and whether the name at that place is `name` itself.
    fn locate(&self, name: &str) -> (r: (usize, bool))
        ensures
            strictly_ascending(self@),
            r.0 <= self@.len(),
            forall|i: int| 0 <= i < r.0 ==> name_lt(#[trigger] self@[i], name@),
            r.1 ==> r.0 < self@.len() && self@[r.0 as int] == name@,
            !r.1 ==> forall|i: int| r.0 <= i < self@.len() ==> name_lt(name@, #[trigger] self@[i]),
    {
        proof {
            use_type_invariant(self);
        }
        let ghost s = self@;
        let mut low: usize = 0;
        let mut high: usize = self.names.len();
        while low < high
            invariant
                s == self.names.deep_view(),
                strictly_ascending(s),
                low <= high <= s.len(),
                forall|i: int| 0 <= i < low ==> name_lt(#[trigger] s[i], name@),
                forall|i: int| high <= i < s.len() ==> name_lt(name@, #[trigger] s[i]),
            decreases high - low,
        {
            let mid: usize = low + (high - low) / 2;
            match rank(self.names[mid].as_str(), name) {
                Rank::Before => {
                    assert forall|i: int| 0 <= i < mid + 1 implies name_lt(
                        #[trigger] s[i],
                        name@,
                    ) by {
                        if i < mid {
                            assert(name_lt(s[i], s[mid as int]));
                            lemma_lt_transitive(s[i], s[mid as int], name@);
                        }
                    }
                    low = mid + 1;
                },
                Rank::Same => {
                    assert forall|i: int| 0 <= i < mid implies name_lt(#[trigger] s[i], name@) by {
                        assert(name_lt(s[i], s[mid as int]));
                    }
                    return (mid, true);
                },
                Rank::After => {
                    assert forall|i: int| mid <= i < s.len() implies name_lt(
                        name@,
                        #[trigger] s[i],
                    ) by {
                        if mid < i {
                            assert(name_lt(s[mid as int], s[i]));
                            lemma_lt_transitive(name@, s[mid as int], s[i]);
                        }
                    }
                    high = mid;
                },
            }
        }
        (low, false)
    }

    /// Whether the set holds `name`.
    pub fn contains(&self, name: &str) -> (r: bool)
        ensures
            r == self@.contains(name@),
    {
        let (at, found) = self.locate(name);
        proof {
            if !found {
                lemma_lt_irreflexive(name@);
                assert forall|i: int| 0 <= i < self@.len() implies self@[i] != name@ by {
                    if i < at {
                        assert(name_lt(self@[i], name@));
                    } else {
                        assert(name_lt(name@, self@[i]));
                    }
                }
            }
        }
        found
    }

    /// Adds `name` to the set, at its place in the order, unless the set holds
    /// it already. Tells whether the name was new.
    pub fn insert(&mut self, name: String) -> (r: bool)
        ensures
            r == !old(self)@.contains(name@),
            final(self)@.to_set() == old(self)@.to_set().insert(name@),
            strictly_ascending(final(self)@),
            !r ==> final(self)@ == old(self)@,
    {
        let (at, found) = self.locate(name.as_str());
        let ghost before = self@;
        if found {
            assert(before.to_set().insert(name@) =~= before.to_set());
            return false;
        }
        proof {
            lemma_lt_irreflexive(name@);
            assert forall|i: int| 0 <= i < before.len() implies before[i] != name@ by {
                if i < at {
                    assert(name_lt(before[i], name@));
                } else {
                    assert(name_lt(name@, before[i]));
                }
            }
        }
        let mut names: Vec<String> = Vec::new();
        assert(names.deep_view() =~= Seq::<Seq<char>>::empty());
        core::mem::swap(&mut self.names, &mut names);
        let ghost word = name@;
        names.insert(at, name);
        proof {
            let after = names.deep_view();
            assert(after =~= before.insert(at as int, word));
            before.insert_ensures(at as int, word);
            assert(strictly_ascending(after)) by {
                assert forall|i: int, j: int| 0 <= i < j < after.len() implies name_lt(
                    after[i],
                    after[j],
                ) by {
                    if j < at {
                        assert(name_lt(before[i], before[j]));
                    } else if j == at {
                        assert(name_lt(before[i], word));
                    } else if i < at {
                        assert(after[j] == before[j - 1]);
                        assert(name_lt(before[i], word));
                        assert(name_lt(word, before[j - 1]));
                        lemma_lt_transitive(before[i], word, before[j - 1]);
                    } else if i == at {
                        assert(after[j] == before[j - 1]);
                        assert(name_lt(word, before[j - 1]));
                    } else {
                        assert(after[i] == before[i - 1]);
                        assert(after[j] == before[j - 1]);
                        assert(name_lt(before[i - 1], before[j - 1]));
                    }
                }
            }
            assert(after.to_set() =~= before.to_set().insert(word)) by {
                assert forall|x: Seq<char>| after.contains(x) implies before.contains(x) || x
                    == word by {
                    let i = choose|i: int| 0 <= i < after.len() && after[i] == x;
                    if i < at {
                        assert(before[i] == x);
                    } else if i > at {
                        assert(before[i - 1] == x);
                    }
                }
                assert forall|x: Seq<char>| before.contains(x) || x == word implies after.contains(
                    x,
                ) by {
                    if x == word {
                        assert(after[at as int] == x);
                    } else {
                        let i = choose|i: int| 0 <= i < before.len() && before[i] == x;
                        if i < at {
                            assert(after[i] == x);
                        } else {
                            assert(after[i + 1] == x);
                        }
                    }
                }
            }
        }
        self.names = names;
        true
    }
}

} // verus!
