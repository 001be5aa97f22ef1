//! The report on a list of names: which of them the interpreter can import,
//! and which it cannot.

use crate::names::{lemma_ascending_unique, strictly_ascending, NameSet};
use crate::order::name_lt;
use vstd::prelude::*;

verus! {

/// What a report holds: the names that were found and those that were not,
/// each in the order in which they are listed.
pub struct ReportView {
    pub installed: Seq<Seq<char>>,
    pub missing: Seq<Seq<char>>,
}

/// The names of `names` that are in `present` (`wanted`) or are not
/// (`!wanted`), in the order in which `names` holds them.
pub open spec fn chosen(names: Seq<Seq<char>>, present: Set<Seq<char>>, wanted: bool) -> Seq<
    Seq<char>,
>
    decreases names.len(),
{
    if names.len() == 0 {
        Seq::empty()
    } else {
        let before = chosen(names.drop_last(), present, wanted);
        if present.contains(names.last()) == wanted {
            before.push(names.last())
        } else {
            before
        }
    }
}

/// The report on `names` where exactly the names in `present` can be
/// imported.
pub open spec fn partition_of(names: Seq<Seq<char>>, present: Set<Seq<char>>) -> ReportView {
    ReportView { installed: chosen(names, present, true), missing: chosen(names, present, false) }
}

/// No name stands on both sides of the report.
pub open spec fn disjoint(v: ReportView) -> bool {
    forall|x: Seq<char>| !(v.installed.contains(x) && v.missing.contains(x))
}

/// `chosen` holds a name exactly if `names` holds it and it is on the wanted
/// side of `present`.
pub proof fn lemma_chosen_members(names: Seq<Seq<char>>, present: Set<Seq<char>>, wanted: bool)
    ensures
        forall|x: Seq<char>|
            #![trigger chosen(names, present, wanted).contains(x)]
            #![trigger names.contains(x)]
            chosen(names, present, wanted).contains(x) <==> names.contains(x) && present.contains(
                x,
            ) == wanted,
    decreases names.len(),
{
    let all = chosen(names, present, wanted);
    if names.len() > 0 {
        let head = names.drop_last();
        let before = chosen(head, present, wanted);
        lemma_chosen_members(head, present, wanted);
        assert forall|x: Seq<char>| all.contains(x) implies names.contains(x) && present.contains(
            x,
        ) == wanted by {
            let i = choose|i: int| 0 <= i < all.len() && all[i] == x;
            if i < before.len() {
                assert(before[i] == x);
                assert(before.contains(x));
                assert(head.contains(x));
                let j = choose|j: int| 0 <= j < head.len() && head[j] == x;
                assert(names[j] == x);
            } else {
                assert(x == names.last());
                assert(names[names.len() - 1] == x);
            }
        }
        assert forall|x: Seq<char>|
            names.contains(x) && present.contains(x) == wanted implies all.contains(x) by {
            let j = choose|j: int| 0 <= j < names.len() && names[j] == x;
            if j < head.len() {
                assert(head[j] == x);
                assert(head.contains(x));
                assert(before.contains(x));
                let i = choose|i: int| 0 <= i < before.len() && before[i] == x;
                assert(all[i] == x);
            } else {
                assert(x == names.last());
                assert(all == before.push(x));
                assert(all[all.len() - 1] == x);
            }
        }
    }
}

/// Within each side of the report the names keep the order of the input: if
/// that is strictly ascending, so is each side.
pub proof fn lemma_chosen_ascending(names: Seq<Seq<char>>, present: Set<Seq<char>>, wanted: bool)
    requires
        strictly_ascending(names),
    ensures
        strictly_ascending(chosen(names, present, wanted)),
    decreases names.len(),
{
    let all = chosen(names, present, wanted);
    if names.len() > 0 {
        let head = names.drop_last();
        let before = chosen(head, present, wanted);
        assert(strictly_ascending(head)) by {
            assert forall|i: int, j: int| 0 <= i < j < head.len() implies name_lt(
                head[i],
                head[j],
            ) by {
                assert(name_lt(names[i], names[j]));
            }
        }
        lemma_chosen_ascending(head, present, wanted);
        lemma_chosen_members(head, present, wanted);
        assert forall|i: int, j: int| 0 <= i < j < all.len() implies name_lt(all[i], all[j]) by {
            if j < before.len() {
                assert(all[i] == before[i] && all[j] == before[j]);
                assert(name_lt(before[i], before[j]));
            } else {
                assert(all == before.push(names.last()));
                assert(all[i] == before[i] && all[j] == names.last());
                assert(before.contains(before[i]));
                assert(head.contains(before[i]));
                let k = choose|k: int| 0 <= k < head.len() && head[k] == before[i];
                assert(names[k] == before[i]);
                assert(name_lt(names[k], names[names.len() - 1]));
            }
        }
    }
}

/// The two sides of a report share no name, and together they hold exactly
/// the names that were asked about.
pub proof fn lemma_partition_covers(names: Seq<Seq<char>>, present: Set<Seq<char>>)
    ensures
        disjoint(partition_of(names, present)),
        partition_of(names, present).installed.to_set().union(
            partition_of(names, present).missing.to_set(),
        ) == names.to_set(),
        partition_of(names, present).installed.to_set() == names.to_set().intersect(present),
        partition_of(names, present).missing.to_set() == names.to_set().difference(present),
{
    let v = partition_of(names, present);
    lemma_chosen_members(names, present, true);
    lemma_chosen_members(names, present, false);
    assert forall|x: Seq<char>| !(v.installed.contains(x) && v.missing.contains(x)) by {
        if v.installed.contains(x) && v.missing.contains(x) {
            assert(chosen(names, present, true).contains(x));
            assert(chosen(names, present, false).contains(x));
        }
    }
    assert(v.installed.to_set().union(v.missing.to_set()) =~= names.to_set());
    assert(v.installed.to_set() =~= names.to_set().intersect(present));
    assert(v.missing.to_set() =~= names.to_set().difference(present));
}

/// A report is settled by what it holds: two reports whose sides are strictly
/// ascending and hold the same names on each side are the same report,
/// whatever lists of names they were made from.
pub proof fn lemma_report_determined(a: ReportView, b: ReportView)
    requires
        strictly_ascending(a.installed),
        strictly_ascending(a.missing),
        strictly_ascending(b.installed),
        strictly_ascending(b.missing),
        a.installed.to_set() == b.installed.to_set(),
        a.missing.to_set() == b.missing.to_set(),
    ensures
        a == b,
{
    lemma_ascending_unique(a.installed, b.installed);
    lemma_ascending_unique(a.missing, b.missing);
}

/// A name that comes after all of `prior` stands last once it is added: the
/// strictly ascending listing of `prior`'s names and `name` is `prior`
/// followed by `name`.
proof fn lemma_added_last(prior: Seq<Seq<char>>, name: Seq<char>, now: Seq<Seq<char>>)
    requires
        strictly_ascending(prior),
        forall|i: int| 0 <= i < prior.len() ==> name_lt(#[trigger] prior[i], name),
        strictly_ascending(now),
        now.to_set() == prior.to_set().insert(name),
    ensures
        now == prior.push(name),
{
    let want = prior.push(name);
    assert(strictly_ascending(want)) by {
        assert forall|i: int, j: int| 0 <= i < j < want.len() implies name_lt(want[i], want[j]) by {
            if j < prior.len() {
                assert(name_lt(prior[i], prior[j]));
            } else {
                assert(name_lt(prior[i], name));
            }
        }
    }
    assert(want.to_set() =~= prior.to_set().insert(name)) by {
        assert forall|x: Seq<char>| want.contains(x) implies prior.contains(x) || x == name by {
            let i = choose|i: int| 0 <= i < want.len() && want[i] == x;
            if i < prior.len() {
                assert(prior[i] == x);
            }
        }
        assert forall|x: Seq<char>| prior.contains(x) || x == name implies want.contains(x) by {
            if prior.contains(x) {
                let i = choose|i: int| 0 <= i < prior.len() && prior[i] == x;
                assert(want[i] == x);
            } else {
                assert(want[prior.len() as int] == x);
            }
        }
    }
    lemma_ascending_unique(now, want);
}

/// Which of a list of names the interpreter can import, and which it cannot.
/// Each side holds a name once, in ascending order, and no name stands on
/// both.
pub struct ResolutionReport {
    installed: NameSet,
    missing: NameSet,
}

impl View for ResolutionReport {
    type V = ReportView;

    closed spec fn view(&self) -> ReportView {
        ReportView { installed: self.installed@, missing: self.missing@ }
    }
}

impl ResolutionReport {
    #[verifier::type_invariant]
    pub closed spec fn sides_apart(self) -> bool {
        disjoint(ReportView { installed: self.installed@, missing: self.missing@ })
    }

    /// The report on `names` where exactly the names in `present` can be
    /// imported: those of `names` that `present` holds are installed, the
    /// others are missing, and each side keeps the order of `names`.
    pub fn partition(names: &NameSet, present: &NameSet) -> (r: ResolutionReport)
        ensures
            r@ == partition_of(names@, present@.to_set()),
            strictly_ascending(r@.installed),
            strictly_ascending(r@.missing),
            disjoint(r@),
    {
        let all = names.names();
        let ghost given = names@;
        let ghost found = present@.to_set();
        let mut installed = NameSet::new();
        let mut missing = NameSet::new();
        let mut i: usize = 0;
        assert(given.take(0) =~= Seq::<Seq<char>>::empty());
        while i < all.len()
            invariant
                i <= all.len(),
                all.deep_view() == given,
                strictly_ascending(given),
                found == present@.to_set(),
                installed@ == chosen(given.take(i as int), found, true),
                missing@ == chosen(given.take(i as int), found, false),
            decreases all.len() - i,
        {
            let name = all[i].clone();
            let ghost head = given.take(i as int);
            let ghost next = given.take(i + 1);
            let ghost word = given[i as int];
            let ghost side = if found.contains(word) {
                installed@
            } else {
                missing@
            };
            proof {
                assert(next.drop_last() =~= head);
                assert(next.last() == word);
                assert(strictly_ascending(head)) by {
                    assert forall|a: int, b: int| 0 <= a < b < head.len() implies name_lt(
                        head[a],
                        head[b],
                    ) by {
                        assert(name_lt(given[a], given[b]));
                    }
                }
                lemma_chosen_ascending(head, found, found.contains(word));
                lemma_chosen_members(head, found, found.contains(word));
                assert forall|k: int| 0 <= k < side.len() implies name_lt(
                    #[trigger] side[k],
                    word,
                ) by {
                    assert(side.contains(side[k]));
                    assert(head.contains(side[k]));
                    let a = choose|a: int| 0 <= a < head.len() && head[a] == side[k];
                    assert(name_lt(given[a], given[i as int]));
                }
            }
            if present.contains(name.as_str()) {
                installed.insert(name);
                proof {
                    lemma_added_last(side, word, installed@);
                }
            } else {
                missing.insert(name);
                proof {
                    lemma_added_last(side, word, missing@);
                }
            }
            i += 1;
        }
        proof {
            assert(given.take(i as int) =~= given);
            lemma_partition_covers(given, found);
            lemma_chosen_ascending(given, found, true);
            lemma_chosen_ascending(given, found, false);
        }
        ResolutionReport { installed, missing }
    }

    /// The names that can be imported.
    pub fn installed(&self) -> (r: &NameSet)
        ensures
            r@ == self@.installed,
    {
        &self.installed
    }

    /// The names that cannot be imported.
    pub fn missing(&self) -> (r: &NameSet)
        ensures
            r@ == self@.missing,
    {
        &self.missing
    }
}

} // verus!
