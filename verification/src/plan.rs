//! The plan of a merge: which files are on one side only and which on both.

use vstd::prelude::*;
use vstd::string::*;
use crate::names::strings_view;

verus! {

/// The grouping of the files of two listings by name.
#[derive(Debug)]
pub struct SyncPlan {
    /// The files of `A` that `B` lacks, in the order of `A`'s listing.
    pub only_in_a: Vec<String>,
    /// The files of `B` that `A` lacks, in the order of `B`'s listing.
    pub only_in_b: Vec<String>,
    /// The files that both have, in the order of `B`'s listing.
    pub in_both: Vec<String>,
}

/// The mathematical value of a [`SyncPlan`].
pub struct PlanView {
    pub only_in_a: Seq<Seq<char>>,
    pub only_in_b: Seq<Seq<char>>,
    pub in_both: Seq<Seq<char>>,
}

impl View for SyncPlan {
    type V = PlanView;

    open spec fn view(&self) -> PlanView {
        PlanView {
            only_in_a: strings_view(self.only_in_a@),
            only_in_b: strings_view(self.only_in_b@),
            in_both: strings_view(self.in_both@),
        }
    }
}

/// Whether a name is among `others`.
pub open spec fn is_among(others: Seq<Seq<char>>) -> spec_fn(Seq<char>) -> bool {
    |name: Seq<char>| others.contains(name)
}

/// Whether a name is not among `others`.
pub open spec fn is_not_among(others: Seq<Seq<char>>) -> spec_fn(Seq<char>) -> bool {
    |name: Seq<char>| !others.contains(name)
}

/// The names that are not among `others`, in order.
pub open spec fn names_absent_from(names: Seq<Seq<char>>, others: Seq<Seq<char>>) -> Seq<
    Seq<char>,
> {
    names.filter(is_not_among(others))
}

/// The names that are among `others`, in order.
pub open spec fn names_present_in(names: Seq<Seq<char>>, others: Seq<Seq<char>>) -> Seq<
    Seq<char>,
> {
    names.filter(is_among(others))
}

/// What a filter keeps: the elements that meet the predicate, and no element
/// twice where none stood twice before.
pub proof fn lemma_filter_members<A>(s: Seq<A>, pred: spec_fn(A) -> bool)
    ensures
        forall|x: A| #[trigger] s.filter(pred).contains(x) <==> s.contains(x) && pred(x),
        s.no_duplicates() ==> s.filter(pred).no_duplicates(),
    decreases s.len(),
{
    reveal(Seq::filter);
    if s.len() > 0 {
        let front = s.drop_last();
        let last = s.last();
        let kept = front.filter(pred);
        let all = s.filter(pred);
        lemma_filter_members(front, pred);
        assert forall|x: A| #[trigger] all.contains(x) <==> s.contains(x) && pred(x) by {
            if all.contains(x) {
                let i = choose|i: int| 0 <= i < all.len() && all[i] == x;
                if pred(last) && i == all.len() - 1 {
                    assert(s[s.len() - 1] == x);
                } else {
                    assert(kept[i] == x);
                    assert(kept.contains(x));
                    let j = choose|j: int| 0 <= j < front.len() && front[j] == x;
                    assert(s[j] == x);
                }
            }
            if s.contains(x) && pred(x) {
                let j = choose|j: int| 0 <= j < s.len() && s[j] == x;
                if j == s.len() - 1 {
                    assert(all[all.len() - 1] == x);
                } else {
                    assert(front[j] == x);
                    assert(front.contains(x));
                    assert(kept.contains(x));
                    let i = choose|i: int| 0 <= i < kept.len() && kept[i] == x;
                    assert(all[i] == x);
                }
            }
        }
        if s.no_duplicates() {
            assert forall|i: int, j: int| 0 <= i < front.len() && 0 <= j < front.len() && i
                != j implies front[i] != front[j] by {
                assert(s[i] != s[j]);
            }
            assert(front.no_duplicates());
            if pred(last) {
                if kept.contains(last) {
                    let j = choose|j: int| 0 <= j < front.len() && front[j] == last;
                    assert(s[j] == s[s.len() - 1]);
                }
                assert forall|i: int, j: int| 0 <= i < all.len() && 0 <= j < all.len() && i
                    != j implies all[i] != all[j] by {
                    if i < kept.len() && j < kept.len() {
                        assert(kept[i] != kept[j]);
                    } else if i < kept.len() {
                        assert(kept.contains(kept[i]));
                    } else {
                        assert(kept.contains(kept[j]));
                    }
                }
            }
        }
    }
}

/// The plan for two directories with the files `files_a` and `files_b`.
pub open spec fn plan_of(files_a: Seq<Seq<char>>, files_b: Seq<Seq<char>>) -> PlanView {
    PlanView {
        only_in_a: names_absent_from(files_a, files_b),
        only_in_b: names_absent_from(files_b, files_a),
        in_both: names_present_in(files_b, files_a),
    }
}

/// Whether `name` is among `names`.
pub fn contains_name(names: &Vec<String>, name: &String) -> (r: bool)
    ensures
        r == strings_view(names@).contains(name@),
{
    let ghost views = strings_view(names@);
    let mut i: usize = 0;
    while i < names.len()
        invariant
            i <= names.len(),
            views == strings_view(names@),
            forall|j: int| 0 <= j < i ==> views[j] != name@,
        decreases names.len() - i,
    {
        if names[i] == *name {
            assert(views[i as int] == name@);
            return true;
        }
        i += 1;
    }
    false
}

/// The names of `names` that are among `others` if `keep_present`, and those
/// that are not among them otherwise.
fn select(names: &Vec<String>, others: &Vec<String>, keep_present: bool) -> (r: Vec<String>)
    ensures
        strings_view(r@) == if keep_present {
            names_present_in(strings_view(names@), strings_view(others@))
        } else {
            names_absent_from(strings_view(names@), strings_view(others@))
        },
{
    let ghost all = strings_view(names@);
    let ghost against = strings_view(others@);
    let mut kept: Vec<String> = Vec::new();
    let mut i: usize = 0;
    proof {
        reveal(Seq::filter);
        assert(all.take(0) =~= Seq::<Seq<char>>::empty());
        assert(strings_view(kept@) =~= Seq::<Seq<char>>::empty());
    }
    while i < names.len()
        invariant
            i <= names.len(),
            all == strings_view(names@),
            against == strings_view(others@),
            strings_view(kept@) == if keep_present {
                names_present_in(all.take(i as int), against)
            } else {
                names_absent_from(all.take(i as int), against)
            },
        decreases names.len() - i,
    {
        proof {
            reveal(Seq::filter);
            assert(all.take(i + 1).drop_last() =~= all.take(i as int));
            assert(all.take(i + 1).last() == names@[i as int]@);
        }
        if contains_name(others, &names[i]) == keep_present {
            let ghost before = strings_view(kept@);
            kept.push(names[i].clone());
            assert(strings_view(kept@) =~= before.push(names@[i as int]@));
        }
        i += 1;
    }
    assert(all.take(i as int) =~= all);
    kept
}

impl SyncPlan {
    /// Groups the files of two directories by name.
    pub fn new(files_a: &Vec<String>, files_b: &Vec<String>) -> (plan: SyncPlan)
        ensures
            plan@ == plan_of(strings_view(files_a@), strings_view(files_b@)),
    {
        SyncPlan {
            only_in_a: select(files_a, files_b, false),
            only_in_b: select(files_b, files_a, false),
            in_both: select(files_b, files_a, true),
        }
    }
}

} // verus!
