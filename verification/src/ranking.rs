//! Operations on rankings: keeping or striking the ids of one list from
//! another while preserving order. These are the building blocks of the
//! tactics and of the elimination rounds of the runoff methods.

use vstd::prelude::*;
use crate::ballot::Id;

verus! {

/// The ids of `xs` that appear in `ys`, in the order of `xs`.
pub open spec fn restrict(xs: Seq<Id>, ys: Seq<Id>) -> Seq<Id>
    decreases xs.len(),
{
    if xs.len() == 0 {
        Seq::empty()
    } else {
        let rest = restrict(xs.drop_last(), ys);
        if ys.contains(xs.last()) {
            rest.push(xs.last())
        } else {
            rest
        }
    }
}

/// The ids of `xs` that do not appear in `ys`, in the order of `xs`.
pub open spec fn exclude(xs: Seq<Id>, ys: Seq<Id>) -> Seq<Id>
    decreases xs.len(),
{
    if xs.len() == 0 {
        Seq::empty()
    } else {
        let rest = exclude(xs.drop_last(), ys);
        if ys.contains(xs.last()) {
            rest
        } else {
            rest.push(xs.last())
        }
    }
}

/// `restrict` keeps exactly the shared ids, without introducing
/// repetitions.
pub proof fn lemma_restrict_props(xs: Seq<Id>, ys: Seq<Id>)
    ensures
        forall|x: Id| #![trigger restrict(xs, ys).contains(x)]
            restrict(xs, ys).contains(x) <==> xs.contains(x) && ys.contains(x),
        xs.no_duplicates() ==> restrict(xs, ys).no_duplicates(),
        restrict(xs, ys).len() <= xs.len(),
    decreases xs.len(),
{
    if xs.len() == 0 {
    } else {
        let head = xs.drop_last();
        lemma_restrict_props(head, ys);
        assert forall|x: Id| xs.contains(x) implies head.contains(x) || x == xs.last() by {
            let w = choose|i: int| 0 <= i < xs.len() && xs[i] == x;
            if w < xs.len() - 1 {
                assert(head[w] == x);
            }
        }
        assert forall|x: Id| head.contains(x) implies xs.contains(x) by {
            let w = choose|i: int| 0 <= i < head.len() && head[i] == x;
            assert(xs[w] == x);
        }
        assert(xs.contains(xs.last()));
        let rest = restrict(head, ys);
        let whole = restrict(xs, ys);
        assert forall|x: Id| #![trigger restrict(xs, ys).contains(x)]
            restrict(xs, ys).contains(x) <==> xs.contains(x) && ys.contains(x) by {
            assert(rest.contains(x) <==> head.contains(x) && ys.contains(x));
            if ys.contains(xs.last()) {
                if whole.contains(x) {
                    let w = choose|i: int| 0 <= i < whole.len() && whole[i] == x;
                    if w < rest.len() {
                        assert(rest[w] == x);
                    }
                }
                if xs.contains(x) && ys.contains(x) {
                    if head.contains(x) {
                        let w = choose|i: int| 0 <= i < rest.len() && rest[i] == x;
                        assert(whole[w] == x);
                    } else {
                        assert(whole[rest.len() as int] == xs.last());
                    }
                }
            } else {
                if xs.contains(x) && ys.contains(x) {
                    assert(head.contains(x));
                }
            }
        }
        if xs.no_duplicates() {
            assert(!head.contains(xs.last()));
            if ys.contains(xs.last()) {
                assert(!rest.contains(xs.last()));
                assert forall|i: int, j: int| 0 <= i < j < whole.len() implies whole[i]
                    != whole[j] by {
                    if j < rest.len() {
                        assert(whole[i] == rest[i] && whole[j] == rest[j]);
                    } else {
                        assert(whole[j] == xs.last());
                        assert(rest.contains(rest[i]));
                        assert(whole[i] == rest[i]);
                    }
                }
            }
        }
    }
}

/// `exclude` strikes exactly the ids of `ys`, without introducing
/// repetitions.
pub proof fn lemma_exclude_props(xs: Seq<Id>, ys: Seq<Id>)
    ensures
        forall|x: Id| #![trigger exclude(xs, ys).contains(x)]
            exclude(xs, ys).contains(x) <==> xs.contains(x) && !ys.contains(x),
        xs.no_duplicates() ==> exclude(xs, ys).no_duplicates(),
        exclude(xs, ys).len() <= xs.len(),
    decreases xs.len(),
{
    if xs.len() == 0 {
    } else {
        let head = xs.drop_last();
        lemma_exclude_props(head, ys);
        assert forall|x: Id| xs.contains(x) implies head.contains(x) || x == xs.last() by {
            let w = choose|i: int| 0 <= i < xs.len() && xs[i] == x;
            if w < xs.len() - 1 {
                assert(head[w] == x);
            }
        }
        assert forall|x: Id| head.contains(x) implies xs.contains(x) by {
            let w = choose|i: int| 0 <= i < head.len() && head[i] == x;
            assert(xs[w] == x);
        }
        assert(xs.contains(xs.last()));
        let rest = exclude(head, ys);
        let whole = exclude(xs, ys);
        assert forall|x: Id| #![trigger exclude(xs, ys).contains(x)]
            exclude(xs, ys).contains(x) <==> xs.contains(x) && !ys.contains(x) by {
            assert(rest.contains(x) <==> head.contains(x) && !ys.contains(x));
            if !ys.contains(xs.last()) {
                if whole.contains(x) {
                    let w = choose|i: int| 0 <= i < whole.len() && whole[i] == x;
                    if w < rest.len() {
                        assert(rest[w] == x);
                    }
                }
                if xs.contains(x) && !ys.contains(x) {
                    if head.contains(x) {
                        let w = choose|i: int| 0 <= i < rest.len() && rest[i] == x;
                        assert(whole[w] == x);
                    } else {
                        assert(whole[rest.len() as int] == xs.last());
                    }
                }
            } else {
                if xs.contains(x) && !ys.contains(x) {
                    assert(head.contains(x));
                }
            }
        }
        if xs.no_duplicates() {
            assert(!head.contains(xs.last()));
            if !ys.contains(xs.last()) {
                assert(!rest.contains(xs.last()));
                assert forall|i: int, j: int| 0 <= i < j < whole.len() implies whole[i]
                    != whole[j] by {
                    if j < rest.len() {
                        assert(whole[i] == rest[i] && whole[j] == rest[j]);
                    } else {
                        assert(whole[j] == xs.last());
                        assert(rest.contains(rest[i]));
                        assert(whole[i] == rest[i]);
                    }
                }
            }
        }
    }
}

/// Two lists without repetitions and without shared ids concatenate to a
/// list without repetitions.
pub proof fn lemma_concat_no_duplicates(a: Seq<Id>, b: Seq<Id>)
    requires
        a.no_duplicates(),
        b.no_duplicates(),
        forall|x: Id| !(a.contains(x) && #[trigger] b.contains(x)),
    ensures
        (a + b).no_duplicates(),
{
    assert forall|i: int, j: int| 0 <= i < j < (a + b).len() implies (a + b)[i] != (a + b)[j] by {
        if i < a.len() && j >= a.len() {
            assert(a.contains(a[i]));
            assert(b.contains(b[j - a.len()]));
        }
    }
}

/// An id is in a concatenation exactly when it is in one of the parts.
pub proof fn lemma_concat_contains(a: Seq<Id>, b: Seq<Id>)
    ensures
        forall|x: Id| #[trigger] (a + b).contains(x) <==> a.contains(x) || b.contains(x),
{
    assert forall|x: Id| #[trigger] (a + b).contains(x) implies a.contains(x) || b.contains(
        x,
    ) by {
        let w = choose|i: int| 0 <= i < (a + b).len() && (a + b)[i] == x;
        if w < a.len() {
            assert(a[w] == x);
        } else {
            assert(b[w - a.len()] == x);
        }
    }
    assert forall|x: Id| a.contains(x) || b.contains(x) implies #[trigger] (a + b).contains(
        x,
    ) by {
        if a.contains(x) {
            let w = choose|i: int| 0 <= i < a.len() && a[i] == x;
            assert((a + b)[w] == x);
        } else {
            let w = choose|i: int| 0 <= i < b.len() && b[i] == x;
            assert((a + b)[a.len() + w] == x);
        }
    }
}

/// `restrict` depends only on which ids the second list holds.
pub proof fn lemma_restrict_same_members(xs: Seq<Id>, ys1: Seq<Id>, ys2: Seq<Id>)
    requires
        forall|x: Id| ys1.contains(x) <==> ys2.contains(x),
    ensures
        restrict(xs, ys1) == restrict(xs, ys2),
    decreases xs.len(),
{
    if xs.len() > 0 {
        lemma_restrict_same_members(xs.drop_last(), ys1, ys2);
    }
}

/// Striking strikes nothing when the lists share no id.
pub proof fn lemma_exclude_disjoint(xs: Seq<Id>, ys: Seq<Id>)
    requires
        forall|x: Id| #[trigger] xs.contains(x) ==> !ys.contains(x),
    ensures
        exclude(xs, ys) == xs,
    decreases xs.len(),
{
    if xs.len() > 0 {
        let head = xs.drop_last();
        assert forall|x: Id| head.contains(x) implies xs.contains(x) by {
            let w = choose|i: int| 0 <= i < head.len() && head[i] == x;
            assert(xs[w] == x);
        }
        lemma_exclude_disjoint(head, ys);
        assert(xs.contains(xs.last()));
        assert(exclude(xs, ys) =~= xs);
    }
}

/// Striking strikes everything when every id is listed.
pub proof fn lemma_exclude_everything(xs: Seq<Id>, ys: Seq<Id>)
    requires
        forall|x: Id| #[trigger] xs.contains(x) ==> ys.contains(x),
    ensures
        exclude(xs, ys) == Seq::<Id>::empty(),
    decreases xs.len(),
{
    if xs.len() > 0 {
        let head = xs.drop_last();
        assert forall|x: Id| head.contains(x) implies xs.contains(x) by {
            let w = choose|i: int| 0 <= i < head.len() && head[i] == x;
            assert(xs[w] == x);
        }
        lemma_exclude_everything(head, ys);
        assert(xs.contains(xs.last()));
    }
}

/// Striking distributes over concatenation.
pub proof fn lemma_exclude_concat(a: Seq<Id>, b: Seq<Id>, ys: Seq<Id>)
    ensures
        exclude(a + b, ys) == exclude(a, ys) + exclude(b, ys),
    decreases b.len(),
{
    if b.len() == 0 {
        assert(a + b =~= a);
        assert(exclude(a, ys) + exclude(b, ys) =~= exclude(a, ys));
    } else {
        lemma_exclude_concat(a, b.drop_last(), ys);
        assert((a + b).drop_last() =~= a + b.drop_last());
        assert((a + b).last() == b.last());
    }
}

/// Decide whether `x` is one of the listed ids.
#[verifier::loop_isolation(false)]
pub fn contains_id(ids: &Vec<Id>, x: Id) -> (r: bool)
    ensures
        r == ids@.contains(x),
{
    let mut i: usize = 0;
    while i < ids.len()
        invariant
            i <= ids@.len(),
            forall|j: int| 0 <= j < i ==> ids@[j] != x,
        decreases ids@.len() - i,
    {
        if ids[i] == x {
            return true;
        }
        i = i + 1;
    }
    false
}

/// Keep the ids of `xs` that appear in `ys`, in order.
#[verifier::loop_isolation(false)]
pub fn restrict_ids(xs: &Vec<Id>, ys: &Vec<Id>) -> (r: Vec<Id>)
    ensures
        r@ == restrict(xs@, ys@),
{
    let mut out: Vec<Id> = Vec::new();
    let mut i: usize = 0;
    while i < xs.len()
        invariant
            i <= xs@.len(),
            out@ == restrict(xs@.take(i as int), ys@),
        decreases xs@.len() - i,
    {
        let x = xs[i];
        proof {
            assert(xs@.take(i + 1).drop_last() =~= xs@.take(i as int));
            assert(xs@.take(i + 1).last() == xs@[i as int]);
        }
        if contains_id(ys, x) {
            out.push(x);
        }
        i = i + 1;
    }
    proof {
        assert(xs@.take(xs@.len() as int) =~= xs@);
    }
    out
}

/// Strike the ids of `ys` out of `xs`, keeping the order of the rest.
#[verifier::loop_isolation(false)]
pub fn exclude_ids(xs: &Vec<Id>, ys: &Vec<Id>) -> (r: Vec<Id>)
    ensures
        r@ == exclude(xs@, ys@),
{
    let mut out: Vec<Id> = Vec::new();
    let mut i: usize = 0;
    while i < xs.len()
        invariant
            i <= xs@.len(),
            out@ == exclude(xs@.take(i as int), ys@),
        decreases xs@.len() - i,
    {
        let x = xs[i];
        proof {
            assert(xs@.take(i + 1).drop_last() =~= xs@.take(i as int));
            assert(xs@.take(i + 1).last() == xs@[i as int]);
        }
        if !contains_id(ys, x) {
            out.push(x);
        }
        i = i + 1;
    }
    proof {
        assert(xs@.take(xs@.len() as int) =~= xs@);
    }
    out
}

} // verus!

verus! {

/// Strike the ids of `ys` out of every ranking of the list.
pub open spec fn strip_all(bs: Seq<Seq<Id>>, ys: Seq<Id>) -> Seq<Seq<Id>> {
    bs.map_values(|b: Seq<Id>| exclude(b, ys))
}

/// The total number of entries over all rankings of the list.
pub open spec fn total_len(bs: Seq<Seq<Id>>) -> nat
    decreases bs.len(),
{
    if bs.len() == 0 {
        0
    } else {
        total_len(bs.drop_last()) + bs.last().len()
    }
}

/// Striking an id that a ranking holds makes it strictly shorter.
pub proof fn lemma_exclude_shrinks(xs: Seq<Id>, ys: Seq<Id>)
    requires
        exists|x: Id| #[trigger] xs.contains(x) && ys.contains(x),
    ensures
        exclude(xs, ys).len() < xs.len(),
    decreases xs.len(),
{
    let x = choose|x: Id| #[trigger] xs.contains(x) && ys.contains(x);
    let head = xs.drop_last();
    lemma_exclude_props(head, ys);
    lemma_exclude_props(xs, ys);
    if ys.contains(xs.last()) {
    } else {
        assert(x != xs.last());
        let w = choose|i: int| 0 <= i < xs.len() && xs[i] == x;
        assert(head[w] == x);
        assert(head.contains(x));
        lemma_exclude_shrinks(head, ys);
    }
}

/// Striking never lengthens the list, and strictly shortens it when some
/// ranking opens with a struck id.
pub proof fn lemma_strip_all_shrinks(bs: Seq<Seq<Id>>, ys: Seq<Id>)
    ensures
        total_len(strip_all(bs, ys)) <= total_len(bs),
        (exists|i: int|
            0 <= i < bs.len() && (#[trigger] bs[i]).len() > 0 && ys.contains(bs[i][0]))
            ==> total_len(strip_all(bs, ys)) < total_len(bs),
    decreases bs.len(),
{
    if bs.len() == 0 {
    } else {
        let head = bs.drop_last();
        lemma_strip_all_shrinks(head, ys);
        assert(strip_all(bs, ys).drop_last() =~= strip_all(head, ys));
        assert(strip_all(bs, ys).last() == exclude(bs.last(), ys));
        lemma_exclude_props(bs.last(), ys);
        if exists|i: int|
            0 <= i < bs.len() && (#[trigger] bs[i]).len() > 0 && ys.contains(bs[i][0]) {
            let i = choose|i: int|
                0 <= i < bs.len() && (#[trigger] bs[i]).len() > 0 && ys.contains(bs[i][0]);
            if i == bs.len() - 1 {
                assert(bs.last().contains(bs.last()[0]));
                lemma_exclude_shrinks(bs.last(), ys);
            } else {
                assert(head[i] == bs[i]);
                assert((head[i]).len() > 0 && ys.contains(head[i][0]));
            }
        }
    }
}

} // verus!

verus! {

/// Two repetition-free lists of the same length that one covers cover
/// each other.
pub proof fn lemma_distinct_cover(s1: Seq<Id>, s2: Seq<Id>)
    requires
        s1.no_duplicates(),
        s2.no_duplicates(),
        s1.len() == s2.len(),
        forall|x: Id| s1.contains(x) ==> s2.contains(x),
    ensures
        forall|x: Id| s2.contains(x) ==> s1.contains(x),
{
    broadcast use vstd::seq_lib::seq_to_set_is_finite;

    s1.unique_seq_to_set();
    s2.unique_seq_to_set();
    assert(s1.to_set().subset_of(s2.to_set()));
    vstd::set_lib::lemma_subset_equality(s1.to_set(), s2.to_set());
    assert forall|x: Id| s2.contains(x) implies s1.contains(x) by {
        assert(s2.to_set().contains(x));
        assert(s1.to_set().contains(x));
    }
}

} // verus!
