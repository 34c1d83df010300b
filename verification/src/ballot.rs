//! The three ballot shapes that can be cast in an election, and the
//! profile (the full collection of ballots submitted in one run).

use vstd::prelude::*;

verus! {

/// A unique identifier for a candidate.
pub type Id = u16;

/// A ballot is an expression of one voter's preferences. There are three
/// ballot shapes: `Nominal` (approval set), `Ordinal` (ranking), and
/// `Cardinal` (score map).
pub trait Ballot: View + Sized + Send + Sync {
    /// Structural invariant of the ballot shape (no duplicate ids).
    spec fn wf(&self) -> bool;

    /// An exact copy of the ballot.
    fn duplicate(&self) -> (r: Self)
        ensures
            r@ == self@,
            r.wf() == self.wf(),
    ;

    /// Decide the shape invariant.
    fn is_wf(&self) -> (r: bool)
        ensures
            r == self.wf(),
    ;
}

/// Approval ballot: a set of approved candidates, kept without duplicates.
#[derive(Debug, Clone, PartialEq, Eq)]
pub struct Nominal(pub Vec<Id>);

/// Ranked ballot: an ordered list of candidates, most preferred first.
#[derive(Debug, Clone, PartialEq, Eq)]
pub struct Ordinal(pub Vec<Id>);

/// Score ballot: a map from candidate id to a non-negative score, kept as
/// an association list without duplicate keys.
#[derive(Debug, Clone, PartialEq, Eq)]
pub struct Cardinal(pub Vec<(Id, usize)>);

impl View for Nominal {
    type V = Seq<Id>;

    open spec fn view(&self) -> Seq<Id> {
        self.0@
    }
}

impl Ballot for Nominal {
    open spec fn wf(&self) -> bool {
        self@.no_duplicates()
    }

    fn duplicate(&self) -> (r: Self) {
        Nominal(copy_ids(&self.0))
    }

    fn is_wf(&self) -> (r: bool) {
        ids_distinct(&self.0)
    }
}

impl View for Ordinal {
    type V = Seq<Id>;

    open spec fn view(&self) -> Seq<Id> {
        self.0@
    }
}

impl Ballot for Ordinal {
    open spec fn wf(&self) -> bool {
        self@.no_duplicates()
    }

    fn duplicate(&self) -> (r: Self) {
        Ordinal(copy_ids(&self.0))
    }

    fn is_wf(&self) -> (r: bool) {
        ids_distinct(&self.0)
    }
}

impl View for Cardinal {
    type V = Seq<(Id, usize)>;

    open spec fn view(&self) -> Seq<(Id, usize)> {
        self.0@
    }
}

impl Cardinal {
    /// The ids scored by the ballot, in association-list order.
    pub open spec fn keys(&self) -> Seq<Id> {
        self@.map_values(|e: (Id, usize)| e.0)
    }
}

impl Ballot for Cardinal {
    open spec fn wf(&self) -> bool {
        self.keys().no_duplicates()
    }

    fn duplicate(&self) -> (r: Self) {
        let mut scores: Vec<(Id, usize)> = Vec::new();
        let mut i: usize = 0;
        while i < self.0.len()
            invariant
                i <= self.0@.len(),
                scores@ == self.0@.subrange(0, i as int),
            decreases self.0@.len() - i,
        {
            scores.push(self.0[i]);
            i = i + 1;
            assert(scores@ =~= self.0@.subrange(0, i as int));
        }
        assert(scores@ =~= self.0@);
        Cardinal(scores)
    }

    fn is_wf(&self) -> (r: bool) {
        let mut keys: Vec<Id> = Vec::new();
        let mut i: usize = 0;
        while i < self.0.len()
            invariant
                i <= self.0@.len(),
                keys@ == self.keys().take(i as int),
            decreases self.0@.len() - i,
        {
            keys.push(self.0[i].0);
            i = i + 1;
            proof {
                assert(keys@ =~= self.keys().take(i as int));
            }
        }
        proof {
            assert(keys@ =~= self.keys());
        }
        ids_distinct(&keys)
    }
}

/// Decide whether a list of ids has no repetition.
#[verifier::loop_isolation(false)]
pub fn ids_distinct(ids: &Vec<Id>) -> (r: bool)
    ensures
        r == ids@.no_duplicates(),
{
    let mut i: usize = 0;
    while i < ids.len()
        invariant
            i <= ids@.len(),
            forall|a: int, b: int| 0 <= a < b < i ==> ids@[a] != ids@[b],
        decreases ids@.len() - i,
    {
        let mut j: usize = 0;
        while j < i
            invariant
                j <= i < ids@.len(),
                forall|b: int| 0 <= b < j ==> ids@[b] != ids@[i as int],
            decreases i - j,
        {
            if ids[j] == ids[i] {
                return false;
            }
            j = j + 1;
        }
        i = i + 1;
    }
    true
}

/// An exact copy of a list of candidate ids.
pub fn copy_ids(ids: &Vec<Id>) -> (r: Vec<Id>)
    ensures
        r@ == ids@,
{
    let mut out: Vec<Id> = Vec::new();
    let mut i: usize = 0;
    while i < ids.len()
        invariant
            i <= ids@.len(),
            out@ == ids@.subrange(0, i as int),
        decreases ids@.len() - i,
    {
        out.push(ids[i]);
        i = i + 1;
        assert(out@ =~= ids@.subrange(0, i as int));
    }
    assert(out@ =~= ids@);
    out
}

/// A collection of ballots of one fixed shape, in submission order.
pub struct Profile<B: Ballot> {
    ballots: Vec<B>,
}

impl<B: Ballot> View for Profile<B> {
    type V = Seq<B>;

    closed spec fn view(&self) -> Seq<B> {
        self.ballots@
    }
}

impl<B: Ballot> Profile<B> {
    /// Every ballot in the profile satisfies its shape invariant.
    pub open spec fn wf(&self) -> bool {
        forall|i: int| 0 <= i < self@.len() ==> (#[trigger] self@[i]).wf()
    }

    /// Create a new profile from a list of ballots.
    pub fn new(ballots: Vec<B>) -> (r: Self)
        ensures
            r@ == ballots@,
    {
        Profile { ballots }
    }

    /// Read access to the ballots, in submission order.
    pub fn iter(&self) -> (r: &Vec<B>)
        ensures
            r@ == self@,
    {
        &self.ballots
    }

    /// Return the number of ballots.
    pub fn len(&self) -> (r: usize)
        ensures
            r == self@.len(),
    {
        self.ballots.len()
    }

    /// Check if the profile is empty.
    pub fn is_empty(&self) -> (r: bool)
        ensures
            r == (self@.len() == 0),
    {
        self.ballots.len() == 0
    }

    /// Give up the profile's ballots.
    pub fn into_vec(self) -> (r: Vec<B>)
        ensures
            r@ == self@,
    {
        self.ballots
    }
}

} // verus!

verus! {

/// The contents of a list of ranked ballots.
pub open spec fn ordinal_views(ballots: Seq<Ordinal>) -> Seq<Seq<Id>> {
    ballots.map_values(|b: Ordinal| b@)
}

/// The contents of a list of approval ballots.
pub open spec fn nominal_views(ballots: Seq<Nominal>) -> Seq<Seq<Id>> {
    ballots.map_values(|b: Nominal| b@)
}

/// The contents of a list of score ballots.
pub open spec fn cardinal_views(ballots: Seq<Cardinal>) -> Seq<Seq<(Id, usize)>> {
    ballots.map_values(|b: Cardinal| b@)
}

} // verus!
