//! The outcome of an election: single-winner and multi-winner results.

use vstd::prelude::*;
use crate::ballot::Id;
use crate::candidate::{Candidate, CandidateModel};

verus! {

/// The mathematical content of a single-winner outcome.
#[verifier::ext_equal]
pub ghost enum SingleWinnerModel {
    /// A single winner.
    Win(CandidateModel),
    /// A tie between several candidates, in increasing id order.
    Tie(Seq<CandidateModel>),
    /// No winner.
    NoWinner,
}

/// The mathematical content of a multi-winner outcome.
#[verifier::ext_equal]
pub ghost enum MultiWinnerModel {
    /// The elected candidates, in increasing id order.
    Elected(Seq<CandidateModel>),
    /// No candidate was elected.
    NoWinner,
}

/// The outcome of an election. Outcomes can be compared, so that repeated
/// identical outcomes across many runs can be counted.
pub trait Outcome: View + Sized + Send + Sync {
    /// Decide whether two outcomes have the same content.
    fn same_outcome(&self, other: &Self) -> (r: bool)
        ensures
            r == (self@ == other@),
    ;

    /// The names of the winners, in the outcome's order.
    fn winners(&self) -> Vec<String>;
}

/// True when `ids` lists some candidate's id.
pub open spec fn has_candidate(candidates: Seq<Candidate>, id: Id) -> bool {
    exists|i: int| 0 <= i < candidates.len() && (#[trigger] candidates[i])@.id == id
}

/// True when every id of `ids` is the id of some candidate.
pub open spec fn all_ids_known(candidates: Seq<Candidate>, ids: Seq<Id>) -> bool {
    forall|j: int| 0 <= j < ids.len() ==> has_candidate(candidates, #[trigger] ids[j])
}

/// The mathematical content of a list of candidates.
pub open spec fn models_seq(cs: Seq<Candidate>) -> Seq<CandidateModel> {
    cs.map_values(|c: Candidate| c@)
}

/// True when `models` is strictly increasing by id (so it reads as a set).
pub open spec fn strictly_increasing_ids(models: Seq<CandidateModel>) -> bool {
    forall|i: int, j: int| 0 <= i < j < models.len() ==> (#[trigger] models[i]).id < (
    #[trigger] models[j]).id
}

/// True when some listed model carries `id`.
pub open spec fn models_contain_id(models: Seq<CandidateModel>, id: Id) -> bool {
    exists|k: int| 0 <= k < models.len() && (#[trigger] models[k]).id == id
}

/// True when `m` is the record of one of the candidates.
pub open spec fn model_from_candidates(candidates: Seq<Candidate>, m: CandidateModel) -> bool {
    exists|i: int| 0 <= i < candidates.len() && (#[trigger] candidates[i])@ == m
}

/// True when `models` is exactly the set of candidates whose id is listed
/// in `ids`, each drawn from `candidates`.
pub open spec fn models_of_ids(
    candidates: Seq<Candidate>,
    ids: Seq<Id>,
    models: Seq<CandidateModel>,
) -> bool {
    &&& forall|k: int| 0 <= k < models.len() ==> ids.contains((#[trigger] models[k]).id)
    &&& forall|j: int| 0 <= j < ids.len() ==> models_contain_id(models, #[trigger] ids[j])
    &&& forall|k: int| 0 <= k < models.len() ==> model_from_candidates(
        candidates,
        #[trigger] models[k],
    )
}

/// Look up the position of the candidate carrying `id`.
#[verifier::loop_isolation(false)]
fn find_by_id(candidates: &Vec<Candidate>, id: Id) -> (r: usize)
    requires
        has_candidate(candidates@, id),
    ensures
        r < candidates@.len(),
        candidates@[r as int]@.id == id,
{
    let mut i: usize = 0;
    while i < candidates.len()
        invariant
            i <= candidates@.len(),
            forall|j: int| 0 <= j < i ==> (#[trigger] candidates@[j])@.id != id,
        decreases candidates@.len() - i,
    {
        if candidates[i].id() == id {
            return i;
        }
        i = i + 1;
    }
    proof {
        let w = choose|k: int| 0 <= k < candidates@.len() && (#[trigger] candidates@[k])@.id
            == id;
        assert(false);
    }
    0
}

/// Sort a list of ids in increasing order, dropping repetitions.
#[verifier::loop_isolation(false)]
pub fn sort_unique_ids(ids: &Vec<Id>) -> (r: Vec<Id>)
    ensures
        forall|i: int, j: int| 0 <= i < j < r@.len() ==> r@[i] < r@[j],
        forall|k: int| 0 <= k < r@.len() ==> ids@.contains(#[trigger] r@[k]),
        forall|j: int| 0 <= j < ids@.len() ==> r@.contains(#[trigger] ids@[j]),
{
    let mut out: Vec<Id> = Vec::new();
    let mut j: usize = 0;
    while j < ids.len()
        invariant
            j <= ids@.len(),
            forall|a: int, b: int| 0 <= a < b < out@.len() ==> out@[a] < out@[b],
            forall|k: int| 0 <= k < out@.len() ==> ids@.contains(#[trigger] out@[k]),
            forall|jj: int| 0 <= jj < j ==> out@.contains(#[trigger] ids@[jj]),
        decreases ids@.len() - j,
    {
        let id = ids[j];
        let mut pos: usize = 0;
        while pos < out.len() && out[pos] < id
            invariant
                pos <= out@.len(),
                forall|k: int| 0 <= k < pos ==> out@[k] < id,
            decreases out@.len() - pos,
        {
            pos = pos + 1;
        }
        let ghost old_out = out@;
        if pos == out.len() || out[pos] > id {
            out.insert(pos, id);
            proof {
                assert forall|a: int, b: int| 0 <= a < b < out@.len() implies out@[a]
                    < out@[b] by {
                    assert(out@[pos as int] == id);
                    if a < pos {
                        assert(out@[a] == old_out[a]);
                    }
                    if a > pos {
                        assert(out@[a] == old_out[a - 1]);
                    }
                    if b < pos {
                        assert(out@[b] == old_out[b]);
                    }
                    if b > pos {
                        assert(out@[b] == old_out[b - 1]);
                    }
                }
                assert forall|k: int| 0 <= k < out@.len() implies ids@.contains(
                    #[trigger] out@[k],
                ) by {
                    if k < pos {
                        assert(out@[k] == old_out[k]);
                    } else if k > pos {
                        assert(out@[k] == old_out[k - 1]);
                    } else {
                        assert(out@[k] == ids@[j as int]);
                    }
                }
                assert forall|jj: int| 0 <= jj < j + 1 implies out@.contains(
                    #[trigger] ids@[jj],
                ) by {
                    if jj < j {
                        let w = choose|k: int| 0 <= k < old_out.len() && old_out[k] == ids@[jj];
                        if w < pos {
                            assert(out@[w] == old_out[w]);
                        } else {
                            assert(out@[w + 1] == old_out[w]);
                        }
                    } else {
                        assert(out@[pos as int] == ids@[jj]);
                    }
                }
            }
        } else {
            proof {
                assert(out@[pos as int] == id);
            }
        }
        j = j + 1;
    }
    out
}

/// Gather the candidates named by `ids` in increasing id order, without
/// repetition.
#[verifier::loop_isolation(false)]
fn gather_by_ids(candidates: &Vec<Candidate>, ids: &Vec<Id>) -> (r: Vec<Candidate>)
    requires
        all_ids_known(candidates@, ids@),
    ensures
        strictly_increasing_ids(models_seq(r@)),
        models_of_ids(candidates@, ids@, models_seq(r@)),
{
    let sorted = sort_unique_ids(ids);
    let mut out: Vec<Candidate> = Vec::new();
    let mut k: usize = 0;
    while k < sorted.len()
        invariant
            k <= sorted@.len(),
            out@.len() == k,
            forall|a: int| 0 <= a < k ==> (#[trigger] models_seq(out@)[a]).id == sorted@[a],
            forall|a: int| 0 <= a < k ==> model_from_candidates(
                candidates@,
                #[trigger] models_seq(out@)[a],
            ),
        decreases sorted@.len() - k,
    {
        let id = sorted[k];
        proof {
            assert(ids@.contains(id));
            let w = choose|jj: int| 0 <= jj < ids@.len() && ids@[jj] == id;
            assert(has_candidate(candidates@, ids@[w]));
        }
        let i = find_by_id(candidates, id);
        let ghost prev = out@;
        out.push(candidates[i].duplicate());
        k = k + 1;
        proof {
            assert forall|a: int| 0 <= a < k implies (#[trigger] models_seq(out@)[a]).id
                == sorted@[a] by {
                if a < k - 1 {
                    assert(out@[a] == prev[a]);
                    assert(models_seq(out@)[a] == models_seq(prev)[a]);
                } else {
                    assert(models_seq(out@)[a] == candidates@[i as int]@);
                }
            }
            assert forall|a: int| 0 <= a < k implies model_from_candidates(
                candidates@,
                #[trigger] models_seq(out@)[a],
            ) by {
                if a < k - 1 {
                    assert(out@[a] == prev[a]);
                    assert(models_seq(out@)[a] == models_seq(prev)[a]);
                } else {
                    assert(candidates@[i as int]@ == models_seq(out@)[a]);
                }
            }
        }
    }
    proof {
        assert forall|jj: int| 0 <= jj < ids@.len() implies models_contain_id(
            models_seq(out@),
            #[trigger] ids@[jj],
        ) by {
            assert(sorted@.contains(ids@[jj]));
            let w = choose|a: int| 0 <= a < sorted@.len() && sorted@[a] == ids@[jj];
            assert((models_seq(out@)[w]).id == ids@[jj]);
        }
    }
    out
}

/// The outcome of a single-winner election.
#[derive(Debug, Clone, PartialEq, Eq, Hash)]
pub enum SingleWinner {
    /// A single winner.
    Win(Candidate),
    /// A tie between multiple candidates, kept in increasing id order.
    Tie(Vec<Candidate>),
    /// No winner.
    NoWinner,
}

impl View for SingleWinner {
    type V = SingleWinnerModel;

    open spec fn view(&self) -> SingleWinnerModel {
        match self {
            SingleWinner::Win(c) => SingleWinnerModel::Win(c@),
            SingleWinner::Tie(cs) => SingleWinnerModel::Tie(models_seq(cs@)),
            SingleWinner::NoWinner => SingleWinnerModel::NoWinner,
        }
    }
}

impl SingleWinner {
    /// Construct a `SingleWinner::Win` holding the candidate that carries
    /// the given id.
    pub fn win(candidates: &Vec<Candidate>, id: Id) -> (r: Self)
        requires
            has_candidate(candidates@, id),
        ensures
            r@ matches SingleWinnerModel::Win(c) && c.id == id && exists|i: int|
                0 <= i < candidates@.len() && (#[trigger] candidates@[i])@ == c,
    {
        let i = find_by_id(candidates, id);
        SingleWinner::Win(candidates[i].duplicate())
    }

    /// Construct a `SingleWinner::Tie` over the candidates that carry the
    /// given ids, in increasing id order and without repetition.
    pub fn tie(candidates: &Vec<Candidate>, ids: &Vec<Id>) -> (r: Self)
        requires
            all_ids_known(candidates@, ids@),
        ensures
            r@ matches SingleWinnerModel::Tie(models) && strictly_increasing_ids(models)
                && models_of_ids(candidates@, ids@, models),
    {
        SingleWinner::Tie(gather_by_ids(candidates, ids))
    }

    /// Construct a `SingleWinner::NoWinner`.
    pub fn none() -> (r: Self)
        ensures
            r@ == SingleWinnerModel::NoWinner,
    {
        SingleWinner::NoWinner
    }
}

/// Decide whether two candidate lists have the same content.
#[verifier::loop_isolation(false)]
fn eq_candidate_vecs(a: &Vec<Candidate>, b: &Vec<Candidate>) -> (r: bool)
    ensures
        r == (models_seq(a@) == models_seq(b@)),
{
    if a.len() != b.len() {
        assert(models_seq(a@).len() != models_seq(b@).len());
        return false;
    }
    let mut i: usize = 0;
    while i < a.len()
        invariant
            i <= a@.len(),
            a@.len() == b@.len(),
            forall|j: int| 0 <= j < i ==> (#[trigger] a@[j])@ == b@[j]@,
        decreases a@.len() - i,
    {
        if !a[i].same_candidate(&b[i]) {
            assert(models_seq(a@)[i as int] != models_seq(b@)[i as int]);
            return false;
        }
        i = i + 1;
    }
    proof {
        assert(models_seq(a@) =~= models_seq(b@));
    }
    true
}

/// Collect the names of a list of candidates.
#[verifier::loop_isolation(false)]
fn names_of(cs: &Vec<Candidate>) -> (r: Vec<String>)
    ensures
        r@.len() == cs@.len(),
        forall|i: int| 0 <= i < r@.len() ==> (#[trigger] r@[i])@ == cs@[i]@.name,
{
    let mut out: Vec<String> = Vec::new();
    let mut i: usize = 0;
    while i < cs.len()
        invariant
            i <= cs@.len(),
            out@.len() == i,
            forall|j: int| 0 <= j < i ==> (#[trigger] out@[j])@ == cs@[j]@.name,
        decreases cs@.len() - i,
    {
        out.push(cs[i].name().clone());
        i = i + 1;
    }
    out
}

impl Outcome for SingleWinner {
    fn same_outcome(&self, other: &Self) -> (r: bool) {
        match (self, other) {
            (SingleWinner::Win(a), SingleWinner::Win(b)) => a.same_candidate(b),
            (SingleWinner::Tie(a), SingleWinner::Tie(b)) => eq_candidate_vecs(a, b),
            (SingleWinner::NoWinner, SingleWinner::NoWinner) => true,
            _ => false,
        }
    }

    /// The winners: the single winner's name, the tied candidates' names
    /// in id order, or nothing.
    fn winners(&self) -> (r: Vec<String>)
        ensures
            self@ matches SingleWinnerModel::Win(c) ==> r@.len() == 1 && r@[0]@ == c.name,
            self@ matches SingleWinnerModel::Tie(ms) ==> r@.len() == ms.len() && forall|i: int|
                0 <= i < ms.len() ==> (#[trigger] r@[i])@ == ms[i].name,
            self@ is NoWinner ==> r@.len() == 0,
    {
        match self {
            SingleWinner::Win(c) => {
                let mut out: Vec<String> = Vec::new();
                out.push(c.name().clone());
                out
            },
            SingleWinner::Tie(cs) => names_of(cs),
            SingleWinner::NoWinner => Vec::new(),
        }
    }
}

impl Outcome for MultiWinner {
    fn same_outcome(&self, other: &Self) -> (r: bool) {
        match (self, other) {
            (MultiWinner::Elected(a), MultiWinner::Elected(b)) => eq_candidate_vecs(a, b),
            (MultiWinner::NoWinner, MultiWinner::NoWinner) => true,
            _ => false,
        }
    }

    /// The winners: the elected candidates' names in id order, or nothing.
    fn winners(&self) -> (r: Vec<String>)
        ensures
            self@ matches MultiWinnerModel::Elected(ms) ==> r@.len() == ms.len() && forall|
                i: int,
            |
                0 <= i < ms.len() ==> (#[trigger] r@[i])@ == ms[i].name,
            self@ is NoWinner ==> r@.len() == 0,
    {
        match self {
            MultiWinner::Elected(cs) => names_of(cs),
            MultiWinner::NoWinner => Vec::new(),
        }
    }
}

/// The outcome of a multi-winner election.
#[derive(Debug, Clone, PartialEq, Eq, Hash)]
pub enum MultiWinner {
    /// The elected candidates, kept in increasing id order.
    Elected(Vec<Candidate>),
    /// None of the candidates were elected.
    NoWinner,
}

impl View for MultiWinner {
    type V = MultiWinnerModel;

    open spec fn view(&self) -> MultiWinnerModel {
        match self {
            MultiWinner::Elected(cs) => MultiWinnerModel::Elected(
                models_seq(cs@),
            ),
            MultiWinner::NoWinner => MultiWinnerModel::NoWinner,
        }
    }
}

impl MultiWinner {
    /// Construct a `MultiWinner::Elected` over the candidates that carry
    /// the given ids, in increasing id order and without repetition.
    pub fn seats(candidates: &Vec<Candidate>, ids: &Vec<Id>) -> (r: Self)
        requires
            all_ids_known(candidates@, ids@),
        ensures
            r@ matches MultiWinnerModel::Elected(models) && strictly_increasing_ids(models)
                && models_of_ids(candidates@, ids@, models),
    {
        MultiWinner::Elected(gather_by_ids(candidates, ids))
    }

    /// Construct a `MultiWinner::NoWinner`.
    pub fn none() -> (r: Self)
        ensures
            r@ == MultiWinnerModel::NoWinner,
    {
        MultiWinner::NoWinner
    }
}

} // verus!

verus! {

/// A sorted model list drawn for a repetition-free id list has exactly
/// one model per id.
pub proof fn lemma_models_len(candidates: Seq<Candidate>, ids: Seq<Id>, models: Seq<
    CandidateModel,
>)
    requires
        ids.no_duplicates(),
        strictly_increasing_ids(models),
        models_of_ids(candidates, ids, models),
    ensures
        models.len() == ids.len(),
{
    broadcast use vstd::seq_lib::group_seq_properties;

    let mids = models.map_values(|m: CandidateModel| m.id);
    assert(mids.no_duplicates());
    assert forall|x: Id| mids.contains(x) implies ids.contains(x) by {
        let k = choose|k: int| 0 <= k < mids.len() && mids[k] == x;
        assert(ids.contains(models[k].id));
    }
    assert forall|x: Id| ids.contains(x) implies mids.contains(x) by {
        let j = choose|j: int| 0 <= j < ids.len() && ids[j] == x;
        assert(models_contain_id(models, ids[j]));
        let k = choose|k: int| 0 <= k < models.len() && (#[trigger] models[k]).id == ids[j];
        assert(mids[k] == x);
    }
    assert(mids.to_set() =~= ids.to_set());
    mids.unique_seq_to_set();
    ids.unique_seq_to_set();
    assert(mids.len() == models.len());
}

} // verus!
