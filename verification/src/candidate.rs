//! Candidates and the configuration errors that election construction can
//! surface.

use vstd::prelude::*;
use crate::ballot::Id;

verus! {

/// A configuration error, surfaced immediately at construction time.
#[derive(Debug, Clone, Copy, PartialEq, Eq, Structural)]
pub enum ConfigError {
    /// A candidate position value is not a finite number.
    InvalidPosition,
    /// A weighted draw was configured with an empty or all-zero weight set,
    /// or with weights whose total does not fit in 64 bits.
    InvalidWeights,
    /// A multi-winner method asks for more seats than there are candidates.
    TooManySeats,
    /// A manual preference model was given an empty profile.
    EmptyManualProfile,
    /// Two candidates share one id.
    DuplicateCandidateId,
}

/// The mathematical content of a candidate record.
#[verifier::ext_equal]
pub ghost struct CandidateModel {
    pub id: Id,
    pub name: Seq<char>,
    pub party: Option<Seq<char>>,
    pub positions: Option<Seq<u32>>,
}

/// True when `bits` is an IEEE 754 single-precision pattern of a finite
/// number (the exponent field is not all ones).
pub open spec fn f32_bits_finite(bits: u32) -> bool {
    (bits >> 23) & 0xff != 0xff
}

/// True when every entry of a position list is finite.
pub open spec fn all_positions_finite(s: Seq<u32>) -> bool {
    forall|i: int| 0 <= i < s.len() ==> f32_bits_finite(#[trigger] s[i])
}

/// True when every entry of an optional position list is finite.
pub open spec fn positions_finite(positions: Option<Seq<u32>>) -> bool {
    positions matches Option::Some(s) ==> all_positions_finite(s)
}

/// The mathematical content of an optional position list.
pub open spec fn positions_view(positions: Option<Vec<u32>>) -> Option<Seq<u32>> {
    match positions {
        Option::None => Option::None,
        Option::Some(v) => Option::Some(v@),
    }
}

/// The mathematical content of an optional text field.
pub open spec fn text_view(text: Option<String>) -> Option<Seq<char>> {
    match text {
        Option::None => Option::None,
        Option::Some(t) => Option::Some(t@),
    }
}

/// Check that every entry of an optional position list is finite.
#[verifier::loop_isolation(false)]
fn check_positions(positions: &Option<Vec<u32>>) -> (r: bool)
    ensures
        r == positions_finite(positions_view(*positions)),
{
    match positions {
        Option::None => true,
        Option::Some(v) => {
            let mut i: usize = 0;
            while i < v.len()
                invariant
                    i <= v@.len(),
                    forall|j: int| 0 <= j < i ==> f32_bits_finite(#[trigger] v@[j]),
                decreases v@.len() - i,
            {
                if (v[i] >> 23) & 0xff == 0xff {
                    assert(!f32_bits_finite(v@[i as int]));
                    assert(!all_positions_finite(v@));
                    return false;
                }
                i = i + 1;
            }
            true
        },
    }
}

/// A candidate in an election.
///
/// Each candidate has an id, a name, an optional party, and an optional
/// list of positions. A position is carried as the bit pattern of an IEEE
/// 754 single-precision number and must be finite. Identity is by id.
#[derive(Debug, Clone, PartialEq, Eq, Hash)]
pub struct Candidate {
    id: Id,
    name: String,
    party: Option<String>,
    positions: Option<Vec<u32>>,
}

impl View for Candidate {
    type V = CandidateModel;

    closed spec fn view(&self) -> CandidateModel {
        CandidateModel {
            id: self.id,
            name: self.name@,
            party: text_view(self.party),
            positions: positions_view(self.positions),
        }
    }
}

impl Candidate {
    /// Create a new candidate. Construction fails fast with
    /// `InvalidPosition` when some position entry is not finite.
    pub fn new(id: Id, name: String, party: Option<String>, positions: Option<Vec<u32>>) -> (r:
        Result<Candidate, ConfigError>)
        ensures
            r is Ok <==> positions_finite(positions_view(positions)),
            r matches Ok(c) ==> c@ == (CandidateModel {
                id,
                name: name@,
                party: text_view(party),
                positions: positions_view(positions),
            }),
            r is Err ==> r == Result::<Candidate, ConfigError>::Err(ConfigError::InvalidPosition),
    {
        if !check_positions(&positions) {
            return Result::Err(ConfigError::InvalidPosition);
        }
        Result::Ok(Candidate { id, name, party, positions })
    }

    /// The id of the candidate.
    pub fn id(&self) -> (r: Id)
        ensures
            r == self@.id,
    {
        self.id
    }

    /// The name of the candidate.
    pub fn name(&self) -> (r: &String)
        ensures
            r@ == self@.name,
    {
        &self.name
    }

    /// The party the candidate is associated with.
    pub fn party(&self) -> (r: &Option<String>)
        ensures
            r is Some <==> self@.party is Some,
            r matches Some(p) ==> self@.party == Option::Some(p@),
    {
        &self.party
    }

    /// The positions that the candidate holds, as finite IEEE 754
    /// single-precision bit patterns.
    pub fn positions(&self) -> (r: &Option<Vec<u32>>)
        ensures
            r is Some <==> self@.positions is Some,
            r matches Some(v) ==> self@.positions == Option::Some(v@),
    {
        &self.positions
    }

    /// An exact copy of the candidate record.
    pub fn duplicate(&self) -> (r: Self)
        ensures
            r@ == self@,
    {
        let party = copy_text(&self.party);
        let positions = copy_positions(&self.positions);
        let r = Candidate { id: self.id, name: self.name.clone(), party, positions };
        assert(r@ =~= self@);
        r
    }
}

impl Candidate {
    /// Decide whether two candidate records have the same content.
    pub fn same_candidate(&self, other: &Candidate) -> (r: bool)
        ensures
            r == (self@ == other@),
    {
        if self.id != other.id {
            return false;
        }
        if !(self.name == other.name) {
            return false;
        }
        if !eq_text(&self.party, &other.party) {
            return false;
        }
        if !eq_positions(&self.positions, &other.positions) {
            return false;
        }
        proof {
            assert(self@ =~= other@);
        }
        true
    }
}

/// An exact copy of an optional text field.
fn copy_text(a: &Option<String>) -> (r: Option<String>)
    ensures
        text_view(r) == text_view(*a),
{
    match a {
        Option::None => Option::None,
        Option::Some(p) => Option::Some(p.clone()),
    }
}

/// An exact copy of an optional position list.
fn copy_positions(a: &Option<Vec<u32>>) -> (r: Option<Vec<u32>>)
    ensures
        positions_view(r) == positions_view(*a),
{
    match a {
        Option::None => Option::None,
        Option::Some(v) => Option::Some(copy_position_bits(v)),
    }
}

/// Decide whether two optional text fields are equal.
fn eq_text(a: &Option<String>, b: &Option<String>) -> (r: bool)
    ensures
        r == (text_view(*a) == text_view(*b)),
{
    match a {
        Option::None => b.is_none(),
        Option::Some(p) => match b {
            Option::None => false,
            Option::Some(q) => *p == *q,
        },
    }
}

/// Decide whether two optional position lists are equal.
fn eq_positions(a: &Option<Vec<u32>>, b: &Option<Vec<u32>>) -> (r: bool)
    ensures
        r == (positions_view(*a) == positions_view(*b)),
{
    match a {
        Option::None => b.is_none(),
        Option::Some(v) => match b {
            Option::None => false,
            Option::Some(w) => eq_position_bits(v, w),
        },
    }
}

/// Decide whether two position lists are equal.
#[verifier::loop_isolation(false)]
fn eq_position_bits(a: &Vec<u32>, b: &Vec<u32>) -> (r: bool)
    ensures
        r == (a@ == b@),
{
    if a.len() != b.len() {
        return false;
    }
    let mut i: usize = 0;
    while i < a.len()
        invariant
            i <= a@.len(),
            a@.len() == b@.len(),
            forall|j: int| 0 <= j < i ==> a@[j] == b@[j],
        decreases a@.len() - i,
    {
        if a[i] != b[i] {
            return false;
        }
        i = i + 1;
    }
    proof {
        assert(a@ =~= b@);
    }
    true
}

/// An exact copy of a list of position bit patterns.
fn copy_position_bits(bits: &Vec<u32>) -> (r: Vec<u32>)
    ensures
        r@ == bits@,
{
    let mut out: Vec<u32> = Vec::new();
    let mut i: usize = 0;
    while i < bits.len()
        invariant
            i <= bits@.len(),
            out@ == bits@.subrange(0, i as int),
        decreases bits@.len() - i,
    {
        out.push(bits[i]);
        i = i + 1;
        assert(out@ =~= bits@.subrange(0, i as int));
    }
    assert(out@ =~= bits@);
    out
}

} // verus!


verus! {

/// True when no two candidates share one id.
pub open spec fn distinct_ids(candidates: Seq<Candidate>) -> bool {
    forall|i: int, j: int|
        0 <= i < j < candidates.len() ==> (#[trigger] candidates[i])@.id != (
        #[trigger] candidates[j])@.id
}

} // verus!
