//! Roll requests, their execution against a random source, and the results.

use vstd::prelude::*;
use rand::rngs::StdRng;
use rand::seq::IndexedRandom;
use crate::die::{face_values, DieType};

verus! {

/// The random source of the executor: the standard generator of `rand`. It is
/// handed on as it is; nothing is known of its state.
#[verifier::external_type_specification]
#[verifier::external_body]
pub struct ExStdRng(rand::rngs::StdRng);

/// A request to roll `count` dice of one type.
#[derive(Clone, Copy, Debug, PartialEq, Eq, Structural)]
pub struct RollRequest {
    pub die: DieType,
    pub count: u8,
}

/// A request together with the faces that came up, in the order rolled.
#[derive(Clone, Debug, PartialEq, Eq)]
pub struct RollResult {
    pub request: RollRequest,
    pub outcomes: Vec<u8>,
}

/// The mathematical value of a [`RollResult`].
pub struct RollResultView {
    pub request: RollRequest,
    pub outcomes: Seq<u8>,
}

impl View for RollResult {
    type V = RollResultView;

    open spec fn view(&self) -> RollResultView {
        RollResultView { request: self.request, outcomes: self.outcomes@ }
    }
}

/// Whether `face` is a face of `die`.
pub open spec fn is_face(die: DieType, face: u8) -> bool {
    1 <= face <= die.sides()
}

impl RollResultView {
    /// One outcome for each die asked for, each of them a face of the die.
    pub open spec fn wf(self) -> bool {
        &&& self.outcomes.len() == self.request.count
        &&& forall|i: int|
            0 <= i < self.outcomes.len() ==> is_face(self.request.die, #[trigger] self.outcomes[i])
    }
}

/// Picks one element of `faces` with the random source.
///
/// This is `rand::seq::IndexedRandom::choose` on a slice. For an empty slice
/// it gives `None`; otherwise it gives one of the slice's elements. Which one
/// depends on the state of the source, of which nothing is claimed.
#[verifier::external_body]
fn choose_face(faces: &[u8], rng: &mut StdRng) -> (picked: Option<u8>)
    ensures
        faces@.len() == 0 ==> picked is None,
        faces@.len() > 0 ==> picked is Some && faces@.contains(picked->0),
{
    faces.choose(rng).copied()
}

impl RollRequest {
    /// A request asks for at least one die.
    pub open spec fn wf(self) -> bool {
        self.count >= 1
    }

    /// Rolls the dice of this request, one after the other, each by a draw of
    /// its own from all the faces of the die. The result holds the faces in
    /// the order drawn. Which faces come up rests with the source, of which
    /// nothing is stated; the source is advanced and nothing else changes.
    pub fn do_roll(&self, rng: &mut StdRng) -> (result: RollResult)
        ensures
            result.request == *self,
            result@.wf(),
    {
        let faces = self.die.faces();
        let mut outcomes: Vec<u8> = Vec::new();
        let mut rolled: u8 = 0;
        while rolled < self.count
            invariant
                rolled <= self.count,
                faces@ == face_values(self.die.sides() as nat),
                outcomes@.len() == rolled,
                forall|i: int|
                    0 <= i < outcomes@.len() ==> is_face(self.die, #[trigger] outcomes@[i]),
            decreases self.count - rolled,
        {
            let picked = choose_face(faces.as_slice(), rng);
            let face = picked.unwrap();
            outcomes.push(face);
            rolled = rolled + 1;
        }
        RollResult { request: *self, outcomes }
    }
}

} // verus!
