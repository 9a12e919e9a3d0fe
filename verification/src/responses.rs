//! The request and response shapes of the game's HTTP surface, and the
//! verified assembly of a round-start reply.

use vstd::prelude::*;

use crate::digest::{decimal_chars, limbs_val};
use crate::game_state::GameRound;

verus! {

/// A proof blob in transport form: the three curve points of the opaque
/// proof, each as a string. The proof system owns the format.
#[derive(Clone, Debug, PartialEq, Eq)]
pub struct ProofSerializable {
    pub a: String,
    pub b: String,
    pub c: String,
}

/// The body of a guess request: the round it aims at, and the guess.
#[derive(Clone, Debug, PartialEq, Eq)]
pub struct GuessRequest {
    pub word_id: u32,
    pub guess: String,
}

/// The reply to a round-start request: the round id, the round's
/// commitment as a decimal string, and the membership proof.
#[derive(Clone, Debug, PartialEq, Eq)]
pub struct StartResponse {
    pub word_id: u32,
    pub commitment: String,
    pub proof: ProofSerializable,
}

/// The reply to an accepted guess: the five clue colors and the clue
/// proof.
#[derive(Clone, Debug, PartialEq, Eq)]
pub struct GuessResponse {
    pub colors: [u8; 5],
    pub proof: ProofSerializable,
}

/// Assembles the reply to a round-start request: the round's id, its
/// commitment spelled as the decimal string of the digest's value, and
/// the round's membership proof blob, unchanged.
pub fn build_start_response(round: &GameRound, proof_blob: ProofSerializable) -> (r: StartResponse)
    ensures
        r.word_id == round.word_id,
        r.commitment@ == decimal_chars(limbs_val(round.commitment@)),
        r.proof == proof_blob,
{
    StartResponse {
        word_id: round.word_id,
        commitment: round.commitment.to_decimal(),
        proof: proof_blob,
    }
}

} // verus!
