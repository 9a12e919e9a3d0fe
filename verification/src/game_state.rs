//! Per-round game state: the secret word with its salt, commitment and
//! authentication path, and the decisions of the round lifecycle.
//!
//! A round is one value, so a reader holding a round can never observe a
//! torn mixture of two rounds: every `GameRound` handed out satisfies
//! [`round_consistent`] as a whole. The service that owns the current
//! round recomputes a full candidate round off-lock with [`next_round`]
//! and swaps it in atomically.

use rand::Rng;
use vstd::prelude::*;

use crate::digest::{fr_fits, limbs_val, Digest, Salt};
use crate::hashing::{bytes_of, is_word_bytes, letters_of, salted_digest, word_digest};
use crate::merkle::{is_path_from, path_entries_fit, MerklePathEntry};
use crate::word_bank::WordBank;

verus! {

/// Fatal construction-time errors: the service refuses to start on any
/// of these.
#[derive(Debug)]
pub enum Error {
    WordBankCreate(crate::word_bank::Error),
    FileRead,
    ZKeyRead,
    MembershipConfigCreate,
    ClueConfigCreate,
    CreateGame(CreateGameError),
}

/// Errors of one round's computation: recoverable, the previous round is
/// then retained.
#[derive(Debug)]
pub enum CreateGameError {
    Merkle(crate::merkle::Error),
    Prove,
}

/// Everything one round publishes. Exactly one round is current at any
/// time, and readers receive it only as a cloned snapshot.
#[derive(Clone, Debug)]
pub struct GameRound {
    /// Strictly increasing round counter, starting at 0.
    pub word_id: u32,
    /// The secret solution word of the round.
    pub solution: String,
    /// The fresh 256-bit salt of the round.
    pub salt: Salt,
    /// The salted commitment binding the solution to a public value.
    pub commitment: Digest,
    /// The authentication path of the solution's leaf.
    pub path: Vec<MerklePathEntry>,
}

/// Coherence of a round against the word bank it was drawn from: the
/// solution is one of the bank's solution words, the commitment is the
/// salted hash of exactly this solution and salt, and the path connects
/// exactly this solution's leaf hash to the bank's Merkle root. A reader
/// holding a round therefore never sees fields of different rounds mixed.
pub open spec fn round_consistent(bank: WordBank, r: GameRound) -> bool {
    &&& exists|i: int|
        0 <= i < bank.solutions().len() && r.solution@ == #[trigger] bank.solutions()[i]@
    &&& is_word_bytes(bytes_of(r.solution@))
    &&& bank.spec_has_word(r.solution@)
    &&& r.commitment@ == salted_digest(letters_of(bytes_of(r.solution@)), limbs_val(r.salt@))
    &&& fr_fits(r.commitment@)
    &&& r.path@.len() == bank.spec_tree().height()
    &&& is_path_from(
        r.path@,
        word_digest(letters_of(bytes_of(r.solution@))),
        bank.spec_tree().root(),
    )
    &&& path_entries_fit(r.path@)
}

/// Relies on rand's thread_rng and Rng::gen for u64: a fresh salt drawn
/// from the full 256-bit space. Nothing can be promised of a random
/// value.
#[verifier::external_body]
fn sample_salt() -> Salt {
    let mut rng = rand::thread_rng();
    Salt { limbs: [rng.gen(), rng.gen(), rng.gen(), rng.gen()] }
}

/// Computes one full round: picks a random solution word, samples a
/// fresh salt, computes the commitment, and fetches the word's
/// authentication path. The round is consistent as a whole.
pub fn create_game(bank: &WordBank, word_id: u32) -> (r: GameRound)
    requires
        bank.wf(),
    ensures
        r.word_id == word_id,
        round_consistent(*bank, r),
{
    let picked = bank.pick_word();
    let salt = sample_salt();
    let commitment = crate::merkle::hash_word_with_salt(picked.word.as_str(), &salt).unwrap();
    GameRound { word_id, solution: picked.word, salt, commitment, path: picked.path }
}

/// The rotation step: the successor of the current round. The round id
/// advances by exactly one; solution, salt, commitment and path are drawn
/// fresh, and the new round is consistent as a whole.
pub fn next_round(bank: &WordBank, current: &GameRound) -> (r: GameRound)
    requires
        bank.wf(),
        current.word_id < u32::MAX,
    ensures
        r.word_id == current.word_id + 1,
        round_consistent(*bank, r),
{
    create_game(bank, current.word_id + 1)
}

/// What a guess request is answered with, before any proof is attempted.
#[derive(Debug, PartialEq, Eq)]
pub enum GuessCheck {
    /// The request names a round other than the current one.
    WrongRound,
    /// The guessed word is not in the acceptance set.
    UnknownWord,
    /// The guess is for the current round and acceptable.
    Accepted,
}

/// Decides a guess request: rejected when its round id is not current,
/// rejected when the word is not acceptable, accepted otherwise.
pub fn check_guess(bank: &WordBank, current_word_id: u32, word_id: u32, guess: &str) -> (r:
    GuessCheck)
    ensures
        (r == GuessCheck::WrongRound) <==> word_id != current_word_id,
        (r == GuessCheck::UnknownWord) <==> (word_id == current_word_id && !bank.spec_has_word(
            guess@,
        )),
        (r == GuessCheck::Accepted) <==> (word_id == current_word_id && bank.spec_has_word(guess@)),
{
    if word_id != current_word_id {
        GuessCheck::WrongRound
    } else if !bank.has_word(guess) {
        GuessCheck::UnknownWord
    } else {
        GuessCheck::Accepted
    }
}

} // verus!
