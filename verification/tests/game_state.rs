use zkwordle::game_state::{check_guess, create_game, next_round, GuessCheck};
use zkwordle::hashing::{word_letters, HashEngine};
use zkwordle::merkle::{NodeType};
use zkwordle::responses::{build_start_response, GuessResponse, ProofSerializable};
use zkwordle::word_bank::WordBank;

fn strings(words: &[&str]) -> Vec<String> {
    words.iter().map(|w| w.to_string()).collect()
}

fn test_bank() -> WordBank {
    WordBank::new(
        strings(&["apple", "grape", "mango", "peach", "berry"]),
        strings(&["melon", "lemon"]),
    )
    .expect("bank creation should succeed")
}

#[test]
fn string_to_bigints_correct() {
    let word = "hello";
    let letters = word_letters(word).unwrap();

    assert_eq!(letters.len(), word.len());
    assert_eq!(letters[0], 7); //  h
    assert_eq!(letters[1], 4); //  e
    assert_eq!(letters[2], 11); // l
    assert_eq!(letters[3], 11); // l
    assert_eq!(letters[4], 14); // o
}

#[test]
fn round_ids_advance_by_one() {
    let bank = test_bank();
    let r0 = create_game(&bank, 0);
    assert_eq!(r0.word_id, 0);
    let r1 = next_round(&bank, &r0);
    assert_eq!(r1.word_id, 1);
    let r2 = next_round(&bank, &r1);
    assert_eq!(r2.word_id, 2);
}

#[test]
fn rounds_are_internally_consistent() {
    let bank = test_bank();
    let engine = HashEngine::new();
    let r0 = create_game(&bank, 0);
    let r1 = next_round(&bank, &r0);

    for round in [&r0, &r1] {
        // the solution is an acceptable word of the bank
        assert!(bank.has_word(&round.solution));

        // the commitment is the salted hash of exactly this word and salt
        let again = engine.word_hash_with_salt(&round.solution, &round.salt).unwrap();
        assert_eq!(round.commitment, again);

        // the path replays from this word's leaf hash
        let mut cur = engine.word_hash(&round.solution).unwrap();
        for entry in &round.path {
            match entry.on_path {
                NodeType::Left => assert_eq!(entry.left, cur),
                NodeType::Right => assert_eq!(entry.right, cur),
            }
            cur = engine.merkle_hash(&entry.left, &entry.right).unwrap();
        }
        // five solution words pad to eight leaves: three path levels
        assert_eq!(round.path.len(), 3);
    }

    // both rounds' paths replay to the same Merkle root
    let replay = |round: &zkwordle::game_state::GameRound| {
        let mut cur = engine.word_hash(&round.solution).unwrap();
        for entry in &round.path {
            cur = engine.merkle_hash(&entry.left, &entry.right).unwrap();
        }
        cur
    };
    assert_eq!(replay(&r0), replay(&r1));
}

#[test]
fn guess_checks_follow_the_round() {
    let bank = test_bank();

    assert_eq!(check_guess(&bank, 4, 3, "apple"), GuessCheck::WrongRound);
    assert_eq!(check_guess(&bank, 4, 4, "zzzzz"), GuessCheck::UnknownWord);
    assert_eq!(check_guess(&bank, 4, 4, "not-a"), GuessCheck::UnknownWord);
    assert_eq!(check_guess(&bank, 4, 4, "apple"), GuessCheck::Accepted);
    assert_eq!(check_guess(&bank, 4, 4, "melon"), GuessCheck::Accepted);
}

#[test]
fn start_response_carries_the_round() {
    let bank = test_bank();
    let round = create_game(&bank, 7);
    let blob = ProofSerializable {
        a: "a-point".to_string(),
        b: "b-point".to_string(),
        c: "c-point".to_string(),
    };
    let response = build_start_response(&round, blob.clone());

    assert_eq!(response.word_id, 7);
    assert_eq!(response.commitment, round.commitment.to_decimal());
    assert_eq!(response.proof, blob);

    let guess_response = GuessResponse { colors: [0, 1, 2, 0, 1], proof: blob };
    assert_eq!(guess_response.colors.len(), 5);
}
