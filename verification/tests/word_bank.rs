use zkwordle::merkle::Error as MerkleError;
use zkwordle::word_bank::{Error, WordBank};
use zkwordle::word_bank::is_word_ok;

fn strings(words: &[&str]) -> Vec<String> {
    words.iter().map(|w| w.to_string()).collect()
}

#[test]
fn word_ok() {
    assert!(is_word_ok("abxzy"));
    assert!(is_word_ok("satuk"));
    assert!(is_word_ok("qwert"));
    assert!(is_word_ok("gamma"));
    assert!(is_word_ok("iucrp"));
}

#[test]
fn word_not_ok_uppercase() {
    assert!(!is_word_ok("abXzy"));
    assert!(!is_word_ok("APQOW"));
    assert!(!is_word_ok("wreoW"));
}

#[test]
fn word_not_ok_length() {
    assert!(!is_word_ok("abivbdr"));
    assert!(!is_word_ok("abi"));
    assert!(!is_word_ok(""));
}

#[test]
fn word_not_ok_non_alpha() {
    assert!(!is_word_ok("ąęóćź"));
    assert!(!is_word_ok("98srh"));
    assert!(!is_word_ok("/.,g["));
}

#[test]
fn has_word_accepts_both_corpora() {
    let bank = WordBank::new(
        strings(&["apple", "grape", "mango"]),
        strings(&["melon", "lemon"]),
    )
    .expect("bank creation should succeed");

    assert!(bank.has_word("apple"));
    assert!(bank.has_word("grape"));
    assert!(bank.has_word("mango"));
    assert!(bank.has_word("melon"));
    assert!(bank.has_word("lemon"));
}

#[test]
fn has_word_rejects_absent_and_malformed() {
    let bank = WordBank::new(strings(&["apple", "grape"]), strings(&["melon"])).expect(
        "bank creation should succeed",
    );

    assert!(!bank.has_word("zzzzz"));
    assert!(!bank.has_word("apples"));
    assert!(!bank.has_word("appl"));
    assert!(!bank.has_word("Apple"));
    assert!(!bank.has_word(""));
}

#[test]
fn bank_rejects_bad_words() {
    let r = WordBank::new(strings(&["apple", "GRAPE"]), strings(&["melon"]));
    assert!(matches!(r, Err(Error::BadWord)));

    let r = WordBank::new(strings(&["apple"]), strings(&["too-long-word"]));
    assert!(matches!(r, Err(Error::BadWord)));
}

#[test]
fn bank_rejects_empty_solution_corpus() {
    let r = WordBank::new(strings(&[]), strings(&["melon"]));
    assert!(matches!(
        r,
        Err(Error::MerkleCreateFail(MerkleError::EmptyWordList))
    ));
}

#[test]
fn pick_word_returns_solution_word() {
    let solutions = ["apple", "grape", "mango"];
    let bank = WordBank::new(strings(&solutions), strings(&["melon"])).expect(
        "bank creation should succeed",
    );

    for _ in 0..20 {
        let picked = bank.pick_word();
        assert!(solutions.contains(&picked.word.as_str()));
        assert!(bank.has_word(&picked.word));
        assert_eq!(picked.path.len(), 2); // three solution words pad to four leaves
    }
}
