//! The word bank: the solution corpus with its Merkle tree, and the
//! acceptance set of all words a guess may use.
//!
//! Membership is kept as a hash set of word codes: a word's five letter
//! values read as a base-26 number. The code is injective over
//! well-formed words, so a code lookup decides word membership exactly.

use rand::Rng;
use std::collections::HashSet;

use vstd::prelude::*;

use crate::hashing::{bytes_of, is_word_bytes, letters_of, word_digest, word_letters};
use crate::merkle::{is_path_from, MerklePathEntry, MerkleTree};

verus! {

#[derive(Debug, PartialEq, Eq)]
pub enum Error {
    BadWord,
    IoFail,
    MerkleCreateFail(crate::merkle::Error),
}

/// A randomly picked solution word together with the authentication path
/// of its leaf.
pub struct PickWordResult {
    pub word: String,
    pub path: Vec<MerklePathEntry>,
}

/// Whether a byte sequence is a well-formed sequence of letter values:
/// five values, each below 26.
pub open spec fn is_letter_values(ls: Seq<u8>) -> bool {
    ls.len() == 5 && (forall|i: int| 0 <= i < ls.len() ==> #[trigger] ls[i] < 26)
}

/// The base-26 reading of five letter values.
pub open spec fn code_of(ls: Seq<u8>) -> nat
    recommends
        is_letter_values(ls),
{
    (ls[0] + ls[1] * 26 + ls[2] * 676 + ls[3] * 17576 + ls[4] * 456976) as nat
}

/// The code of a word, from its characters.
pub open spec fn word_code(w: Seq<char>) -> u32
    recommends
        is_word_bytes(bytes_of(w)),
{
    code_of(letters_of(bytes_of(w))) as u32
}

/// A word's letter values are below 26, and its code fits in a `u32`.
pub proof fn lemma_word_code_bounds(bs: Seq<u8>)
    requires
        is_word_bytes(bs),
    ensures
        is_letter_values(letters_of(bs)),
        code_of(letters_of(bs)) < 0x100000000,
{
    let ls = letters_of(bs);
    assert(forall|i: int| 0 <= i < 5 ==> #[trigger] ls[i] == (bs[i] - 97) as u8);
}

/// A base-26 digit and the rest are the remainder and quotient by 26.
proof fn lemma_base26_head(c: int, d0: int, rest: int)
    requires
        c == d0 + 26 * rest,
        0 <= d0 < 26,
        0 <= rest,
    ensures
        d0 == c % 26,
        rest == c / 26,
{
    vstd::arithmetic::div_mod::lemma_fundamental_div_mod_converse(c, 26, rest, d0);
}

/// Base-26 readings are injective: equal codes mean equal letter values.
pub proof fn lemma_code_injective(a: Seq<u8>, b: Seq<u8>)
    requires
        is_letter_values(a),
        is_letter_values(b),
        code_of(a) == code_of(b),
    ensures
        a =~= b,
{
    let c = code_of(a) as int;
    let ra1 = a[1] + a[2] * 26 + a[3] * 676 + a[4] * 17576;
    let rb1 = b[1] + b[2] * 26 + b[3] * 676 + b[4] * 17576;
    lemma_base26_head(c, a[0] as int, ra1 as int);
    lemma_base26_head(c, b[0] as int, rb1 as int);
    let c1 = c / 26;
    let ra2 = a[2] + a[3] * 26 + a[4] * 676;
    let rb2 = b[2] + b[3] * 26 + b[4] * 676;
    lemma_base26_head(c1, a[1] as int, ra2 as int);
    lemma_base26_head(c1, b[1] as int, rb2 as int);
    let c2 = c1 / 26;
    let ra3 = a[3] + a[4] * 26;
    let rb3 = b[3] + b[4] * 26;
    lemma_base26_head(c2, a[2] as int, ra3 as int);
    lemma_base26_head(c2, b[2] as int, rb3 as int);
    let c3 = c2 / 26;
    lemma_base26_head(c3, a[3] as int, a[4] as int);
    lemma_base26_head(c3, b[3] as int, b[4] as int);
}

/// Word codes are injective over well-formed words: equal codes mean the
/// same word.
pub proof fn lemma_word_code_injective(w1: Seq<char>, w2: Seq<char>)
    requires
        is_word_bytes(bytes_of(w1)),
        is_word_bytes(bytes_of(w2)),
        word_code(w1) == word_code(w2),
    ensures
        w1 == w2,
{
    let b1 = bytes_of(w1);
    let b2 = bytes_of(w2);
    lemma_word_code_bounds(b1);
    lemma_word_code_bounds(b2);
    lemma_code_injective(letters_of(b1), letters_of(b2));
    assert forall|i: int| 0 <= i < 5 implies b1[i] == b2[i] by {
        assert(letters_of(b1)[i] == letters_of(b2)[i]);
    }
    assert(b1 =~= b2);
    broadcast use vstd::utf8::encode_utf8_decode_utf8;

    assert(vstd::utf8::decode_utf8(b1) == w1);
    assert(vstd::utf8::decode_utf8(b2) == w2);
}

/// Whether some word of a corpus has the given code.
pub open spec fn list_has_code(ws: Seq<String>, c: u32) -> bool {
    exists|i: int| 0 <= i < ws.len() && word_code(#[trigger] ws[i]@) == c
}

/// Whether every word of a corpus is well-formed.
pub open spec fn list_words_ok(ws: Seq<String>) -> bool {
    forall|i: int| 0 <= i < ws.len() ==> is_word_bytes(bytes_of(#[trigger] ws[i]@))
}

/// Checks word correctness syntactically: exactly five ASCII lowercase
/// letters.
pub fn is_word_ok(word: &str) -> (r: bool)
    ensures
        r == is_word_bytes(bytes_of(word@)),
{
    word_letters(word).is_some()
}

/// The base-26 code of a word's letter values.
fn letters_code(ls: &Vec<u8>) -> (c: u32)
    requires
        is_letter_values(ls@),
    ensures
        c == code_of(ls@),
{
    let c: u32 = ls[0] as u32 + ls[1] as u32 * 26 + ls[2] as u32 * 676 + ls[3] as u32 * 17576
        + ls[4] as u32 * 456976;
    c
}

/// Inserts the codes of a corpus into the acceptance set, stopping at the
/// first word that is not well-formed.
fn insert_codes(words: &Vec<String>, all_words: &mut HashSet<u32>, Ghost(base): Ghost<Set<u32>>) -> (ok:
    bool)
    requires
        forall|c: u32| old(all_words)@.contains(c) <==> base.contains(c),
    ensures
        ok <==> list_words_ok(words@),
        ok ==> forall|c: u32|
            final(all_words)@.contains(c) <==> (base.contains(c) || list_has_code(words@, c)),
{
    let mut i: usize = 0;
    while i < words.len()
        invariant
            i <= words@.len(),
            forall|j: int| 0 <= j < i ==> is_word_bytes(bytes_of(#[trigger] words@[j]@)),
            forall|c: u32|
                all_words@.contains(c) <==> (base.contains(c) || exists|j: int|
                    0 <= j < i && word_code(#[trigger] words@[j]@) == c),
        decreases words@.len() - i,
    {
        let letters = word_letters(words[i].as_str());
        if letters.is_none() {
            return false;
        }
        let ls = letters.unwrap();
        proof {
            lemma_word_code_bounds(bytes_of(words@[i as int]@));
        }
        let c = letters_code(&ls);
        let ghost before = all_words@;
        all_words.insert(c);
        i += 1;
        proof {
            assert(word_code(words@[i - 1]@) == c);
            assert forall|c2: u32| all_words@.contains(c2) <==> (base.contains(c2) || exists|j: int|
                0 <= j < i && word_code(#[trigger] words@[j]@) == c2) by {
                if all_words@.contains(c2) {
                    if c2 != c {
                        assert(before.contains(c2));
                    }
                }
                if base.contains(c2) {
                    assert(before.contains(c2));
                    assert(all_words@.contains(c2));
                }
                if exists|j: int| 0 <= j < i && word_code(#[trigger] words@[j]@) == c2 {
                    let j = choose|j: int|
                        0 <= j < i && word_code(#[trigger] words@[j]@) == c2;
                    if j == i - 1 {
                        assert(c2 == c);
                        assert(all_words@.contains(c2));
                    } else {
                        assert(before.contains(c2));
                        assert(all_words@.contains(c2));
                    }
                }
            }
        }
    }
    true
}

/// Relies on rand's thread_rng and Rng::gen_range: a value uniformly
/// distributed in `[0, n)`; the empty range, on which gen_range panics,
/// is excluded by the precondition.
#[verifier::external_body]
fn random_index(n: usize) -> (r: usize)
    requires
        n >= 1,
    ensures
        r < n,
{
    rand::thread_rng().gen_range(0..n)
}

/// The collection of solution words and all acceptable guess words.
/// Holds the solution corpus in order (leaf order of its Merkle tree) and
/// the codes of every acceptable word.
pub struct WordBank {
    tree: MerkleTree,
    solution_words: Vec<String>,
    all_words: HashSet<u32>,
}

impl WordBank {
    /// The solution corpus, in leaf order.
    pub closed spec fn solutions(self) -> Seq<String> {
        self.solution_words@
    }

    /// The codes of all acceptable guess words.
    pub closed spec fn codes(self) -> Set<u32> {
        self.all_words@
    }

    /// The Merkle tree built over the solution corpus.
    pub closed spec fn spec_tree(self) -> MerkleTree {
        self.tree
    }

    /// Whether a word is accepted as a guess.
    pub open spec fn spec_has_word(self, w: Seq<char>) -> bool {
        is_word_bytes(bytes_of(w)) && self.codes().contains(word_code(w))
    }

    /// Well-formedness: the corpus is non-empty and well-formed, the tree
    /// is the corpus's Merkle tree, and every solution word is accepted.
    pub closed spec fn wf(self) -> bool {
        &&& self.tree.wf()
        &&& 1 <= self.solution_words@.len()
        &&& self.solution_words@.len() <= self.tree.spec_m() < 2 * self.solution_words@.len()
        &&& list_words_ok(self.solution_words@)
        &&& forall|i: int|
            0 <= i < self.solution_words@.len() ==> self.tree.leaf(i) == word_digest(
                letters_of(bytes_of(#[trigger] self.solution_words@[i]@)),
            )
        &&& forall|i: int|
            0 <= i < self.solution_words@.len() ==> self.codes().contains(
                word_code(#[trigger] self.solution_words@[i]@),
            )
    }

    /// Creates the word bank from the two corpora: the ordered solution
    /// words, over which the Merkle tree is built, and the other
    /// acceptable words, which only join the acceptance set.
    #[verifier::rlimit(50)]
    pub fn new(solution_words: Vec<String>, other_words: Vec<String>) -> (r: Result<
        WordBank,
        Error,
    >)
        requires
            solution_words@.len() <= usize::MAX / 4,
        ensures
            r is Ok <==> (solution_words@.len() > 0 && list_words_ok(solution_words@)
                && list_words_ok(other_words@)),
            (!list_words_ok(solution_words@) || !list_words_ok(other_words@)) ==> r == Err::<
                WordBank,
                Error,
            >(Error::BadWord),
            (list_words_ok(solution_words@) && list_words_ok(other_words@) && solution_words@.len()
                == 0) ==> r == Err::<WordBank, Error>(
                Error::MerkleCreateFail(crate::merkle::Error::EmptyWordList),
            ),
            r is Ok ==> r->Ok_0.wf(),
            r is Ok ==> r->Ok_0.solutions() == solution_words@,
            r is Ok ==> forall|c: u32|
                r->Ok_0.codes().contains(c) <==> (list_has_code(solution_words@, c)
                    || list_has_code(other_words@, c)),
    {
        let mut all_words: HashSet<u32> = HashSet::new();
        if !insert_codes(&other_words, &mut all_words, Ghost(Set::empty())) {
            return Err(Error::BadWord);
        }
        let ghost other_codes = all_words@;
        if !insert_codes(&solution_words, &mut all_words, Ghost(other_codes)) {
            return Err(Error::BadWord);
        }
        proof {
            assert forall|c: u32| all_words@.contains(c) <==> (list_has_code(solution_words@, c)
                || list_has_code(other_words@, c)) by {
                assert(all_words@.contains(c) <==> (other_codes.contains(c) || list_has_code(
                    solution_words@,
                    c,
                )));
                assert(other_codes.contains(c) <==> (Set::<u32>::empty().contains(c)
                    || list_has_code(other_words@, c)));
            }
        }
        let tree = match MerkleTree::new(solution_words.as_slice()) {
            Ok(t) => t,
            Err(e) => {
                return Err(Error::MerkleCreateFail(e));
            },
        };
        let bank = WordBank { tree, solution_words, all_words };
        proof {
            assert forall|i: int| 0 <= i < bank.solution_words@.len() implies bank.codes().contains(
                word_code(#[trigger] bank.solution_words@[i]@),
            ) by {
                assert(list_has_code(bank.solution_words@, word_code(bank.solution_words@[i]@)));
            }
            assert(bank.wf());
        }
        Ok(bank)
    }

    /// Randomly picks a solution word and fetches the authentication path
    /// of its leaf.
    pub fn pick_word(&self) -> (r: PickWordResult)
        requires
            self.wf(),
        ensures
            exists|i: int|
                0 <= i < self.solutions().len() && r.word@ == #[trigger] self.solutions()[i]@,
            is_word_bytes(bytes_of(r.word@)),
            self.spec_has_word(r.word@),
            r.path@.len() == self.spec_tree().height(),
            is_path_from(
                r.path@,
                word_digest(letters_of(bytes_of(r.word@))),
                self.spec_tree().root(),
            ),
            crate::merkle::path_entries_fit(r.path@),
    {
        let idx = random_index(self.solution_words.len());
        let word = self.solution_words[idx].clone();
        let path = self.tree.get_path(idx).unwrap();
        proof {
            assert(self.tree.leaf(idx as int) == word_digest(letters_of(bytes_of(word@))));
            assert(word@ == self.solutions()[idx as int]@);
        }
        PickWordResult { word, path }
    }

    /// Whether a guess word is acceptable: well-formed and present in
    /// either corpus.
    pub fn has_word(&self, word: &str) -> (r: bool)
        ensures
            r == self.spec_has_word(word@),
    {
        match word_letters(word) {
            Some(ls) => {
                proof {
                    lemma_word_code_bounds(bytes_of(word@));
                }
                let c = letters_code(&ls);
                self.all_words.contains(&c)
            },
            None => false,
        }
    }
}

/// What the acceptance test decides: a bank built from two corpora
/// accepts exactly the words of those corpora. Membership by code equals
/// membership as a word, because word codes are injective.
pub proof fn lemma_membership_exact(
    bank: WordBank,
    solution_words: Seq<String>,
    other_words: Seq<String>,
    w: Seq<char>,
)
    requires
        list_words_ok(solution_words),
        list_words_ok(other_words),
        forall|c: u32|
            bank.codes().contains(c) <==> (list_has_code(solution_words, c) || list_has_code(
                other_words,
                c,
            )),
        is_word_bytes(bytes_of(w)),
    ensures
        bank.spec_has_word(w) <==> ((exists|i: int|
            0 <= i < solution_words.len() && #[trigger] solution_words[i]@ == w) || (exists|j: int|
            0 <= j < other_words.len() && #[trigger] other_words[j]@ == w)),
{
    let c = word_code(w);
    if bank.spec_has_word(w) {
        if list_has_code(solution_words, c) {
            let i = choose|i: int|
                0 <= i < solution_words.len() && word_code(#[trigger] solution_words[i]@) == c;
            lemma_word_code_injective(solution_words[i]@, w);
            assert(solution_words[i]@ == w);
        } else {
            assert(list_has_code(other_words, c));
            let j = choose|j: int|
                0 <= j < other_words.len() && word_code(#[trigger] other_words[j]@) == c;
            lemma_word_code_injective(other_words[j]@, w);
            assert(other_words[j]@ == w);
        }
    }
    if exists|i: int| 0 <= i < solution_words.len() && #[trigger] solution_words[i]@ == w {
        let i = choose|i: int| 0 <= i < solution_words.len() && #[trigger] solution_words[i]@ == w;
        assert(word_code(solution_words[i]@) == c);
        assert(list_has_code(solution_words, c));
    }
    if exists|j: int| 0 <= j < other_words.len() && #[trigger] other_words[j]@ == w {
        let j = choose|j: int| 0 <= j < other_words.len() && #[trigger] other_words[j]@ == w;
        assert(word_code(other_words[j]@) == c);
        assert(list_has_code(other_words, c));
    }
}

} // verus!
