//! The Merkle tree over the word corpus, and the word-level hashes.
//!
//! The tree is a dense, 1-indexed array of digests: the root sits at
//! index 1, the children of node `i` at `2i` and `2i+1`, and the leaves
//! occupy `[m, 2m)` where `m` is the smallest power of two that holds the
//! corpus. Leaves past the corpus replicate the last word, so every leaf
//! is a valid word hash.

use vstd::arithmetic::div_mod::{
    lemma_div_denominator, lemma_fundamental_div_mod,
};
use vstd::arithmetic::power2::{
    lemma_pow2_adds, lemma_pow2_pos, lemma_pow2_strictly_increases, pow2,
};
use vstd::prelude::*;

use crate::digest::{fr_fits, limbs_val, Digest, Salt};
use crate::hashing::{
    bytes_of, hash_elems, hash_letters_with_salt, is_word_bytes, letters_of, letters_to_elems,
    node_digest, salted_digest, word_digest, word_letters, HashEngine,
};

verus! {

#[derive(Debug, PartialEq, Eq)]
pub enum Error {
    EmptyWordList,
    FrCreateFail,
    MerkleHashFail,
    OutOfBounds,
    WordHashFail,
    SaltedWordHashFail,
}

/// Which sibling of a path entry lies on the path toward the root.
#[derive(Clone, Debug, PartialEq, Eq)]
pub enum NodeType {
    Left,
    Right,
}

/// One level of an authentication path: the two children of a node on
/// the path, tagged with which of them is itself on the path.
#[derive(Clone, Debug)]
pub struct MerklePathEntry {
    pub left: Digest,
    pub right: Digest,
    pub on_path: NodeType,
}

/// Whether the entry's tagged child is `cur`, the digest the path has
/// reached so far.
pub open spec fn entry_matches(e: MerklePathEntry, cur: Seq<u64>) -> bool {
    match e.on_path {
        NodeType::Left => e.left@ == cur,
        NodeType::Right => e.right@ == cur,
    }
}

/// The digest one level up: the node hash of the entry's two children.
pub open spec fn entry_parent(e: MerklePathEntry) -> Seq<u64> {
    node_digest(e.left@, e.right@)
}

/// Replaying the path from `leaf` reaches `root`: each entry's tagged
/// child equals the digest reached so far, and hashing the pair steps one
/// level up.
pub open spec fn is_path_from(path: Seq<MerklePathEntry>, leaf: Seq<u64>, root: Seq<u64>) -> bool
    decreases path.len(),
{
    if path.len() == 0 {
        leaf == root
    } else {
        entry_matches(path[0], leaf) && is_path_from(path.skip(1), entry_parent(path[0]), root)
    }
}

/// Every digest of every path entry is a canonical field element
/// representation.
pub open spec fn path_entries_fit(path: Seq<MerklePathEntry>) -> bool {
    forall|i: int|
        0 <= i < path.len() ==> fr_fits(#[trigger] path[i].left@) && fr_fits(path[i].right@)
}

/// Extending a path that reaches `mid` by an entry whose tagged child is
/// `mid` reaches that entry's parent.
proof fn lemma_path_snoc(path: Seq<MerklePathEntry>, leaf: Seq<u64>, mid: Seq<u64>, e: MerklePathEntry)
    requires
        is_path_from(path, leaf, mid),
        entry_matches(e, mid),
    ensures
        is_path_from(path.push(e), leaf, entry_parent(e)),
    decreases path.len(),
{
    assert(path.push(e)[0] == if path.len() == 0 {
        e
    } else {
        path[0]
    });
    if path.len() == 0 {
        assert(path.push(e).skip(1) =~= Seq::<MerklePathEntry>::empty());
        assert(is_path_from(Seq::<MerklePathEntry>::empty(), entry_parent(e), entry_parent(e)));
    } else {
        lemma_path_snoc(path.skip(1), entry_parent(path[0]), mid, e);
        assert(path.push(e).skip(1) =~= path.skip(1).push(e));
    }
}

/// The leaf count of a freshly built tree is the least power of two that
/// holds its corpus: a power of two `pow2(k)` that also holds the `n`
/// corpus words is at least the tree's own leaf count `pow2(h)`, which
/// `MerkleTree::new` bounds by `n <= pow2(h) < 2 * n`.
pub proof fn lemma_leaf_count_least(h: nat, k: nat, n: nat)
    requires
        n <= pow2(h),
        pow2(h) < 2 * n,
        n <= pow2(k),
    ensures
        pow2(h) <= pow2(k),
{
    if k < h {
        lemma_pow2_adds(k, 1);
        vstd::arithmetic::power2::lemma2_to64();
        if k + 1 < h {
            lemma_pow2_strictly_increases(k + 1, h);
        }
        assert(pow2(h) >= 2 * pow2(k));
        assert(false);
    }
    if h < k {
        lemma_pow2_strictly_increases(h, k);
    }
}

/// The Merkle tree: the leaf count `m` (a power of two) and the dense
/// 1-indexed digest array of length `2m`.
pub struct MerkleTree {
    m: usize,
    height: Ghost<nat>,
    hashes: Vec<Digest>,
}

impl MerkleTree {
    /// The number of leaf slots.
    pub closed spec fn spec_m(self) -> nat {
        self.m as nat
    }

    /// The tree height: `m == pow2(height)`, and every authentication
    /// path has this many entries.
    pub closed spec fn height(self) -> nat {
        self.height@
    }

    /// The digest stored at tree index `i`.
    pub closed spec fn node(self, i: int) -> Seq<u64> {
        self.hashes@[i]@
    }

    /// The digest of the leaf with index `i`, stored at tree index `m + i`.
    pub open spec fn leaf(self, i: int) -> Seq<u64> {
        self.node(self.spec_m() as int + i)
    }

    /// The root digest.
    pub open spec fn root(self) -> Seq<u64> {
        self.node(1)
    }

    /// Structural well-formedness: the array has `2m` slots, `m` is the
    /// power of two given by the height, every stored digest is a field
    /// element, and every internal node is the node hash of its children.
    pub closed spec fn wf(self) -> bool {
        &&& 1 <= self.m
        &&& self.spec_m() == pow2(self.height@)
        &&& self.hashes@.len() == 2 * self.spec_m()
        &&& forall|i: int|
            1 <= i < 2 * self.spec_m() ==> fr_fits(#[trigger] self.node(i))
        &&& forall|i: int|
            1 <= i < self.spec_m() ==> #[trigger] self.node(i) == node_digest(
                self.node(2 * i),
                self.node(2 * i + 1),
            )
    }

    /// Builds the tree over an ordered, non-empty word list. The leaf
    /// count becomes the smallest power of two that holds the list, and
    /// leaves past the end of the list replicate its last word.
    pub fn new(words: &[String]) -> (r: Result<MerkleTree, Error>)
        requires
            words@.len() <= usize::MAX / 4,
        ensures
            r is Ok <==> (words@.len() > 0 && forall|i: int|
                0 <= i < words@.len() ==> is_word_bytes(bytes_of(#[trigger] words@[i]@))),
            words@.len() == 0 ==> r == Err::<MerkleTree, Error>(Error::EmptyWordList),
            (r is Err && words@.len() > 0) ==> r->Err_0 == Error::WordHashFail,
            r is Ok ==> r->Ok_0.wf(),
            r is Ok ==> r->Ok_0.spec_m() == pow2(r->Ok_0.height()),
            r is Ok ==> words@.len() <= r->Ok_0.spec_m() < 2 * words@.len(),
            r is Ok ==> forall|i: int|
                0 <= i < words@.len() ==> r->Ok_0.leaf(i) == word_digest(
                    letters_of(bytes_of(#[trigger] words@[i]@)),
                ),
            r is Ok ==> forall|i: int|
                words@.len() <= i < r->Ok_0.spec_m() ==> #[trigger] r->Ok_0.leaf(i)
                    == r->Ok_0.leaf(words@.len() - 1),
    {
        let n = words.len();
        if n == 0 {
            return Err(Error::EmptyWordList);
        }
        // the smallest power of two that holds all n words
        let mut m: usize = 1;
        let ghost mut h: nat = 0;
        proof {
            vstd::arithmetic::power2::lemma2_to64();
        }
        while m < n
            invariant
                1 <= m,
                m == pow2(h),
                m < 2 * n,
                n <= usize::MAX / 4,
            decreases 2 * n - m,
        {
            proof {
                lemma_pow2_adds(h, 1);
                vstd::arithmetic::power2::lemma2_to64();
                h = h + 1;
            }
            m = m * 2;
        }
        let total = 2 * m;
        let zero = Digest::zero();
        let mut hashes: Vec<Digest> = Vec::new();
        while hashes.len() < total
            invariant
                hashes@.len() <= total,
            decreases total - hashes@.len(),
        {
            hashes.push(zero);
        }
        // leaf level: hash each word, replicating the last one as padding
        let engine = HashEngine::new();
        let mut i: usize = 0;
        while i < m
            invariant
                i <= m,
                1 <= n <= m,
                n == words@.len(),
                m < 2 * n,
                total == 2 * m,
                hashes@.len() == 2 * m,
                forall|j: int|
                    0 <= j < i && j < n ==> is_word_bytes(bytes_of(#[trigger] words@[j]@)),
                forall|j: int|
                    0 <= j < i ==> #[trigger] hashes@[m + j]@ == word_digest(
                        letters_of(bytes_of(words@[if j < n { j } else { n - 1 }]@)),
                    ),
                forall|j: int| 0 <= j < i ==> fr_fits(#[trigger] hashes@[m + j]@),
            decreases m - i,
        {
            let w: &String = if i < n {
                &words[i]
            } else {
                &words[n - 1]
            };
            match engine.word_hash(w.as_str()) {
                Ok(d) => {
                    hashes[m + i] = d;
                },
                Err(_) => {
                    return Err(Error::WordHashFail);
                },
            }
            i += 1;
        }
        proof {
            assert forall|j: int| m <= j < 2 * m implies fr_fits(#[trigger] hashes@[j]@) by {
                assert(fr_fits(hashes@[m + (j - m)]@));
            }
        }
        // internal nodes, bottom-up from m - 1 down to 1
        let mut k: usize = m;
        while k > 1
            invariant
                1 <= k <= m,
                1 <= n <= m,
                n == words@.len(),
                total == 2 * m,
                hashes@.len() == 2 * m,
                forall|j: int|
                    0 <= j < m ==> #[trigger] hashes@[m + j]@ == word_digest(
                        letters_of(bytes_of(words@[if j < n { j } else { n - 1 }]@)),
                    ),
                forall|j: int| m <= j < 2 * m ==> fr_fits(#[trigger] hashes@[j]@),
                forall|j: int| k <= j < m ==> fr_fits(#[trigger] hashes@[j]@),
                forall|j: int|
                    k <= j < m ==> #[trigger] hashes@[j]@ == node_digest(
                        hashes@[2 * j]@,
                        hashes@[2 * j + 1]@,
                    ),
            decreases k,
        {
            k -= 1;
            let left = hashes[2 * k];
            let right = hashes[2 * k + 1];
            let elems = vec![left, right];
            proof {
                assert(elems@.map_values(|d: Digest| d@) =~= seq![left@, right@]);
            }
            let d = hash_elems(&engine, &elems);
            hashes[k] = d;
        }
        let t = MerkleTree { m, height: Ghost(h), hashes };
        proof {
            assert forall|j: int| 1 <= j < 2 * t.spec_m() implies fr_fits(#[trigger] t.node(j)) by {
                if j >= m {
                    assert(fr_fits(t.hashes@[j]@));
                }
            }
            assert(t.wf());
            assert forall|j: int| 0 <= j < n implies t.leaf(j) == word_digest(
                letters_of(bytes_of(#[trigger] words@[j]@)),
            ) by {
                assert(t.hashes@[m + j]@ == word_digest(
                    letters_of(bytes_of(words@[if j < n { j } else { n - 1 }]@)),
                ));
            }
            assert forall|j: int| n <= j < t.spec_m() implies #[trigger] t.leaf(j) == t.leaf(
                n - 1,
            ) by {
                assert(t.hashes@[m + j]@ == word_digest(
                    letters_of(bytes_of(words@[if j < n { j } else { n - 1 }]@)),
                ));
                assert(t.hashes@[m + (n - 1)]@ == word_digest(
                    letters_of(bytes_of(words@[n - 1]@)),
                ));
            }
        }
        Ok(t)
    }

    /// The authentication path of the leaf with index `idx`: one entry
    /// per level, from the leaf's own level up to just below the root.
    pub fn get_path(&self, idx: usize) -> (r: Result<Vec<MerklePathEntry>, Error>)
        requires
            self.wf(),
        ensures
            r is Ok <==> idx < self.spec_m(),
            r is Err ==> r->Err_0 == Error::OutOfBounds,
            r is Ok ==> r->Ok_0@.len() == self.height(),
            r is Ok ==> is_path_from(r->Ok_0@, self.leaf(idx as int), self.root()),
            r is Ok ==> path_entries_fit(r->Ok_0@),
    {
        if idx >= self.m {
            return Err(Error::OutOfBounds);
        }
        let total = self.hashes.len();
        let mut tree_idx: usize = self.m + idx;
        let ghost start: int = self.m + idx;
        let mut path: Vec<MerklePathEntry> = Vec::new();
        proof {
            vstd::arithmetic::power2::lemma2_to64();
            assert(start / pow2(0) as int == start);
        }
        while tree_idx > 1
            invariant
                self.wf(),
                total == 2 * self.spec_m(),
                start == self.spec_m() + idx,
                self.spec_m() <= start < 2 * self.spec_m(),
                1 <= tree_idx < 2 * self.spec_m(),
                tree_idx == start / pow2(path@.len()) as int,
                is_path_from(path@, self.leaf(idx as int), self.node(tree_idx as int)),
                path_entries_fit(path@),
            decreases tree_idx,
        {
            let ghost l = path@.len();
            let ghost prev = path@;
            let e: MerklePathEntry;
            if tree_idx % 2 == 0 {
                e = MerklePathEntry {
                    left: self.hashes[tree_idx],
                    right: self.hashes[tree_idx + 1],
                    on_path: NodeType::Left,
                };
            } else {
                e = MerklePathEntry {
                    left: self.hashes[tree_idx - 1],
                    right: self.hashes[tree_idx],
                    on_path: NodeType::Right,
                };
            }
            proof {
                let p = tree_idx as int / 2;
                lemma_fundamental_div_mod(tree_idx as int, 2);
                assert(1 <= p < self.spec_m());
                assert(e.left@ == self.node(2 * p));
                assert(e.right@ == self.node(2 * p + 1));
                assert(fr_fits(self.node(2 * p)));
                assert(fr_fits(self.node(2 * p + 1)));
                assert(self.node(p) == node_digest(self.node(2 * p), self.node(2 * p + 1)));
                assert(entry_parent(e) == self.node(p));
                lemma_path_snoc(path@, self.leaf(idx as int), self.node(tree_idx as int), e);
                lemma_pow2_pos(l);
                lemma_div_denominator(start, pow2(l) as int, 2);
                lemma_pow2_adds(l, 1);
                vstd::arithmetic::power2::lemma2_to64();
                assert(start / pow2(l) as int / 2 == start / pow2(l + 1) as int);
            }
            path.push(e);
            proof {
                assert forall|i: int| 0 <= i < path@.len() implies fr_fits(
                    #[trigger] path@[i].left@,
                ) && fr_fits(path@[i].right@) by {
                    if i < l {
                        assert(path@[i] == prev[i]);
                    } else {
                        assert(path@[i] == e);
                    }
                }
            }
            tree_idx = tree_idx / 2;
        }
        proof {
            let l = path@.len();
            let h = self.height();
            lemma_pow2_pos(l);
            lemma_fundamental_div_mod(start, pow2(l) as int);
            assert(pow2(l) <= start < 2 * pow2(l));
            if l < h {
                lemma_pow2_adds(l, 1);
                vstd::arithmetic::power2::lemma2_to64();
                if l + 1 < h {
                    lemma_pow2_strictly_increases(l + 1, h);
                }
                assert(start < pow2(h));
                assert(false);
            }
            if l > h {
                lemma_pow2_adds(h, 1);
                vstd::arithmetic::power2::lemma2_to64();
                if h + 1 < l {
                    lemma_pow2_strictly_increases(h + 1, l);
                }
                assert(start >= 2 * pow2(h));
                assert(false);
            }
        }
        Ok(path)
    }

    /// The root digest, as stored at tree index 1.
    pub fn root_hash(&self) -> (r: Digest)
        requires
            self.wf(),
        ensures
            r@ == self.root(),
            fr_fits(r@),
    {
        proof {
            assert(fr_fits(self.node(1)));
        }
        self.hashes[1]
    }
}

impl HashEngine {
    /// The leaf hash of a word: Poseidon over its five letter values.
    /// Rejects anything that is not five ASCII lowercase letters.
    pub fn word_hash(&self, word: &str) -> (r: Result<Digest, Error>)
        ensures
            r is Ok <==> is_word_bytes(bytes_of(word@)),
            r is Ok ==> r->Ok_0@ == word_digest(letters_of(bytes_of(word@))) && fr_fits(r->Ok_0@),
            r is Err ==> r->Err_0 == Error::WordHashFail,
    {
        match word_letters(word) {
            Some(ls) => {
                let elems = letters_to_elems(&ls);
                Ok(hash_elems(self, &elems))
            },
            None => Err(Error::WordHashFail),
        }
    }

    /// The internal node hash of two digests: Poseidon of arity 2.
    /// Rejects operands that are not canonical field element
    /// representations.
    pub fn merkle_hash(&self, left: &Digest, right: &Digest) -> (r: Result<Digest, Error>)
        ensures
            r is Ok <==> fr_fits(left@) && fr_fits(right@),
            r is Ok ==> r->Ok_0@ == node_digest(left@, right@) && fr_fits(r->Ok_0@),
            r is Err ==> r->Err_0 == Error::MerkleHashFail,
    {
        if left.fits() && right.fits() {
            let elems = vec![*left, *right];
            proof {
                assert(elems@.map_values(|d: Digest| d@) =~= seq![left@, right@]);
            }
            Ok(hash_elems(self, &elems))
        } else {
            Err(Error::MerkleHashFail)
        }
    }

    /// The salted commitment hash of a word: Poseidon over the five
    /// letter values and the salt reduced into the field. Rejects
    /// anything that is not five ASCII lowercase letters.
    pub fn word_hash_with_salt(&self, word: &str, salt: &Salt) -> (r: Result<Digest, Error>)
        ensures
            r is Ok <==> is_word_bytes(bytes_of(word@)),
            r is Ok ==> r->Ok_0@ == salted_digest(letters_of(bytes_of(word@)), limbs_val(salt@))
                && fr_fits(r->Ok_0@),
            r is Err ==> r->Err_0 == Error::SaltedWordHashFail,
    {
        match word_letters(word) {
            Some(ls) => {
                let dec = salt.to_decimal();
                proof {
                    crate::digest::lemma_decimal_chars_canonical(limbs_val(salt@));
                    crate::digest::lemma_decimal_chars_val(limbs_val(salt@));
                }
                Ok(hash_letters_with_salt(self, &ls, dec.as_str()))
            },
            None => Err(Error::SaltedWordHashFail),
        }
    }
}

/// The salted commitment hash of a word, with a freshly loaded engine:
/// one commitment is computed per round, so the engine is not kept.
pub fn hash_word_with_salt(word: &str, salt: &Salt) -> (r: Result<Digest, Error>)
    ensures
        r is Ok <==> is_word_bytes(bytes_of(word@)),
        r is Ok ==> r->Ok_0@ == salted_digest(letters_of(bytes_of(word@)), limbs_val(salt@))
            && fr_fits(r->Ok_0@),
        r is Err ==> r->Err_0 == Error::SaltedWordHashFail,
{
    let engine = HashEngine::new();
    engine.word_hash_with_salt(word, salt)
}

} // verus!
