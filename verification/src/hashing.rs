//! The hash engine: a thin trusted layer over the Poseidon permutation.
//!
//! Everything Poseidon computes is named by the single uninterpreted
//! function [`poseidon_digest`], a function of the input field elements
//! alone. The leaf, node and commitment hashes of the library are spelled
//! out as instantiations of that name, and the two wrappers below are the
//! only places where the outside hash is called.

use ff_ce::PrimeField;
use vstd::prelude::*;

use crate::digest::{dec_val, fr_fits, fr_order, is_canonical_dec, limbs_val, Digest};

verus! {

/// The Poseidon hash of a sequence of field elements, each given by its
/// canonical four-limb representation. Deterministic: a function of the
/// inputs alone.
pub uninterp spec fn poseidon_digest(inp: Seq<Seq<u64>>) -> Seq<u64>;

/// The four-limb little-endian representation of a number below 2^256.
pub open spec fn limbs_of(n: nat) -> Seq<u64>
    recommends
        n < fr_order(),
{
    seq![
        (n % 0x10000000000000000nat) as u64,
        ((n / 0x10000000000000000nat) % 0x10000000000000000nat) as u64,
        ((n / 0x100000000000000000000000000000000nat) % 0x10000000000000000nat) as u64,
        ((n / 0x1000000000000000000000000000000000000000000000000nat) % 0x10000000000000000nat)
            as u64,
    ]
}

/// The UTF-8 bytes of a character sequence: the byte-level view of a
/// `String` or `&str`.
pub open spec fn bytes_of(s: Seq<char>) -> Seq<u8> {
    vstd::utf8::encode_utf8(s)
}

/// Whether a byte sequence spells a well-formed word: exactly five ASCII
/// lowercase letters.
pub open spec fn is_word_bytes(bs: Seq<u8>) -> bool {
    bs.len() == 5 && (forall|i: int| 0 <= i < bs.len() ==> 97 <= #[trigger] bs[i] <= 122)
}

/// The letter values of a word's bytes: 'a' maps to 0, 'z' to 25.
pub open spec fn letters_of(bs: Seq<u8>) -> Seq<u8> {
    bs.map_values(|b: u8| (b - 97) as u8)
}

/// The leaf hash of a word, from its letter values: Poseidon of arity 5.
pub open spec fn word_digest(letters: Seq<u8>) -> Seq<u64> {
    poseidon_digest(letters.map_values(|b: u8| limbs_of(b as nat)))
}

/// The internal node hash: Poseidon of arity 2 over two child digests.
pub open spec fn node_digest(left: Seq<u64>, right: Seq<u64>) -> Seq<u64> {
    poseidon_digest(seq![left, right])
}

/// The salted commitment hash: Poseidon of arity 6 over the five letter
/// values and the salt reduced into the field.
pub open spec fn salted_digest(letters: Seq<u8>, salt_val: nat) -> Seq<u64> {
    poseidon_digest(
        letters.map_values(|b: u8| limbs_of(b as nat)).push(limbs_of(salt_val % fr_order())),
    )
}

/// The Poseidon permutation of poseidon_rs, with its round constants.
#[verifier::external_type_specification]
#[verifier::external_body]
pub struct ExPoseidon(poseidon_rs::Poseidon);

/// The hash engine: one loaded instance of the Poseidon permutation.
/// Loading the round constants is costly, so one engine is shared across
/// the calls of one task. Every engine computes the same function.
pub struct HashEngine {
    p: poseidon_rs::Poseidon,
}

impl HashEngine {
    /// Relies on poseidon_rs::Poseidon::new: loads the fixed, published
    /// round constants of the permutation.
    #[verifier::external_body]
    pub fn new() -> HashEngine {
        HashEngine { p: poseidon_rs::Poseidon::new() }
    }
}

/// Relies on poseidon_rs::Poseidon::hash: deterministic in its inputs,
/// defined (Ok) for one to sixteen inputs, returning a field element whose
/// canonical representation ff_ce's into_repr yields. Each input digest is
/// turned back into a field element with from_repr, which accepts exactly
/// the canonical representations that `fr_fits` describes.
#[verifier::external_body]
pub(crate) fn hash_elems(engine: &HashEngine, elems: &Vec<Digest>) -> (r: Digest)
    requires
        1 <= elems@.len() <= 16,
        forall|i: int| 0 <= i < elems@.len() ==> fr_fits(#[trigger] elems@[i]@),
    ensures
        r@ == poseidon_digest(elems@.map_values(|d: Digest| d@)),
        fr_fits(r@),
{
    let inp: Vec<poseidon_rs::Fr> = elems
        .iter()
        .map(|d| poseidon_rs::Fr::from_repr(poseidon_rs::FrRepr(d.limbs)).unwrap())
        .collect();
    let h = engine.p.hash(inp).unwrap();
    Digest { limbs: h.into_repr().0 }
}

/// Relies on poseidon_rs::Poseidon::hash as above, and on ff_ce's
/// PrimeField::from_str, which reads a canonical decimal string and
/// reduces its value into the field.
#[verifier::external_body]
pub(crate) fn hash_letters_with_salt(engine: &HashEngine, letters: &Vec<u8>, salt_dec: &str) -> (r:
    Digest)
    requires
        1 <= letters@.len() <= 15,
        is_canonical_dec(salt_dec@),
    ensures
        r@ == poseidon_digest(
            letters@.map_values(|b: u8| limbs_of(b as nat)).push(
                limbs_of(dec_val(salt_dec@) % fr_order()),
            ),
        ),
        fr_fits(r@),
{
    let mut inp: Vec<poseidon_rs::Fr> = letters
        .iter()
        .map(|b| poseidon_rs::Fr::from_str(&b.to_string()).unwrap())
        .collect();
    inp.push(poseidon_rs::Fr::from_str(salt_dec).unwrap());
    let h = engine.p.hash(inp).unwrap();
    Digest { limbs: h.into_repr().0 }
}

/// Turns letter values into the digests of the field elements they
/// denote, ready to be hashed.
pub(crate) fn letters_to_elems(ls: &Vec<u8>) -> (r: Vec<Digest>)
    ensures
        r@.len() == ls@.len(),
        r@.map_values(|d: Digest| d@) == ls@.map_values(|b: u8| limbs_of(b as nat)),
        forall|i: int| 0 <= i < r@.len() ==> fr_fits(#[trigger] r@[i]@),
{
    let mut r: Vec<Digest> = Vec::new();
    let mut i: usize = 0;
    while i < ls.len()
        invariant
            i <= ls@.len(),
            r@.len() == i,
            forall|j: int| 0 <= j < i ==> #[trigger] r@[j]@ == limbs_of(ls@[j] as nat),
            forall|j: int| 0 <= j < i ==> fr_fits(#[trigger] r@[j]@),
        decreases ls@.len() - i,
    {
        let b = ls[i];
        let d = Digest { limbs: [b as u64, 0, 0, 0] };
        proof {
            assert(d@ =~= limbs_of(b as nat));
        }
        r.push(d);
        i += 1;
    }
    proof {
        assert(r@.map_values(|d: Digest| d@) =~= ls@.map_values(|b: u8| limbs_of(b as nat)));
    }
    r
}

/// Extracts the letter values of a word, or nothing if the word is not
/// five ASCII lowercase letters.
pub fn word_letters(word: &str) -> (r: Option<Vec<u8>>)
    ensures
        match r {
            Some(ls) => is_word_bytes(bytes_of(word@)) && ls@ == letters_of(bytes_of(word@)),
            None => !is_word_bytes(bytes_of(word@)),
        },
{
    let bs = word.as_bytes();
    if bs.len() != 5 {
        return None;
    }
    let mut ls: Vec<u8> = Vec::new();
    let mut i: usize = 0;
    while i < 5
        invariant
            bs@.len() == 5,
            bs@ == bytes_of(word@),
            i <= 5,
            ls@.len() == i,
            forall|j: int| 0 <= j < i ==> 97 <= #[trigger] bs@[j] <= 122,
            forall|j: int| 0 <= j < i ==> ls@[j] == (bs@[j] - 97) as u8,
        decreases 5 - i,
    {
        let b = bs[i];
        if b < 97 || b > 122 {
            return None;
        }
        ls.push(b - 97);
        i += 1;
    }
    proof {
        assert(ls@ =~= letters_of(bytes_of(word@)));
    }
    Some(ls)
}

} // verus!
