//! Plain-value representation of Poseidon field elements.
//!
//! A digest is the canonical little-endian limb representation of an
//! element of the BN254 scalar field; a salt is an arbitrary 256-bit
//! value, later reduced into the field by the hash engine.

use vstd::arithmetic::div_mod::{
    lemma_fundamental_div_mod, lemma_fundamental_div_mod_converse,
};
use vstd::prelude::*;
use vstd::string::StringExecFns;

verus! {

/// A hash digest: the canonical four-limb little-endian representation
/// of a BN254 scalar field element.
#[derive(Clone, Copy, Debug, PartialEq, Eq)]
pub struct Digest {
    pub limbs: [u64; 4],
}

impl View for Digest {
    type V = Seq<u64>;

    open spec fn view(&self) -> Seq<u64> {
        self.limbs@
    }
}

/// A 256-bit salt as four little-endian limbs. The value is not reduced:
/// the hash engine reduces it into the field when the commitment is computed.
#[derive(Clone, Copy, Debug, PartialEq, Eq)]
pub struct Salt {
    pub limbs: [u64; 4],
}

impl View for Salt {
    type V = Seq<u64>;

    open spec fn view(&self) -> Seq<u64> {
        self.limbs@
    }
}

/// The integer value of a four-limb little-endian representation.
pub open spec fn limbs_val(s: Seq<u64>) -> nat
    recommends
        s.len() == 4,
{
    (s[0] + s[1] * 0x10000000000000000 + s[2] * 0x100000000000000000000000000000000 + s[3]
        * 0x1000000000000000000000000000000000000000000000000) as nat
}

/// The order of the BN254 scalar field: the modulus of the hash domain.
pub open spec fn fr_order() -> nat {
    21888242871839275222246405745257275088548364400416034343698204186575808495617nat
}

/// Whether a four-limb value is the canonical representation of a field
/// element, i.e. lies below the field order.
pub open spec fn fr_fits(s: Seq<u64>) -> bool {
    s.len() == 4 && limbs_val(s) < fr_order()
}

pub const FR_LIMB_0: u64 = 0x43E1F593F0000001;

pub const FR_LIMB_1: u64 = 0x2833E84879B97091;

pub const FR_LIMB_2: u64 = 0xB85045B68181585D;

pub const FR_LIMB_3: u64 = 0x30644E72E131A029;

/// The four limb constants above spell out exactly the field order.
pub proof fn lemma_fr_limbs()
    ensures
        limbs_val(seq![FR_LIMB_0, FR_LIMB_1, FR_LIMB_2, FR_LIMB_3]) == fr_order(),
{
}

/// The character for one decimal digit.
pub open spec fn digit_char(d: nat) -> char
    recommends
        d < 10,
{
    if d == 0 {
        '0'
    } else if d == 1 {
        '1'
    } else if d == 2 {
        '2'
    } else if d == 3 {
        '3'
    } else if d == 4 {
        '4'
    } else if d == 5 {
        '5'
    } else if d == 6 {
        '6'
    } else if d == 7 {
        '7'
    } else if d == 8 {
        '8'
    } else {
        '9'
    }
}

/// The canonical decimal spelling of a number: no leading zeros,
/// a single `'0'` for zero.
pub open spec fn decimal_chars(n: nat) -> Seq<char>
    decreases n,
{
    if n < 10 {
        seq![digit_char(n)]
    } else {
        decimal_chars(n / 10).push(digit_char(n % 10))
    }
}

pub open spec fn is_dec_digit(c: char) -> bool {
    '0' <= c && c <= '9'
}

pub open spec fn digit_val(c: char) -> nat
    recommends
        is_dec_digit(c),
{
    (c as u32 - 48) as nat
}

/// The number a sequence of decimal digits denotes.
pub open spec fn dec_val(s: Seq<char>) -> nat
    decreases s.len(),
{
    if s.len() == 0 {
        0
    } else {
        dec_val(s.drop_last()) * 10 + digit_val(s.last())
    }
}

/// A canonical decimal string: non-empty, digits only, and no leading
/// zero unless the string is exactly "0".
pub open spec fn is_canonical_dec(s: Seq<char>) -> bool {
    &&& s.len() > 0
    &&& (forall|i: int| 0 <= i < s.len() ==> is_dec_digit(#[trigger] s[i]))
    &&& (s[0] == '0' ==> s.len() == 1)
}

/// A positive number's decimal spelling never starts with a zero.
proof fn lemma_decimal_chars_head(n: nat)
    requires
        n > 0,
    ensures
        decimal_chars(n)[0] != '0',
    decreases n,
{
    if n >= 10 {
        lemma_decimal_chars_head(n / 10);
    }
}

/// The decimal spelling of any number is a canonical decimal string.
pub proof fn lemma_decimal_chars_canonical(n: nat)
    ensures
        is_canonical_dec(decimal_chars(n)),
    decreases n,
{
    if n >= 10 {
        lemma_decimal_chars_canonical(n / 10);
        lemma_decimal_chars_head(n / 10);
    }
}

/// Reading the decimal spelling of a number back gives the number:
/// the decimal encoding round-trips.
pub proof fn lemma_decimal_chars_val(n: nat)
    ensures
        dec_val(decimal_chars(n)) == n,
    decreases n,
{
    if n < 10 {
        assert(decimal_chars(n).drop_last() =~= Seq::<char>::empty());
        assert(decimal_chars(n).last() == digit_char(n));
        assert(digit_val(digit_char(n)) == n);
        assert(dec_val(decimal_chars(n)) == dec_val(Seq::<char>::empty()) * 10 + digit_val(
            digit_char(n),
        ));
    } else {
        lemma_decimal_chars_val(n / 10);
        assert(decimal_chars(n).drop_last() =~= decimal_chars(n / 10));
        assert(decimal_chars(n).last() == digit_char(n % 10));
        assert(digit_val(digit_char(n % 10)) == n % 10);
        assert(dec_val(decimal_chars(n)) == dec_val(decimal_chars(n / 10)) * 10 + digit_val(
            digit_char(n % 10),
        ));
        lemma_fundamental_div_mod(n as int, 10);
    }
}

/// One decimal digit as a string slice.
fn digit_str(d: u64) -> (r: &'static str)
    requires
        d < 10,
    ensures
        r@ =~= seq![digit_char(d as nat)],
{
    proof {
        reveal_strlit("0");
        reveal_strlit("1");
        reveal_strlit("2");
        reveal_strlit("3");
        reveal_strlit("4");
        reveal_strlit("5");
        reveal_strlit("6");
        reveal_strlit("7");
        reveal_strlit("8");
        reveal_strlit("9");
    }
    match d {
        0 => "0",
        1 => "1",
        2 => "2",
        3 => "3",
        4 => "4",
        5 => "5",
        6 => "6",
        7 => "7",
        8 => "8",
        _ => "9",
    }
}

/// Divides a four-limb value by ten: returns the quotient limbs and the
/// remainder digit.
fn div10(l: &[u64; 4]) -> (res: ([u64; 4], u64))
    ensures
        limbs_val(res.0@) * 10 + res.1 == limbs_val(l@),
        res.1 < 10,
{
    let b: u128 = 0x10000000000000000;
    let q3: u64 = l[3] / 10;
    let r3: u64 = l[3] % 10;
    let cur2: u128 = (r3 as u128) * b + (l[2] as u128);
    let q2: u64 = (cur2 / 10) as u64;
    let r2: u64 = (cur2 % 10) as u64;
    let cur1: u128 = (r2 as u128) * b + (l[1] as u128);
    let q1: u64 = (cur1 / 10) as u64;
    let r1: u64 = (cur1 % 10) as u64;
    let cur0: u128 = (r1 as u128) * b + (l[0] as u128);
    let q0: u64 = (cur0 / 10) as u64;
    let r0: u64 = (cur0 % 10) as u64;
    proof {
        lemma_fundamental_div_mod(l[3] as int, 10);
        lemma_fundamental_div_mod(cur2 as int, 10);
        lemma_fundamental_div_mod(cur1 as int, 10);
        lemma_fundamental_div_mod(cur0 as int, 10);
    }
    ([q0, q1, q2, q3], r0)
}

/// Whether a four-limb value is zero.
fn limbs_are_zero(l: &[u64; 4]) -> (r: bool)
    ensures
        r == (limbs_val(l@) == 0),
{
    l[0] == 0 && l[1] == 0 && l[2] == 0 && l[3] == 0
}

/// The decimal spelling of a four-limb value, built by repeated division
/// by ten.
fn limbs_to_decimal(l: &[u64; 4]) -> (s: String)
    ensures
        s@ == decimal_chars(limbs_val(l@)),
{
    let ghost v0: nat = limbs_val(l@);
    let mut cur: [u64; 4] = *l;
    if limbs_are_zero(&cur) {
        proof {
            reveal_strlit("0");
        }
        let s = String::from_str("0");
        assert(s@ =~= decimal_chars(0));
        return s;
    }
    let mut s = String::new();
    while !limbs_are_zero(&cur)
        invariant
            limbs_val(cur@) == 0 ==> s@ == decimal_chars(v0),
            limbs_val(cur@) > 0 ==> decimal_chars(v0) == decimal_chars(limbs_val(cur@)) + s@,
        decreases limbs_val(cur@),
    {
        let ghost v: nat = limbs_val(cur@);
        let (q, r) = div10(&cur);
        let ghost qv: nat = limbs_val(q@);
        proof {
            assert(qv < v);
            if qv == 0 {
                assert(v == r);
                assert(decimal_chars(v) =~= seq![digit_char(r as nat)]);
            } else {
                assert(v >= 10);
                lemma_fundamental_div_mod_converse(v as int, 10, qv as int, r as int);
                assert(decimal_chars(v) =~= decimal_chars(qv).push(digit_char((r as nat))));
            }
        }
        let d = digit_str(r);
        let rest = s;
        s = String::from_str(d).concat(rest.as_str());
        proof {
            if qv == 0 {
                assert(s@ =~= decimal_chars(v0));
            } else {
                assert(decimal_chars(v0) =~= decimal_chars(qv) + s@);
            }
        }
        cur = q;
    }
    s
}

impl Digest {
    /// The decimal spelling of this digest's value: what a round
    /// publishes as its commitment string.
    pub fn to_decimal(&self) -> (s: String)
        ensures
            s@ == decimal_chars(limbs_val(self@)),
    {
        limbs_to_decimal(&self.limbs)
    }

    /// The all-zero digest: the representation of the field element 0.
    pub fn zero() -> (r: Digest)
        ensures
            r@ =~= seq![0u64, 0u64, 0u64, 0u64],
            limbs_val(r@) == 0,
            fr_fits(r@),
    {
        Digest { limbs: [0, 0, 0, 0] }
    }

    /// Whether this digest is a canonical field element representation.
    pub fn fits(&self) -> (r: bool)
        ensures
            r == fr_fits(self@),
    {
        let l = &self.limbs;
        proof {
            lemma_fr_limbs();
        }
        if l[3] != FR_LIMB_3 {
            l[3] < FR_LIMB_3
        } else if l[2] != FR_LIMB_2 {
            l[2] < FR_LIMB_2
        } else if l[1] != FR_LIMB_1 {
            l[1] < FR_LIMB_1
        } else {
            l[0] < FR_LIMB_0
        }
    }
}

impl Salt {
    /// The decimal spelling of the salt's 256-bit value; this is the form
    /// in which the hash engine reduces it into the field.
    pub fn to_decimal(&self) -> (s: String)
        ensures
            s@ == decimal_chars(limbs_val(self@)),
    {
        limbs_to_decimal(&self.limbs)
    }
}

} // verus!
