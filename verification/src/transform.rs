//! The pure conversions that projections apply to leaf values.
//!
//! Every projection the engine can wire is one of these transforms; a
//! [`Transform`] is applied to a source leaf value and yields the
//! derived value, or `None` when the source has the wrong shape.

use vstd::prelude::*;
use crate::value::{LeafValue, ValueModel};

verus! {

broadcast use vstd::std_specs::vec::group_vec_axioms;

/// The numeric value of a digit character, as `char::to_digit` sees it:
/// `0`-`9`, then letters in either case for ten and up.
pub open spec fn spec_char_digit(c: char) -> Option<u64> {
    if 48 <= c as u32 && c as u32 <= 57 {
        Some((c as u32 - 48) as u64)
    } else if 97 <= c as u32 && c as u32 <= 122 {
        Some((c as u32 - 87) as u64)
    } else if 65 <= c as u32 && c as u32 <= 90 {
        Some((c as u32 - 55) as u64)
    } else {
        None
    }
}

/// A digit character read in the given radix, with `0` standing in for
/// anything that is no digit of that radix.
pub open spec fn spec_digit_to_u64(c: char, radix: u64) -> u64 {
    match spec_char_digit(c) {
        Some(d) => if d < radix {
            d
        } else {
            0
        },
        None => 0,
    }
}

/// The character for a digit below 36: `0`-`9`, then lowercase letters.
pub open spec fn spec_char_of_digit(d: u64) -> char {
    if d < 10 {
        (48 + d) as char
    } else if d < 36 {
        (87 + d) as char
    } else {
        '?'
    }
}

/// A digit written as a character in the given radix; `?` when the
/// radix is unusable.  The digit is reduced modulo the radix first.
pub open spec fn spec_digit_to_char(d: u64, radix: u64) -> char {
    if radix < 2 || radix > 36 {
        '?'
    } else {
        spec_char_of_digit(d % radix)
    }
}

/// Reads a character as a digit of the given radix; not a digit (or out
/// of range for the radix) counts as zero.
pub fn digit_char_to_u64(c: char, radix: u64) -> (r: u64)
    ensures
        r == spec_digit_to_u64(c, radix),
{
    let cv: u32 = c as u32;
    let d: u64 = if 48 <= cv && cv <= 57 {
        (cv - 48) as u64
    } else if 97 <= cv && cv <= 122 {
        (cv - 87) as u64
    } else if 65 <= cv && cv <= 90 {
        (cv - 55) as u64
    } else {
        return 0;
    };
    if d < radix {
        d
    } else {
        0
    }
}

/// Writes a digit as a character of the given radix, reducing the digit
/// modulo the radix; `?` when the radix is outside 2..=36.
pub fn digit_u64_to_char(d: u64, radix: u64) -> (r: char)
    ensures
        r == spec_digit_to_char(d, radix),
{
    if radix < 2 || radix > 36 {
        '?'
    } else {
        let m: u64 = d % radix;
        if m < 10 {
            ((48 + m) as u8) as char
        } else {
            ((87 + m) as u8) as char
        }
    }
}

/// Reverses a digit sequence (big-endian to little-endian and back).
pub fn reverse_u64(v: &Vec<u64>) -> (r: Vec<u64>)
    ensures
        r@ == v@.reverse(),
{
    let n: usize = v.len();
    let mut r: Vec<u64> = Vec::new();
    let mut i: usize = 0;
    while i < n
        invariant
            n == v.len(),
            i <= n,
            r@.len() == i,
            forall|j: int| 0 <= j < i ==> r@[j] == v@[n - 1 - j],
        decreases n - i,
    {
        r.push(v[n - 1 - i]);
        i = i + 1;
    }
    proof {
        assert(r@ =~= v@.reverse());
    }
    r
}

/// The number a little-endian digit sequence denotes: the head is the
/// least significant digit.
pub open spec fn digits_value(s: Seq<u64>, radix: u64) -> nat
    decreases s.len(),
{
    if s.len() == 0 {
        0
    } else {
        (s[0] + radix * digits_value(s.subrange(1, s.len() as int), radix)) as nat
    }
}

/// Peeling the most significant digit off the front instead of the back.
pub proof fn lemma_digits_value_unfold_front(s: Seq<u64>, radix: u64, i: int)
    requires
        0 <= i < s.len(),
    ensures
        digits_value(s.subrange(i, s.len() as int), radix) == s[i] + radix * digits_value(
            s.subrange(i + 1, s.len() as int),
            radix,
        ),
{
    let part = s.subrange(i, s.len() as int);
    assert(part[0] == s[i]);
    assert(part.subrange(1, part.len() as int) =~= s.subrange(i + 1, s.len() as int));
}

/// Dropping leading (less significant) digits never increases the value.
pub proof fn lemma_digits_value_suffix_le(s: Seq<u64>, radix: u64, i: int)
    requires
        1 <= radix,
        0 <= i <= s.len(),
    ensures
        digits_value(s.subrange(i, s.len() as int), radix) <= digits_value(s, radix),
    decreases i,
{
    if i == 0 {
        assert(s.subrange(0, s.len() as int) =~= s);
    } else {
        lemma_digits_value_suffix_le(s, radix, i - 1);
        lemma_digits_value_unfold_front(s, radix, i - 1);
        let upper = digits_value(s.subrange(i, s.len() as int), radix);
        assert(s[i - 1] + radix * upper >= upper) by (nonlinear_arith)
            requires
                1 <= radix,
                s[i - 1] >= 0,
                upper >= 0,
        ;
    }
}

/// The value of the digits, when it fits in a machine word.  Returns
/// `None` exactly when the denoted number is 2^64 or more.
#[verifier::loop_isolation(false)]
pub fn value_of_digits(digits: &Vec<u64>, radix: u64) -> (r: Option<u64>)
    requires
        2 <= radix,
    ensures
        match r {
            Some(v) => v == digits_value(digits@, radix),
            None => digits_value(digits@, radix) > u64::MAX,
        },
{
    let n: usize = digits.len();
    let mut acc: u64 = 0;
    let mut i: usize = n;
    proof {
        assert(digits@.subrange(n as int, n as int) =~= Seq::<u64>::empty());
    }
    while i > 0
        invariant
            i <= n,
            acc == digits_value(digits@.subrange(i as int, n as int), radix),
        decreases i,
    {
        let d: u64 = digits[i - 1];
        let shifted: u64 = match acc.checked_mul(radix) {
            Some(x) => x,
            None => {
                proof {
                    overflow_means_large(digits@, radix, i - 1, acc, d);
                }
                return None;
            }
        };
        let summed: u64 = match shifted.checked_add(d) {
            Some(x) => x,
            None => {
                proof {
                    overflow_means_large(digits@, radix, i - 1, acc, d);
                }
                return None;
            }
        };
        proof {
            lemma_digits_value_unfold_front(digits@, radix, i - 1);
            assert(radix * acc == acc * radix) by (nonlinear_arith);
        }
        acc = summed;
        i = i - 1;
    }
    proof {
        assert(digits@.subrange(0, n as int) =~= digits@);
    }
    Some(acc)
}

/// If one accumulation step overflows, the whole sequence denotes a
/// number beyond `u64::MAX`.
proof fn overflow_means_large(s: Seq<u64>, radix: u64, i: int, acc: u64, d: u64)
    requires
        2 <= radix,
        0 <= i < s.len(),
        acc == digits_value(s.subrange(i + 1, s.len() as int), radix),
        d == s[i],
        acc * radix + d > u64::MAX,
    ensures
        digits_value(s, radix) > u64::MAX,
{
    lemma_digits_value_unfold_front(s, radix, i);
    assert(digits_value(s.subrange(i, s.len() as int), radix) == d + radix * acc);
    lemma_digits_value_suffix_le(s, radix, i);
    assert(radix * acc == acc * radix) by (nonlinear_arith);
}

/// The canonical little-endian digits of a number in a radix: repeated
/// division, least significant digit first, nothing for zero.
pub open spec fn spec_canonical_digits(val: nat, radix: nat) -> Seq<u64>
    recommends
        2 <= radix <= u64::MAX,
        val <= u64::MAX,
    decreases val,
    when 2 <= radix
    via spec_canonical_digits_decreases
{
    if val == 0 {
        Seq::empty()
    } else {
        seq![(val % radix) as u64] + spec_canonical_digits(val / radix, radix)
    }
}

#[via_fn]
proof fn spec_canonical_digits_decreases(val: nat, radix: nat) {
    if val > 0 {
        assert(val / radix < val) by (nonlinear_arith)
            requires
                2 <= radix,
                0 < val,
        ;
    }
}

/// The canonical digits denote the number they came from.
pub proof fn lemma_canonical_digits_value(val: nat, radix: u64)
    requires
        2 <= radix,
        val <= u64::MAX,
    ensures
        digits_value(spec_canonical_digits(val, radix as nat), radix) == val,
    decreases val,
{
    if val > 0 {
        let q = val / (radix as nat);
        let m = val % (radix as nat);
        assert(q < val && q * radix + m == val && m < radix) by (nonlinear_arith)
            requires
                2 <= radix,
                0 < val,
                q == val / (radix as nat),
                m == val % (radix as nat),
        ;
        lemma_canonical_digits_value(q, radix);
        let s = spec_canonical_digits(val, radix as nat);
        assert(s[0] == m as u64);
        assert(s.subrange(1, s.len() as int) =~= spec_canonical_digits(q, radix as nat));
        assert(radix * q == q * radix) by (nonlinear_arith);
    }
}

/// The canonical digits of a number: empty for zero, least significant
/// digit first, with no trailing zero.
#[verifier::loop_isolation(false)]
pub fn digits_of_value(val: u64, radix: u64) -> (r: Vec<u64>)
    requires
        2 <= radix,
    ensures
        r@ == spec_canonical_digits(val as nat, radix as nat),
{
    let mut out: Vec<u64> = Vec::new();
    let mut v: u64 = val;
    while v > 0
        invariant
            out@ + spec_canonical_digits(v as nat, radix as nat) == spec_canonical_digits(
                val as nat,
                radix as nat,
            ),
        decreases v,
    {
        let d: u64 = v % radix;
        let v2: u64 = v / radix;
        proof {
            assert(v2 < v) by (nonlinear_arith)
                requires
                    2 <= radix,
                    0 < v,
                    v2 == v / radix,
            ;
            assert(spec_canonical_digits(v as nat, radix as nat) == seq![d]
                + spec_canonical_digits(v2 as nat, radix as nat));
            assert(out@.push(d) + spec_canonical_digits(v2 as nat, radix as nat) =~= out@ + (seq![d]
                + spec_canonical_digits(v2 as nat, radix as nat)));
        }
        out.push(d);
        v = v2;
    }
    proof {
        assert(out@ + Seq::<u64>::empty() =~= out@);
    }
    out
}

/// Canonical digit sequences are unique: a sequence of digits below
/// the radix with no trailing zero is exactly the canonical digit
/// sequence of the number it denotes.
pub proof fn lemma_canonical_unique(s: Seq<u64>, radix: u64)
    requires
        2 <= radix,
        forall|i: int| 0 <= i < s.len() ==> s[i] < radix,
        s.len() > 0 ==> s.last() != 0,
    ensures
        spec_canonical_digits(digits_value(s, radix), radix as nat) == s,
        s.len() > 0 ==> digits_value(s, radix) > 0,
    decreases s.len(),
{
    if s.len() > 0 {
        let tail = s.subrange(1, s.len() as int);
        assert forall|i: int| 0 <= i < tail.len() implies tail[i] < radix by {
            assert(tail[i] == s[i + 1]);
        }
        if tail.len() > 0 {
            assert(tail.last() == s.last());
        }
        lemma_canonical_unique(tail, radix);
        let v0 = digits_value(tail, radix);
        let v = digits_value(s, radix);
        assert(v == s[0] + radix * v0);
        if tail.len() == 0 {
            assert(v0 == 0);
            assert(radix * v0 == 0) by (nonlinear_arith)
                requires
                    v0 == 0,
            ;
            assert(v == s[0]);
            assert(s[0] != 0);
            assert(v % (radix as nat) == s[0] && v / (radix as nat) == 0) by (nonlinear_arith)
                requires
                    2 <= radix,
                    v == s[0],
                    s[0] < radix,
            ;
            assert(spec_canonical_digits(v, radix as nat) =~= s);
        } else {
            assert(v0 > 0);
            assert(v > 0 && v % (radix as nat) == s[0] && v / (radix as nat) == v0)
                by (nonlinear_arith)
                requires
                    2 <= radix,
                    v == s[0] + radix * v0,
                    s[0] < radix,
                    v0 > 0,
            ;
            assert(spec_canonical_digits(v, radix as nat) =~= s);
        }
    }
}

/// Converting a canonical little-endian digit sequence to another
/// radix and back reproduces it, as long as the number fits a machine
/// word.
pub proof fn lemma_radix_round_trip(s: Seq<u64>, radix: u64, other: u64)
    requires
        2 <= radix,
        2 <= other,
        forall|i: int| 0 <= i < s.len() ==> s[i] < radix,
        s.len() > 0 ==> s.last() != 0,
        digits_value(s, radix) <= u64::MAX,
    ensures
        ({
            let there = spec_apply_transform(
                Transform::RadixConvert { src_radix: radix, dst_radix: other },
                ValueModel::VecU64(s),
            );
            let back = spec_apply_transform(
                Transform::RadixConvert { src_radix: other, dst_radix: radix },
                there->Some_0,
            );
            there is Some && back == Some(ValueModel::VecU64(s))
        }),
{
    let v = digits_value(s, radix);
    let mid = spec_canonical_digits(v, other as nat);
    lemma_canonical_digits_value(v, other);
    lemma_canonical_unique(s, radix);
    assert(digits_value(mid, other) == v);
    assert(spec_canonical_digits(digits_value(mid, other), radix as nat) == s);
}

/// A projection the engine can wire between two leaves.
///
/// The digit transforms mirror reading and writing one positional digit;
/// `Reverse` swaps endianness of a digit sequence; `RadixConvert`
/// re-expresses a little-endian digit sequence in another radix; and
/// `EachDigitToChar`/`EachCharToDigit` are the list-map liftings of the
/// two digit transforms.
#[derive(Clone, Copy, PartialEq, Eq, Structural, Debug)]
pub enum Transform {
    CharToDigit { radix: u64 },
    DigitToChar { radix: u64 },
    Reverse,
    RadixConvert { src_radix: u64, dst_radix: u64 },
    EachCharToDigit { radix: u64 },
    EachDigitToChar { radix: u64 },
}

/// What a transform yields on a source value: `None` exactly when the
/// value has the wrong shape for the transform, or (for a radix
/// conversion) denotes a number too large for a machine word.
pub open spec fn spec_apply_transform(t: Transform, v: ValueModel) -> Option<ValueModel> {
    match t {
        Transform::CharToDigit { radix } => match v {
            ValueModel::Char(c) => Some(ValueModel::U64(spec_digit_to_u64(c, radix))),
            _ => None,
        },
        Transform::DigitToChar { radix } => match v {
            ValueModel::U64(d) => Some(ValueModel::Char(spec_digit_to_char(d, radix))),
            _ => None,
        },
        Transform::Reverse => match v {
            ValueModel::VecU64(s) => Some(ValueModel::VecU64(s.reverse())),
            _ => None,
        },
        Transform::RadixConvert { src_radix, dst_radix } => match v {
            ValueModel::VecU64(s) => if 2 <= src_radix && 2 <= dst_radix && digits_value(
                s,
                src_radix,
            ) <= u64::MAX {
                Some(
                    ValueModel::VecU64(
                        spec_canonical_digits(digits_value(s, src_radix), dst_radix as nat),
                    ),
                )
            } else {
                None
            },
            _ => None,
        },
        Transform::EachCharToDigit { radix } => match v {
            ValueModel::VecChar(s) => Some(
                ValueModel::VecU64(Seq::new(s.len(), |i: int| spec_digit_to_u64(s[i], radix))),
            ),
            _ => None,
        },
        Transform::EachDigitToChar { radix } => match v {
            ValueModel::VecU64(s) => Some(
                ValueModel::VecChar(Seq::new(s.len(), |i: int| spec_digit_to_char(s[i], radix))),
            ),
            _ => None,
        },
    }
}

/// A digit written as a character and read back is unchanged, for any
/// digit below the radix: the two digit projections invert each other
/// from the number's side.
pub proof fn lemma_digit_round_trip(d: u64, radix: u64)
    requires
        2 <= radix <= 36,
        d < radix,
    ensures
        spec_digit_to_u64(spec_digit_to_char(d, radix), radix) == d,
{
    assert(d % radix == d) by (nonlinear_arith)
        requires
            d < radix,
            2 <= radix,
    ;
    if d < 10 {
        let c = (48 + d) as char;
        assert(c as u32 == 48 + d);
    } else {
        let c = (87 + d) as char;
        assert(c as u32 == 87 + d);
    }
}

/// A lowercase digit character read as a number and written back is
/// unchanged: the two digit projections invert each other from the
/// character's side.  (An uppercase digit comes back lowercase, so it
/// is left out here.)
pub proof fn lemma_char_digit_round_trip(c: char, radix: u64)
    requires
        2 <= radix <= 36,
        spec_char_digit(c) matches Some(d) && d < radix,
        !(65 <= c as u32 <= 90),
    ensures
        spec_digit_to_char(spec_digit_to_u64(c, radix), radix) == c,
{
    let d = spec_char_digit(c)->Some_0;
    assert(d % radix == d) by (nonlinear_arith)
        requires
            d < radix,
            2 <= radix,
    ;
    if 48 <= c as u32 && c as u32 <= 57 {
        assert(spec_char_of_digit(d) == (48 + d) as char);
        assert((48 + d) as char == ((c as u32) as u64 as char));
        assert(((c as u32) as u64 as char) == c);
    } else {
        assert(spec_char_of_digit(d) == (87 + d) as char);
        assert((87 + d) as char == ((c as u32) as u64 as char));
        assert(((c as u32) as u64 as char) == c);
    }
}

/// Reversing a digit sequence twice gives the original sequence back:
/// converting a big-endian representation to little-endian and back
/// reproduces it, whatever its length.
pub proof fn lemma_reverse_round_trip(v: ValueModel)
    requires
        v is VecU64,
    ensures
        spec_apply_transform(Transform::Reverse, v) matches Some(w) && spec_apply_transform(
            Transform::Reverse,
            w,
        ) == Some(v),
{
    let s = v->VecU64_0;
    assert(s.reverse().reverse() =~= s);
}

impl Transform {
    /// Applies this transform to a source value.  Returns `None`
    /// exactly when [`spec_apply_transform`] yields `None`: on a value
    /// of the wrong shape, or on a radix conversion whose number does
    /// not fit a machine word.
    pub fn apply(&self, v: &LeafValue) -> (r: Option<LeafValue>)
        ensures
            match r {
                Some(w) => spec_apply_transform(*self, v@) == Some(w@),
                None => spec_apply_transform(*self, v@) is None,
            },
    {
        match self {
            Transform::CharToDigit { radix } => match v {
                LeafValue::Char(c) => Some(LeafValue::U64(digit_char_to_u64(*c, *radix))),
                _ => None,
            },
            Transform::DigitToChar { radix } => match v {
                LeafValue::U64(d) => Some(LeafValue::Char(digit_u64_to_char(*d, *radix))),
                _ => None,
            },
            Transform::Reverse => match v {
                LeafValue::VecU64(s) => Some(LeafValue::VecU64(reverse_u64(s))),
                _ => None,
            },
            Transform::RadixConvert { src_radix, dst_radix } => match v {
                LeafValue::VecU64(s) => {
                    if *src_radix < 2 || *dst_radix < 2 {
                        return None;
                    }
                    match value_of_digits(s, *src_radix) {
                        Some(n) => Some(LeafValue::VecU64(digits_of_value(n, *dst_radix))),
                        None => None,
                    }
                }
                _ => None,
            },
            Transform::EachCharToDigit { radix } => match v {
                LeafValue::VecChar(s) => {
                    let n: usize = s.len();
                    let mut out: Vec<u64> = Vec::new();
                    let mut i: usize = 0;
                    while i < n
                        invariant
                            n == s.len(),
                            i <= n,
                            out@.len() == i,
                            forall|j: int|
                                0 <= j < i ==> out@[j] == spec_digit_to_u64(s@[j], *radix),
                        decreases n - i,
                    {
                        let d = digit_char_to_u64(s[i], *radix);
                        out.push(d);
                        i = i + 1;
                    }
                    proof {
                        assert(out@ =~= Seq::new(
                            s@.len(),
                            |j: int| spec_digit_to_u64(s@[j], *radix),
                        ));
                    }
                    Some(LeafValue::VecU64(out))
                }
                _ => None,
            },
            Transform::EachDigitToChar { radix } => match v {
                LeafValue::VecU64(s) => {
                    let n: usize = s.len();
                    let mut out: Vec<char> = Vec::new();
                    let mut i: usize = 0;
                    while i < n
                        invariant
                            n == s.len(),
                            i <= n,
                            out@.len() == i,
                            forall|j: int|
                                0 <= j < i ==> out@[j] == spec_digit_to_char(s@[j], *radix),
                        decreases n - i,
                    {
                        let c = digit_u64_to_char(s[i], *radix);
                        out.push(c);
                        i = i + 1;
                    }
                    proof {
                        assert(out@ =~= Seq::new(
                            s@.len(),
                            |j: int| spec_digit_to_char(s@[j], *radix),
                        ));
                    }
                    Some(LeafValue::VecChar(out))
                }
                _ => None,
            },
        }
    }
}

} // verus!
