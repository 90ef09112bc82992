//! Numbers. A number of the language is an IEEE 754 double, held as its
//! sixty-four bits: one sign bit, eleven exponent bits, fifty-two fraction
//! bits. What the bits alone decide (zero, order, equality, negation) is
//! defined and proved here. Reading a number from text, arithmetic and
//! writing a number as text are services that the caller supplies as
//! functions on bit patterns; [`NumberModel`] describes them in contracts.

use vstd::prelude::*;

use crate::ast::Operator;

verus! {

/// The sign bit.
pub const SIGN_BIT: u64 = 0x8000_0000_0000_0000;

/// The bits of positive infinity: every magnitude above it is not a number.
pub const INFINITY: u64 = 0x7ff0_0000_0000_0000;

/// The bits without the sign.
pub open spec fn magnitude(bits: u64) -> u64 {
    if bits >= SIGN_BIT {
        (bits - SIGN_BIT) as u64
    } else {
        bits
    }
}

/// Whether the bits are a NaN.
pub open spec fn is_nan(bits: u64) -> bool {
    magnitude(bits) > INFINITY
}

/// Whether the bits are zero, of either sign.
pub open spec fn is_zero(bits: u64) -> bool {
    magnitude(bits) == 0
}

/// The place of a number that is no NaN on the number line of its
/// magnitudes: the magnitude itself, or its opposite under a sign bit. The
/// order of doubles is the order of these integers, and the two zeroes
/// share one place.
pub open spec fn rank(bits: u64) -> int {
    if bits >= SIGN_BIT {
        -(magnitude(bits) as int)
    } else {
        bits as int
    }
}

/// Equality of doubles: a NaN equals nothing, the two zeroes are equal.
pub open spec fn number_eq(a: u64, b: u64) -> bool {
    !is_nan(a) && !is_nan(b) && rank(a) == rank(b)
}

/// The strict order of doubles: false as soon as a NaN is involved.
pub open spec fn number_lt(a: u64, b: u64) -> bool {
    !is_nan(a) && !is_nan(b) && rank(a) < rank(b)
}

/// The order of doubles: false as soon as a NaN is involved.
pub open spec fn number_le(a: u64, b: u64) -> bool {
    !is_nan(a) && !is_nan(b) && rank(a) <= rank(b)
}

/// The same number with the other sign.
pub open spec fn negated(bits: u64) -> u64 {
    if bits >= SIGN_BIT {
        (bits - SIGN_BIT) as u64
    } else {
        (bits + SIGN_BIT) as u64
    }
}

/// Whether `s[from..to]` holds digits only.
pub open spec fn all_digits(s: Seq<char>, from: int, to: int) -> bool {
    forall|i: int| from <= i < to ==> '0' <= #[trigger] s[i] <= '9'
}

/// The texts that stand for a number: one or more digits, then possibly a
/// dot and one or more digits.
pub open spec fn is_number_text(s: Seq<char>) -> bool {
    exists|k: int| #[trigger]
        all_digits(s, 0, k) && 0 < k <= s.len() && (k == s.len() || (s[k] == '.' && k + 1 < s.len()
            && all_digits(s, k + 1, s.len() as int)))
}

/// Whether an operator is one of the four that compute a number from two.
pub open spec fn is_arithmetic(op: Operator) -> bool {
    op is OAdd || op is OSub || op is OMul || op is ODiv
}

/// The three services on numbers that this library calls and does not
/// compute: `parse` reads a number from its text, `arith` applies one of
/// `+ - * /` to two numbers, `show` writes a number as text.
pub struct Numbers<P, A, S> {
    pub parse: P,
    pub arith: A,
    pub show: S,
}

/// Three mathematical functions that services on numbers may follow.
pub struct NumberModel {
    pub parse: spec_fn(Seq<char>) -> u64,
    pub arith: spec_fn(Operator, u64, u64) -> u64,
    pub show: spec_fn(u64) -> Seq<char>,
}

impl<P: Fn(&str) -> u64, A: Fn(Operator, u64, u64) -> u64, S: Fn(u64) -> String> Numbers<
    P,
    A,
    S,
> {
    /// The services can be called on everything that evaluation hands them:
    /// `parse` on each text that stands for a number, `arith` on the four
    /// arithmetic operators with any two numbers, `show` on any number.
    pub open spec fn callable(&self) -> bool {
        &&& forall|s: &str| is_number_text(s@) ==> call_requires(self.parse, (s,))
        &&& forall|op: Operator, x: u64, y: u64|
            is_arithmetic(op) ==> call_requires(self.arith, (op, x, y))
        &&& forall|x: u64| call_requires(self.show, (x,))
    }
}

impl NumberModel {
    /// Every result of the services is the one that the model gives for
    /// the same arguments.
    pub open spec fn describes<
        P: Fn(&str) -> u64,
        A: Fn(Operator, u64, u64) -> u64,
        S: Fn(u64) -> String,
    >(self, numbers: Numbers<P, A, S>) -> bool {
        &&& forall|s: &str, r: u64| #[trigger]
            call_ensures(numbers.parse, (s,), r) && is_number_text(s@) ==> r == (self.parse)(s@)
        &&& forall|op: Operator, x: u64, y: u64, r: u64| #[trigger]
            call_ensures(numbers.arith, (op, x, y), r) && is_arithmetic(op) ==> r == (self.arith)(
                op,
                x,
                y,
            )
        &&& forall|x: u64, r: String| #[trigger]
            call_ensures(numbers.show, (x,), r) ==> r@ == (self.show)(x)
    }
}

/// On the numbers that are no NaN, `<` is a strict order: nothing is less
/// than itself, and the order is transitive.
pub proof fn lemma_order_is_strict(a: u64, b: u64, c: u64)
    ensures
        !number_lt(a, a),
        number_lt(a, b) && number_lt(b, c) ==> number_lt(a, c),
        number_lt(a, b) ==> !number_lt(b, a),
{
}

/// Of two numbers that are no NaN, exactly one of "less", "equal" and
/// "greater" holds, and `<=` is "less or equal". With a NaN none holds.
pub proof fn lemma_order_is_total(a: u64, b: u64)
    ensures
        !is_nan(a) && !is_nan(b) ==> (number_lt(a, b) || number_eq(a, b) || number_lt(b, a)),
        !(number_lt(a, b) && number_eq(a, b)),
        number_le(a, b) <==> number_lt(a, b) || number_eq(a, b),
        is_nan(a) || is_nan(b) ==> !number_lt(a, b) && !number_le(a, b) && !number_eq(a, b),
{
}

/// The two zeroes are equal, and equal numbers that are no zero have the
/// same bits.
pub proof fn lemma_equal_numbers(a: u64, b: u64)
    ensures
        is_zero(a) && is_zero(b) ==> number_eq(a, b),
        number_eq(a, b) && !is_zero(a) ==> a == b,
{
}

/// Negating twice gives the number back; negating turns the order round
/// and keeps zeroes and NaNs what they are.
pub proof fn lemma_negation(a: u64, b: u64)
    ensures
        negated(negated(a)) == a,
        is_nan(negated(a)) == is_nan(a),
        is_zero(negated(a)) == is_zero(a),
        number_lt(negated(a), negated(b)) == number_lt(b, a),
{
}

/// Whether the bits are zero, of either sign.
pub fn number_is_zero(bits: u64) -> (r: bool)
    ensures
        r == is_zero(bits),
{
    bits == 0 || bits == SIGN_BIT
}

/// Whether the bits are a NaN.
pub fn number_is_nan(bits: u64) -> (r: bool)
    ensures
        r == is_nan(bits),
{
    if bits >= SIGN_BIT {
        bits - SIGN_BIT > INFINITY
    } else {
        bits > INFINITY
    }
}

/// Compares two doubles for equality.
pub fn number_equal(a: u64, b: u64) -> (r: bool)
    ensures
        r == number_eq(a, b),
{
    if number_is_nan(a) || number_is_nan(b) {
        false
    } else {
        a == b || (number_is_zero(a) && number_is_zero(b))
    }
}

/// Whether the first double is less than the second.
pub fn number_less(a: u64, b: u64) -> (r: bool)
    ensures
        r == number_lt(a, b),
{
    if number_is_nan(a) || number_is_nan(b) {
        false
    } else if a >= SIGN_BIT {
        if b >= SIGN_BIT {
            a > b
        } else {
            !(a == SIGN_BIT && b == 0)
        }
    } else {
        b < SIGN_BIT && a < b
    }
}

/// Whether the first double is less than or equal to the second.
pub fn number_less_equal(a: u64, b: u64) -> (r: bool)
    ensures
        r == number_le(a, b),
{
    if number_is_nan(a) || number_is_nan(b) {
        false
    } else if a >= SIGN_BIT {
        b < SIGN_BIT || a >= b
    } else {
        (b < SIGN_BIT && a <= b) || (a == 0 && b == SIGN_BIT)
    }
}

/// The double with the other sign.
pub fn number_negate(bits: u64) -> (r: u64)
    ensures
        r == negated(bits),
{
    if bits >= SIGN_BIT {
        bits - SIGN_BIT
    } else {
        bits + SIGN_BIT
    }
}

/// Whether a text stands for a number.
pub fn is_number(s: &str) -> (r: bool)
    ensures
        r == is_number_text(s@),
{
    let chars = crate::text::chars_of(s);
    let n = chars.len();
    let mut k: usize = 0;
    while k < n && '0' <= chars[k] && chars[k] <= '9'
        invariant
            k <= n == chars.len(),
            all_digits(chars@, 0, k as int),
        decreases n - k,
    {
        k += 1;
    }
    if k == 0 {
        assert forall|j: int| !(#[trigger] all_digits(chars@, 0, j) && 0 < j <= chars@.len()) by {
            if all_digits(chars@, 0, j) && 0 < j <= chars@.len() {
                assert('0' <= chars@[0] <= '9');
            }
        }
        return false;
    }
    if k == n {
        assert(all_digits(chars@, 0, k as int));
        return true;
    }
    // `k` is the only place where the digits can end.
    assert forall|j: int| #[trigger]
        all_digits(chars@, 0, j) && 0 < j <= chars@.len() && (j == chars@.len() || chars@[j]
            == '.') implies j == k || (j == chars@.len() && k < j) by {
        if j < k {
            assert('0' <= chars@[j] <= '9');
        } else if j > k {
            assert('0' <= chars@[k as int] <= '9');
        }
    }
    if chars[k] != '.' || k + 1 >= n {
        assert forall|j: int| !(#[trigger] all_digits(chars@, 0, j) && 0 < j <= chars@.len() && (j
            == chars@.len() || (chars@[j] == '.' && j + 1 < chars@.len() && all_digits(
            chars@,
            j + 1,
            chars@.len() as int,
        )))) by {
            if all_digits(chars@, 0, j) && 0 < j <= chars@.len() && j > k {
                assert('0' <= chars@[k as int] <= '9');
            }
            if all_digits(chars@, 0, j) && 0 < j < k {
                assert('0' <= chars@[j] <= '9');
            }
        }
        return false;
    }
    let mut i: usize = k + 1;
    while i < n && '0' <= chars[i] && chars[i] <= '9'
        invariant
            k < i <= n == chars.len(),
            all_digits(chars@, k + 1, i as int),
        decreases n - i,
    {
        i += 1;
    }
    if i == n {
        assert(all_digits(chars@, 0, k as int));
        true
    } else {
        assert forall|j: int| !(#[trigger] all_digits(chars@, 0, j) && 0 < j <= chars@.len() && (j
            == chars@.len() || (chars@[j] == '.' && j + 1 < chars@.len() && all_digits(
            chars@,
            j + 1,
            chars@.len() as int,
        )))) by {
            if all_digits(chars@, 0, j) && 0 < j <= chars@.len() && j > k {
                assert('0' <= chars@[k as int] <= '9');
            }
            if all_digits(chars@, 0, j) && 0 < j < k {
                assert('0' <= chars@[j] <= '9');
            }
            if j == k && all_digits(chars@, j + 1, chars@.len() as int) {
                assert('0' <= chars@[i as int] <= '9');
            }
        }
        false
    }
}

} // verus!
