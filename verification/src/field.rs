//! The prime field that circuit cells hold values of.
//!
//! Gate polynomials are expressed purely through `zero`, `one`, `from_u64`,
//! addition, negation and multiplication on `Fp`, the field of integers
//! modulo the small prime [`MODULUS`].

use vstd::prelude::*;

verus! {

/// The field modulus, a prime. Keeping it small lets every arithmetic fact
/// the checker relies on be proved outright, including that the field has no
/// zero divisors.
pub const MODULUS: u64 = 251;

/// Mathematical addition in the field, on canonical representatives.
pub open spec fn fadd(a: int, b: int) -> int {
    (a + b) % (MODULUS as int)
}

/// Mathematical negation in the field, on a canonical representative.
pub open spec fn fneg(a: int) -> int {
    ((MODULUS as int) - a) % (MODULUS as int)
}

/// Mathematical subtraction in the field, on canonical representatives.
pub open spec fn fsub(a: int, b: int) -> int {
    fadd(a, fneg(b))
}

/// Mathematical multiplication in the field, on canonical representatives.
pub open spec fn fmul(a: int, b: int) -> int {
    (a * b) % (MODULUS as int)
}

/// An element of the prime field of order [`MODULUS`], kept in canonical
/// reduced form.
#[derive(Clone, Copy, Debug, PartialEq, Eq, Structural, Hash)]
pub struct Fp {
    u: u64,
}

/// The canonical representative of `v` as a field element.
pub closed spec fn fp_of(v: int) -> Fp {
    Fp { u: (v % (MODULUS as int)) as u64 }
}

impl Fp {
    /// The canonical representative of this element, in `[0, MODULUS)`.
    pub closed spec fn val(self) -> int {
        self.u as int
    }

    /// Every run-time field element is in canonical form; `use_type_invariant`
    /// recovers this bound for any element in hand.
    #[verifier::type_invariant]
    pub open spec fn valid(self) -> bool {
        0 <= self.val() < MODULUS as int
    }

    /// Two field elements with one representative are one element.
    pub proof fn lemma_ext(a: Fp, b: Fp)
        ensures
            (a == b) <==> (a.val() == b.val()),
    {
    }

    /// The element standing for the integer `x`.
    pub fn from_u64(x: u64) -> (r: Fp)
        ensures
            r == fp_of(x as int),
            r.val() == (x as int) % (MODULUS as int),
    {
        Fp { u: x % MODULUS }
    }

    /// The additive identity.
    pub fn zero() -> (r: Fp)
        ensures
            r == fp_of(0),
            r.val() == 0,
    {
        Fp { u: 0 }
    }

    /// The multiplicative identity.
    pub fn one() -> (r: Fp)
        ensures
            r == fp_of(1),
            r.val() == 1,
    {
        Fp { u: 1 }
    }

    /// Field addition.
    pub fn add(self, o: Fp) -> (r: Fp)
        ensures
            r.val() == fadd(self.val(), o.val()),
    {
        proof {
            use_type_invariant(self);
            use_type_invariant(o);
        }
        Fp { u: (self.u + o.u) % MODULUS }
    }

    /// Field negation.
    pub fn neg(self) -> (r: Fp)
        ensures
            r.val() == fneg(self.val()),
    {
        proof {
            use_type_invariant(self);
        }
        Fp { u: (MODULUS - self.u) % MODULUS }
    }

    /// Field subtraction.
    pub fn sub(self, o: Fp) -> (r: Fp)
        ensures
            r.val() == fsub(self.val(), o.val()),
    {
        self.add(o.neg())
    }

    /// Field multiplication.
    pub fn mul(self, o: Fp) -> (r: Fp)
        ensures
            r.val() == fmul(self.val(), o.val()),
    {
        proof {
            use_type_invariant(self);
            use_type_invariant(o);
            assert(self.u * o.u < 251 * 251) by (nonlinear_arith)
                requires
                    self.u < 251 && o.u < 251,
            ;
        }
        Fp { u: (self.u * o.u) % MODULUS }
    }

    /// The canonical representative, as a machine integer.
    pub fn to_u64(self) -> (r: u64)
        ensures
            r as int == self.val(),
    {
        self.u
    }
}

/// The representative of `fp_of(v)` is `v` reduced modulo [`MODULUS`].
pub proof fn lemma_fp_of_val(v: int)
    ensures
        fp_of(v).val() == v % (MODULUS as int),
{
    vstd::arithmetic::div_mod::lemma_mod_bound(v, MODULUS as int);
}

/// The field has no zero divisors: a product of two nonzero elements is
/// nonzero. This is where primality of [`MODULUS`] enters the development.
pub proof fn lemma_fmul_nonzero(a: int, b: int)
    requires
        0 < a < MODULUS as int,
        0 < b < MODULUS as int,
    ensures
        fmul(a, b) != 0,
{
    let x = a as u32;
    let y = b as u32;
    assert(x * y % 251 != 0) by (bit_vector)
        requires
            0 < x < 251 && 0 < y < 251,
    ;
}

/// Subtraction detects equality: `a - b` vanishes exactly when `a == b`.
pub proof fn lemma_fsub_zero_iff(a: int, b: int)
    requires
        0 <= a < MODULUS as int,
        0 <= b < MODULUS as int,
    ensures
        (fsub(a, b) == 0) <==> (a == b),
{
    if b == 0 {
        assert(fneg(b) == 0);
    } else {
        assert(fneg(b) == (MODULUS as int) - b);
    }
}

/// A cell value that may still be unknown: concrete during synthesis of a
/// real instance, absent when a circuit runs structurally without witnesses.
/// Arithmetic on an unknown value propagates the unknown.
#[derive(Clone, Copy, Debug, PartialEq, Eq, Structural)]
pub enum Value {
    Unknown,
    Known(Fp),
}

impl Value {
    /// The value as an optional field element.
    pub open spec fn as_opt(self) -> Option<Fp> {
        match self {
            Value::Unknown => None,
            Value::Known(x) => Some(x),
        }
    }
}

/// Multiplication on possibly-unknown values; unknown propagates.
pub open spec fn opt_mul(a: Option<Fp>, b: Option<Fp>) -> Option<Fp> {
    match (a, b) {
        (Some(x), Some(y)) => Some(fp_of(fmul(x.val(), y.val()))),
        _ => None,
    }
}

/// Witness-side multiplication: known times known is their product, anything
/// involving an unknown stays unknown.
pub fn value_mul(a: Value, b: Value) -> (r: Value)
    ensures
        r.as_opt() == opt_mul(a.as_opt(), b.as_opt()),
{
    match (a, b) {
        (Value::Known(x), Value::Known(y)) => {
            let p = x.mul(y);
            proof {
                use_type_invariant(p);
                Fp::lemma_ext(p, fp_of(fmul(x.val(), y.val())));
                lemma_fp_of_val(fmul(x.val(), y.val()));
                vstd::arithmetic::div_mod::lemma_small_mod(
                    fmul(x.val(), y.val()) as nat,
                    MODULUS as nat,
                );
            }
            Value::Known(p)
        },
        _ => Value::Unknown,
    }
}

} // verus!
