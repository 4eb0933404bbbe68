//! Unsigned 256-bit amounts, held as two 128-bit halves.

use vstd::prelude::*;
use vstd::bytes::*;
use vstd::slice::*;

verus! {

/// The number of values of a `u128`, two to the power 128.
pub open spec fn half_range() -> nat {
    (u128::MAX as nat) + 1
}

/// The number of values of an `Amount`, two to the power 256.
pub open spec fn full_range() -> nat {
    half_range() * half_range()
}

/// An unsigned 256-bit integer.
#[derive(Clone, Copy, Debug, PartialEq, Eq, Structural)]
pub struct Amount {
    pub hi: u128,
    pub lo: u128,
}

impl Amount {
    /// The number that the two halves stand for.
    pub open spec fn value(self) -> nat {
        (self.hi as nat) * half_range() + (self.lo as nat)
    }

    /// The sixteen low bytes followed by the sixteen high bytes, each half
    /// little-endian.
    pub open spec fn bytes(self) -> Seq<u8> {
        spec_u128_to_le_bytes(self.lo) + spec_u128_to_le_bytes(self.hi)
    }

    /// The amount that thirty-two bytes stand for.
    pub open spec fn of_bytes(s: Seq<u8>) -> Amount {
        Amount {
            hi: spec_u128_from_le_bytes(s.subrange(16, 32)),
            lo: spec_u128_from_le_bytes(s.subrange(0, 16)),
        }
    }

    pub fn zero() -> (r: Amount)
        ensures
            r.value() == 0,
            r == (Amount { hi: 0, lo: 0 }),
    {
        Amount { hi: 0, lo: 0 }
    }

    pub fn from_u128(x: u128) -> (r: Amount)
        ensures
            r.value() == x,
            r == (Amount { hi: 0, lo: x }),
    {
        Amount { hi: 0, lo: x }
    }

    pub fn is_zero(&self) -> (r: bool)
        ensures
            r == (self.value() == 0),
    {
        proof {
            assert(self.hi > 0 ==> (self.hi as nat) * half_range() >= half_range())
                by (nonlinear_arith);
        }
        self.hi == 0 && self.lo == 0
    }

    /// Strictly less, as numbers.
    pub fn lt(&self, other: &Amount) -> (r: bool)
        ensures
            r == (self.value() < other.value()),
    {
        proof {
            lemma_value_order(*self, *other);
            lemma_value_order(*other, *self);
        }
        self.hi < other.hi || (self.hi == other.hi && self.lo < other.lo)
    }

    /// The sum, or `None` where it does not fit in 256 bits.
    pub fn checked_add(&self, other: &Amount) -> (r: Option<Amount>)
        ensures
            r is Some <==> self.value() + other.value() < full_range(),
            r matches Some(s) ==> s.value() == self.value() + other.value(),
    {
        let lo: u128 = self.lo.wrapping_add(other.lo);
        let carry: u128 = if lo < self.lo { 1 } else { 0 };
        proof {
            assert(lo as nat + carry as nat * half_range() == self.lo as nat + other.lo as nat);
            assert(full_range() == half_range() * half_range());
            assert((self.hi as nat + other.hi as nat + carry as nat) * half_range()
                == self.hi as nat * half_range() + other.hi as nat * half_range()
                + carry as nat * half_range()) by (nonlinear_arith);
            lemma_halves_bound(self.hi as nat + other.hi as nat + carry as nat, lo as nat);
        }
        match self.hi.checked_add(other.hi) {
            None => None,
            Some(h) => match h.checked_add(carry) {
                None => None,
                Some(hi) => Some(Amount { hi, lo }),
            },
        }
    }

    /// The sum of two amounts that fits in 256 bits.
    pub fn add(&self, other: &Amount) -> (r: Amount)
        requires
            self.value() + other.value() < full_range(),
        ensures
            r.value() == self.value() + other.value(),
    {
        match self.checked_add(other) {
            Some(s) => s,
            None => Amount { hi: 0, lo: 0 },
        }
    }

    /// The difference of two amounts, the second no greater than the first.
    pub fn sub(&self, other: &Amount) -> (r: Amount)
        requires
            other.value() <= self.value(),
        ensures
            r.value() == self.value() - other.value(),
    {
        proof {
            lemma_value_order(*self, *other);
        }
        let lo: u128 = self.lo.wrapping_sub(other.lo);
        let borrow: u128 = if self.lo < other.lo { 1 } else { 0 };
        proof {
            assert(lo as int == self.lo as int - other.lo as int + borrow as int * half_range());
            assert((self.hi as int - other.hi as int - borrow as int) * half_range()
                == self.hi as int * half_range() - other.hi as int * half_range()
                - borrow as int * half_range()) by (nonlinear_arith);
        }
        let hi: u128 = self.hi - other.hi - borrow;
        Amount { hi, lo }
    }

    /// The thirty-two bytes that stand for the amount.
    pub fn to_bytes(&self) -> (r: Vec<u8>)
        ensures
            r@ == self.bytes(),
            r@.len() == 32,
    {
        let mut out: Vec<u8> = u128_to_le_bytes(self.lo);
        let mut high: Vec<u8> = u128_to_le_bytes(self.hi);
        out.append(&mut high);
        out
    }

    /// Reads an amount from thirty-two bytes.
    pub fn from_bytes(s: &[u8]) -> (r: Amount)
        requires
            s@.len() == 32,
        ensures
            r == Amount::of_bytes(s@),
    {
        let lo: u128 = u128_from_le_bytes(slice_subrange(s, 0, 16));
        let hi: u128 = u128_from_le_bytes(slice_subrange(s, 16, 32));
        Amount { hi, lo }
    }
}

/// Amounts are ordered by their high halves first.
pub proof fn lemma_value_order(a: Amount, b: Amount)
    ensures
        a.value() < b.value() <==> (a.hi < b.hi || (a.hi == b.hi && a.lo < b.lo)),
        a.value() == b.value() <==> a == b,
{
    assert(a.hi < b.hi ==> (a.hi as nat + 1) * half_range() <= (b.hi as nat) * half_range())
        by (nonlinear_arith);
    assert(b.hi < a.hi ==> (b.hi as nat + 1) * half_range() <= (a.hi as nat) * half_range())
        by (nonlinear_arith);
    assert((a.hi as nat + 1) * half_range() == (a.hi as nat) * half_range() + half_range())
        by (nonlinear_arith);
    assert((b.hi as nat + 1) * half_range() == (b.hi as nat) * half_range() + half_range())
        by (nonlinear_arith);
}

/// A high part and a low part below two to the 128 stay below two to the 256
/// exactly when the high part is below two to the 128.
pub proof fn lemma_halves_bound(h: nat, l: nat)
    requires
        l < half_range(),
    ensures
        h * half_range() + l < full_range() <==> h < half_range(),
{
    assert(h < half_range() ==> (h + 1) * half_range() <= half_range() * half_range())
        by (nonlinear_arith);
    assert(h >= half_range() ==> h * half_range() >= half_range() * half_range())
        by (nonlinear_arith);
    assert((h + 1) * half_range() == h * half_range() + half_range()) by (nonlinear_arith);
}

/// Reading back the bytes of an amount gives the amount.
pub proof fn lemma_bytes_round_trip(a: Amount)
    ensures
        a.bytes().len() == 32,
        Amount::of_bytes(a.bytes()) == a,
{
    lemma_auto_spec_u128_to_from_le_bytes();
    assert(a.bytes().subrange(0, 16) =~= spec_u128_to_le_bytes(a.lo));
    assert(a.bytes().subrange(16, 32) =~= spec_u128_to_le_bytes(a.hi));
}


/// Every amount is below two to the power 256.
pub proof fn lemma_value_bound(a: Amount)
    ensures
        a.value() < full_range(),
{
    lemma_halves_bound(a.hi as nat, a.lo as nat);
}


/// An unsigned fixed-point number with eighteen decimal places: `atomics`
/// counts units of ten to the power minus eighteen.
#[derive(Clone, Copy, Debug, PartialEq, Eq, Structural)]
pub struct Decimal256 {
    pub atomics: Amount,
}


/// The atomics of the decimal one: ten to the power eighteen.
pub const DECIMAL_FRACTIONAL: u128 = 1_000_000_000_000_000_000;

/// `Decimal256 * Decimal256` of cosmwasm_bignumber, on the atomics as
/// thirty-two little-endian bytes each: the product of the atomics, divided
/// by ten to the power eighteen and rounded down. A product of the atomics
/// that does not fit in 256 bits makes it panic, so it is left out.
#[verifier::external_body]
fn decimal_mul_bytes(a: &[u8], b: &[u8]) -> (r: Vec<u8>)
    requires
        a@.len() == 32,
        b@.len() == 32,
        Amount::of_bytes(a@).value() * Amount::of_bytes(b@).value() < full_range(),
    ensures
        r@.len() == 32,
        Amount::of_bytes(r@).value() == (Amount::of_bytes(a@).value() * Amount::of_bytes(
            b@,
        ).value()) / (DECIMAL_FRACTIONAL as nat),
{
    let x = cosmwasm_bignumber::Decimal256(bigint::U256::from_little_endian(a));
    let y = cosmwasm_bignumber::Decimal256(bigint::U256::from_little_endian(b));
    let mut out = vec![0u8; 32];
    (x * y).0.to_little_endian(&mut out);
    out
}

/// `Decimal256 / Decimal256` of cosmwasm_bignumber, on the atomics as
/// thirty-two little-endian bytes each: the dividend's atomics times ten to
/// the power eighteen, divided by the divisor's atomics and rounded down. A
/// zero divisor, or a dividend whose atomics times ten to the power eighteen
/// do not fit in 256 bits, makes it panic, so they are left out.
#[verifier::external_body]
fn decimal_div_bytes(a: &[u8], b: &[u8]) -> (r: Vec<u8>)
    requires
        a@.len() == 32,
        b@.len() == 32,
        Amount::of_bytes(b@).value() > 0,
        Amount::of_bytes(a@).value() * (DECIMAL_FRACTIONAL as nat) < full_range(),
    ensures
        r@.len() == 32,
        Amount::of_bytes(r@).value() == (Amount::of_bytes(a@).value() * (DECIMAL_FRACTIONAL as nat))
            / Amount::of_bytes(b@).value(),
{
    let x = cosmwasm_bignumber::Decimal256(bigint::U256::from_little_endian(a));
    let y = cosmwasm_bignumber::Decimal256(bigint::U256::from_little_endian(b));
    let mut out = vec![0u8; 32];
    (x / y).0.to_little_endian(&mut out);
    out
}

/// `U256::overflowing_mul` of bigint, on two numbers as thirty-two
/// little-endian bytes each: the flag it returns, which says that the product
/// does not fit in 256 bits.
#[verifier::external_body]
fn product_overflows(a: &[u8], b: &[u8]) -> (r: bool)
    requires
        a@.len() == 32,
        b@.len() == 32,
    ensures
        r == (Amount::of_bytes(a@).value() * Amount::of_bytes(b@).value() >= full_range()),
{
    let x = bigint::U256::from_little_endian(a);
    let y = bigint::U256::from_little_endian(b);
    x.overflowing_mul(y).1
}

impl Decimal256 {
    /// The number of units of ten to the power minus eighteen.
    pub open spec fn value(self) -> nat {
        self.atomics.value()
    }

    /// The decimal one.
    pub fn one() -> (r: Decimal256)
        ensures
            r.value() == DECIMAL_FRACTIONAL,
    {
        Decimal256 { atomics: Amount::from_u128(DECIMAL_FRACTIONAL) }
    }

    /// Strictly less, as numbers.
    pub fn lt(&self, other: &Decimal256) -> (r: bool)
        ensures
            r == (self.value() < other.value()),
    {
        self.atomics.lt(&other.atomics)
    }

    /// The sum of two decimals that fits in 256 bits.
    pub fn add(&self, other: &Decimal256) -> (r: Decimal256)
        requires
            self.value() + other.value() < full_range(),
        ensures
            r.value() == self.value() + other.value(),
    {
        Decimal256 { atomics: self.atomics.add(&other.atomics) }
    }

    /// The product of two decimals, rounded down to eighteen places.
    pub fn mul(&self, other: &Decimal256) -> (r: Decimal256)
        requires
            self.value() * other.value() < full_range(),
        ensures
            r.value() == (self.value() * other.value()) / (DECIMAL_FRACTIONAL as nat),
    {
        let a = self.atomics.to_bytes();
        let b = other.atomics.to_bytes();
        proof {
            lemma_bytes_round_trip(self.atomics);
            lemma_bytes_round_trip(other.atomics);
        }
        let out = decimal_mul_bytes(a.as_slice(), b.as_slice());
        Decimal256 { atomics: Amount::from_bytes(out.as_slice()) }
    }

    /// The sum, or `None` where it does not fit in 256 bits.
    pub fn checked_add(&self, other: &Decimal256) -> (r: Option<Decimal256>)
        ensures
            r is Some <==> self.value() + other.value() < full_range(),
            r matches Some(s) ==> s.value() == self.value() + other.value(),
    {
        match self.atomics.checked_add(&other.atomics) {
            Some(atomics) => Some(Decimal256 { atomics }),
            None => None,
        }
    }

    /// The product rounded down to eighteen places, or `None` where the
    /// product of the atomics does not fit in 256 bits.
    pub fn checked_mul(&self, other: &Decimal256) -> (r: Option<Decimal256>)
        ensures
            r is Some <==> self.value() * other.value() < full_range(),
            r matches Some(p) ==> p.value() == (self.value() * other.value()) / (
            DECIMAL_FRACTIONAL as nat),
    {
        let a = self.atomics.to_bytes();
        let b = other.atomics.to_bytes();
        proof {
            lemma_bytes_round_trip(self.atomics);
            lemma_bytes_round_trip(other.atomics);
        }
        if product_overflows(a.as_slice(), b.as_slice()) {
            None
        } else {
            Some(self.mul(other))
        }
    }

    /// The quotient rounded down to eighteen places, or `None` where the
    /// divisor is zero or the dividend's atomics times ten to the power
    /// eighteen do not fit in 256 bits.
    pub fn checked_div(&self, other: &Decimal256) -> (r: Option<Decimal256>)
        ensures
            r is Some <==> other.value() > 0 && self.value() * (DECIMAL_FRACTIONAL as nat)
                < full_range(),
            r matches Some(q) ==> q.value() == (self.value() * (DECIMAL_FRACTIONAL as nat))
                / other.value(),
    {
        let a = self.atomics.to_bytes();
        let one = Decimal256::one().atomics.to_bytes();
        proof {
            lemma_bytes_round_trip(self.atomics);
            lemma_bytes_round_trip(Amount { hi: 0, lo: DECIMAL_FRACTIONAL });
        }
        if other.atomics.is_zero() || product_overflows(a.as_slice(), one.as_slice()) {
            None
        } else {
            Some(self.div(other))
        }
    }

    /// The quotient of two decimals, rounded down to eighteen places.
    pub fn div(&self, other: &Decimal256) -> (r: Decimal256)
        requires
            other.value() > 0,
            self.value() * (DECIMAL_FRACTIONAL as nat) < full_range(),
        ensures
            r.value() == (self.value() * (DECIMAL_FRACTIONAL as nat)) / other.value(),
    {
        let a = self.atomics.to_bytes();
        let b = other.atomics.to_bytes();
        proof {
            lemma_bytes_round_trip(self.atomics);
            lemma_bytes_round_trip(other.atomics);
        }
        let out = decimal_div_bytes(a.as_slice(), b.as_slice());
        Decimal256 { atomics: Amount::from_bytes(out.as_slice()) }
    }
}

} // verus!
