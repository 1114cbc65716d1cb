use vstd::prelude::*;
use vstd::arithmetic::power::pow;
use vstd::arithmetic::power::lemma_pow0;
use vstd::arithmetic::power::lemma0_pow;
use vstd::arithmetic::power::lemma1_pow;
use crate::error::Error;

verus! {

pub type IntegerType = i64;

/// A tagged scalar. This library computes exactly, over 64-bit integers.
#[derive(Clone, Copy, PartialEq, Eq, Structural, Debug)]
pub enum Numeric {
    Integer(IntegerType),
}

impl View for Numeric {
    type V = int;

    /// The number that the scalar stands for.
    open spec fn view(&self) -> int {
        match *self {
            Numeric::Integer(integer) => integer as int,
        }
    }
}

/// Whether `value` can be held in an `Integer`.
pub open spec fn representable(value: int) -> bool {
    i64::MIN <= value <= i64::MAX
}

/// The quotient of `a` by `b`, rounded toward zero.
pub open spec fn quotient(a: int, b: int) -> int
    recommends
        b != 0,
{
    if a >= 0 && b > 0 {
        a / b
    } else if a >= 0 {
        -(a / (-b))
    } else if b > 0 {
        -((-a) / b)
    } else {
        (-a) / (-b)
    }
}

/// The exponent that `pow` raises to: the low 32 bits of `exponent`, read as unsigned.
pub open spec fn unsigned_exponent(exponent: IntegerType) -> nat {
    (exponent as u32) as nat
}

/// The distance of `value` from zero.
pub open spec fn magnitude(value: int) -> int {
    if value < 0 {
        -value
    } else {
        value
    }
}

/// One more factor: `pow(base, exponent + 1)` is `base * pow(base, exponent)`.
proof fn lemma_power_step(base: int, exponent: nat)
    ensures
        pow(base, exponent + 1) == base * pow(base, exponent),
{
    reveal(pow);
}

/// Powers of minus one alternate between one and minus one.
proof fn lemma_power_of_minus_one(exponent: nat)
    ensures
        pow(-1, exponent) == if exponent % 2 == 0 { 1int } else { -1int },
    decreases exponent,
{
    if exponent == 0 {
        lemma_pow0(-1);
    } else {
        lemma_power_of_minus_one((exponent - 1) as nat);
        lemma_power_step(-1, (exponent - 1) as nat);
    }
}

/// Away from `-1`, `0` and `1`, a larger exponent gives a power at least as
/// far from zero, and at least twice as far where the exponent is larger.
proof fn lemma_power_grows(base: int, low: nat, high: nat)
    requires
        magnitude(base) >= 2,
        low <= high,
    ensures
        magnitude(pow(base, low)) >= 1,
        magnitude(pow(base, high)) >= magnitude(pow(base, low)),
        low < high ==> magnitude(pow(base, high)) >= 2 * magnitude(pow(base, low)),
    decreases high,
{
    if high == 0 {
        lemma_pow0(base);
    } else if low == high {
        lemma_power_grows(base, 0, (high - 1) as nat);
        lemma_power_step(base, (high - 1) as nat);
        let below = pow(base, (high - 1) as nat);
        assert(magnitude(base * below) >= magnitude(below)) by (nonlinear_arith)
            requires
                magnitude(base) >= 2,
        ;
    } else {
        lemma_power_grows(base, low, (high - 1) as nat);
        lemma_power_step(base, (high - 1) as nat);
        let below = pow(base, (high - 1) as nat);
        assert(magnitude(base * below) >= 2 * magnitude(below)) by (nonlinear_arith)
            requires
                magnitude(base) >= 2,
        ;
    }
}

/// Once a power of such a base has left the 64-bit range, every later one is outside it too.
proof fn lemma_power_stays_outside(base: int, low: nat, high: nat)
    requires
        magnitude(base) >= 2,
        low <= high,
        !representable(pow(base, low)),
    ensures
        !representable(pow(base, high)),
{
    lemma_power_grows(base, low, high);
}

impl Numeric {
    /// The scalar for `value`, where there is one.
    pub open spec fn of(value: int) -> Result<Numeric, Error> {
        if representable(value) {
            Ok(Numeric::Integer(value as i64))
        } else {
            Err(Error::Overflow)
        }
    }

    /// `-self`, where it fits.
    pub open spec fn negation(self) -> Result<Numeric, Error> {
        Numeric::of(-self@)
    }

    /// `self + other`, where it fits.
    pub open spec fn sum(self, other: Numeric) -> Result<Numeric, Error> {
        Numeric::of(self@ + other@)
    }

    /// `self - other`, where it fits.
    pub open spec fn difference(self, other: Numeric) -> Result<Numeric, Error> {
        Numeric::of(self@ - other@)
    }

    /// `self * other`, where it fits.
    pub open spec fn product(self, other: Numeric) -> Result<Numeric, Error> {
        Numeric::of(self@ * other@)
    }

    /// `self / other` rounded toward zero, where `other` is not zero and the
    /// quotient fits.
    pub open spec fn ratio(self, other: Numeric) -> Result<Numeric, Error> {
        if other@ == 0 {
            Err(Error::DivisionByZero)
        } else {
            Numeric::of(quotient(self@, other@))
        }
    }

    /// `self` raised to the unsigned exponent, where the power fits.
    pub open spec fn power(self, exponent: IntegerType) -> Result<Numeric, Error> {
        Numeric::of(pow(self@, unsigned_exponent(exponent)))
    }

    /// The integer one.
    pub fn one() -> (r: Numeric)
        ensures
            r == Numeric::Integer(1),
    {
        Numeric::Integer(1)
    }

    /// The integer zero.
    pub fn zero() -> (r: Numeric)
        ensures
            r == Numeric::Integer(0),
    {
        Numeric::Integer(0)
    }

    /// The scalar for `integer`.
    pub fn from_integer(integer: IntegerType) -> (r: Numeric)
        ensures
            r == Numeric::Integer(integer),
            r@ == integer,
    {
        Numeric::Integer(integer)
    }

    /// The integer that the scalar holds.
    pub fn to_integer(self) -> (integer: IntegerType)
        ensures
            integer == self@,
    {
        match self {
            Numeric::Integer(integer) => integer,
        }
    }

    /// Whether the scalar is zero.
    pub fn is_zero(&self) -> (b: bool)
        ensures
            b == (self@ == 0),
    {
        match self {
            Numeric::Integer(integer) => *integer == 0,
        }
    }

    /// Whether the scalar is one.
    pub fn is_unity(&self) -> (b: bool)
        ensures
            b == (self@ == 1),
    {
        match self {
            Numeric::Integer(integer) => *integer == 1,
        }
    }

    /// `-self`, or `Overflow` for the least integer.
    pub fn neg(self) -> (r: Result<Numeric, Error>)
        ensures
            r == self.negation(),
    {
        match 0i64.checked_sub(self.to_integer()) {
            Some(integer) => Ok(Numeric::Integer(integer)),
            None => Err(Error::Overflow),
        }
    }

    /// `self + other`, or `Overflow` where the sum does not fit.
    pub fn add(self, other: Numeric) -> (r: Result<Numeric, Error>)
        ensures
            r == self.sum(other),
    {
        match self.to_integer().checked_add(other.to_integer()) {
            Some(integer) => Ok(Numeric::Integer(integer)),
            None => Err(Error::Overflow),
        }
    }

    /// `self - other`, or `Overflow` where the difference does not fit.
    pub fn sub(self, other: Numeric) -> (r: Result<Numeric, Error>)
        ensures
            r == self.difference(other),
    {
        match self.to_integer().checked_sub(other.to_integer()) {
            Some(integer) => Ok(Numeric::Integer(integer)),
            None => Err(Error::Overflow),
        }
    }

    /// `self * other`, or `Overflow` where the product does not fit.
    pub fn mul(self, other: Numeric) -> (r: Result<Numeric, Error>)
        ensures
            r == self.product(other),
    {
        match self.to_integer().checked_mul(other.to_integer()) {
            Some(integer) => Ok(Numeric::Integer(integer)),
            None => Err(Error::Overflow),
        }
    }

    /// `self` raised to the low 32 bits of `exponent`, read as an unsigned
    /// number; `Overflow` where the power does not fit.
    pub fn pow(&self, exponent: IntegerType) -> (r: Result<Numeric, Error>)
        ensures
            r == self.power(exponent),
    {
        let base = self.to_integer();
        let count: u32 = #[verifier::truncate] (exponent as u32);
        if count == 0 {
            proof {
                lemma_pow0(base as int);
            }
            return Ok(Numeric::Integer(1));
        }
        if base == 0 {
            proof {
                lemma0_pow(count as nat);
            }
            return Ok(Numeric::Integer(0));
        }
        if base == 1 {
            proof {
                lemma1_pow(count as nat);
            }
            return Ok(Numeric::Integer(1));
        }
        if base == -1 {
            proof {
                lemma_power_of_minus_one(count as nat);
            }
            return Ok(Numeric::Integer(if count % 2 == 0 { 1 } else { -1 }));
        }
        let mut power: i64 = 1;
        let mut done: u32 = 0;
        proof {
            lemma_pow0(base as int);
        }
        while done < count
            invariant
                base == self@,
                count as nat == unsigned_exponent(exponent),
                done <= count,
                magnitude(base as int) >= 2,
                power == pow(base as int, done as nat),
            decreases count - done,
        {
            proof {
                lemma_power_step(base as int, done as nat);
            }
            match power.checked_mul(base) {
                Some(next) => {
                    assert(base * power == power * base) by (nonlinear_arith);
                    power = next;
                    done += 1;
                },
                None => {
                    proof {
                        assert(base * power == power * base) by (nonlinear_arith);
                        lemma_power_stays_outside(base as int, (done + 1) as nat, count as nat);
                    }
                    return Err(Error::Overflow);
                },
            }
        }
        Ok(Numeric::Integer(power))
    }

    /// `self / other` rounded toward zero; `DivisionByZero` where `other` is
    /// zero, `Overflow` where the quotient does not fit.
    pub fn div(self, other: Numeric) -> (r: Result<Numeric, Error>)
        ensures
            r == self.ratio(other),
    {
        let divisor = other.to_integer();
        if divisor == 0 {
            return Err(Error::DivisionByZero);
        }
        match self.to_integer().checked_div(divisor) {
            Some(integer) => Ok(Numeric::Integer(integer)),
            None => Err(Error::Overflow),
        }
    }
}

} // verus!
