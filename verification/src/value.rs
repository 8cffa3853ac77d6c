//! Exact rational numbers: the numeric values that expression trees hold and
//! that evaluation produces.

use vstd::prelude::*;

verus! {

/// A rational number: `num / den`, with a strictly positive denominator.
/// Results of arithmetic are not reduced to lowest terms; two values are
/// the same rational exactly when they cross-multiply equally.
#[derive(Clone, Copy, Debug, PartialEq, Eq, Structural)]
pub struct Value {
    pub num: i64,
    pub den: u64,
}

/// A failure of exact rational arithmetic during evaluation.
#[derive(Clone, Copy, Debug, PartialEq, Eq, Structural)]
pub enum ArithErr {
    /// The right operand of a division (or the base of a negative power)
    /// is zero.
    DivisionByZero,
    /// The exponent of a power is not an integer.
    FractionalExponent,
    /// An exact result does not fit the 64-bit numerator or denominator.
    Overflow,
}

/// Builds the rational `n / d` when it fits the machine representation;
/// overflow otherwise. The spec-level counterpart of every arithmetic result.
pub open spec fn rat_make(n: int, d: int) -> Result<Value, ArithErr> {
    if i64::MIN <= n <= i64::MAX && d <= u64::MAX {
        Ok(Value { num: n as i64, den: d as u64 })
    } else {
        Err(ArithErr::Overflow)
    }
}

pub open spec fn rat_add(a: Value, b: Value) -> Result<Value, ArithErr> {
    rat_make(
        (a.num as int) * (b.den as int) + (b.num as int) * (a.den as int),
        (a.den as int) * (b.den as int),
    )
}

pub open spec fn rat_sub(a: Value, b: Value) -> Result<Value, ArithErr> {
    rat_make(
        (a.num as int) * (b.den as int) - (b.num as int) * (a.den as int),
        (a.den as int) * (b.den as int),
    )
}

pub open spec fn rat_mul(a: Value, b: Value) -> Result<Value, ArithErr> {
    rat_make((a.num as int) * (b.num as int), (a.den as int) * (b.den as int))
}

/// The magnitude of an integer.
pub open spec fn int_abs(n: int) -> int {
    if n < 0 {
        -n
    } else {
        n
    }
}

/// The reciprocal of `b`, as a rational.
pub open spec fn rat_invert(b: Value) -> Result<Value, ArithErr> {
    if b.num == 0 {
        Err(ArithErr::DivisionByZero)
    } else if b.num > 0 {
        if b.den <= i64::MAX {
            Ok(Value { num: b.den as i64, den: b.num as u64 })
        } else {
            Err(ArithErr::Overflow)
        }
    } else {
        if b.den <= 0x8000000000000000 {
            Ok(Value { num: (-(b.den as int)) as i64, den: (-(b.num as int)) as u64 })
        } else {
            Err(ArithErr::Overflow)
        }
    }
}

/// `base` multiplied by itself `k` times, by the chain
/// `1, base, base * base, ...` of (unreduced) products; the first product
/// that leaves the machine range makes the whole power an overflow.
pub open spec fn rat_pow_step(base: Value, k: nat) -> Result<Value, ArithErr>
    decreases k,
{
    if k == 0 {
        Ok(Value { num: 1i64, den: 1u64 })
    } else {
        match rat_pow_step(base, (k - 1) as nat) {
            Ok(p) => rat_mul(p, base),
            Err(e) => Err(e),
        }
    }
}

/// `base` to the power `k`, `k` a non-negative integer. The bases `1`, `-1`
/// and `0` (in lowest terms) are taken directly, since their product chains
/// repeat instead of outgrowing the machine range; every other chain reaches
/// its value or an overflow within a bounded number of steps.
pub open spec fn rat_pow_nonneg(base: Value, k: nat) -> Result<Value, ArithErr> {
    if base == (Value { num: 1i64, den: 1u64 }) {
        Ok(base)
    } else if base == (Value { num: -1i64, den: 1u64 }) {
        if k % 2 == 0 {
            Ok(Value { num: 1i64, den: 1u64 })
        } else {
            Ok(Value { num: -1i64, den: 1u64 })
        }
    } else if base.num == 0 && base.den == 1 && k > 0 {
        Ok(Value { num: 0i64, den: 1u64 })
    } else {
        rat_pow_step(base, k)
    }
}

/// `base` to the power `exp`: defined when `exp` is an integer; a negative
/// exponent is the positive power of the reciprocal.
pub open spec fn rat_pow(base: Value, exp: Value) -> Result<Value, ArithErr> {
    if int_abs(exp.num as int) % (exp.den as int) != 0 {
        Err(ArithErr::FractionalExponent)
    } else {
        let k = (int_abs(exp.num as int) / (exp.den as int)) as nat;
        if exp.num >= 0 {
            rat_pow_nonneg(base, k)
        } else {
            match rat_invert(base) {
                Ok(inv) => rat_pow_nonneg(inv, k),
                Err(e) => Err(e),
            }
        }
    }
}

pub open spec fn rat_div(a: Value, b: Value) -> Result<Value, ArithErr> {
    if b.num == 0 {
        Err(ArithErr::DivisionByZero)
    } else if b.num > 0 {
        rat_make((a.num as int) * (b.den as int), (a.den as int) * (b.num as int))
    } else {
        rat_make(-(a.num as int) * (b.den as int), (a.den as int) * -(b.num as int))
    }
}

impl Value {
    /// Denominators are strictly positive.
    pub open spec fn wf(self) -> bool {
        1 <= self.den
    }

    /// The integer `n`, as a rational.
    pub fn from_int(n: i64) -> (r: Value)
        ensures
            r == (Value { num: n, den: 1u64 }),
    {
        Value { num: n, den: 1 }
    }

    pub fn add(self, other: Value) -> (r: Result<Value, ArithErr>)
        requires
            self.wf(),
            other.wf(),
        ensures
            r == rat_add(self, other),
            r matches Ok(v) ==> v.wf(),
    {
        let p1: i128 = widen_mul(self.num, other.den);
        let p2: i128 = widen_mul(other.num, self.den);
        let n: i128 = match p1.checked_add(p2) {
            Some(n) => n,
            None => {
                return Err(ArithErr::Overflow);
            },
        };
        let d: u128 = widen_den_mul(self.den, other.den);
        narrow(n, d)
    }

    pub fn sub(self, other: Value) -> (r: Result<Value, ArithErr>)
        requires
            self.wf(),
            other.wf(),
        ensures
            r == rat_sub(self, other),
            r matches Ok(v) ==> v.wf(),
    {
        let p1: i128 = widen_mul(self.num, other.den);
        let p2: i128 = widen_mul(other.num, self.den);
        let n: i128 = match p1.checked_sub(p2) {
            Some(n) => n,
            None => {
                return Err(ArithErr::Overflow);
            },
        };
        let d: u128 = widen_den_mul(self.den, other.den);
        narrow(n, d)
    }

    pub fn mul(self, other: Value) -> (r: Result<Value, ArithErr>)
        requires
            self.wf(),
            other.wf(),
        ensures
            r == rat_mul(self, other),
            r matches Ok(v) ==> v.wf(),
    {
        proof {
            lemma_i64_i64_product_fits(self.num as int, other.num as int);
        }
        let n: i128 = (self.num as i128) * (other.num as i128);
        let d: u128 = widen_den_mul(self.den, other.den);
        narrow(n, d)
    }

    pub fn invert(self) -> (r: Result<Value, ArithErr>)
        requires
            self.wf(),
        ensures
            r == rat_invert(self),
            r matches Ok(v) ==> v.wf(),
    {
        if self.num == 0 {
            Err(ArithErr::DivisionByZero)
        } else if self.num > 0 {
            if self.den <= i64::MAX as u64 {
                Ok(Value { num: self.den as i64, den: self.num as u64 })
            } else {
                Err(ArithErr::Overflow)
            }
        } else {
            if self.den <= 0x8000000000000000u64 {
                let negden: i128 = -(self.den as i128);
                let negnum: i128 = -(self.num as i128);
                Ok(Value { num: negden as i64, den: negnum as u64 })
            } else {
                Err(ArithErr::Overflow)
            }
        }
    }

    pub fn pow(self, exp: Value) -> (r: Result<Value, ArithErr>)
        requires
            self.wf(),
            exp.wf(),
        ensures
            r == rat_pow(self, exp),
            r matches Ok(v) ==> v.wf(),
    {
        let mag: u128 = if exp.num >= 0 {
            exp.num as u128
        } else {
            (-(exp.num as i128)) as u128
        };
        let den: u128 = exp.den as u128;
        if mag % den != 0 {
            return Err(ArithErr::FractionalExponent);
        }
        let k128: u128 = mag / den;
        proof {
            vstd::arithmetic::div_mod::lemma_div_nonincreasing(mag as int, den as int);
        }
        let k: u64 = k128 as u64;
        if exp.num >= 0 {
            self.pow_nonneg(k)
        } else {
            match self.invert() {
                Ok(inv) => inv.pow_nonneg(k),
                Err(e) => Err(e),
            }
        }
    }

    fn pow_nonneg(self, k: u64) -> (r: Result<Value, ArithErr>)
        requires
            self.wf(),
        ensures
            r == rat_pow_nonneg(self, k as nat),
            r matches Ok(v) ==> v.wf(),
    {
        if self.num == 1 && self.den == 1 {
            return Ok(self);
        }
        if self.num == -1 && self.den == 1 {
            return Ok(
                if k % 2 == 0 {
                    Value { num: 1i64, den: 1u64 }
                } else {
                    Value { num: -1i64, den: 1u64 }
                },
            );
        }
        if self.num == 0 && self.den == 1 && k > 0 {
            return Ok(Value { num: 0i64, den: 1u64 });
        }
        let mut acc = Value { num: 1i64, den: 1u64 };
        let mut i: u64 = 0;
        while i < k
            invariant
                self.wf(),
                acc.wf(),
                i <= k,
                rat_pow_step(self, i as nat) == Ok::<Value, ArithErr>(acc),
                rat_pow_nonneg(self, k as nat) == rat_pow_step(self, k as nat),
            decreases k - i,
        {
            match acc.mul(self) {
                Ok(v) => {
                    acc = v;
                    i = i + 1;
                },
                Err(e) => {
                    proof {
                        assert(rat_pow_step(self, (i + 1) as nat) == rat_mul(acc, self));
                        lemma_pow_step_err(self, (i + 1) as nat, k as nat);
                    }
                    return Err(e);
                },
            }
        }
        Ok(acc)
    }

    pub fn div(self, other: Value) -> (r: Result<Value, ArithErr>)
        requires
            self.wf(),
            other.wf(),
        ensures
            r == rat_div(self, other),
            r matches Ok(v) ==> v.wf(),
    {
        if other.num == 0 {
            Err(ArithErr::DivisionByZero)
        } else if other.num > 0 {
            let n: i128 = widen_mul(self.num, other.den);
            proof {
                lemma_u64_i64pos_product_fits(self.den as int, other.num as int);
            }
            let d: u128 = (self.den as u128) * (other.num as u128);
            narrow(n, d)
        } else {
            let n: i128 = -widen_mul(self.num, other.den);
            proof {
                lemma_u64_i64pos_product_fits(self.den as int, -(other.num as int));
            }
            let neg: i128 = -(other.num as i128);
            let d: u128 = (self.den as u128) * (neg as u128);
            assert(n as int == -(self.num as int) * (other.den as int)) by (nonlinear_arith)
                requires
                    n as int == -((self.num as int) * (other.den as int)),
            ;
            assert(d as int == (self.den as int) * -(other.num as int));
            narrow(n, d)
        }
    }
}

/// `a * b` for a 64-bit signed `a` and a 64-bit unsigned `b`, exactly.
fn widen_mul(a: i64, b: u64) -> (r: i128)
    ensures
        r == (a as int) * (b as int),
        i128::MIN < r,
{
    proof {
        lemma_i64_u64_product_fits(a as int, b as int);
    }
    (a as i128) * (b as i128)
}

/// The product of two denominators, exactly.
fn widen_den_mul(a: u64, b: u64) -> (r: u128)
    requires
        1 <= a,
        1 <= b,
    ensures
        r == (a as int) * (b as int),
        1 <= r,
{
    proof {
        lemma_u64_u64_product_fits(a as int, b as int);
    }
    (a as u128) * (b as u128)
}

/// Fits the exact rational `n / d` back into a `Value`, or reports overflow;
/// agrees with `rat_make`.
fn narrow(n: i128, d: u128) -> (r: Result<Value, ArithErr>)
    requires
        1 <= d,
    ensures
        r == rat_make(n as int, d as int),
        r matches Ok(v) ==> v.wf(),
{
    if n < i64::MIN as i128 || n > i64::MAX as i128 || d > u64::MAX as u128 {
        Err(ArithErr::Overflow)
    } else {
        Ok(Value { num: n as i64, den: d as u64 })
    }
}

/// Once one product of the chain behind `rat_pow_step` fails, every longer
/// chain fails the same way.
proof fn lemma_pow_step_err(base: Value, j: nat, k: nat)
    requires
        j <= k,
        rat_pow_step(base, j) is Err,
    ensures
        rat_pow_step(base, k) == rat_pow_step(base, j),
    decreases k,
{
    if k > j {
        lemma_pow_step_err(base, j, (k - 1) as nat);
    }
}

proof fn lemma_i64_u64_product_fits(a: int, b: int)
    requires
        i64::MIN <= a <= i64::MAX,
        0 <= b <= u64::MAX,
    ensures
        i128::MIN < a * b <= i128::MAX,
{
    assert(i128::MIN < a * b <= i128::MAX) by (nonlinear_arith)
        requires
            i64::MIN <= a <= i64::MAX,
            0 <= b <= u64::MAX,
    ;
}

proof fn lemma_u64_u64_product_fits(a: int, b: int)
    requires
        0 <= a <= u64::MAX,
        0 <= b <= u64::MAX,
    ensures
        0 <= a * b <= u128::MAX,
        1 <= a && 1 <= b ==> 1 <= a * b,
{
    assert(0 <= a * b <= u128::MAX && (1 <= a && 1 <= b ==> 1 <= a * b)) by (nonlinear_arith)
        requires
            0 <= a <= u64::MAX,
            0 <= b <= u64::MAX,
    ;
}

proof fn lemma_i64_i64_product_fits(a: int, b: int)
    requires
        i64::MIN <= a <= i64::MAX,
        i64::MIN <= b <= i64::MAX,
    ensures
        i128::MIN <= a * b <= i128::MAX,
{
    assert(i128::MIN <= a * b <= i128::MAX) by (nonlinear_arith)
        requires
            i64::MIN <= a <= i64::MAX,
            i64::MIN <= b <= i64::MAX,
    ;
}

proof fn lemma_u64_i64pos_product_fits(a: int, b: int)
    requires
        1 <= a <= u64::MAX,
        0 < b <= 0x8000000000000000,
    ensures
        0 < a * b <= u128::MAX,
{
    assert(0 < a * b <= u128::MAX) by (nonlinear_arith)
        requires
            1 <= a <= u64::MAX,
            0 < b <= 0x8000000000000000,
    ;
}

} // verus!
