use vstd::prelude::*;
use vstd::arithmetic::power::{pow, lemma_pow_increases, lemma0_pow, lemma_pow1};

verus! {

/// The calculation to perform on two values.
#[derive(Clone, Copy, PartialEq, Eq, Structural, Debug)]
pub enum EvalOp {
    Add,
    Sub,
    Mul,
    /// `a` raised to the power `b`
    PowB,
    /// `b` raised to the power `a`
    PowA,
}

/// The mathematical value of `op` applied to `a` and `b`.
pub open spec fn spec_eval(op: EvalOp, a: int, b: int) -> int {
    match op {
        EvalOp::Add => a + b,
        EvalOp::Sub => a - b,
        EvalOp::Mul => a * b,
        EvalOp::PowB => pow(a, b as nat),
        EvalOp::PowA => pow(b, a as nat),
    }
}

/// `op` applied to `a` and `b` gives a value that a `u32` holds
/// (otherwise the arithmetic overflows).
pub open spec fn eval_defined(op: EvalOp, a: int, b: int) -> bool {
    0 <= spec_eval(op, a, b) <= u32::MAX
}

/// `base` raised to the power `exp`.
pub fn pow_u32(base: u32, exp: u32) -> (r: u32)
    requires
        pow(base as int, exp as nat) <= u32::MAX,
    ensures
        r == pow(base as int, exp as nat),
{
    let mut r: u32 = 1;
    let mut i: u32 = 0;
    proof {
        lemma_pow1(base as int);
        reveal(pow);
    }
    while i < exp
        invariant
            i <= exp,
            r == pow(base as int, i as nat),
            pow(base as int, exp as nat) <= u32::MAX,
        decreases exp - i,
    {
        proof {
            reveal(pow);
            assert(pow(base as int, (i + 1) as nat) == base * pow(base as int, i as nat));
            if base == 0 {
                assert(r * base == 0) by (nonlinear_arith) requires base == 0;
            } else {
                lemma_pow_increases(base as nat, (i + 1) as nat, exp as nat);
            }
            assert(r * base == base * r) by (nonlinear_arith);
        }
        r = r * base;
        i = i + 1;
    }
    r
}

impl EvalOp {
    /// Computes `a op b`.
    pub fn eval(&self, a: u32, b: u32) -> (r: u32)
        requires
            eval_defined(*self, a as int, b as int),
        ensures
            r == spec_eval(*self, a as int, b as int),
    {
        match *self {
            EvalOp::Add => a + b,
            EvalOp::Sub => a - b,
            EvalOp::Mul => a * b,
            EvalOp::PowB => pow_u32(a, b),
            EvalOp::PowA => pow_u32(b, a),
        }
    }
}

} // verus!
