use randomi::buffs::{default_attack_op, default_lifetime, BuffLifeTime};
use randomi::eval::{pow_u32, EvalOp};
use randomi::modifiers::default_cap;
use randomi::utils::clamp;

#[test]
fn eval_computes_each_operation() {
    assert_eq!(EvalOp::Add.eval(3, 4), 7);
    assert_eq!(EvalOp::Sub.eval(10, 4), 6);
    assert_eq!(EvalOp::Mul.eval(3, 4), 12);
    assert_eq!(EvalOp::PowB.eval(2, 5), 32);
    assert_eq!(EvalOp::PowA.eval(2, 5), 25);
}

#[test]
fn pow_of_zero_exponent_is_one() {
    assert_eq!(pow_u32(7, 0), 1);
    assert_eq!(pow_u32(0, 0), 1);
    assert_eq!(pow_u32(0, 3), 0);
    assert_eq!(pow_u32(3, 4), 81);
}

#[test]
fn clamp_keeps_values_in_range() {
    assert_eq!(clamp(1, 5, 3), 3);
    assert_eq!(clamp(1, 5, 0), 1);
    assert_eq!(clamp(1, 5, 9), 5);
    assert_eq!(clamp(1, 5, 5), 5);
    // when max is below min, max wins
    assert_eq!(clamp(4, 2, 3), 2);
}

#[test]
fn defaults_of_card_definitions() {
    assert_eq!(default_attack_op(), EvalOp::Add);
    assert_eq!(default_lifetime(), BuffLifeTime::UntilNextTurnEnd);
    assert_eq!(default_cap(), u32::MAX);
}
