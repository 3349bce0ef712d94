//! Integer arithmetic and tests as the instructions do them.

use vstd::prelude::*;
use crate::fault::Fault;
use crate::opcodes::Instruction;
use crate::runtime::FloatOp;

verus! {

/// The integer that `x` wraps to in 64 bits, two's complement.
pub open spec fn wrap_s64(x: int) -> i64 {
    let low = x % 0x1_0000_0000_0000_0000;
    if low < 0x8000_0000_0000_0000 {
        low as i64
    } else {
        (low - 0x1_0000_0000_0000_0000) as i64
    }
}

/// The quotient of `l` by `r`, rounded toward zero.
pub open spec fn trunc_div(l: int, r: int) -> int
    recommends
        r != 0,
{
    if l >= 0 && r > 0 {
        l / r
    } else if l < 0 && r < 0 {
        (-l) / (-r)
    } else if l < 0 {
        -((-l) / r)
    } else {
        -(l / (-r))
    }
}

/// The remainder that goes with `trunc_div`; it has the sign of `l`.
pub open spec fn trunc_rem(l: int, r: int) -> int
    recommends
        r != 0,
{
    if l >= 0 && r > 0 {
        l % r
    } else if l < 0 && r < 0 {
        -((-l) % (-r))
    } else if l < 0 {
        -((-l) % r)
    } else {
        l % (-r)
    }
}

/// What an integer instruction computes from its two operands. Sums,
/// differences and products wrap; quotient and remainder round toward zero
/// and fault where the host's division would.
pub open spec fn arith_s64(i: Instruction, l: i64, r: i64) -> Result<i64, Fault> {
    match i {
        Instruction::AddS64 { .. } => Ok(wrap_s64(l + r)),
        Instruction::SubS64 { .. } => Ok(wrap_s64(l - r)),
        Instruction::MulS64 { .. } => Ok(wrap_s64(l * r)),
        Instruction::DivS64 { .. } => if r == 0 {
            Err(Fault::DivisionByZero)
        } else if l == i64::MIN && r == -1 {
            Err(Fault::DivisionOverflow)
        } else {
            Ok(trunc_div(l as int, r as int) as i64)
        },
        Instruction::RemS64 { .. } => if r == 0 {
            Err(Fault::DivisionByZero)
        } else if l == i64::MIN && r == -1 {
            Err(Fault::DivisionOverflow)
        } else {
            Ok(trunc_rem(l as int, r as int) as i64)
        },
        _ => Ok(0),
    }
}

/// Whether a conditional branch is taken on the integer `v`.
pub open spec fn branch_taken(i: Instruction, v: i64) -> bool {
    match i {
        Instruction::BranchZ { .. } => v == 0,
        Instruction::BranchNz { .. } => v != 0,
        Instruction::BranchLz { .. } => v < 0,
        Instruction::BranchLez { .. } => v <= 0,
        Instruction::BranchGz { .. } => v > 0,
        Instruction::BranchGez { .. } => v >= 0,
        _ => false,
    }
}

/// The operation that a floating-point instruction asks for.
pub open spec fn float_op(i: Instruction) -> FloatOp {
    match i {
        Instruction::AddF64 { .. } => FloatOp::Add,
        Instruction::SubF64 { .. } => FloatOp::Sub,
        Instruction::MulF64 { .. } => FloatOp::Mul,
        Instruction::DivF64 { .. } => FloatOp::Div,
        _ => FloatOp::Rem,
    }
}

/// What an integer instruction computes from its two operands.
pub fn compute_s64(i: Instruction, l: i64, r: i64) -> (out: Result<i64, Fault>)
    ensures
        out == arith_s64(i, l, r),
{
    proof {
        lemma_wrap_s64(l + r);
        lemma_wrap_s64(l - r);
    }
    match i {
        Instruction::AddS64 { .. } => Ok(l.wrapping_add(r)),
        Instruction::SubS64 { .. } => Ok(l.wrapping_sub(r)),
        Instruction::MulS64 { .. } => Ok(l.wrapping_mul(r)),
        Instruction::DivS64 { .. } => {
            if r == 0 {
                Err(Fault::DivisionByZero)
            } else {
                proof {
                    lemma_checked_div(l, r);
                }
                match l.checked_div(r) {
                    Some(q) => Ok(q),
                    None => Err(Fault::DivisionOverflow),
                }
            }
        },
        Instruction::RemS64 { .. } => {
            if r == 0 {
                Err(Fault::DivisionByZero)
            } else {
                proof {
                    lemma_checked_rem(l, r);
                }
                match l.checked_rem(r) {
                    Some(q) => Ok(q),
                    None => Err(Fault::DivisionOverflow),
                }
            }
        },
        _ => Ok(0),
    }
}

/// Wrapping leaves an integer in range alone and brings one that is less than
/// a full turn out of range back by one turn.
pub proof fn lemma_wrap_s64(x: int)
    ensures
        i64::MIN <= x <= i64::MAX ==> wrap_s64(x) == x,
        i64::MAX < x <= i64::MAX + 0x1_0000_0000_0000_0000 ==> wrap_s64(x) == x
            - 0x1_0000_0000_0000_0000,
        i64::MIN - 0x1_0000_0000_0000_0000 <= x < i64::MIN ==> wrap_s64(x) == x
            + 0x1_0000_0000_0000_0000,
{
    let turn: int = 0x1_0000_0000_0000_0000;
    if 0 <= x < turn {
        vstd::arithmetic::div_mod::lemma_small_mod(x as nat, turn as nat);
    } else if -turn <= x < 0 {
        vstd::arithmetic::div_mod::lemma_mod_add_multiples_vanish(x, turn);
        vstd::arithmetic::div_mod::lemma_small_mod((x + turn) as nat, turn as nat);
    } else if turn <= x < 2 * turn {
        vstd::arithmetic::div_mod::lemma_mod_sub_multiples_vanish(x, turn);
        vstd::arithmetic::div_mod::lemma_small_mod((x - turn) as nat, turn as nat);
    }
}

/// The host's checked division is division rounded toward zero; it gives
/// nothing only for the least integer divided by minus one.
pub proof fn lemma_checked_div(l: i64, r: i64)
    requires
        r != 0,
    ensures
        !(l == i64::MIN && r == -1) ==> i64::MIN <= trunc_div(l as int, r as int) <= i64::MAX,
        l.checked_div(r) == if l == i64::MIN && r == -1 {
            None
        } else {
            Some(trunc_div(l as int, r as int) as i64)
        },
{
    let x = l as int;
    let d = r as int;
    if x == 0 {
        vstd::arithmetic::div_mod::lemma_div_basics_1(d);
        vstd::arithmetic::div_mod::lemma_div_basics_1(-d);
    } else if x > 0 && d > 0 {
        vstd::arithmetic::div_mod::lemma_div_basics_4(x, d);
        vstd::arithmetic::div_mod::lemma_div_basics_5(x, d);
    } else if x < 0 && d < 0 {
        assert(x * -1 == -x && d * -1 == -d);
        vstd::arithmetic::div_mod::lemma_div_basics_4(-x, -d);
        vstd::arithmetic::div_mod::lemma_div_basics_5(-x, -d);
        if d == -1 {
            vstd::arithmetic::div_mod::lemma_div_basics_2(-x);
        } else {
            vstd::arithmetic::div_mod::lemma_div_is_ordered_by_denominator(-x, 2, -d);
        }
    } else if x < 0 {
        assert(x * -1 == -x);
        vstd::arithmetic::div_mod::lemma_div_basics_4(-x, d);
        vstd::arithmetic::div_mod::lemma_div_basics_5(-x, d);
    } else {
        assert(d * -1 == -d);
        vstd::arithmetic::div_mod::lemma_div_basics_4(x, -d);
        vstd::arithmetic::div_mod::lemma_div_basics_5(x, -d);
    }
}

/// The host's checked remainder goes with division rounded toward zero; it
/// gives nothing only for the least integer divided by minus one.
pub proof fn lemma_checked_rem(l: i64, r: i64)
    requires
        r != 0,
    ensures
        i64::MIN <= trunc_rem(l as int, r as int) <= i64::MAX,
        l.checked_rem(r) == if l == i64::MIN && r == -1 {
            None
        } else {
            Some(trunc_rem(l as int, r as int) as i64)
        },
{
    let x = l as int;
    let d = r as int;
    if x == 0 {
        if d > 0 {
            vstd::arithmetic::div_mod::lemma_small_mod(0, d as nat);
        } else {
            vstd::arithmetic::div_mod::lemma_small_mod(0, (-d) as nat);
        }
    } else if x > 0 && d > 0 {
        vstd::arithmetic::div_mod::lemma_mod_pos_bound(x, d);
    } else if x < 0 && d < 0 {
        assert(x * -1 == -x && d * -1 == -d);
        vstd::arithmetic::div_mod::lemma_mod_pos_bound(-x, -d);
    } else if x < 0 {
        assert(x * -1 == -x);
        vstd::arithmetic::div_mod::lemma_mod_pos_bound(-x, d);
    } else {
        assert(d * -1 == -d);
        vstd::arithmetic::div_mod::lemma_mod_pos_bound(x, -d);
    }
}

/// Whether a conditional branch is taken on the integer `v`.
pub fn decide_branch(i: Instruction, v: i64) -> (taken: bool)
    ensures
        taken == branch_taken(i, v),
{
    match i {
        Instruction::BranchZ { .. } => v == 0,
        Instruction::BranchNz { .. } => v != 0,
        Instruction::BranchLz { .. } => v < 0,
        Instruction::BranchLez { .. } => v <= 0,
        Instruction::BranchGz { .. } => v > 0,
        Instruction::BranchGez { .. } => v >= 0,
        _ => false,
    }
}

} // verus!
