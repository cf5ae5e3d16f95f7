//! Common builtins.
//!
//! [`apply_op`] is the ghost meaning of every data builtin: a function from
//! the operand stack to either the next stack or the first error together
//! with the stack as the failure left it (operands already popped are
//! consumed, not restored). The executable [`apply_builtin`] is proved to
//! follow it exactly. Control-flow and definition builtins touch the frame
//! stack and the method table and are given their meaning in `vm`.
//! The `insert_*` functions register the standard names.

use vstd::prelude::*;
use vstd::string::StringExecFns;
use crate::item::{Stack, StackItem, StackItemView};
use crate::text::{int_dec_seq, i64_to_string};
use crate::vm::{BuiltinOp, Error, ErrorView, MethodView, Vm};

verus! {

/// What one data builtin does to the operand stack: either the next stack,
/// or an error and the stack as it stands at the failure.
#[verifier::ext_equal]
pub ghost enum OpOutcome {
    Next(Seq<StackItemView>),
    Stop(ErrorView, Seq<StackItemView>),
}

/// The builtins whose whole effect is on the operand stack; the others
/// (control flow and `fn`) also touch the frame stack or the method table.
pub open spec fn is_data_op(op: BuiltinOp) -> bool {
    !(op is If || op is IfElse || op is While || op is Times || op is Fn)
}

/// Decide [`is_data_op`] on one op.
pub fn is_data_builtin(op: BuiltinOp) -> (r: bool)
    ensures
        r == is_data_op(op),
{
    match op {
        BuiltinOp::If | BuiltinOp::IfElse | BuiltinOp::While | BuiltinOp::Times
            | BuiltinOp::Fn => false,
        _ => true,
    }
}

/// Truncating integer division, the native policy of the machine integers.
pub open spec fn trunc_div(a: int, b: int) -> int {
    if a == 0 {
        0
    } else if a > 0 && b > 0 {
        a / b
    } else if a < 0 && b < 0 {
        ((a * -1) / (b * -1))
    } else if a < 0 {
        ((a * -1) / b) * -1
    } else {
        (a / (b * -1)) * -1
    }
}

/// Push an integer result if it fits the machine integer, else overflow.
pub open spec fn push_int(rest: Seq<StackItemView>, v: int) -> OpOutcome {
    if i64::MIN <= v <= i64::MAX {
        OpOutcome::Next(rest.push(StackItemView::Integer(v)))
    } else {
        OpOutcome::Stop(ErrorView::IntegerOverflow, rest)
    }
}

/// The failing outcome of popping twice from a stack shorter than two.
pub open spec fn underflow2(s: Seq<StackItemView>) -> OpOutcome {
    if s.len() == 0 {
        OpOutcome::Stop(ErrorView::StackUnderflow, s)
    } else {
        OpOutcome::Stop(ErrorView::StackUnderflow, s.drop_last())
    }
}

/// One binary arithmetic step: both operands must be integers; division by
/// zero and results out of the machine range fail.
pub open spec fn apply_arith(op: BuiltinOp, s: Seq<StackItemView>) -> OpOutcome {
    if s.len() < 2 {
        underflow2(s)
    } else {
        let n2 = s.last();
        let n1 = s[s.len() - 2];
        let rest = s.drop_last().drop_last();
        match (n1, n2) {
            (StackItemView::Integer(a), StackItemView::Integer(b)) => {
                if op is Add {
                    push_int(rest, a + b)
                } else if op is Sub {
                    push_int(rest, a - b)
                } else if op is Mul {
                    push_int(rest, a * b)
                } else {
                    if b == 0 {
                        OpOutcome::Stop(ErrorView::DivideByZero, rest)
                    } else {
                        push_int(rest, trunc_div(a, b))
                    }
                }
            },
            _ => OpOutcome::Stop(ErrorView::TypeError, rest),
        }
    }
}

/// The meaning of every data builtin. Operands are popped right operand
/// first; a type test failure consumes them and reports `TypeError`.
pub open spec fn apply_op(op: BuiltinOp, s: Seq<StackItemView>) -> OpOutcome
    recommends
        is_data_op(op),
{
    match op {
        BuiltinOp::Add | BuiltinOp::Sub | BuiltinOp::Mul | BuiltinOp::Div => apply_arith(op, s),
        BuiltinOp::AsInteger => {
            if s.len() == 0 {
                OpOutcome::Stop(ErrorView::StackUnderflow, s)
            } else {
                match s.last() {
                    StackItemView::Integer(a) => OpOutcome::Next(s),
                    _ => OpOutcome::Stop(ErrorView::TypeError, s.drop_last()),
                }
            }
        },
        BuiltinOp::AsFloat => {
            if s.len() == 0 {
                OpOutcome::Stop(ErrorView::StackUnderflow, s)
            } else {
                match s.last() {
                    // No floating representation exists in this build, so no
                    // integer is representable as one.
                    StackItemView::Integer(a) => OpOutcome::Stop(
                        ErrorView::NumericConversion,
                        s.drop_last(),
                    ),
                    _ => OpOutcome::Stop(ErrorView::TypeError, s.drop_last()),
                }
            }
        },
        BuiltinOp::ToString => {
            if s.len() == 0 {
                OpOutcome::Stop(ErrorView::StackUnderflow, s)
            } else {
                match s.last() {
                    StackItemView::Str(t) => OpOutcome::Next(s),
                    StackItemView::Integer(a) => OpOutcome::Next(
                        s.drop_last().push(StackItemView::Str(int_dec_seq(a))),
                    ),
                    _ => OpOutcome::Stop(ErrorView::TypeError, s.drop_last()),
                }
            }
        },
        BuiltinOp::Swap => {
            if s.len() < 2 {
                underflow2(s)
            } else {
                let b = s.last();
                let a = s[s.len() - 2];
                OpOutcome::Next(s.drop_last().drop_last().push(b).push(a))
            }
        },
        BuiltinOp::Dup => {
            if s.len() == 0 {
                OpOutcome::Stop(ErrorView::StackUnderflow, s)
            } else {
                OpOutcome::Next(s.push(s.last()))
            }
        },
        BuiltinOp::CloneNth => {
            if s.len() == 0 {
                OpOutcome::Stop(ErrorView::StackUnderflow, s)
            } else {
                match s.last() {
                    StackItemView::Integer(n) => {
                        let rest = s.drop_last();
                        if n < 0 {
                            OpOutcome::Stop(ErrorView::IntegerOverflow, rest)
                        } else if n > rest.len() || n == 0 {
                            OpOutcome::Stop(ErrorView::OutOfBounds, rest)
                        } else {
                            OpOutcome::Next(rest.push(rest[rest.len() - n]))
                        }
                    },
                    _ => OpOutcome::Stop(ErrorView::TypeError, s.drop_last()),
                }
            }
        },
        BuiltinOp::Clear => OpOutcome::Next(Seq::empty()),
        BuiltinOp::Len => {
            if s.len() > i64::MAX {
                OpOutcome::Stop(ErrorView::IntegerOverflow, s)
            } else {
                OpOutcome::Next(s.push(StackItemView::Integer(s.len() as int)))
            }
        },
        BuiltinOp::Over => {
            if s.len() < 2 {
                underflow2(s)
            } else {
                let b = s.last();
                let a = s[s.len() - 2];
                OpOutcome::Next(s.drop_last().drop_last().push(a).push(b).push(a))
            }
        },
        BuiltinOp::Rot => {
            if s.len() == 0 {
                OpOutcome::Stop(ErrorView::StackUnderflow, s)
            } else if s.len() == 1 {
                OpOutcome::Stop(ErrorView::StackUnderflow, s.drop_last())
            } else if s.len() == 2 {
                OpOutcome::Stop(ErrorView::StackUnderflow, s.drop_last().drop_last())
            } else {
                let c = s.last();
                let b = s[s.len() - 2];
                let a = s[s.len() - 3];
                OpOutcome::Next(
                    s.drop_last().drop_last().drop_last().push(b).push(c).push(a),
                )
            }
        },
        BuiltinOp::Pop => {
            if s.len() == 0 {
                OpOutcome::Stop(ErrorView::StackUnderflow, s)
            } else {
                OpOutcome::Next(s.drop_last())
            }
        },
        BuiltinOp::False => OpOutcome::Next(s.push(StackItemView::Boolean(false))),
        BuiltinOp::True => OpOutcome::Next(s.push(StackItemView::Boolean(true))),
        BuiltinOp::Eq => {
            if s.len() < 2 {
                underflow2(s)
            } else {
                let a = s.last();
                let b = s[s.len() - 2];
                OpOutcome::Next(
                    s.drop_last().drop_last().push(StackItemView::Boolean(a == b)),
                )
            }
        },
        BuiltinOp::Not => {
            if s.len() == 0 {
                OpOutcome::Stop(ErrorView::StackUnderflow, s)
            } else {
                match s.last() {
                    StackItemView::Boolean(b) => OpOutcome::Next(
                        s.drop_last().push(StackItemView::Boolean(!b)),
                    ),
                    _ => OpOutcome::Stop(ErrorView::TypeError, s.drop_last()),
                }
            }
        },
        BuiltinOp::Or => {
            if s.len() < 2 {
                underflow2(s)
            } else {
                let b = s.last();
                let a = s[s.len() - 2];
                let rest = s.drop_last().drop_last();
                match (a, b) {
                    (StackItemView::Boolean(x), StackItemView::Boolean(y)) => OpOutcome::Next(
                        rest.push(StackItemView::Boolean(x || y)),
                    ),
                    _ => OpOutcome::Stop(ErrorView::TypeError, rest),
                }
            }
        },
        BuiltinOp::Cat => {
            if s.len() < 2 {
                underflow2(s)
            } else {
                let b = s.last();
                let a = s[s.len() - 2];
                let rest = s.drop_last().drop_last();
                match (a, b) {
                    (StackItemView::Str(x), StackItemView::Str(y)) => OpOutcome::Next(
                        rest.push(StackItemView::Str(x + y)),
                    ),
                    _ => OpOutcome::Stop(ErrorView::TypeError, rest),
                }
            }
        },
        _ => OpOutcome::Next(s),
    }
}

/// Run one data builtin against the operand stack, exactly as
/// [`apply_op`] says.
pub fn apply_builtin(op: BuiltinOp, stack: &mut Stack) -> (r: Result<(), Error>)
    requires
        is_data_op(op),
    ensures
        match apply_op(op, old(stack)@) {
            OpOutcome::Next(s2) => r is Ok && final(stack)@ == s2,
            OpOutcome::Stop(e, s2) => {
                &&& r matches Err(err) && err@ == e
                &&& final(stack)@ == s2
            },
        },
{
    match op {
        BuiltinOp::Add | BuiltinOp::Sub | BuiltinOp::Mul | BuiltinOp::Div => {
            let n2 = match stack.pop() {
                Ok(v) => v,
                Err(e) => {
                    return Err(e);
                },
            };
            let n1 = match stack.pop() {
                Ok(v) => v,
                Err(e) => {
                    return Err(e);
                },
            };
            match (n1, n2) {
                (StackItem::Integer(a), StackItem::Integer(b)) => {
                    let v = match op {
                        BuiltinOp::Add => a.checked_add(b),
                        BuiltinOp::Sub => a.checked_sub(b),
                        BuiltinOp::Mul => a.checked_mul(b),
                        _ => {
                            if b == 0 {
                                return Err(Error::DivideByZero);
                            }
                            a.checked_div(b)
                        },
                    };
                    match v {
                        Some(v) => {
                            stack.push(StackItem::Integer(v));
                            Ok(())
                        },
                        None => Err(Error::IntegerOverflow),
                    }
                },
                _ => Err(Error::TypeError),
            }
        },
        BuiltinOp::AsInteger => {
            let n = match stack.pop() {
                Ok(v) => v,
                Err(e) => {
                    return Err(e);
                },
            };
            match n {
                StackItem::Integer(a) => {
                    stack.push(StackItem::Integer(a));
                    proof {
                        assert(stack@ =~= old(stack)@);
                    }
                    Ok(())
                },
                _ => Err(Error::TypeError),
            }
        },
        BuiltinOp::AsFloat => {
            let n = match stack.pop() {
                Ok(v) => v,
                Err(e) => {
                    return Err(e);
                },
            };
            match n {
                StackItem::Integer(a) => Err(Error::NumericConversion),
                _ => Err(Error::TypeError),
            }
        },
        BuiltinOp::ToString => {
            let n = match stack.pop() {
                Ok(v) => v,
                Err(e) => {
                    return Err(e);
                },
            };
            match n {
                StackItem::String(t) => {
                    stack.push(StackItem::String(t));
                    proof {
                        assert(stack@ =~= old(stack)@);
                    }
                    Ok(())
                },
                StackItem::Integer(a) => {
                    stack.push(StackItem::String(i64_to_string(a)));
                    Ok(())
                },
                _ => Err(Error::TypeError),
            }
        },
        BuiltinOp::Swap => {
            let b = match stack.pop() {
                Ok(v) => v,
                Err(e) => {
                    return Err(e);
                },
            };
            let a = match stack.pop() {
                Ok(v) => v,
                Err(e) => {
                    return Err(e);
                },
            };
            stack.push(b);
            stack.push(a);
            Ok(())
        },
        BuiltinOp::Dup => {
            let a = match stack.pop() {
                Ok(v) => v,
                Err(e) => {
                    return Err(e);
                },
            };
            let copy = a.duplicate();
            stack.push(a);
            stack.push(copy);
            proof {
                assert(stack@ =~= old(stack)@.push(old(stack)@.last()));
            }
            Ok(())
        },
        BuiltinOp::CloneNth => {
            let n = match stack.pop() {
                Ok(v) => v,
                Err(e) => {
                    return Err(e);
                },
            };
            match n {
                StackItem::Integer(n) => {
                    if n < 0 {
                        return Err(Error::IntegerOverflow);
                    }
                    let len = stack.0.len();
                    if (n as u64) > (len as u64) || n == 0 {
                        return Err(Error::OutOfBounds);
                    }
                    let idx = len - (n as usize);
                    let nth = stack.0[idx].duplicate();
                    stack.push(nth);
                    Ok(())
                },
                _ => Err(Error::TypeError),
            }
        },
        BuiltinOp::Clear => {
            stack.0 = Vec::new();
            proof {
                assert(stack@ =~= Seq::<StackItemView>::empty());
            }
            Ok(())
        },
        BuiltinOp::Len => {
            let len = stack.0.len();
            if (len as u64) > 0x7fff_ffff_ffff_ffff_u64 {
                return Err(Error::IntegerOverflow);
            }
            stack.push(StackItem::Integer(len as i64));
            Ok(())
        },
        BuiltinOp::Over => {
            let b = match stack.pop() {
                Ok(v) => v,
                Err(e) => {
                    return Err(e);
                },
            };
            let a = match stack.pop() {
                Ok(v) => v,
                Err(e) => {
                    return Err(e);
                },
            };
            let copy = a.duplicate();
            stack.push(copy);
            stack.push(b);
            stack.push(a);
            Ok(())
        },
        BuiltinOp::Rot => {
            let c = match stack.pop() {
                Ok(v) => v,
                Err(e) => {
                    return Err(e);
                },
            };
            let b = match stack.pop() {
                Ok(v) => v,
                Err(e) => {
                    return Err(e);
                },
            };
            let a = match stack.pop() {
                Ok(v) => v,
                Err(e) => {
                    return Err(e);
                },
            };
            stack.push(b);
            stack.push(c);
            stack.push(a);
            Ok(())
        },
        BuiltinOp::Pop => {
            match stack.pop() {
                Ok(v) => Ok(()),
                Err(e) => Err(e),
            }
        },
        BuiltinOp::False => {
            stack.push(StackItem::Boolean(false));
            Ok(())
        },
        BuiltinOp::True => {
            stack.push(StackItem::Boolean(true));
            Ok(())
        },
        BuiltinOp::Eq => {
            let a = match stack.pop() {
                Ok(v) => v,
                Err(e) => {
                    return Err(e);
                },
            };
            let b = match stack.pop() {
                Ok(v) => v,
                Err(e) => {
                    return Err(e);
                },
            };
            let r = a.deep_eq(&b);
            stack.push(StackItem::Boolean(r));
            Ok(())
        },
        BuiltinOp::Not => {
            let a = match stack.pop() {
                Ok(v) => v,
                Err(e) => {
                    return Err(e);
                },
            };
            match a {
                StackItem::Boolean(b) => {
                    stack.push(StackItem::Boolean(!b));
                    Ok(())
                },
                _ => Err(Error::TypeError),
            }
        },
        BuiltinOp::Or => {
            let b = match stack.pop() {
                Ok(v) => v,
                Err(e) => {
                    return Err(e);
                },
            };
            let a = match stack.pop() {
                Ok(v) => v,
                Err(e) => {
                    return Err(e);
                },
            };
            match (a, b) {
                (StackItem::Boolean(x), StackItem::Boolean(y)) => {
                    stack.push(StackItem::Boolean(x || y));
                    Ok(())
                },
                _ => Err(Error::TypeError),
            }
        },
        BuiltinOp::Cat => {
            let b = match stack.pop() {
                Ok(v) => v,
                Err(e) => {
                    return Err(e);
                },
            };
            let a = match stack.pop() {
                Ok(v) => v,
                Err(e) => {
                    return Err(e);
                },
            };
            match (a, b) {
                (StackItem::String(x), StackItem::String(y)) => {
                    stack.push(StackItem::String(x.concat(y.as_str())));
                    Ok(())
                },
                _ => Err(Error::TypeError),
            }
        },
        _ => {
            // Control ops never reach here: see the precondition.
            Ok(())
        },
    }
}

/// `swap` then `swap` restores the stack, for every stack of depth at
/// least two.
pub proof fn lemma_swap_twice(s: Seq<StackItemView>)
    requires
        s.len() >= 2,
    ensures
        apply_op(BuiltinOp::Swap, s) matches OpOutcome::Next(s2) && apply_op(BuiltinOp::Swap, s2)
            == OpOutcome::Next(s),
{
    let s2 = s.drop_last().drop_last().push(s.last()).push(s[s.len() - 2]);
    assert(apply_op(BuiltinOp::Swap, s) == OpOutcome::Next(s2));
    assert(s2.drop_last().drop_last() =~= s.drop_last().drop_last());
    let s3 = s2.drop_last().drop_last().push(s2.last()).push(s2[s2.len() - 2]);
    assert(s3 =~= s);
}

/// `dup` (`clone`) followed by `pop` leaves the stack unchanged, for every
/// nonempty stack.
pub proof fn lemma_dup_then_pop(s: Seq<StackItemView>)
    requires
        s.len() >= 1,
    ensures
        apply_op(BuiltinOp::Dup, s) matches OpOutcome::Next(s2) && apply_op(BuiltinOp::Pop, s2)
            == OpOutcome::Next(s),
{
    let s2 = s.push(s.last());
    assert(s2.drop_last() =~= s);
}

/// Popping from an empty stack always yields `StackUnderflow` and leaves
/// the stack empty, never a default value.
pub proof fn lemma_pop_empty(s: Seq<StackItemView>)
    requires
        s.len() == 0,
    ensures
        apply_op(BuiltinOp::Pop, s) == OpOutcome::Stop(ErrorView::StackUnderflow, s),
{
}

/// Integer division by zero always fails `DivideByZero` and leaves the two
/// popped operands consumed, whatever stands below them.
pub proof fn lemma_divide_by_zero(s: Seq<StackItemView>, a: int)
    ensures
        apply_op(
            BuiltinOp::Div,
            s.push(StackItemView::Integer(a)).push(StackItemView::Integer(0)),
        ) == OpOutcome::Stop(ErrorView::DivideByZero, s),
{
    let full = s.push(StackItemView::Integer(a)).push(StackItemView::Integer(0));
    assert(full.last() == StackItemView::Integer(0));
    assert(full[full.len() - 2] == StackItemView::Integer(a));
    assert(full.drop_last().drop_last() =~= s);
}

/// Register the arithmetic builtins `+ - * /`.
pub fn insert_arithmetic(vm: &mut Vm)
    ensures
        final(vm).stack == old(vm).stack,
        final(vm).table() == old(vm).table().insert("+"@, MethodView::Builtin(BuiltinOp::Add))
            .insert("-"@, MethodView::Builtin(BuiltinOp::Sub)).insert(
            "*"@,
            MethodView::Builtin(BuiltinOp::Mul),
        ).insert("/"@, MethodView::Builtin(BuiltinOp::Div)),
{
    vm.insert_builtin("+", BuiltinOp::Add);
    vm.insert_builtin("-", BuiltinOp::Sub);
    vm.insert_builtin("*", BuiltinOp::Mul);
    vm.insert_builtin("/", BuiltinOp::Div);
}

/// Register the conversion builtins `as-integer`, `as-float`, `to-string`.
pub fn insert_conversions(vm: &mut Vm)
    ensures
        final(vm).stack == old(vm).stack,
        final(vm).table() == old(vm).table().insert(
            "as-integer"@,
            MethodView::Builtin(BuiltinOp::AsInteger),
        ).insert("as-float"@, MethodView::Builtin(BuiltinOp::AsFloat)).insert(
            "to-string"@,
            MethodView::Builtin(BuiltinOp::ToString),
        ),
{
    vm.insert_builtin("as-integer", BuiltinOp::AsInteger);
    vm.insert_builtin("as-float", BuiltinOp::AsFloat);
    vm.insert_builtin("to-string", BuiltinOp::ToString);
}

/// Register the method-definition builtin `fn`.
pub fn insert_fn(vm: &mut Vm)
    ensures
        final(vm).stack == old(vm).stack,
        final(vm).table() == old(vm).table().insert("fn"@, MethodView::Builtin(BuiltinOp::Fn)),
{
    vm.insert_builtin("fn", BuiltinOp::Fn);
}

/// Register the stack-shuffling builtins: `swap`, `clone` and its alias
/// `dup`, `clone-nth`, `clear`, `len`, `over`, `rot`, `pop`.
pub fn insert_stack_ops(vm: &mut Vm)
    ensures
        final(vm).stack == old(vm).stack,
        final(vm).table() == old(vm).table().insert(
            "swap"@,
            MethodView::Builtin(BuiltinOp::Swap),
        ).insert("clone"@, MethodView::Builtin(BuiltinOp::Dup)).insert(
            "dup"@,
            MethodView::Builtin(BuiltinOp::Dup),
        ).insert("clone-nth"@, MethodView::Builtin(BuiltinOp::CloneNth)).insert(
            "clear"@,
            MethodView::Builtin(BuiltinOp::Clear),
        ).insert("len"@, MethodView::Builtin(BuiltinOp::Len)).insert(
            "over"@,
            MethodView::Builtin(BuiltinOp::Over),
        ).insert("rot"@, MethodView::Builtin(BuiltinOp::Rot)).insert(
            "pop"@,
            MethodView::Builtin(BuiltinOp::Pop),
        ),
{
    vm.insert_builtin("swap", BuiltinOp::Swap);
    vm.insert_builtin("clone", BuiltinOp::Dup);
    vm.insert_builtin("dup", BuiltinOp::Dup);
    vm.insert_builtin("clone-nth", BuiltinOp::CloneNth);
    vm.insert_builtin("clear", BuiltinOp::Clear);
    vm.insert_builtin("len", BuiltinOp::Len);
    vm.insert_builtin("over", BuiltinOp::Over);
    vm.insert_builtin("rot", BuiltinOp::Rot);
    vm.insert_builtin("pop", BuiltinOp::Pop);
}

/// Register the boolean builtins `false`, `true`, `eq`, `not`, `or`.
pub fn insert_boolean_ops(vm: &mut Vm)
    ensures
        final(vm).stack == old(vm).stack,
        final(vm).table() == old(vm).table().insert(
            "false"@,
            MethodView::Builtin(BuiltinOp::False),
        ).insert("true"@, MethodView::Builtin(BuiltinOp::True)).insert(
            "eq"@,
            MethodView::Builtin(BuiltinOp::Eq),
        ).insert("not"@, MethodView::Builtin(BuiltinOp::Not)).insert(
            "or"@,
            MethodView::Builtin(BuiltinOp::Or),
        ),
{
    vm.insert_builtin("false", BuiltinOp::False);
    vm.insert_builtin("true", BuiltinOp::True);
    vm.insert_builtin("eq", BuiltinOp::Eq);
    vm.insert_builtin("not", BuiltinOp::Not);
    vm.insert_builtin("or", BuiltinOp::Or);
}

/// Register the string builtin `cat`.
pub fn insert_string_ops(vm: &mut Vm)
    ensures
        final(vm).stack == old(vm).stack,
        final(vm).table() == old(vm).table().insert("cat"@, MethodView::Builtin(BuiltinOp::Cat)),
{
    vm.insert_builtin("cat", BuiltinOp::Cat);
}

/// Register the control-flow builtins `if`, `ifelse`, `while`, `times`.
pub fn insert_control_flow(vm: &mut Vm)
    ensures
        final(vm).stack == old(vm).stack,
        final(vm).table() == old(vm).table().insert("if"@, MethodView::Builtin(BuiltinOp::If))
            .insert("ifelse"@, MethodView::Builtin(BuiltinOp::IfElse)).insert(
            "while"@,
            MethodView::Builtin(BuiltinOp::While),
        ).insert("times"@, MethodView::Builtin(BuiltinOp::Times)),
{
    vm.insert_builtin("if", BuiltinOp::If);
    vm.insert_builtin("ifelse", BuiltinOp::IfElse);
    vm.insert_builtin("while", BuiltinOp::While);
    vm.insert_builtin("times", BuiltinOp::Times);
}

/// The standard builtin set, as bindings laid over an existing table.
pub open spec fn with_standard_builtins(table: Map<Seq<char>, MethodView>) -> Map<
    Seq<char>,
    MethodView,
> {
    table.insert("+"@, MethodView::Builtin(BuiltinOp::Add))
            .insert("-"@, MethodView::Builtin(BuiltinOp::Sub)).insert(
            "*"@,
            MethodView::Builtin(BuiltinOp::Mul),
        ).insert("/"@, MethodView::Builtin(BuiltinOp::Div)).insert(
            "as-integer"@,
            MethodView::Builtin(BuiltinOp::AsInteger),
        ).insert("as-float"@, MethodView::Builtin(BuiltinOp::AsFloat)).insert(
            "to-string"@,
            MethodView::Builtin(BuiltinOp::ToString),
        ).insert("fn"@, MethodView::Builtin(BuiltinOp::Fn)).insert(
            "swap"@,
            MethodView::Builtin(BuiltinOp::Swap),
        ).insert("clone"@, MethodView::Builtin(BuiltinOp::Dup)).insert(
            "dup"@,
            MethodView::Builtin(BuiltinOp::Dup),
        ).insert("clone-nth"@, MethodView::Builtin(BuiltinOp::CloneNth)).insert(
            "clear"@,
            MethodView::Builtin(BuiltinOp::Clear),
        ).insert("len"@, MethodView::Builtin(BuiltinOp::Len)).insert(
            "over"@,
            MethodView::Builtin(BuiltinOp::Over),
        ).insert("rot"@, MethodView::Builtin(BuiltinOp::Rot)).insert(
            "pop"@,
            MethodView::Builtin(BuiltinOp::Pop),
        ).insert("false"@, MethodView::Builtin(BuiltinOp::False)).insert(
            "true"@,
            MethodView::Builtin(BuiltinOp::True),
        ).insert("eq"@, MethodView::Builtin(BuiltinOp::Eq)).insert(
            "not"@,
            MethodView::Builtin(BuiltinOp::Not),
        ).insert("or"@, MethodView::Builtin(BuiltinOp::Or)).insert(
            "cat"@,
            MethodView::Builtin(BuiltinOp::Cat),
        ).insert("if"@, MethodView::Builtin(BuiltinOp::If)).insert(
            "ifelse"@,
            MethodView::Builtin(BuiltinOp::IfElse),
        ).insert("while"@, MethodView::Builtin(BuiltinOp::While)).insert(
            "times"@,
            MethodView::Builtin(BuiltinOp::Times),
        )
}

/// Register the whole standard builtin set.
pub fn insert_all(vm: &mut Vm)
    ensures
        final(vm).stack == old(vm).stack,
        final(vm).table() == with_standard_builtins(old(vm).table()),
{
    insert_arithmetic(vm);
    insert_conversions(vm);
    insert_fn(vm);
    insert_stack_ops(vm);
    insert_boolean_ops(vm);
    insert_string_ops(vm);
    insert_control_flow(vm);
}

} // verus!
