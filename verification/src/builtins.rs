//! The built-ins that run no quotation: arithmetic, logic, stack shuffles,
//! list access, output and lookup.

use crate::error::EvalError;
use crate::ident::ident_as_str;
use crate::semantics::{
    apply_arith, apply_at, apply_connective, apply_debug, apply_get, apply_not, apply_print,
    apply_shuffle, apply_splat, arith_value, define, num_atom, Outcome,
};
use crate::types::{atoms_view, clone_atom, Atom, AtomView, OpA, OpS};
use crate::vm::{Emit, Env, EnvView};
use vstd::prelude::*;

verus! {

/// Whether what an operation returned and the environment it left are what
/// `expected` says.
pub open spec fn agrees(r: Result<(), EvalError>, after: EnvView, expected: Outcome) -> bool {
    match r {
        Ok(_) => expected == Ok::<EnvView, EvalError>(after),
        Err(e) => expected == Err::<EnvView, EvalError>(e),
    }
}

proof fn lemma_without_operands_twice(env: EnvView, n: int, m: int)
    requires
        env.frames.len() > 0,
        0 <= n,
        0 <= m,
        env.stack().len() >= n + m,
    ensures
        env.without_operands(n).without_operands(m) == env.without_operands(n + m),
        env.without_operands(n).frames.len() == env.frames.len(),
        forall|k: int| 0 <= k < m ==> env.without_operands(n).operand(k) == env.operand(n + k),
{
    let a = env.without_operands(n).without_operands(m);
    let b = env.without_operands(n + m);
    assert(a.top().stack =~= b.top().stack);
    assert(a.frames =~= b.frames);
}

/// Takes the two topmost atoms off the stack: the lower one first in the
/// result.
pub(crate) fn take2(env: &mut Env) -> (r: Result<(Atom, Atom), EvalError>)
    requires
        old(env).frames.len() > 0,
    ensures
        final(env).depth == old(env).depth,
        final(env).frames.len() == old(env).frames.len(),
        match r {
            Ok((a, b)) => old(env)@.has_operands(2) && a@ == old(env)@.operand(1) && b@ == old(
                env,
            )@.operand(0) && final(env)@ == old(env)@.without_operands(2),
            Err(e) => !old(env)@.has_operands(2) && e == EvalError::EmptyStack,
        },
{
    let b = env.pop_atom()?;
    let a = env.pop_atom()?;
    proof {
        lemma_without_operands_twice(old(env)@, 1, 1);
    }
    Ok((a, b))
}

/// Takes the three topmost atoms off the stack: the lowest first in the
/// result.
pub(crate) fn take3(env: &mut Env) -> (r: Result<(Atom, Atom, Atom), EvalError>)
    requires
        old(env).frames.len() > 0,
    ensures
        final(env).depth == old(env).depth,
        final(env).frames.len() == old(env).frames.len(),
        match r {
            Ok((a, b, c)) => old(env)@.has_operands(3) && a@ == old(env)@.operand(2) && b@ == old(
                env,
            )@.operand(1) && c@ == old(env)@.operand(0) && final(env)@ == old(
                env,
            )@.without_operands(3),
            Err(e) => !old(env)@.has_operands(3) && e == EvalError::EmptyStack,
        },
{
    let c = env.pop_atom()?;
    let (a, b) = take2(env)?;
    proof {
        lemma_without_operands_twice(old(env)@, 1, 2);
    }
    Ok((a, b, c))
}

fn fit(v: i64) -> (r: Result<Atom, EvalError>)
    ensures
        match r {
            Ok(a) => num_atom(v as int) == Ok::<AtomView, EvalError>(a@),
            Err(e) => num_atom(v as int) == Err::<AtomView, EvalError>(e),
        },
{
    if -2147483648 <= v && v <= 2147483647 {
        Ok(Atom::Num(v as i32))
    } else {
        Err(EvalError::Overflow)
    }
}

/// The result of an arithmetic or comparison operator on two numbers.
pub(crate) fn arith(op: OpA, a: i32, b: i32) -> (r: Result<Atom, EvalError>)
    ensures
        match r {
            Ok(v) => arith_value(op, a, b) == Ok::<AtomView, EvalError>(v@),
            Err(e) => arith_value(op, a, b) == Err::<AtomView, EvalError>(e),
        },
{
    let x: i64 = a as i64;
    let y: i64 = b as i64;
    match op {
        OpA::Add => fit(x + y),
        OpA::Sub => fit(x - y),
        OpA::Mult => {
            assert(-4611686018427387904 <= x * y <= 4611686018427387904) by (nonlinear_arith)
                requires
                    -2147483648 <= x <= 2147483647,
                    -2147483648 <= y <= 2147483647,
            ;
            fit(x * y)
        },
        OpA::Div => {
            if b == 0 {
                return Err(EvalError::DivisionByZero);
            }
            let q: i64 = if x >= 0 && y > 0 {
                x / y
            } else if x >= 0 {
                0 - x / (0 - y)
            } else if y > 0 {
                0 - (0 - x) / y
            } else {
                (0 - x) / (0 - y)
            };
            fit(q)
        },
        OpA::Mod => {
            if b == 0 {
                return Err(EvalError::DivisionByZero);
            }
            if a == i32::MIN && b == -1 {
                return Err(EvalError::Overflow);
            }
            let q: i64 = if x >= 0 && y > 0 {
                x / y
            } else if x >= 0 {
                0 - x / (0 - y)
            } else if y > 0 {
                0 - (0 - x) / y
            } else {
                (0 - x) / (0 - y)
            };
            assert(-2147483648 <= q <= 2147483648);
            assert(-4611686018427387904 <= y * q <= 4611686018427387904) by (nonlinear_arith)
                requires
                    -2147483648 <= y <= 2147483647,
                    -2147483648 <= q <= 2147483648,
            ;
            fit(x - y * q)
        },
        OpA::Less => Ok(Atom::Bool(a < b)),
        OpA::Greater => Ok(Atom::Bool(a > b)),
        OpA::LEq => Ok(Atom::Bool(a <= b)),
        OpA::GEq => Ok(Atom::Bool(a >= b)),
        OpA::Eq => Ok(Atom::Bool(a == b)),
        OpA::NEq => Ok(Atom::Bool(a != b)),
    }
}

/// Runs an arithmetic or comparison operator.
pub(crate) fn do_arith(op: OpA, env: &mut Env) -> (r: Result<(), EvalError>)
    requires
        old(env).frames.len() > 0,
    ensures
        final(env).depth == old(env).depth,
        final(env).frames.len() == old(env).frames.len(),
        agrees(r, final(env)@, apply_arith(op, old(env)@)),
{
    let (a, b) = take2(env)?;
    match (a, b) {
        (Atom::Num(x), Atom::Num(y)) => {
            let v = arith(op, x, y)?;
            env.push_atom(v);
            Ok(())
        },
        _ => Err(EvalError::Type),
    }
}

/// Runs `and` (`conj`) or `or`.
pub(crate) fn do_connective(conj: bool, env: &mut Env) -> (r: Result<(), EvalError>)
    requires
        old(env).frames.len() > 0,
    ensures
        final(env).depth == old(env).depth,
        final(env).frames.len() == old(env).frames.len(),
        agrees(r, final(env)@, apply_connective(conj, old(env)@)),
{
    let (a, b) = take2(env)?;
    match (a, b) {
        (Atom::Bool(x), Atom::Bool(y)) => {
            env.push_atom(
                Atom::Bool(
                    if conj {
                        x && y
                    } else {
                        x || y
                    },
                ),
            );
            Ok(())
        },
        _ => Err(EvalError::Type),
    }
}

/// Runs `not`.
pub(crate) fn do_not(env: &mut Env) -> (r: Result<(), EvalError>)
    requires
        old(env).frames.len() > 0,
    ensures
        final(env).depth == old(env).depth,
        final(env).frames.len() == old(env).frames.len(),
        agrees(r, final(env)@, apply_not(old(env)@)),
{
    match env.pop_atom()? {
        Atom::Bool(x) => {
            env.push_atom(Atom::Bool(!x));
            Ok(())
        },
        _ => Err(EvalError::Type),
    }
}

/// Runs `drop`, `swap`, `rot3` or `dup`.
pub(crate) fn do_shuffle(op: OpS, env: &mut Env) -> (r: Result<(), EvalError>)
    requires
        old(env).frames.len() > 0,
        op == OpS::Drop || op == OpS::Swap || op == OpS::Rot3 || op == OpS::Dup,
    ensures
        final(env).depth == old(env).depth,
        final(env).frames.len() == old(env).frames.len(),
        agrees(r, final(env)@, apply_shuffle(op, old(env)@)),
{
    match op {
        OpS::Drop => {
            let _ = env.pop_atom()?;
        },
        OpS::Swap => {
            let (a, b) = take2(env)?;
            env.push_atom(b);
            env.push_atom(a);
        },
        OpS::Rot3 => {
            let (a, b, c) = take3(env)?;
            env.push_atom(b);
            env.push_atom(c);
            env.push_atom(a);
        },
        _ => {
            let a = env.pop_atom()?;
            env.push_atom(clone_atom(&a));
            env.push_atom(a);
            proof {
                let x = env@;
                let y = old(env)@.push_atom(old(env)@.operand(0));
                assert(x.top().stack =~= y.top().stack);
                assert(x.frames =~= y.frames);
            }
        },
    }
    Ok(())
}

/// Runs `splat`.
pub(crate) fn do_splat(env: &mut Env) -> (r: Result<(), EvalError>)
    requires
        old(env).frames.len() > 0,
    ensures
        final(env).depth == old(env).depth,
        final(env).frames.len() == old(env).frames.len(),
        agrees(r, final(env)@, apply_splat(old(env)@)),
{
    match env.pop_atom()? {
        Atom::List(items) => {
            env.append_atoms(items);
            Ok(())
        },
        _ => Err(EvalError::Type),
    }
}

/// Runs `at`.
pub(crate) fn do_at(env: &mut Env) -> (r: Result<(), EvalError>)
    requires
        old(env).frames.len() > 0,
    ensures
        final(env).depth == old(env).depth,
        final(env).frames.len() == old(env).frames.len(),
        agrees(r, final(env)@, apply_at(old(env)@)),
{
    let (a, b) = take2(env)?;
    match (a, b) {
        (Atom::List(items), Atom::Num(n)) => {
            if 0 <= n && (n as usize) < items.len() {
                env.push_atom(clone_atom(&items[n as usize]));
                Ok(())
            } else {
                Err(EvalError::OutOfRange)
            }
        },
        _ => Err(EvalError::Type),
    }
}

/// Runs `print`: the atom goes to the output.
pub(crate) fn do_print(env: &mut Env) -> (r: Result<(), EvalError>)
    requires
        old(env).frames.len() > 0,
    ensures
        final(env).depth == old(env).depth,
        final(env).frames.len() == old(env).frames.len(),
        agrees(r, final(env)@, apply_print(old(env)@)),
{
    let a = env.pop_atom()?;
    env.emit(Emit::Print(a));
    Ok(())
}

/// Runs `debug`: a snapshot of the environment goes to the output.
pub(crate) fn do_debug(env: &mut Env) -> (r: Result<(), EvalError>)
    requires
        old(env).frames.len() > 0,
    ensures
        final(env).depth == old(env).depth,
        final(env).frames.len() == old(env).frames.len(),
        agrees(r, final(env)@, apply_debug(old(env)@)),
{
    let snapshot = env.snapshot();
    env.emit(Emit::Debug(snapshot));
    Ok(())
}

/// Runs `get`.
pub(crate) fn do_get(env: &mut Env) -> (r: Result<(), EvalError>)
    requires
        old(env).frames.len() > 0,
    ensures
        final(env).depth == old(env).depth,
        final(env).frames.len() == old(env).frames.len(),
        agrees(r, final(env)@, apply_get(old(env)@)),
{
    match env.pop_atom()? {
        Atom::Symbol(name) => match env.find_var(&name) {
            Some(Atom::Function(_, body)) => {
                env.push_atom(Atom::Quotation(body));
                Ok(())
            },
            Some(a) => {
                env.push_atom(a);
                Ok(())
            },
            None => Err(EvalError::UnknownName),
        },
        _ => Ok(()),
    }
}

/// Runs a literal definition: `let` on any value, `fn` on a quotation.
pub(crate) fn do_define(function: bool, env: &mut Env) -> (r: Result<(), EvalError>)
    requires
        old(env).frames.len() > 0,
    ensures
        final(env).depth == old(env).depth,
        final(env).frames.len() == old(env).frames.len(),
        agrees(r, final(env)@, define(old(env)@, function)),
{
    let (b, a) = take2(env)?;
    match (a, b) {
        (Atom::Symbol(name), Atom::Quotation(q)) => {
            if function {
                let value = Atom::Function(Vec::new(), q);
                assert(value@ == AtomView::Function(Seq::empty(), atoms_view(q@))) by {
                    assert(crate::ident::idents_text(Seq::empty()) =~= Seq::<Seq<char>>::empty());
                }
                env.bind_var(ident_as_str(&name), value)
            } else {
                env.bind_var(ident_as_str(&name), Atom::Quotation(q))
            }
        },
        (Atom::Symbol(name), value) => {
            if function {
                Err(EvalError::Type)
            } else {
                env.bind_var(ident_as_str(&name), value)
            }
        },
        _ => Err(EvalError::Type),
    }
}

} // verus!
