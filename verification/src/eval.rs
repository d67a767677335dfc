//! The evaluator: runs atoms against an environment.
//!
//! Every function leaves at least one frame in the environment and the
//! allowed call depth as it found it, also when it fails. What the
//! environment holds after a failure is otherwise left open.

use crate::arity::arity_fn;
use crate::builtins::{
    agrees, do_arith, do_at, do_connective, do_debug, do_define, do_get, do_not, do_print,
    do_shuffle, do_splat, take2, take3,
};
use crate::error::EvalError;
use crate::ident::{ident_as_str, idents_text};
use crate::parse::{parse_chars, parse_line};
use crate::semantics as sem;
use crate::text::{chars_of, copy_range};
use crate::types::{
    atoms_view, clone_atom, clone_atoms, Atom, AtomView, Handler, Identifier, Op, OpB, OpS,
};
use crate::vm::{blank_frame_view, DEFAULT_DEPTH, Env, EnvView, FrameView, Stack};
use vstd::prelude::*;

verus! {

/// How many atoms the current operand stack holds.
pub(crate) fn stack_len(env: &Env) -> (n: usize)
    requires
        env.frames.len() > 0,
    ensures
        n == env@.stack().len(),
{
    env.frames[env.frames.len() - 1].stack.len()
}

/// Closes the top frame and pushes what its stack held on the frame below,
/// as a list or as a quotation.
pub(crate) fn close_frame(env: &mut Env, as_list: bool) -> (r: Result<(), EvalError>)
    requires
        old(env).frames.len() > 0,
    ensures
        final(env).depth == old(env).depth,
        final(env).frames.len() > 0,
        agrees(r, final(env)@, old(env)@.close_frame(as_list)),
{
    if env.frames.len() < 2 {
        return Err(EvalError::NoFrame);
    }
    let frame = env.pop().unwrap();
    if as_list {
        env.push_atom(Atom::List(frame.stack));
    } else {
        env.push_atom(Atom::Quotation(frame.stack));
    }
    Ok(())
}

/// Closes the top frame and hands out the atom that was on top of its
/// stack.
pub(crate) fn close_scope(env: &mut Env) -> (r: Result<Atom, EvalError>)
    requires
        old(env).frames.len() > 0,
    ensures
        final(env).depth == old(env).depth,
        final(env).frames.len() > 0,
        match r {
            Ok(a) => old(env)@.close_scope() == Ok::<(AtomView, EnvView), EvalError>(
                (a@, final(env)@),
            ),
            Err(e) => old(env)@.close_scope() == Err::<(AtomView, EnvView), EvalError>(e),
        },
{
    if env.frames.len() < 2 {
        return Err(EvalError::NoFrame);
    }
    let mut frame = env.pop().unwrap();
    match frame.stack.pop() {
        Some(a) => Ok(a),
        None => Err(EvalError::NoResult),
    }
}

/// A copy of the `n` topmost atoms of the current operand stack.
pub(crate) fn top_atoms(env: &Env, n: usize) -> (r: Vec<Atom>)
    requires
        env.frames.len() > 0,
        n <= env@.stack().len(),
    ensures
        atoms_view(r@) == env@.stack().skip(env@.stack().len() - n),
{
    let top = env.frames.len() - 1;
    let len = env.frames[top].stack.len();
    let mut r: Vec<Atom> = Vec::new();
    let mut j: usize = 0;
    while j < n
        invariant
            j <= n <= len,
            top == env.frames.len() - 1,
            len == env.frames[top as int].stack.len(),
            r.len() == j,
            forall|k: int| 0 <= k < j ==> r[k]@ == env.frames[top as int].stack[len - n + k]@,
        decreases n - j,
    {
        r.push(clone_atom(&env.frames[top].stack[len - n + j]));
        j += 1;
    }
    assert(atoms_view(r@) =~= env@.stack().skip(env@.stack().len() - n));
    r
}

/// Runs the atoms of a quotation in the current frame.
pub fn eval_call(q: Vec<Atom>, env: &mut Env) -> (r: Result<(), EvalError>)
    requires
        old(env).frames.len() > 0,
    ensures
        final(env).depth == old(env).depth,
        final(env).frames.len() > 0,
        agrees(r, final(env)@, sem::eval_call(atoms_view(q@), old(env)@, old(env).depth as nat)),
    decreases old(env).depth, 0nat, 0nat,
{
    if env.depth == 0 {
        return Err(EvalError::DepthExceeded);
    }
    env.depth = env.depth - 1;
    let r = eval_atoms(q, env);
    env.depth = env.depth + 1;
    r
}

/// Runs a quotation; anything else is not callable.
pub fn eval_call_quotation(callee: Atom, env: &mut Env) -> (r: Result<(), EvalError>)
    requires
        old(env).frames.len() > 0,
    ensures
        final(env).depth == old(env).depth,
        final(env).frames.len() > 0,
        agrees(
            r,
            final(env)@,
            match callee@ {
                AtomView::Quotation(q) => sem::eval_call(q, old(env)@, old(env).depth as nat),
                _ => Err(EvalError::NotCallable),
            },
        ),
    decreases old(env).depth, 1nat, 0nat,
{
    match callee {
        Atom::Quotation(q) => eval_call(q, env),
        _ => Err(EvalError::NotCallable),
    }
}

/// Runs a function under the parameter-binding protocol.
pub fn eval_call_function(params: Vec<Identifier>, body: Stack, env: &mut Env) -> (r: Result<
    (),
    EvalError,
>)
    requires
        old(env).frames.len() > 0,
    ensures
        final(env).depth == old(env).depth,
        final(env).frames.len() > 0,
        agrees(
            r,
            final(env)@,
            sem::eval_call_function(
                idents_text(params@),
                atoms_view(body@),
                old(env)@,
                old(env).depth as nat,
            ),
        ),
    decreases old(env).depth, 1nat, 0nat,
{
    if params.len() == 0 {
        eval_call(body, env)
    } else {
        env.bind_params(&params)?;
        eval_call(body, env)?;
        if env.frames.len() < 2 {
            return Err(EvalError::NoFrame);
        }
        env.unbind_params();
        Ok(())
    }
}

/// Runs a quotation or a function.
pub fn eval_callable(f: Atom, env: &mut Env) -> (r: Result<(), EvalError>)
    requires
        old(env).frames.len() > 0,
    ensures
        final(env).depth == old(env).depth,
        final(env).frames.len() > 0,
        agrees(r, final(env)@, sem::eval_callable(f@, old(env)@, old(env).depth as nat)),
    decreases old(env).depth, 2nat, 0nat,
{
    match f {
        Atom::Quotation(q) => eval_call(q, env),
        Atom::Function(params, body) => eval_call_function(params, body, env),
        _ => Err(EvalError::NotCallable),
    }
}

/// Runs an expression in a new scope and hands out the atom on top of the
/// scope's stack.
pub fn eval_with_new_scope(expr: Vec<Atom>, env: &mut Env) -> (r: Result<Atom, EvalError>)
    requires
        old(env).frames.len() > 0,
    ensures
        final(env).depth == old(env).depth,
        final(env).frames.len() > 0,
        match r {
            Ok(a) => sem::eval_with_new_scope(atoms_view(expr@), old(env)@, old(env).depth as nat)
                == Ok::<(AtomView, EnvView), EvalError>((a@, final(env)@)),
            Err(e) => sem::eval_with_new_scope(atoms_view(expr@), old(env)@, old(env).depth as nat)
                == Err::<(AtomView, EnvView), EvalError>(e),
        },
    decreases old(env).depth, 1nat, 0nat,
{
    env.push_blank(false);
    eval_call(expr, env)?;
    close_scope(env)
}

/// Runs `cond`.
pub(crate) fn do_cond(env: &mut Env) -> (r: Result<(), EvalError>)
    requires
        old(env).frames.len() > 0,
    ensures
        final(env).depth == old(env).depth,
        final(env).frames.len() > 0,
        agrees(
            r,
            final(env)@,
            sem::apply_op(Handler::Logic(OpB::Cond), old(env)@, old(env).depth as nat),
        ),
    decreases old(env).depth, 3nat, 0nat,
{
    let (c, if_q, else_q) = take3(env)?;
    match (c, if_q, else_q) {
        (Atom::Bool(c), Atom::Quotation(if_q), Atom::Quotation(else_q)) => {
            if c {
                eval_call(if_q, env)
            } else {
                eval_call(else_q, env)
            }
        },
        _ => Err(EvalError::Type),
    }
}

/// Runs `if`.
pub(crate) fn do_if(env: &mut Env) -> (r: Result<(), EvalError>)
    requires
        old(env).frames.len() > 0,
    ensures
        final(env).depth == old(env).depth,
        final(env).frames.len() > 0,
        agrees(
            r,
            final(env)@,
            sem::apply_op(Handler::Logic(OpB::If), old(env)@, old(env).depth as nat),
        ),
    decreases old(env).depth, 3nat, 0nat,
{
    let (c, q) = take2(env)?;
    match (c, q) {
        (Atom::Bool(c), Atom::Quotation(q)) => {
            if env.loop_like {
                env.using_for_else = true;
            }
            if c {
                eval_call(q, env)?;
                if env.loop_like {
                    env.for_else = false;
                }
            }
            Ok(())
        },
        _ => Err(EvalError::Type),
    }
}

/// Runs `list`.
pub(crate) fn do_list(env: &mut Env) -> (r: Result<(), EvalError>)
    requires
        old(env).frames.len() > 0,
    ensures
        final(env).depth == old(env).depth,
        final(env).frames.len() > 0,
        agrees(
            r,
            final(env)@,
            sem::apply_op(Handler::Stack(OpS::List), old(env)@, old(env).depth as nat),
        ),
    decreases old(env).depth, 3nat, 0nat,
{
    match env.pop_atom()? {
        Atom::Quotation(q) => {
            env.push_blank(false);
            eval_call(q, env)?;
            close_frame(env, true)
        },
        _ => Err(EvalError::Type),
    }
}

/// Runs `map`.
pub(crate) fn do_map(env: &mut Env) -> (r: Result<(), EvalError>)
    requires
        old(env).frames.len() > 0,
    ensures
        final(env).depth == old(env).depth,
        final(env).frames.len() > 0,
        agrees(
            r,
            final(env)@,
            sem::apply_op(Handler::Stack(OpS::MapEach), old(env)@, old(env).depth as nat),
        ),
    decreases old(env).depth, 3nat, 0nat,
{
    let ghost goal = sem::apply_op(Handler::Stack(OpS::MapEach), old(env)@, old(env).depth as nat);
    let (list, q) = take2(env)?;
    match (list, q) {
        (Atom::List(items), Atom::Quotation(q)) => {
            env.for_else = true;
            env.loop_like = true;
            let ghost all = atoms_view(items@);
            let mut results: Vec<Atom> = Vec::new();
            let mut i: usize = 0;
            proof {
                assert(all.skip(0) =~= all);
                assert(atoms_view(results@) =~= Seq::empty());
                assert(env@ == old(env)@.without_operands(2).enter_loop());
            }
            while i < items.len()
                invariant
                    i <= items.len(),
                    all == atoms_view(items@),
                    env.depth == old(env).depth,
                    env.frames.len() > 0,
                    goal == sem::apply_op(
                        Handler::Stack(OpS::MapEach),
                        old(env)@,
                        old(env).depth as nat,
                    ),
                    goal == match sem::map_items(
                        all.skip(i as int),
                        atoms_view(q@),
                        env@,
                        atoms_view(results@),
                        old(env).depth as nat,
                    ) {
                        Err(e) => Err::<EnvView, EvalError>(e),
                        Ok((done, after)) => Ok(
                            after.leave_loop().push_atom(AtomView::List(done)),
                        ),
                    },
                decreases items.len() - i,
            {
                proof {
                    assert(all.skip(i as int)[0] == items[i as int]@);
                    assert(all.skip(i as int).drop_first() =~= all.skip(i + 1));
                }
                env.push_blank(false);
                env.push_atom(clone_atom(&items[i]));
                eval_call(clone_atoms(&q), env)?;
                let value = close_scope(env)?;
                let ghost before = atoms_view(results@);
                results.push(value);
                assert(atoms_view(results@) =~= before.push(value@));
                i += 1;
            }
            env.loop_like = false;
            env.push_atom(Atom::List(results));
            Ok(())
        },
        _ => Err(EvalError::Type),
    }
}

/// Runs `reduce_inner`.
pub(crate) fn do_reduce(env: &mut Env) -> (r: Result<(), EvalError>)
    requires
        old(env).frames.len() > 0,
    ensures
        final(env).depth == old(env).depth,
        final(env).frames.len() > 0,
        agrees(
            r,
            final(env)@,
            sem::apply_op(Handler::Stack(OpS::ReduceInner), old(env)@, old(env).depth as nat),
        ),
    decreases old(env).depth, 3nat, 0nat,
{
    let ghost goal = sem::apply_op(
        Handler::Stack(OpS::ReduceInner),
        old(env)@,
        old(env).depth as nat,
    );
    let (list, q) = take2(env)?;
    match (list, q) {
        (Atom::List(items), Atom::Quotation(q)) => {
            env.for_else = true;
            env.loop_like = true;
            env.push_blank(false);
            let ghost all = atoms_view(items@);
            let ghost scope = env@;
            assert(scope == old(env)@.without_operands(2).enter_loop().push_blank(false));
            if items.len() > 0 {
                env.push_atom(clone_atom(&items[0]));
                let mut i: usize = 1;
                proof {
                    assert(all.drop_first() =~= all.skip(1));
                }
                while i < items.len()
                    invariant
                        1 <= i <= items.len(),
                        all == atoms_view(items@),
                        env.depth == old(env).depth,
                        env.frames.len() > 0,
                        goal == sem::apply_op(
                            Handler::Stack(OpS::ReduceInner),
                            old(env)@,
                            old(env).depth as nat,
                        ),
                        goal == match sem::reduce_items(
                            all.skip(i as int),
                            atoms_view(q@),
                            env@,
                            old(env).depth as nat,
                        ) {
                            Err(e) => Err::<EnvView, EvalError>(e),
                            Ok(after) => after.leave_loop().close_frame(true),
                        },
                    decreases items.len() - i,
                {
                    proof {
                        assert(all.skip(i as int)[0] == items[i as int]@);
                        assert(all.skip(i as int).drop_first() =~= all.skip(i + 1));
                    }
                    env.push_atom(clone_atom(&items[i]));
                    eval_call(clone_atoms(&q), env)?;
                    i += 1;
                }
            }
            env.loop_like = false;
            close_frame(env, true)
        },
        _ => Err(EvalError::Type),
    }
}

/// Runs `repeat`.
pub(crate) fn do_repeat(env: &mut Env) -> (r: Result<(), EvalError>)
    requires
        old(env).frames.len() > 0,
    ensures
        final(env).depth == old(env).depth,
        final(env).frames.len() > 0,
        agrees(
            r,
            final(env)@,
            sem::apply_op(Handler::Stack(OpS::Repeat), old(env)@, old(env).depth as nat),
        ),
    decreases old(env).depth, 3nat, 0nat,
{
    let ghost goal = sem::apply_op(Handler::Stack(OpS::Repeat), old(env)@, old(env).depth as nat);
    let (f, n) = take2(env)?;
    match &f {
        Atom::Quotation(_) | Atom::Function(_, _) => {},
        _ => {
            return Err(EvalError::NotCallable);
        },
    }
    env.for_else = true;
    env.loop_like = true;
    if let Atom::Num(times) = n {
        let mut k: i32 = 0;
        while k < times
            invariant
                0 <= k,
                times > 0 ==> k <= times,
                env.depth == old(env).depth,
                env.frames.len() > 0,
                goal == sem::apply_op(
                    Handler::Stack(OpS::Repeat),
                    old(env)@,
                    old(env).depth as nat,
                ),
                goal == match sem::repeat_callable(
                    times - k,
                    f@,
                    env@,
                    old(env).depth as nat,
                ) {
                    Err(e) => Err::<EnvView, EvalError>(e),
                    Ok(after) => Ok(after.leave_loop()),
                },
            decreases times - k,
        {
            eval_callable(clone_atom(&f), env)?;
            k += 1;
        }
    }
    env.loop_like = false;
    Ok(())
}

/// Runs `for_else` (`on_else`) or `for_if`.
pub(crate) fn do_for(on_else: bool, env: &mut Env) -> (r: Result<(), EvalError>)
    requires
        old(env).frames.len() > 0,
    ensures
        final(env).depth == old(env).depth,
        final(env).frames.len() > 0,
        agrees(
            r,
            final(env)@,
            sem::apply_op(
                Handler::Stack(
                    if on_else {
                        OpS::ForElse
                    } else {
                        OpS::ForIf
                    },
                ),
                old(env)@,
                old(env).depth as nat,
            ),
        ),
    decreases old(env).depth, 3nat, 0nat,
{
    if !env.using_for_else {
        return Err(EvalError::NoConditional);
    }
    match env.pop_atom()? {
        Atom::Quotation(q) => {
            if env.for_else == on_else {
                eval_call(q, env)
            } else {
                Ok(())
            }
        },
        _ => Ok(()),
    }
}

/// Runs `keep`.
pub(crate) fn do_keep(env: &mut Env) -> (r: Result<(), EvalError>)
    requires
        old(env).frames.len() > 0,
    ensures
        final(env).depth == old(env).depth,
        final(env).frames.len() > 0,
        agrees(
            r,
            final(env)@,
            sem::apply_op(Handler::Stack(OpS::Keep), old(env)@, old(env).depth as nat),
        ),
    decreases old(env).depth, 3nat, 0nat,
{
    let f = env.pop_atom()?;
    match &f {
        Atom::Quotation(_) | Atom::Function(_, _) => {},
        _ => {
            return Err(EvalError::NotCallable);
        },
    }
    let ghost rest = env@;
    match arity_fn(&f, env) {
        None => Err(EvalError::UnknownArity),
        Some((n, _)) => {
            if stack_len(env) < n as usize {
                return Err(EvalError::Arity);
            }
            let inputs = top_atoms(env, n as usize);
            env.push_blank(false);
            let ghost pushed = env@;
            let ghost held = env.frames@;
            let top = env.frames.len() - 1;
            env.frames[top].stack = inputs;
            proof {
                assert(env.frames@.len() == held.len());
                assert forall|j: int| 0 <= j < top implies env@.frames[j] == rest.frames[j] by {
                    assert(env.frames@[j] == held[j]);
                    assert(pushed.frames[j] == held[j]@);
                }
                let scope = rest.push_frame(
                    FrameView {
                        stack: rest.stack().skip(rest.stack().len() - n),
                        ..blank_frame_view(false)
                    },
                );
                assert(pushed.frames[top as int] == blank_frame_view(false));
                assert(env@.frames[top as int] == scope.frames[top as int]);
                assert(env@.frames.len() == scope.frames.len());
                assert(env@.frames =~= scope.frames);
            }
            eval_callable(f, env)?;
            if env.frames.len() < 2 {
                return Err(EvalError::NoFrame);
            }
            let ghost after = env@;
            let a = env.pop_atom()?;
            let _ = env.pop();
            assert(env@.frames =~= after.pop_frame().frames);
            env.push_atom(a);
            Ok(())
        },
    }
}

/// Runs a built-in.
pub fn apply_op(op: Op, env: &mut Env) -> (r: Result<(), EvalError>)
    requires
        old(env).frames.len() > 0,
    ensures
        final(env).depth == old(env).depth,
        final(env).frames.len() > 0,
        agrees(r, final(env)@, sem::apply_op(op.f, old(env)@, old(env).depth as nat)),
    decreases old(env).depth, 4nat, 0nat,
{
    match op.f {
        Handler::Arith(a) => do_arith(a, env),
        Handler::Logic(OpB::And) => do_connective(true, env),
        Handler::Logic(OpB::Or) => do_connective(false, env),
        Handler::Logic(OpB::Not) => do_not(env),
        Handler::Logic(OpB::Cond) => do_cond(env),
        Handler::Logic(OpB::If) => do_if(env),
        Handler::Stack(OpS::Drop) => do_shuffle(OpS::Drop, env),
        Handler::Stack(OpS::Swap) => do_shuffle(OpS::Swap, env),
        Handler::Stack(OpS::Rot3) => do_shuffle(OpS::Rot3, env),
        Handler::Stack(OpS::Dup) => do_shuffle(OpS::Dup, env),
        Handler::Stack(OpS::List) => do_list(env),
        Handler::Stack(OpS::MapEach) => do_map(env),
        Handler::Stack(OpS::ReduceInner) => do_reduce(env),
        Handler::Stack(OpS::Splat) => do_splat(env),
        Handler::Stack(OpS::Repeat) => do_repeat(env),
        Handler::Stack(OpS::ForElse) => do_for(true, env),
        Handler::Stack(OpS::ForIf) => do_for(false, env),
        Handler::Stack(OpS::Print) => do_print(env),
        Handler::Stack(OpS::Debug) => do_debug(env),
        Handler::Stack(OpS::Get) => do_get(env),
        Handler::Stack(OpS::Keep) => do_keep(env),
        Handler::Stack(OpS::At) => do_at(env),
    }
}

/// Runs `DefVar`: evaluates a quotation in a scope of its own and binds
/// the symbol to the result.
pub(crate) fn do_def_var(env: &mut Env) -> (r: Result<(), EvalError>)
    requires
        old(env).frames.len() > 0,
    ensures
        final(env).depth == old(env).depth,
        final(env).frames.len() > 0,
        agrees(r, final(env)@, sem::define_evaluated(old(env)@, old(env).depth as nat)),
    decreases old(env).depth, 3nat, 0nat,
{
    let (b, a) = take2(env)?;
    match (a, b) {
        (Atom::Symbol(name), Atom::Quotation(expr)) => {
            let value = eval_with_new_scope(expr, env)?;
            env.bind_var(ident_as_str(&name), value)
        },
        _ => Err(EvalError::Type),
    }
}

/// Takes an atom and evaluates its effect on the environment. In a lazy
/// frame the atom is stored as it is; otherwise literals are pushed,
/// built-ins run, brackets open and close frames, definitions bind, and
/// names are resolved and run or pushed.
pub fn eval_atom(atom: Atom, env: &mut Env) -> (r: Result<(), EvalError>)
    requires
        old(env).frames.len() > 0,
    ensures
        final(env).depth == old(env).depth,
        final(env).frames.len() > 0,
        agrees(r, final(env)@, sem::eval_atom(atom@, old(env)@, old(env).depth as nat)),
    decreases old(env).depth, 5nat, 0nat,
{
    if env.lazy_mode() {
        match atom {
            Atom::QuotationStart | Atom::QuotationEnd => {},
            _ => {
                env.push_atom(atom);
                return Ok(());
            },
        }
    } else {
        if let Atom::Op(op) = &atom {
            let is_cond = match op.f {
                Handler::Logic(OpB::Cond) => true,
                _ => false,
            };
            if !is_cond {
                if let Some((n, _)) = op.arity {
                    if stack_len(env) < n as usize {
                        return Err(EvalError::Arity);
                    }
                }
            }
        }
    }
    match atom {
        Atom::Bool(_) | Atom::Num(_) | Atom::Symbol(_) | Atom::Quotation(_) | Atom::Function(
            _,
            _,
        ) => {
            env.push_atom(atom);
            Ok(())
        },
        Atom::Op(op) => apply_op(op, env),
        Atom::QuotationStart => {
            env.push_blank(true);
            Ok(())
        },
        Atom::QuotationEnd => close_frame(env, false),
        Atom::DefVar => do_def_var(env),
        Atom::DefVarLiteral => do_define(false, env),
        Atom::DefFnLiteral => do_define(true, env),
        Atom::Call => {
            let f = env.pop_atom()?;
            eval_callable(f, env)
        },
        Atom::Plain(name) => match env.find_var(&name) {
            Some(Atom::Function(params, body)) => eval_call_function(params, body, env),
            Some(bound) => {
                env.push_atom(bound);
                Ok(())
            },
            None => Err(EvalError::UnknownName),
        },
        Atom::List(_) => Err(EvalError::UnexpectedAtom),
    }
}

/// Runs atoms one after the other.
pub fn eval_atoms(atoms: Vec<Atom>, env: &mut Env) -> (r: Result<(), EvalError>)
    requires
        old(env).frames.len() > 0,
    ensures
        final(env).depth == old(env).depth,
        final(env).frames.len() > 0,
        agrees(
            r,
            final(env)@,
            sem::eval_atoms(atoms_view(atoms@), old(env)@, old(env).depth as nat),
        ),
    decreases old(env).depth, 6nat, 0nat,
{
    let ghost all = atoms_view(atoms@);
    let ghost source = atoms@;
    let ghost goal = sem::eval_atoms(all, old(env)@, old(env).depth as nat);
    assert(all.skip(0) =~= all);
    for atom in it: atoms
        invariant
            it.seq() == source,
            all == atoms_view(source),
            env.depth == old(env).depth,
            env.frames.len() > 0,
            goal == sem::eval_atoms(all, old(env)@, old(env).depth as nat),
            goal == sem::eval_atoms(all.skip(it.index() as int), env@, old(env).depth as nat),
    {
        proof {
            assert(all.skip(it.index() as int)[0] == atom@);
            assert(all.skip(it.index() as int).drop_first() =~= all.skip(it.index() + 1));
        }
        eval_atom(atom, env)?;
    }
    Ok(())
}

/// Parses a line and runs its atoms.
pub fn eval_line(line: &str, env: &mut Env) -> (r: Result<(), EvalError>)
    requires
        old(env).frames.len() > 0,
    ensures
        final(env).depth == old(env).depth,
        final(env).frames.len() > 0,
        agrees(r, final(env)@, sem::eval_line(line@, old(env)@, old(env).depth as nat)),
{
    match parse_line(line) {
        Ok(atoms) => eval_atoms(atoms, env),
        Err(e) => Err(EvalError::Parse(e)),
    }
}

/// Runs a program, line by line, in a fresh environment.
pub fn eval_program(program: &str) -> (r: Result<Env, EvalError>)
    ensures
        match r {
            Ok(env) => sem::eval_program(program@, DEFAULT_DEPTH as nat) == Ok::<
                EnvView,
                EvalError,
            >(env@) && env.frames.len() > 0 && env.depth == DEFAULT_DEPTH,
            Err(e) => sem::eval_program(program@, DEFAULT_DEPTH as nat) == Err::<
                EnvView,
                EvalError,
            >(e),
        },
{
    let mut env = Env::new();
    let chars = chars_of(program);
    let mut from: usize = 0;
    let ghost goal = sem::eval_program(program@, DEFAULT_DEPTH as nat);
    loop
        invariant_except_break
            goal == sem::eval_lines(program@, from as int, env@, DEFAULT_DEPTH as nat),
        invariant
            chars@ == program@,
            from <= chars.len(),
            env.depth == DEFAULT_DEPTH,
            env.frames.len() > 0,
            goal == sem::eval_program(program@, DEFAULT_DEPTH as nat),
        ensures
            env.depth == DEFAULT_DEPTH,
            env.frames.len() > 0,
            goal == Ok::<EnvView, EvalError>(env@),
        decreases chars.len() - from,
    {
        let mut end: usize = from;
        while end < chars.len() && chars[end] != '\n'
            invariant
                from <= end <= chars.len(),
                sem::line_end(chars@, from as int) == sem::line_end(chars@, end as int),
            decreases chars.len() - end,
        {
            end += 1;
        }
        match parse_chars(&copy_range(&chars, from, end)) {
            Ok(atoms) => eval_atoms(atoms, &mut env)?,
            Err(e) => {
                return Err(EvalError::Parse(e));
            },
        }
        if end >= chars.len() {
            break ;
        }
        from = end + 1;
    }
    Ok(env)
}

} // verus!
