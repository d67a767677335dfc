//! The depth allowed matters only where it runs out: an evaluation that
//! does not end in `DepthExceeded` ends the same way at any greater depth.

use crate::arity::callable_arity;
use crate::error::EvalError;
use crate::semantics::{
    apply_op, define_evaluated, eval_atom, eval_atoms, eval_call, eval_call_function, eval_callable,
    eval_line, eval_with_new_scope, map_items, reduce_items, repeat_callable,
};
use crate::types::{AtomView, Handler, OpB, OpS};
use crate::vm::{blank_frame_view, EnvView, FrameView};
use vstd::prelude::*;

verus! {

/// Unless the shallower evaluation ran out of depth, the deeper one ended
/// the same way.
pub open spec fn unless_too_deep<T>(shallow: Result<T, EvalError>, deeper: Result<T, EvalError>)
    -> bool {
    !(shallow matches Err(EvalError::DepthExceeded)) ==> deeper == shallow
}

proof fn lemma_eval_call(body: Seq<AtomView>, env: EnvView, depth: nat)
    ensures
        unless_too_deep(eval_call(body, env, depth), eval_call(body, env, depth + 1)),
    decreases depth, 0nat, 0nat,
{
    if depth > 0 {
        lemma_eval_atoms(body, env, (depth - 1) as nat);
    }
}

proof fn lemma_eval_call_function(
    params: Seq<Seq<char>>,
    body: Seq<AtomView>,
    env: EnvView,
    depth: nat,
)
    ensures
        unless_too_deep(
            eval_call_function(params, body, env, depth),
            eval_call_function(params, body, env, depth + 1),
        ),
    decreases depth, 1nat, 0nat,
{
    if params.len() == 0 {
        lemma_eval_call(body, env, depth);
    } else if let Ok(bound) = env.bind_params(params) {
        lemma_eval_call(body, bound, depth);
    }
}

proof fn lemma_eval_callable(f: AtomView, env: EnvView, depth: nat)
    ensures
        unless_too_deep(eval_callable(f, env, depth), eval_callable(f, env, depth + 1)),
    decreases depth, 2nat, 0nat,
{
    match f {
        AtomView::Quotation(body) => {
            lemma_eval_call(body, env, depth);
        },
        AtomView::Function(params, body) => {
            lemma_eval_call_function(params, body, env, depth);
        },
        _ => {},
    }
}

proof fn lemma_eval_with_new_scope(expr: Seq<AtomView>, env: EnvView, depth: nat)
    ensures
        unless_too_deep(
            eval_with_new_scope(expr, env, depth),
            eval_with_new_scope(expr, env, depth + 1),
        ),
    decreases depth, 1nat, 0nat,
{
    lemma_eval_call(expr, env.push_blank(false), depth);
}

proof fn lemma_map_items(
    items: Seq<AtomView>,
    q: Seq<AtomView>,
    env: EnvView,
    done: Seq<AtomView>,
    depth: nat,
)
    ensures
        unless_too_deep(
            map_items(items, q, env, done, depth),
            map_items(items, q, env, done, depth + 1),
        ),
    decreases depth, 3nat, items.len(),
{
    if items.len() > 0 {
        let scope = env.push_blank(false).push_atom(items[0]);
        lemma_eval_call(q, scope, depth);
        if let Ok(after) = eval_call(q, scope, depth) {
            if let Ok((r, next)) = after.close_scope() {
                lemma_map_items(items.drop_first(), q, next, done.push(r), depth);
            }
        }
    }
}

proof fn lemma_reduce_items(items: Seq<AtomView>, q: Seq<AtomView>, env: EnvView, depth: nat)
    ensures
        unless_too_deep(
            reduce_items(items, q, env, depth),
            reduce_items(items, q, env, depth + 1),
        ),
    decreases depth, 3nat, items.len(),
{
    if items.len() > 0 {
        lemma_eval_call(q, env.push_atom(items[0]), depth);
        if let Ok(after) = eval_call(q, env.push_atom(items[0]), depth) {
            lemma_reduce_items(items.drop_first(), q, after, depth);
        }
    }
}

proof fn lemma_repeat_callable(times: int, f: AtomView, env: EnvView, depth: nat)
    ensures
        unless_too_deep(
            repeat_callable(times, f, env, depth),
            repeat_callable(times, f, env, depth + 1),
        ),
    decreases depth, 3nat, times,
{
    if times > 0 {
        lemma_eval_callable(f, env, depth);
        if let Ok(after) = eval_callable(f, env, depth) {
            lemma_repeat_callable(times - 1, f, after, depth);
        }
    }
}

proof fn lemma_define_evaluated(env: EnvView, depth: nat)
    ensures
        unless_too_deep(define_evaluated(env, depth), define_evaluated(env, depth + 1)),
    decreases depth, 3nat, 0nat,
{
    if env.has_operands(2) {
        if let (AtomView::Symbol(name), AtomView::Quotation(expr)) = (
            env.operand(0),
            env.operand(1),
        ) {
            lemma_eval_with_new_scope(expr, env.without_operands(2), depth);
        }
    }
}

proof fn lemma_apply_op(h: Handler, env: EnvView, depth: nat)
    ensures
        unless_too_deep(apply_op(h, env, depth), apply_op(h, env, depth + 1)),
    decreases depth, 4nat, 0nat,
{
    let n = env.stack().len();
    match h {
        Handler::Logic(OpB::Cond) => {
            if let (AtomView::Bool(c), AtomView::Quotation(if_q), AtomView::Quotation(else_q)) = (
                env.operand(2),
                env.operand(1),
                env.operand(0),
            ) {
                lemma_eval_call(if_q, env.without_operands(3), depth);
                lemma_eval_call(else_q, env.without_operands(3), depth);
            }
        },
        Handler::Logic(OpB::If) => {
            if let (AtomView::Bool(c), AtomView::Quotation(q)) = (env.operand(1), env.operand(0)) {
                lemma_eval_call(q, env.without_operands(2).note_conditional(), depth);
            }
        },
        Handler::Stack(OpS::List) => {
            if let AtomView::Quotation(q) = env.operand(0) {
                lemma_eval_call(q, env.without_operands(1).push_blank(false), depth);
            }
        },
        Handler::Stack(OpS::MapEach) => {
            if let (AtomView::List(items), AtomView::Quotation(q)) = (
                env.operand(1),
                env.operand(0),
            ) {
                let start = env.without_operands(2).enter_loop();
                lemma_map_items(items, q, start, Seq::empty(), depth);
            }
        },
        Handler::Stack(OpS::ReduceInner) => {
            if let (AtomView::List(items), AtomView::Quotation(q)) = (
                env.operand(1),
                env.operand(0),
            ) {
                if items.len() > 0 {
                    let scope = env.without_operands(2).enter_loop().push_blank(false);
                    lemma_reduce_items(items.drop_first(), q, scope.push_atom(items[0]), depth);
                }
            }
        },
        Handler::Stack(OpS::Repeat) => {
            if let AtomView::Num(times) = env.operand(0) {
                lemma_repeat_callable(
                    times as int,
                    env.operand(1),
                    env.without_operands(2).enter_loop(),
                    depth,
                );
            }
        },
        Handler::Stack(OpS::ForElse) | Handler::Stack(OpS::ForIf) => {
            if let AtomView::Quotation(q) = env.operand(0) {
                lemma_eval_call(q, env.without_operands(1), depth);
            }
        },
        Handler::Stack(OpS::Keep) => {
            let rest = env.without_operands(1);
            if let Some((k, _)) = callable_arity(env.operand(0)) {
                let scope = rest.push_frame(
                    FrameView {
                        stack: rest.stack().skip(rest.stack().len() - k),
                        ..blank_frame_view(false)
                    },
                );
                lemma_eval_callable(env.operand(0), scope, depth);
            }
        },
        _ => {},
    }
}

proof fn lemma_eval_atom(a: AtomView, env: EnvView, depth: nat)
    ensures
        unless_too_deep(eval_atom(a, env, depth), eval_atom(a, env, depth + 1)),
    decreases depth, 5nat, 0nat,
{
    match a {
        AtomView::Op(op) => {
            lemma_apply_op(op.f, env, depth);
        },
        AtomView::DefVar => {
            lemma_define_evaluated(env, depth);
        },
        AtomView::Call => {
            lemma_eval_callable(env.operand(0), env.without_operands(1), depth);
        },
        AtomView::Plain(name) => {
            if let Some(AtomView::Function(params, body)) = env.find_var(name) {
                lemma_eval_call_function(params, body, env, depth);
            }
        },
        _ => {},
    }
}

proof fn lemma_eval_atoms(atoms: Seq<AtomView>, env: EnvView, depth: nat)
    ensures
        unless_too_deep(eval_atoms(atoms, env, depth), eval_atoms(atoms, env, depth + 1)),
    decreases depth, 6nat, atoms.len(),
{
    if atoms.len() > 0 {
        lemma_eval_atom(atoms[0], env, depth);
        if let Ok(after) = eval_atom(atoms[0], env, depth) {
            lemma_eval_atoms(atoms.drop_first(), after, depth);
        }
    }
}

/// An evaluation that does not run out of depth ends the same way at any
/// greater depth: with the same environment or the same error.
pub proof fn depth_matters_only_when_exceeded(
    atoms: Seq<AtomView>,
    env: EnvView,
    depth: nat,
    more: nat,
)
    ensures
        unless_too_deep(eval_atoms(atoms, env, depth), eval_atoms(atoms, env, depth + more)),
    decreases more,
{
    if more > 0 {
        depth_matters_only_when_exceeded(atoms, env, depth, (more - 1) as nat);
        lemma_eval_atoms(atoms, env, (depth + more - 1) as nat);
    }
}

/// A line that does not run out of depth ends the same way at any greater
/// depth.
pub proof fn line_depth_matters_only_when_exceeded(
    line: Seq<char>,
    env: EnvView,
    depth: nat,
    more: nat,
)
    ensures
        unless_too_deep(eval_line(line, env, depth), eval_line(line, env, depth + more)),
{
    if let Ok(atoms) = crate::grammar::line_atoms(line) {
        depth_matters_only_when_exceeded(atoms, env, depth, more);
    }
}

} // verus!
