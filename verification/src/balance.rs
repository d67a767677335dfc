//! Frame balance: brackets alone change the number of frames.

use crate::grammar::{
    expr_atoms, fn_form, lemma_run_end, lemma_token_at, let_form, line_atoms, run_end, token_at,
    tokens_from, CharClass,
};
use crate::semantics::{
    apply_arith, apply_at, apply_connective, apply_debug, apply_get, apply_not, apply_op,
    apply_print, apply_shuffle, apply_splat, define, define_evaluated, eval_atom, eval_atoms,
    eval_call, eval_call_function, eval_callable, eval_line, eval_lines, eval_program,
    eval_with_new_scope, fresh_env, lemma_line_end, line_end, map_items, reduce_items,
    repeat_callable, Outcome,
};
use crate::types::{AtomView, Handler, OpA, OpB, OpS};
use crate::vm::{blank_frame_view, find_in_contexts, take_params, EnvView, FrameView};
use vstd::prelude::*;

verus! {

/// How an atom changes the number of frames when it is met as a bracket:
/// an opening bracket adds a frame, a closing one removes one.
pub open spec fn bracket_weight(a: AtomView) -> int {
    match a {
        AtomView::QuotationStart => 1,
        AtomView::QuotationEnd => -1,
        _ => 0,
    }
}

/// Opening brackets minus closing brackets among `atoms`, nested atoms not
/// counted.
pub open spec fn bracket_balance(atoms: Seq<AtomView>) -> int
    decreases atoms.len(),
{
    if atoms.len() == 0 {
        0
    } else {
        bracket_weight(atoms[0]) + bracket_balance(atoms.drop_first())
    }
}

/// A value that may sit on a stack or in a binding: no bracket, and every
/// body inside it has as many opening brackets as closing ones.
pub open spec fn settled_value(a: AtomView) -> bool
    decreases a, 0nat,
{
    match a {
        AtomView::QuotationStart | AtomView::QuotationEnd => false,
        AtomView::List(items) => forall|i: int|
            0 <= i < items.len() ==> settled_value(#[trigger] items[i]),
        AtomView::Quotation(body) => bracket_balance(body) == 0 && forall|i: int|
            0 <= i < body.len() ==> settled_atom(#[trigger] body[i]),
        AtomView::Function(_, body) => bracket_balance(body) == 0 && forall|i: int|
            0 <= i < body.len() ==> settled_atom(#[trigger] body[i]),
        _ => true,
    }
}

/// An atom as it may stand in a line or a body: a bracket or a settled
/// value.
pub open spec fn settled_atom(a: AtomView) -> bool
    decreases a, 1nat,
{
    match a {
        AtomView::QuotationStart | AtomView::QuotationEnd => true,
        _ => settled_value(a),
    }
}

/// Every atom of a stack is a settled value.
pub open spec fn settled_stack(s: Seq<AtomView>) -> bool {
    forall|i: int| 0 <= i < s.len() ==> settled_value(#[trigger] s[i])
}

/// Every bound atom is a settled value.
pub open spec fn settled_bindings(m: Map<Seq<char>, AtomView>) -> bool {
    forall|k: Seq<char>| m.contains_key(k) ==> settled_value(#[trigger] m[k])
}

pub open spec fn settled_frame(f: FrameView) -> bool {
    settled_stack(f.stack) && settled_bindings(f.context) && settled_bindings(f.params)
}

pub open spec fn settled_frames(frames: Seq<FrameView>) -> bool {
    forall|j: int| 0 <= j < frames.len() ==> settled_frame(#[trigger] frames[j])
}

/// An environment with at least one frame in which every atom held, on a
/// stack or in a binding, is a settled value.
pub open spec fn settled(env: EnvView) -> bool {
    env.frames.len() >= 1 && settled_frames(env.frames)
}

/// Every atom is a bracket or a settled value.
pub open spec fn settled_atoms(atoms: Seq<AtomView>) -> bool {
    forall|i: int| 0 <= i < atoms.len() ==> settled_atom(#[trigger] atoms[i])
}

/// A body whose atoms are settled and whose opening brackets are as many as
/// its closing ones.
pub open spec fn settled_body(body: Seq<AtomView>) -> bool {
    bracket_balance(body) == 0 && settled_atoms(body)
}

/// If the evaluation succeeded, it changed the number of frames by `delta`
/// and left a settled environment.
pub open spec fn frames_moved(before: EnvView, r: Outcome, delta: int) -> bool {
    r matches Ok(after) ==> after.frames.len() == before.frames.len() + delta && settled(after)
}

proof fn lemma_values_have_no_brackets(s: Seq<AtomView>)
    requires
        settled_stack(s),
    ensures
        bracket_balance(s) == 0,
        settled_atoms(s),
    decreases s.len(),
{
    if s.len() > 0 {
        assert(settled_value(s[0]));
        lemma_values_have_no_brackets(s.drop_first());
    }
}

proof fn lemma_set_top(env: EnvView, f: FrameView)
    requires
        settled(env),
        settled_frame(f),
    ensures
        settled(env.set_top(f)),
        env.set_top(f).frames.len() == env.frames.len(),
{
}

proof fn lemma_set_stack(env: EnvView, s: Seq<AtomView>)
    requires
        settled(env),
        settled_stack(s),
    ensures
        settled(env.set_stack(s)),
        env.set_stack(s).frames.len() == env.frames.len(),
{
    assert(settled_frame(env.top()));
    lemma_set_top(env, FrameView { stack: s, ..env.top() });
}

proof fn lemma_operands(env: EnvView, n: int)
    requires
        settled(env),
        0 <= n <= env.stack().len(),
    ensures
        settled(env.without_operands(n)),
        env.without_operands(n).frames.len() == env.frames.len(),
        env.without_operands(n).stack() == env.stack().take(env.stack().len() - n),
        forall|k: int| 0 <= k < n ==> settled_value(#[trigger] env.operand(k)),
        settled_stack(env.stack()),
{
    assert(settled_frame(env.top()));
    lemma_set_stack(env, env.stack().take(env.stack().len() - n));
}

proof fn lemma_push_atom(env: EnvView, a: AtomView)
    requires
        settled(env),
        settled_value(a),
    ensures
        settled(env.push_atom(a)),
        env.push_atom(a).frames.len() == env.frames.len(),
{
    assert(settled_frame(env.top()));
    lemma_set_stack(env, env.stack().push(a));
}

proof fn lemma_append_atoms(env: EnvView, s: Seq<AtomView>)
    requires
        settled(env),
        settled_stack(s),
    ensures
        settled(env.append_atoms(s)),
        env.append_atoms(s).frames.len() == env.frames.len(),
{
    assert(settled_frame(env.top()));
    lemma_set_stack(env, env.stack() + s);
}

proof fn lemma_push_frame(env: EnvView, f: FrameView)
    requires
        settled(env),
        settled_frame(f),
    ensures
        settled(env.push_frame(f)),
        env.push_frame(f).frames.len() == env.frames.len() + 1,
        env.push_frame(f).top() == f,
{
}

proof fn lemma_pop_frame(env: EnvView)
    requires
        settled(env),
        env.frames.len() >= 2,
    ensures
        settled(env.pop_frame()),
        env.pop_frame().frames.len() == env.frames.len() - 1,
        settled_stack(env.stack()),
{
    assert(settled_frame(env.top()));
}

proof fn lemma_bind_var(env: EnvView, name: Seq<char>, a: AtomView)
    requires
        settled(env),
        settled_value(a),
    ensures
        frames_moved(env, env.bind_var(name, a), 0),
{
    assert(settled_frame(env.top()));
    lemma_set_top(env, FrameView { context: env.top().context.insert(name, a), ..env.top() });
}

proof fn lemma_find_in_contexts(frames: Seq<FrameView>, name: Seq<char>)
    requires
        settled_frames(frames),
    ensures
        find_in_contexts(frames, name) matches Some(a) ==> settled_value(a),
    decreases frames.len(),
{
    if frames.len() > 0 {
        assert(settled_frame(frames.last()));
        lemma_find_in_contexts(frames.drop_last(), name);
    }
}

proof fn lemma_find_var(env: EnvView, name: Seq<char>)
    requires
        settled(env),
    ensures
        env.find_var(name) matches Some(a) ==> settled_value(a),
{
    assert(settled_frame(env.top()));
    lemma_find_in_contexts(env.frames, name);
}

proof fn lemma_take_params(
    stack: Seq<AtomView>,
    names: Seq<Seq<char>>,
    bound: Map<Seq<char>, AtomView>,
)
    requires
        settled_stack(stack),
        settled_bindings(bound),
    ensures
        take_params(stack, names, bound) matches Ok((rest, all)) ==> settled_stack(rest)
            && settled_bindings(all),
    decreases names.len(),
{
    if names.len() > 0 && stack.len() > 0 && !bound.contains_key(names.last()) {
        assert(settled_value(stack.last()));
        lemma_take_params(
            stack.drop_last(),
            names.drop_last(),
            bound.insert(names.last(), stack.last()),
        );
    }
}

proof fn lemma_bind_params(env: EnvView, names: Seq<Seq<char>>)
    requires
        settled(env),
    ensures
        frames_moved(env, env.bind_params(names), 1),
{
    assert(settled_frame(env.top()));
    lemma_take_params(env.stack(), names, Map::empty());
    if let Ok((rest, bound)) = take_params(env.stack(), names, Map::empty()) {
        lemma_set_stack(env, rest);
        lemma_push_frame(
            env.set_stack(rest),
            FrameView { params: bound, ..blank_frame_view(false) },
        );
    }
}

proof fn lemma_unbind_params(env: EnvView)
    requires
        settled(env),
        env.frames.len() >= 2,
    ensures
        settled(env.unbind_params()),
        env.unbind_params().frames.len() == env.frames.len() - 1,
{
    lemma_pop_frame(env);
    lemma_append_atoms(env.pop_frame(), env.stack());
}

proof fn lemma_close_frame(env: EnvView, as_list: bool)
    requires
        settled(env),
    ensures
        frames_moved(env, env.close_frame(as_list), -1),
{
    if env.frames.len() >= 2 {
        lemma_pop_frame(env);
        lemma_values_have_no_brackets(env.stack());
        if as_list {
            lemma_push_atom(env.pop_frame(), AtomView::List(env.stack()));
        } else {
            lemma_push_atom(env.pop_frame(), AtomView::Quotation(env.stack()));
        }
    }
}

proof fn lemma_close_scope(env: EnvView)
    requires
        settled(env),
    ensures
        env.close_scope() matches Ok((a, after)) ==> settled_value(a) && settled(after)
            && after.frames.len() == env.frames.len() - 1,
{
    if env.frames.len() >= 2 && env.stack().len() > 0 {
        lemma_pop_frame(env);
    }
}

proof fn lemma_plain_ops(env: EnvView)
    requires
        settled(env),
    ensures
        forall|op: OpA| frames_moved(env, #[trigger] apply_arith(op, env), 0),
        forall|conj: bool| frames_moved(env, #[trigger] apply_connective(conj, env), 0),
        frames_moved(env, apply_not(env), 0),
        forall|op: OpS| frames_moved(env, #[trigger] apply_shuffle(op, env), 0),
        frames_moved(env, apply_splat(env), 0),
        frames_moved(env, apply_at(env), 0),
        frames_moved(env, apply_print(env), 0),
        frames_moved(env, apply_debug(env), 0),
        frames_moved(env, apply_get(env), 0),
        forall|function: bool| frames_moved(env, #[trigger] define(env, function), 0),
{
    let n = env.stack().len();
    assert(settled_frame(env.top()));
    if n >= 1 {
        lemma_operands(env, 1);
        let one = env.without_operands(1);
        let a = env.operand(0);
        assert(settled_value(a));
        lemma_push_atom(env, a);
        lemma_push_atom(one, AtomView::Bool(true));
        lemma_push_atom(one, AtomView::Bool(false));
        if let AtomView::List(items) = a {
            assert(settled_stack(items));
            lemma_append_atoms(one, items);
        }
        if let AtomView::Symbol(name) = a {
            lemma_find_var(one, name);
            match one.find_var(name) {
                Some(AtomView::Function(_, body)) => {
                    lemma_push_atom(one, AtomView::Quotation(body));
                },
                Some(found) => {
                    lemma_push_atom(one, found);
                },
                None => {},
            }
        }
    }
    if n >= 2 {
        lemma_operands(env, 2);
        let two = env.without_operands(2);
        let a = env.operand(1);
        let b = env.operand(0);
        assert(settled_value(a));
        assert(settled_value(b));
        lemma_push_atom(two, AtomView::Bool(true));
        lemma_push_atom(two, AtomView::Bool(false));
        assert forall|v: i32| settled(#[trigger] two.push_atom(AtomView::Num(v))) && two.push_atom(
            AtomView::Num(v),
        ).frames.len() == env.frames.len() by {
            lemma_push_atom(two, AtomView::Num(v));
        }
        lemma_push_atom(two, b);
        lemma_push_atom(two.push_atom(b), a);
        if let AtomView::List(items) = a {
            if let AtomView::Num(k) = b {
                if 0 <= k < items.len() {
                    assert(settled_value(items[k as int]));
                    lemma_push_atom(two, items[k as int]);
                }
            }
        }
        if let AtomView::Symbol(name) = b {
            lemma_bind_var(two, name, a);
            if let AtomView::Quotation(q) = a {
                lemma_bind_var(two, name, AtomView::Function(Seq::empty(), q));
            }
        }
    }
    if n >= 3 {
        lemma_operands(env, 3);
        let three = env.without_operands(3);
        let a = env.operand(2);
        let b = env.operand(1);
        let c = env.operand(0);
        lemma_push_atom(three, b);
        lemma_push_atom(three.push_atom(b), c);
        lemma_push_atom(three.push_atom(b).push_atom(c), a);
    }
}

proof fn lemma_eval_call(body: Seq<AtomView>, env: EnvView, depth: nat)
    requires
        settled(env),
        settled_body(body),
    ensures
        frames_moved(env, eval_call(body, env, depth), 0),
    decreases depth, 0nat, 0nat,
{
    if depth > 0 {
        lemma_eval_atoms(body, env, (depth - 1) as nat);
    }
}

proof fn lemma_eval_call_function(
    params: Seq<Seq<char>>,
    body: Seq<AtomView>,
    env: EnvView,
    depth: nat,
)
    requires
        settled(env),
        settled_body(body),
    ensures
        frames_moved(env, eval_call_function(params, body, env, depth), 0),
    decreases depth, 1nat, 0nat,
{
    if params.len() == 0 {
        lemma_eval_call(body, env, depth);
    } else {
        lemma_bind_params(env, params);
        if let Ok(bound) = env.bind_params(params) {
            lemma_eval_call(body, bound, depth);
            if let Ok(after) = eval_call(body, bound, depth) {
                if after.frames.len() >= 2 {
                    lemma_unbind_params(after);
                }
            }
        }
    }
}

proof fn lemma_eval_callable(f: AtomView, env: EnvView, depth: nat)
    requires
        settled(env),
        settled_value(f),
    ensures
        frames_moved(env, eval_callable(f, env, depth), 0),
    decreases depth, 2nat, 0nat,
{
    match f {
        AtomView::Quotation(body) => {
            lemma_eval_call(body, env, depth);
        },
        AtomView::Function(params, body) => {
            lemma_eval_call_function(params, body, env, depth);
        },
        _ => {},
    }
}

proof fn lemma_eval_with_new_scope(expr: Seq<AtomView>, env: EnvView, depth: nat)
    requires
        settled(env),
        settled_body(expr),
    ensures
        eval_with_new_scope(expr, env, depth) matches Ok((value, after)) ==> settled_value(value)
            && settled(after) && after.frames.len() == env.frames.len(),
    decreases depth, 1nat, 0nat,
{
    lemma_push_frame(env, blank_frame_view(false));
    lemma_eval_call(expr, env.push_blank(false), depth);
    if let Ok(after) = eval_call(expr, env.push_blank(false), depth) {
        lemma_close_scope(after);
    }
}

proof fn lemma_map_items(
    items: Seq<AtomView>,
    q: Seq<AtomView>,
    env: EnvView,
    done: Seq<AtomView>,
    depth: nat,
)
    requires
        settled(env),
        settled_stack(items),
        settled_body(q),
        settled_stack(done),
    ensures
        map_items(items, q, env, done, depth) matches Ok((results, after)) ==> settled_stack(
            results,
        ) && settled(after) && after.frames.len() == env.frames.len(),
    decreases depth, 3nat, items.len(),
{
    if items.len() > 0 {
        lemma_push_frame(env, blank_frame_view(false));
        assert(settled_value(items[0]));
        lemma_push_atom(env.push_blank(false), items[0]);
        let scope = env.push_blank(false).push_atom(items[0]);
        lemma_eval_call(q, scope, depth);
        if let Ok(after) = eval_call(q, scope, depth) {
            lemma_close_scope(after);
            if let Ok((r, next)) = after.close_scope() {
                lemma_map_items(items.drop_first(), q, next, done.push(r), depth);
            }
        }
    }
}

proof fn lemma_reduce_items(items: Seq<AtomView>, q: Seq<AtomView>, env: EnvView, depth: nat)
    requires
        settled(env),
        settled_stack(items),
        settled_body(q),
    ensures
        frames_moved(env, reduce_items(items, q, env, depth), 0),
    decreases depth, 3nat, items.len(),
{
    if items.len() > 0 {
        assert(settled_value(items[0]));
        lemma_push_atom(env, items[0]);
        lemma_eval_call(q, env.push_atom(items[0]), depth);
        if let Ok(after) = eval_call(q, env.push_atom(items[0]), depth) {
            lemma_reduce_items(items.drop_first(), q, after, depth);
        }
    }
}

proof fn lemma_repeat_callable(times: int, f: AtomView, env: EnvView, depth: nat)
    requires
        settled(env),
        settled_value(f),
    ensures
        frames_moved(env, repeat_callable(times, f, env, depth), 0),
    decreases depth, 3nat, times,
{
    if times > 0 {
        lemma_eval_callable(f, env, depth);
        if let Ok(after) = eval_callable(f, env, depth) {
            lemma_repeat_callable(times - 1, f, after, depth);
        }
    }
}

proof fn lemma_define_evaluated(env: EnvView, depth: nat)
    requires
        settled(env),
    ensures
        frames_moved(env, define_evaluated(env, depth), 0),
    decreases depth, 3nat, 0nat,
{
    if env.has_operands(2) {
        lemma_operands(env, 2);
        if let (AtomView::Symbol(name), AtomView::Quotation(expr)) = (
            env.operand(0),
            env.operand(1),
        ) {
            assert(settled_value(env.operand(1)));
            lemma_eval_with_new_scope(expr, env.without_operands(2), depth);
            if let Ok((value, after)) = eval_with_new_scope(expr, env.without_operands(2), depth) {
                lemma_bind_var(after, name, value);
            }
        }
    }
}

proof fn lemma_apply_op(h: Handler, env: EnvView, depth: nat)
    requires
        settled(env),
    ensures
        frames_moved(env, apply_op(h, env, depth), 0),
    decreases depth, 4nat, 0nat,
{
    lemma_plain_ops(env);
    let n = env.stack().len();
    match h {
        Handler::Logic(OpB::Cond) => {
            if n >= 3 {
                lemma_operands(env, 3);
                assert(settled_value(env.operand(1)));
                assert(settled_value(env.operand(0)));
                if let (AtomView::Bool(c), AtomView::Quotation(if_q), AtomView::Quotation(else_q)) =
                    (env.operand(2), env.operand(1), env.operand(0)) {
                    lemma_eval_call(if_q, env.without_operands(3), depth);
                    lemma_eval_call(else_q, env.without_operands(3), depth);
                }
            }
        },
        Handler::Logic(OpB::If) => {
            if n >= 2 {
                lemma_operands(env, 2);
                assert(settled_value(env.operand(0)));
                if let (AtomView::Bool(c), AtomView::Quotation(q)) = (
                    env.operand(1),
                    env.operand(0),
                ) {
                    lemma_eval_call(q, env.without_operands(2).note_conditional(), depth);
                }
            }
        },
        Handler::Stack(OpS::List) => {
            if n >= 1 {
                lemma_operands(env, 1);
                assert(settled_value(env.operand(0)));
                if let AtomView::Quotation(q) = env.operand(0) {
                    let scope = env.without_operands(1).push_blank(false);
                    lemma_push_frame(env.without_operands(1), blank_frame_view(false));
                    lemma_eval_call(q, scope, depth);
                    if let Ok(after) = eval_call(q, scope, depth) {
                        lemma_close_frame(after, true);
                    }
                }
            }
        },
        Handler::Stack(OpS::MapEach) => {
            if n >= 2 {
                lemma_operands(env, 2);
                assert(settled_value(env.operand(0)));
                assert(settled_value(env.operand(1)));
                if let (AtomView::List(items), AtomView::Quotation(q)) = (
                    env.operand(1),
                    env.operand(0),
                ) {
                    let start = env.without_operands(2).enter_loop();
                    lemma_map_items(items, q, start, Seq::empty(), depth);
                    if let Ok((results, after)) = map_items(items, q, start, Seq::empty(), depth) {
                        lemma_push_atom(after.leave_loop(), AtomView::List(results));
                    }
                }
            }
        },
        Handler::Stack(OpS::ReduceInner) => {
            if n >= 2 {
                lemma_operands(env, 2);
                assert(settled_value(env.operand(0)));
                assert(settled_value(env.operand(1)));
                if let (AtomView::List(items), AtomView::Quotation(q)) = (
                    env.operand(1),
                    env.operand(0),
                ) {
                    let scope = env.without_operands(2).enter_loop().push_blank(false);
                    lemma_push_frame(env.without_operands(2).enter_loop(), blank_frame_view(false));
                    if items.len() > 0 {
                        assert(settled_value(items[0]));
                        lemma_push_atom(scope, items[0]);
                        lemma_reduce_items(items.drop_first(), q, scope.push_atom(items[0]), depth);
                        if let Ok(after) = reduce_items(
                            items.drop_first(),
                            q,
                            scope.push_atom(items[0]),
                            depth,
                        ) {
                            lemma_close_frame(after.leave_loop(), true);
                        }
                    } else {
                        lemma_close_frame(scope.leave_loop(), true);
                    }
                }
            }
        },
        Handler::Stack(OpS::Repeat) => {
            if n >= 2 {
                lemma_operands(env, 2);
                assert(settled_value(env.operand(1)));
                if let AtomView::Num(times) = env.operand(0) {
                    lemma_repeat_callable(
                        times as int,
                        env.operand(1),
                        env.without_operands(2).enter_loop(),
                        depth,
                    );
                }
            }
        },
        Handler::Stack(OpS::ForElse) | Handler::Stack(OpS::ForIf) => {
            if n >= 1 {
                lemma_operands(env, 1);
                assert(settled_value(env.operand(0)));
                if let AtomView::Quotation(q) = env.operand(0) {
                    lemma_eval_call(q, env.without_operands(1), depth);
                }
            }
        },
        Handler::Stack(OpS::Keep) => {
            if n >= 1 {
                lemma_operands(env, 1);
                assert(settled_value(env.operand(0)));
                let rest = env.without_operands(1);
                if let Some((k, _)) = crate::arity::callable_arity(env.operand(0)) {
                    if rest.stack().len() >= k {
                        assert(settled_frame(rest.top()));
                        let scope = rest.push_frame(
                            FrameView {
                                stack: rest.stack().skip(rest.stack().len() - k),
                                ..blank_frame_view(false)
                            },
                        );
                        lemma_push_frame(
                            rest,
                            FrameView {
                                stack: rest.stack().skip(rest.stack().len() - k),
                                ..blank_frame_view(false)
                            },
                        );
                        lemma_eval_callable(env.operand(0), scope, depth);
                        if let Ok(after) = eval_callable(env.operand(0), scope, depth) {
                            if after.frames.len() >= 2 && after.stack().len() > 0 {
                                lemma_pop_frame(after);
                                lemma_push_atom(after.pop_frame(), after.stack().last());
                            }
                        }
                    }
                }
            }
        },
        _ => {},
    }
}

proof fn lemma_eval_atom(a: AtomView, env: EnvView, depth: nat)
    requires
        settled(env),
        settled_atom(a),
    ensures
        frames_moved(env, eval_atom(a, env, depth), bracket_weight(a)),
    decreases depth, 5nat, 0nat,
{
    if env.lazy_mode() && !(a is QuotationStart) && !(a is QuotationEnd) {
        lemma_push_atom(env, a);
    } else {
        match a {
            AtomView::Bool(_)
            | AtomView::Num(_)
            | AtomView::Symbol(_)
            | AtomView::Quotation(_)
            | AtomView::Function(_, _) => {
                lemma_push_atom(env, a);
            },
            AtomView::Op(op) => {
                lemma_apply_op(op.f, env, depth);
            },
            AtomView::QuotationStart => {
                lemma_push_frame(env, blank_frame_view(true));
            },
            AtomView::QuotationEnd => {
                lemma_close_frame(env, false);
            },
            AtomView::DefVar => {
                lemma_define_evaluated(env, depth);
            },
            AtomView::DefVarLiteral | AtomView::DefFnLiteral => {
                lemma_plain_ops(env);
            },
            AtomView::Call => {
                if env.has_operands(1) {
                    lemma_operands(env, 1);
                    assert(settled_value(env.operand(0)));
                    lemma_eval_callable(env.operand(0), env.without_operands(1), depth);
                }
            },
            AtomView::Plain(name) => {
                lemma_find_var(env, name);
                match env.find_var(name) {
                    Some(AtomView::Function(params, body)) => {
                        lemma_eval_call_function(params, body, env, depth);
                    },
                    Some(bound) => {
                        lemma_push_atom(env, bound);
                    },
                    None => {},
                }
            },
            AtomView::List(_) => {},
        }
    }
}

proof fn lemma_eval_atoms(atoms: Seq<AtomView>, env: EnvView, depth: nat)
    requires
        settled(env),
        settled_atoms(atoms),
    ensures
        frames_moved(env, eval_atoms(atoms, env, depth), bracket_balance(atoms)),
    decreases depth, 6nat, atoms.len(),
{
    if atoms.len() > 0 {
        assert(settled_atom(atoms[0]));
        lemma_eval_atom(atoms[0], env, depth);
        if let Ok(after) = eval_atom(atoms[0], env, depth) {
            lemma_eval_atoms(atoms.drop_first(), after, depth);
        }
    }
}

/// Frame balance. Evaluating atoms in an environment whose stored atoms are
/// settled changes the number of frames by exactly the opening brackets
/// minus the closing brackets among them, and leaves the stored atoms
/// settled, whenever it succeeds.
pub proof fn frames_follow_brackets(atoms: Seq<AtomView>, env: EnvView, depth: nat)
    requires
        settled(env),
        settled_atoms(atoms),
    ensures
        eval_atoms(atoms, env, depth) matches Ok(after) ==> after.frames.len() == env.frames.len()
            + bracket_balance(atoms) && settled(after),
{
    lemma_eval_atoms(atoms, env, depth);
}

/// An atom that holds no other atoms.
pub open spec fn flat(a: AtomView) -> bool {
    !(a is List) && !(a is Quotation) && !(a is Function)
}

/// Whether the brackets of a line's atoms match up: as many opening as
/// closing ones in the line itself and in the expression of a definition.
pub open spec fn brackets_match(atoms: Seq<AtomView>) -> bool {
    bracket_balance(atoms) == 0 && forall|j: int|
        0 <= j < atoms.len() ==> match #[trigger] atoms[j] {
            AtomView::Quotation(body) => bracket_balance(body) == 0 && forall|i: int|
                0 <= i < body.len() ==> match #[trigger] body[i] {
                    AtomView::Function(_, inner) => bracket_balance(inner) == 0,
                    _ => true,
                },
            _ => true,
        }
}

pub(crate) proof fn lemma_tokens_flat(s: Seq<char>, i: int)
    ensures
        tokens_from(s, i) matches Ok(atoms) ==> forall|j: int|
            0 <= j < atoms.len() ==> flat(#[trigger] atoms[j]),
    decreases s.len() - i,
{
    if 0 <= i < s.len() {
        lemma_token_at(s, i);
        if let Ok((a, e)) = token_at(s, i) {
            lemma_run_end(s, e, CharClass::Space);
            lemma_tokens_flat(s, run_end(s, e, CharClass::Space));
            assert(flat(a));
        }
    }
}

proof fn lemma_flat_atoms_settled(atoms: Seq<AtomView>)
    requires
        forall|j: int| 0 <= j < atoms.len() ==> flat(#[trigger] atoms[j]),
    ensures
        settled_atoms(atoms),
{
    assert forall|j: int| 0 <= j < atoms.len() implies settled_atom(#[trigger] atoms[j]) by {
        assert(flat(atoms[j]));
    }
}

/// The atoms of a line whose brackets match up are settled: evaluating
/// them stores no body with unmatched brackets.
pub proof fn matched_lines_are_settled(line: Seq<char>)
    requires
        line_atoms(line) matches Ok(atoms) && brackets_match(atoms),
    ensures
        settled_body(line_atoms(line).unwrap()),
{
    let atoms = line_atoms(line).unwrap();
    if line.len() > 0 && line[0] == '#' {
    } else if let Some((name, after)) = let_form(line) {
        let start = run_end(line, after, CharClass::Space);
        lemma_tokens_flat(line, start);
        let body = expr_atoms(line, after).unwrap();
        lemma_flat_atoms_settled(body);
        assert(atoms[0] == AtomView::Quotation(body));
        assert(settled_value(atoms[0]));
    } else if let Some((names, after)) = fn_form(line) {
        let start = run_end(line, after, CharClass::Space);
        lemma_tokens_flat(line, start);
        let body = expr_atoms(line, after).unwrap();
        lemma_flat_atoms_settled(body);
        let f = AtomView::Function(names.drop_first(), body);
        let outer = seq![f];
        assert(atoms[0] == AtomView::Quotation(outer));
        assert(outer[0] == f);
        assert(bracket_balance(body) == 0);
        assert(settled_value(f));
        assert forall|i: int| 0 <= i < outer.len() implies settled_atom(#[trigger] outer[i]) by {
            assert(outer[i] == f);
        }
        assert(settled_value(atoms[0]));
    } else {
        let start = run_end(line, 0, CharClass::Space);
        lemma_tokens_flat(line, start);
        lemma_flat_atoms_settled(atoms);
    }
}

/// Frame balance of a line. A line whose brackets match up, evaluated with
/// success in an environment whose stored atoms are settled, leaves as many
/// frames as it found, and the stored atoms settled.
pub proof fn line_keeps_frames(line: Seq<char>, env: EnvView, depth: nat)
    requires
        settled(env),
        line_atoms(line) matches Ok(atoms) && brackets_match(atoms),
    ensures
        eval_line(line, env, depth) matches Ok(after) ==> after.frames.len() == env.frames.len()
            && settled(after),
{
    matched_lines_are_settled(line);
    lemma_eval_atoms(line_atoms(line).unwrap(), env, depth);
}

/// The environment that a program starts in is settled.
pub proof fn fresh_env_is_settled()
    ensures
        settled(fresh_env()),
{
}

/// Whether every line of `text` from `from` on has atoms whose brackets
/// match up.
pub open spec fn lines_match(text: Seq<char>, from: int) -> bool
    decreases text.len() - from,
    via lines_match_decreases
{
    let end = line_end(text, from);
    if !(0 <= from <= text.len()) {
        true
    } else {
        (line_atoms(text.subrange(from, end)) matches Ok(atoms) && brackets_match(atoms)) && (end
            >= text.len() || lines_match(text, end + 1))
    }
}

#[via_fn]
proof fn lines_match_decreases(text: Seq<char>, from: int) {
    if 0 <= from <= text.len() {
        lemma_line_end(text, from);
    }
}

/// Frame balance of lines. Lines whose brackets match up, evaluated with
/// success one after the other, leave as many frames as they found.
pub proof fn lines_keep_frames(text: Seq<char>, from: int, env: EnvView, depth: nat)
    requires
        settled(env),
        lines_match(text, from),
    ensures
        eval_lines(text, from, env, depth) matches Ok(after) ==> after.frames.len()
            == env.frames.len() && settled(after),
    decreases text.len() - from,
{
    if 0 <= from <= text.len() {
        lemma_line_end(text, from);
        let end = line_end(text, from);
        let line = text.subrange(from, end);
        line_keeps_frames(line, env, depth);
        if let Ok(after) = eval_line(line, env, depth) {
            if end < text.len() {
                lines_keep_frames(text, end + 1, after, depth);
            }
        }
    }
}

/// Frame balance of a program. A program whose lines all have matching
/// brackets ends, if it succeeds, with the root frame alone.
pub proof fn program_ends_with_the_root(text: Seq<char>, depth: nat)
    requires
        lines_match(text, 0),
    ensures
        eval_program(text, depth) matches Ok(after) ==> after.frames.len() == 1,
{
    fresh_env_is_settled();
    lines_keep_frames(text, 0, fresh_env(), depth);
}

} // verus!
