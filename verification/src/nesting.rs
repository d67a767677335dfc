//! What holds of evaluation when brackets nest properly: a call changes
//! only the frame it runs in, stacks and bindings hold values only, and a
//! built-in of static arity takes and leaves exactly the atoms its arity
//! counts.

use crate::arity::callable_arity;
use crate::balance::{bracket_weight, flat, lemma_tokens_flat};
use crate::grammar::{expr_atoms, fn_form, let_form, line_atoms, run_end, CharClass};
use crate::ops::static_arity;
use crate::semantics::{
    apply_arith, apply_at, apply_connective, apply_debug, apply_get, apply_not, apply_op,
    apply_print, apply_shuffle, apply_splat, define, define_evaluated, eval_atom, eval_atoms,
    eval_call, eval_call_function, eval_callable, eval_line, eval_with_new_scope, fresh_env,
    map_items, reduce_items, repeat_callable, Outcome,
};
use crate::types::{AtomView, Handler, OpA, OpB, OpS};
use crate::vm::{blank_frame_view, find_in_contexts, take_params, EnvView, FrameView};
use vstd::prelude::*;

verus! {

/// Whether the brackets among `atoms` nest properly when `open` brackets
/// are open before them: no closing bracket comes without an open one, and
/// none stays open at the end.
pub open spec fn nests(atoms: Seq<AtomView>, open: int) -> bool
    decreases atoms.len(),
{
    if atoms.len() == 0 {
        open == 0
    } else {
        open + bracket_weight(atoms[0]) >= 0 && nests(
            atoms.drop_first(),
            open + bracket_weight(atoms[0]),
        )
    }
}

/// A value, as it may sit on the stack of a frame that is not lazy, in a
/// list or in a binding: a boolean, a number, a symbol, a list of values,
/// or a quotation or function in whose body the brackets nest properly.
/// Built-ins, names and the atoms that only the parser makes are no values.
pub open spec fn proper_value(a: AtomView) -> bool
    decreases a, 0nat,
{
    match a {
        AtomView::Bool(_) | AtomView::Num(_) | AtomView::Symbol(_) => true,
        AtomView::List(items) => forall|i: int|
            0 <= i < items.len() ==> proper_value(#[trigger] items[i]),
        AtomView::Quotation(body) => nests(body, 0) && forall|i: int|
            0 <= i < body.len() ==> proper_atom(#[trigger] body[i]),
        AtomView::Function(_, body) => nests(body, 0) && forall|i: int|
            0 <= i < body.len() ==> proper_atom(#[trigger] body[i]),
        _ => false,
    }
}

/// An atom as it may stand in a body: a value, or an atom that is run
/// rather than stored.
pub open spec fn proper_atom(a: AtomView) -> bool
    decreases a, 1nat,
{
    match a {
        AtomView::Bool(_)
        | AtomView::Num(_)
        | AtomView::Symbol(_)
        | AtomView::List(_)
        | AtomView::Quotation(_)
        | AtomView::Function(_, _) => proper_value(a),
        _ => true,
    }
}

/// Whether an atom is a bracket.
pub open spec fn is_bracket(a: AtomView) -> bool {
    a is QuotationStart || a is QuotationEnd
}

/// Every atom of the stack is a value.
pub open spec fn proper_stack(s: Seq<AtomView>) -> bool {
    forall|i: int| 0 <= i < s.len() ==> proper_value(#[trigger] s[i])
}

/// Every atom of the stack may stand in a body and none is a bracket: what
/// a lazy frame collects.
pub open spec fn captured_stack(s: Seq<AtomView>) -> bool {
    forall|i: int| 0 <= i < s.len() ==> proper_atom(#[trigger] s[i]) && !is_bracket(s[i])
}

/// Every bound atom is a value.
pub open spec fn proper_bindings(m: Map<Seq<char>, AtomView>) -> bool {
    forall|k: Seq<char>| m.contains_key(k) ==> proper_value(#[trigger] m[k])
}

/// A frame that holds values, or, if it is lazy, atoms as they stand in a
/// body.
pub open spec fn proper_frame(f: FrameView) -> bool {
    &&& if f.lazy {
        captured_stack(f.stack)
    } else {
        proper_stack(f.stack)
    }
    &&& proper_bindings(f.context)
    &&& proper_bindings(f.params)
}

pub open spec fn proper_frames(frames: Seq<FrameView>) -> bool {
    forall|j: int| 0 <= j < frames.len() ==> proper_frame(#[trigger] frames[j])
}

/// An environment with at least one frame, all of them proper.
pub open spec fn proper(env: EnvView) -> bool {
    env.frames.len() >= 1 && proper_frames(env.frames)
}

pub open spec fn proper_atoms(atoms: Seq<AtomView>) -> bool {
    forall|i: int| 0 <= i < atoms.len() ==> proper_atom(#[trigger] atoms[i])
}

/// A body whose atoms are proper and whose brackets nest properly.
pub open spec fn proper_body(body: Seq<AtomView>) -> bool {
    nests(body, 0) && proper_atoms(body)
}

/// Only the top frame differs, and there only the stack and the local
/// bindings.
pub open spec fn top_changed(before: EnvView, after: EnvView) -> bool {
    &&& after.frames.len() == before.frames.len()
    &&& after.frames.len() >= 1
    &&& after.frames.drop_last() == before.frames.drop_last()
    &&& after.top().lazy == before.top().lazy
    &&& after.top().params == before.top().params
}

/// The stack lost its top `i` atoms and gained `o`; what lay below is as it
/// was.
pub open spec fn stack_effect(before: EnvView, after: EnvView, i: int, o: int) -> bool {
    let n = before.stack().len();
    &&& n >= i
    &&& after.stack().len() == n - i + o
    &&& after.stack().take(n - i) == before.stack().take(n - i)
}

/// If the evaluation succeeded, it changed only the top frame and left a
/// proper environment.
pub open spec fn stays_in_frame(before: EnvView, r: Outcome) -> bool {
    r matches Ok(after) ==> top_changed(before, after) && proper(after)
}

proof fn lemma_values_are_captured(s: Seq<AtomView>)
    requires
        proper_stack(s),
    ensures
        captured_stack(s),
{
    assert forall|i: int| 0 <= i < s.len() implies proper_atom(#[trigger] s[i]) && !is_bracket(
        s[i],
    ) by {
        assert(proper_value(s[i]));
    }
}

proof fn lemma_captured_nest(s: Seq<AtomView>)
    requires
        captured_stack(s),
    ensures
        nests(s, 0),
        proper_atoms(s),
    decreases s.len(),
{
    if s.len() > 0 {
        assert(proper_atom(s[0]) && !is_bracket(s[0]));
        lemma_captured_nest(s.drop_first());
    }
}

proof fn lemma_set_top(env: EnvView, f: FrameView)
    requires
        proper(env),
        proper_frame(f),
        f.lazy == env.top().lazy,
        f.params == env.top().params,
    ensures
        proper(env.set_top(f)),
        top_changed(env, env.set_top(f)),
        env.set_top(f).top() == f,
{
    assert(env.set_top(f).frames.drop_last() =~= env.frames.drop_last());
}

proof fn lemma_set_stack(env: EnvView, s: Seq<AtomView>)
    requires
        proper(env),
        if env.lazy_mode() {
            captured_stack(s)
        } else {
            proper_stack(s)
        },
    ensures
        proper(env.set_stack(s)),
        top_changed(env, env.set_stack(s)),
        env.set_stack(s).stack() == s,
{
    assert(proper_frame(env.top()));
    lemma_set_top(env, FrameView { stack: s, ..env.top() });
}

pub(crate) proof fn lemma_operands(env: EnvView, n: int)
    requires
        proper(env),
        !env.lazy_mode(),
        0 <= n <= env.stack().len(),
    ensures
        proper(env.without_operands(n)),
        top_changed(env, env.without_operands(n)),
        env.without_operands(n).stack() == env.stack().take(env.stack().len() - n),
        forall|k: int| 0 <= k < n ==> proper_value(#[trigger] env.operand(k)),
        proper_stack(env.stack()),
{
    assert(proper_frame(env.top()));
    lemma_set_stack(env, env.stack().take(env.stack().len() - n));
}

pub(crate) proof fn lemma_push_atom(env: EnvView, a: AtomView)
    requires
        proper(env),
        proper_value(a) || (env.lazy_mode() && proper_atom(a) && !is_bracket(a)),
    ensures
        proper(env.push_atom(a)),
        top_changed(env, env.push_atom(a)),
        env.push_atom(a).stack() == env.stack().push(a),
{
    assert(proper_frame(env.top()));
    let s = env.stack().push(a);
    if env.lazy_mode() {
        assert forall|i: int| 0 <= i < s.len() implies proper_atom(#[trigger] s[i])
            && !is_bracket(s[i]) by {
            if i < env.stack().len() {
                assert(s[i] == env.stack()[i]);
            }
        }
    }
    lemma_set_stack(env, s);
}

proof fn lemma_append_atoms(env: EnvView, s: Seq<AtomView>)
    requires
        proper(env),
        proper_stack(s),
    ensures
        proper(env.append_atoms(s)),
        top_changed(env, env.append_atoms(s)),
        env.append_atoms(s).stack() == env.stack() + s,
{
    assert(proper_frame(env.top()));
    lemma_values_are_captured(s);
    let all = env.stack() + s;
    if env.lazy_mode() {
        assert forall|i: int| 0 <= i < all.len() implies proper_atom(#[trigger] all[i])
            && !is_bracket(all[i]) by {
            if i < env.stack().len() {
                assert(all[i] == env.stack()[i]);
            } else {
                assert(all[i] == s[i - env.stack().len()]);
            }
        }
    }
    lemma_set_stack(env, all);
}

proof fn lemma_push_frame(env: EnvView, f: FrameView)
    requires
        proper(env),
        proper_frame(f),
    ensures
        proper(env.push_frame(f)),
        env.push_frame(f).frames.len() == env.frames.len() + 1,
        env.push_frame(f).top() == f,
        env.push_frame(f).frames.drop_last() == env.frames,
        env.push_frame(f).pop_frame() == env,
{
    assert(env.push_frame(f).frames.drop_last() =~= env.frames);
}

proof fn lemma_pop_frame(env: EnvView)
    requires
        proper(env),
        env.frames.len() >= 2,
    ensures
        proper(env.pop_frame()),
        env.pop_frame().frames == env.frames.drop_last(),
        captured_stack(env.stack()),
        !env.lazy_mode() ==> proper_stack(env.stack()),
{
    assert(proper_frame(env.top()));
    if !env.lazy_mode() {
        lemma_values_are_captured(env.stack());
    }
}

proof fn lemma_bind_var(env: EnvView, name: Seq<char>, a: AtomView)
    requires
        proper(env),
        proper_value(a),
    ensures
        stays_in_frame(env, env.bind_var(name, a)),
        env.bind_var(name, a) matches Ok(after) ==> after.stack() == env.stack(),
{
    assert(proper_frame(env.top()));
    lemma_set_top(env, FrameView { context: env.top().context.insert(name, a), ..env.top() });
}

proof fn lemma_find_in_contexts(frames: Seq<FrameView>, name: Seq<char>)
    requires
        proper_frames(frames),
    ensures
        find_in_contexts(frames, name) matches Some(a) ==> proper_value(a),
    decreases frames.len(),
{
    if frames.len() > 0 {
        assert(proper_frame(frames.last()));
        lemma_find_in_contexts(frames.drop_last(), name);
    }
}

proof fn lemma_find_var(env: EnvView, name: Seq<char>)
    requires
        proper(env),
    ensures
        env.find_var(name) matches Some(a) ==> proper_value(a),
{
    assert(proper_frame(env.top()));
    lemma_find_in_contexts(env.frames, name);
}

proof fn lemma_take_params(
    stack: Seq<AtomView>,
    names: Seq<Seq<char>>,
    bound: Map<Seq<char>, AtomView>,
)
    requires
        proper_stack(stack),
        proper_bindings(bound),
    ensures
        take_params(stack, names, bound) matches Ok((rest, all)) ==> proper_stack(rest)
            && proper_bindings(all) && rest == stack.take(stack.len() - names.len())
            && names.len() <= stack.len(),
    decreases names.len(),
{
    if names.len() > 0 && stack.len() > 0 && !bound.contains_key(names.last()) {
        assert(proper_value(stack.last()));
        lemma_take_params(
            stack.drop_last(),
            names.drop_last(),
            bound.insert(names.last(), stack.last()),
        );
        if let Ok((rest, all)) = take_params(stack, names, bound) {
            assert(rest =~= stack.take(stack.len() - names.len()));
        }
    } else if names.len() == 0 {
        assert(stack =~= stack.take(stack.len() - names.len()));
    }
}

proof fn lemma_close_frame(env: EnvView, as_list: bool)
    requires
        proper(env),
        as_list ==> !env.lazy_mode(),
    ensures
        env.close_frame(as_list) matches Ok(after) ==> {
            let below = env.frames[env.frames.len() - 2];
            &&& proper(after)
            &&& after.frames.len() == env.frames.len() - 1
            &&& after.frames.drop_last() == env.frames.drop_last().drop_last()
            &&& after.top().lazy == below.lazy
            &&& after.top().params == below.params
            &&& after.stack() == below.stack.push(
                if as_list {
                    AtomView::List(env.stack())
                } else {
                    AtomView::Quotation(env.stack())
                },
            )
        },
{
    if env.frames.len() >= 2 {
        lemma_pop_frame(env);
        lemma_captured_nest(env.stack());
        if as_list {
            lemma_push_atom(env.pop_frame(), AtomView::List(env.stack()));
        } else {
            lemma_push_atom(env.pop_frame(), AtomView::Quotation(env.stack()));
        }
    }
}

proof fn lemma_close_scope(env: EnvView)
    requires
        proper(env),
        !env.lazy_mode(),
    ensures
        env.close_scope() matches Ok((a, after)) ==> proper_value(a) && proper(after)
            && after.frames == env.frames.drop_last() && after == env.pop_frame(),
{
    if env.frames.len() >= 2 && env.stack().len() > 0 {
        lemma_pop_frame(env);
    }
}

pub(crate) proof fn lemma_bind_params(env: EnvView, names: Seq<Seq<char>>)
    requires
        proper(env),
        !env.lazy_mode(),
    ensures
        env.bind_params(names) matches Ok(bound) ==> {
            &&& proper(bound)
            &&& bound.frames.len() == env.frames.len() + 1
            &&& !bound.lazy_mode()
            &&& bound.stack().len() == 0
            &&& top_changed(env, bound.pop_frame())
            &&& stack_effect(env, bound.pop_frame(), names.len() as int, 0)
        },
{
    assert(proper_frame(env.top()));
    lemma_take_params(env.stack(), names, Map::empty());
    if let Ok((rest, params)) = take_params(env.stack(), names, Map::empty()) {
        lemma_set_stack(env, rest);
        let f = FrameView { params, ..blank_frame_view(false) };
        lemma_push_frame(env.set_stack(rest), f);
        assert(rest.take(rest.len() as int) =~= rest);
    }
}

pub(crate) proof fn lemma_unbind_params(env: EnvView)
    requires
        proper(env),
        !env.lazy_mode(),
        env.frames.len() >= 2,
    ensures
        proper(env.unbind_params()),
        top_changed(env.pop_frame(), env.unbind_params()),
        env.unbind_params().stack() == env.pop_frame().stack() + env.stack(),
{
    lemma_pop_frame(env);
    lemma_append_atoms(env.pop_frame(), env.stack());
}

/// Pushing one more atom on a stack that already shows an effect.
pub(crate) proof fn lemma_push_effect(origin: EnvView, env: EnvView, a: AtomView, i: int, o: int)
    requires
        proper(env),
        proper_value(a),
        0 <= o,
        stack_effect(origin, env, i, o),
    ensures
        proper(env.push_atom(a)),
        top_changed(env, env.push_atom(a)),
        stack_effect(origin, env.push_atom(a), i, o + 1),
{
    lemma_push_atom(env, a);
    let n = origin.stack().len();
    assert(env.push_atom(a).stack().take(n - i) =~= env.stack().take(n - i));
}

/// Taking `i` atoms off shows the effect `(i, 0)`.
pub(crate) proof fn lemma_take_effect(env: EnvView, i: int)
    requires
        proper(env),
        !env.lazy_mode(),
        0 <= i <= env.stack().len(),
    ensures
        proper(env.without_operands(i)),
        top_changed(env, env.without_operands(i)),
        stack_effect(env, env.without_operands(i), i, 0),
        forall|k: int| 0 <= k < i ==> proper_value(#[trigger] env.operand(k)),
{
    lemma_operands(env, i);
    let n = env.stack().len();
    assert(env.stack().take(n - i).take(n - i) =~= env.stack().take(n - i));
}

proof fn lemma_plain_ops(env: EnvView)
    requires
        proper(env),
        !env.lazy_mode(),
    ensures
        forall|op: OpA|
            stays_in_frame(env, #[trigger] apply_arith(op, env)) && (apply_arith(
                op,
                env,
            ) matches Ok(after) ==> stack_effect(env, after, 2, 1)),
        forall|conj: bool|
            stays_in_frame(env, #[trigger] apply_connective(conj, env)) && (apply_connective(
                conj,
                env,
            ) matches Ok(after) ==> stack_effect(env, after, 2, 1)),
        stays_in_frame(env, apply_not(env)),
        apply_not(env) matches Ok(after) ==> stack_effect(env, after, 1, 1),
        stays_in_frame(env, apply_shuffle(OpS::Drop, env)),
        apply_shuffle(OpS::Drop, env) matches Ok(after) ==> stack_effect(env, after, 1, 0),
        stays_in_frame(env, apply_shuffle(OpS::Swap, env)),
        apply_shuffle(OpS::Swap, env) matches Ok(after) ==> stack_effect(env, after, 2, 2),
        stays_in_frame(env, apply_shuffle(OpS::Rot3, env)),
        apply_shuffle(OpS::Rot3, env) matches Ok(after) ==> stack_effect(env, after, 3, 3),
        stays_in_frame(env, apply_shuffle(OpS::Dup, env)),
        apply_shuffle(OpS::Dup, env) matches Ok(after) ==> stack_effect(env, after, 1, 2),
        stays_in_frame(env, apply_splat(env)),
        stays_in_frame(env, apply_at(env)),
        apply_at(env) matches Ok(after) ==> stack_effect(env, after, 2, 1),
        stays_in_frame(env, apply_print(env)),
        apply_print(env) matches Ok(after) ==> stack_effect(env, after, 1, 0),
        stays_in_frame(env, apply_debug(env)),
        apply_debug(env) matches Ok(after) ==> stack_effect(env, after, 0, 0),
        stays_in_frame(env, apply_get(env)),
        forall|function: bool| stays_in_frame(env, #[trigger] define(env, function)),
{
    let n = env.stack().len();
    assert(proper_frame(env.top()));
    assert(env.stack().take(n as int) =~= env.stack());
    if n >= 1 {
        lemma_take_effect(env, 1);
        let one = env.without_operands(1);
        let a = env.operand(0);
        assert(proper_value(a));
        lemma_take_effect(env, 0);
        assert(env.without_operands(0).stack() =~= env.stack());
        assert(env.without_operands(0).frames =~= env.frames);
        lemma_push_effect(env, one, a, 1, 0);
        lemma_push_effect(env, one.push_atom(a), a, 1, 1);
        assert(one.push_atom(a).stack() =~= env.stack());
        assert(one.push_atom(a).frames =~= env.frames);
        lemma_push_effect(env, one, AtomView::Bool(true), 1, 0);
        lemma_push_effect(env, one, AtomView::Bool(false), 1, 0);
        if let AtomView::List(items) = a {
            assert(proper_stack(items));
            lemma_append_atoms(one, items);
        }
        if let AtomView::Symbol(name) = a {
            lemma_find_var(one, name);
            match one.find_var(name) {
                Some(AtomView::Function(_, body)) => {
                    lemma_push_atom(one, AtomView::Quotation(body));
                },
                Some(found) => {
                    lemma_push_atom(one, found);
                },
                None => {},
            }
        }
    }
    if n >= 2 {
        lemma_take_effect(env, 2);
        let two = env.without_operands(2);
        let a = env.operand(1);
        let b = env.operand(0);
        assert(proper_value(a));
        assert(proper_value(b));
        lemma_push_effect(env, two, AtomView::Bool(true), 2, 0);
        lemma_push_effect(env, two, AtomView::Bool(false), 2, 0);
        assert forall|v: i32|
            proper(#[trigger] two.push_atom(AtomView::Num(v))) && top_changed(
                two,
                two.push_atom(AtomView::Num(v)),
            ) && stack_effect(env, two.push_atom(AtomView::Num(v)), 2, 1) by {
            lemma_push_effect(env, two, AtomView::Num(v), 2, 0);
        }
        lemma_push_effect(env, two, b, 2, 0);
        lemma_push_effect(env, two.push_atom(b), a, 2, 1);
        if let AtomView::List(items) = a {
            if let AtomView::Num(k) = b {
                if 0 <= k < items.len() {
                    assert(proper_value(items[k as int]));
                    lemma_push_effect(env, two, items[k as int], 2, 0);
                }
            }
        }
        if let AtomView::Symbol(name) = b {
            lemma_bind_var(two, name, a);
            if let AtomView::Quotation(q) = a {
                lemma_bind_var(two, name, AtomView::Function(Seq::empty(), q));
            }
        }
    }
    if n >= 3 {
        lemma_take_effect(env, 3);
        let three = env.without_operands(3);
        let a = env.operand(2);
        let b = env.operand(1);
        let c = env.operand(0);
        lemma_push_effect(env, three, b, 3, 0);
        lemma_push_effect(env, three.push_atom(b), c, 3, 1);
        lemma_push_effect(env, three.push_atom(b).push_atom(c), a, 3, 2);
    }
}

/// Every frame from `base` up is lazy and the one below them is not.
pub open spec fn lazy_above(env: EnvView, base: int) -> bool {
    &&& 1 <= base <= env.frames.len()
    &&& !env.frames[base - 1].lazy
    &&& forall|j: int| base <= j < env.frames.len() ==> (#[trigger] env.frames[j]).lazy
}

/// The frames below the one at `base - 1` are as they were, and that one
/// kept its parameters and its flag.
pub open spec fn base_kept(before: EnvView, after: EnvView, base: int) -> bool {
    &&& after.frames.len() >= base
    &&& after.frames.take(base - 1) == before.frames.take(base - 1)
    &&& after.frames[base - 1].lazy == before.frames[base - 1].lazy
    &&& after.frames[base - 1].params == before.frames[base - 1].params
}

pub(crate) proof fn lemma_eval_call(body: Seq<AtomView>, env: EnvView, depth: nat)
    requires
        proper(env),
        proper_body(body),
        !env.lazy_mode(),
    ensures
        stays_in_frame(env, eval_call(body, env, depth)),
    decreases depth, 0nat, 0nat,
{
    if depth > 0 {
        let base = env.frames.len() as int;
        lemma_eval_atoms(body, env, (depth - 1) as nat, base);
        if let Ok(after) = eval_atoms(body, env, (depth - 1) as nat) {
            assert(after.frames.drop_last() =~= after.frames.take(base - 1));
            assert(env.frames.drop_last() =~= env.frames.take(base - 1));
        }
    }
}

pub(crate) proof fn lemma_eval_call_function(
    params: Seq<Seq<char>>,
    body: Seq<AtomView>,
    env: EnvView,
    depth: nat,
)
    requires
        proper(env),
        proper_body(body),
        !env.lazy_mode(),
    ensures
        stays_in_frame(env, eval_call_function(params, body, env, depth)),
    decreases depth, 1nat, 0nat,
{
    if params.len() == 0 {
        lemma_eval_call(body, env, depth);
    } else {
        lemma_bind_params(env, params);
        if let Ok(bound) = env.bind_params(params) {
            lemma_eval_call(body, bound, depth);
            if let Ok(after) = eval_call(body, bound, depth) {
                lemma_unbind_params(after);
                assert(after.pop_frame().frames =~= bound.pop_frame().frames);
            }
        }
    }
}

pub(crate) proof fn lemma_eval_callable(f: AtomView, env: EnvView, depth: nat)
    requires
        proper(env),
        proper_value(f),
        !env.lazy_mode(),
    ensures
        stays_in_frame(env, eval_callable(f, env, depth)),
    decreases depth, 2nat, 0nat,
{
    match f {
        AtomView::Quotation(body) => {
            lemma_eval_call(body, env, depth);
        },
        AtomView::Function(params, body) => {
            lemma_eval_call_function(params, body, env, depth);
        },
        _ => {},
    }
}

proof fn lemma_eval_with_new_scope(expr: Seq<AtomView>, env: EnvView, depth: nat)
    requires
        proper(env),
        proper_body(expr),
    ensures
        eval_with_new_scope(expr, env, depth) matches Ok((value, after)) ==> proper_value(value)
            && proper(after) && after.frames == env.frames,
    decreases depth, 1nat, 0nat,
{
    lemma_push_frame(env, blank_frame_view(false));
    lemma_eval_call(expr, env.push_blank(false), depth);
    if let Ok(after) = eval_call(expr, env.push_blank(false), depth) {
        lemma_close_scope(after);
    }
}

proof fn lemma_map_items(
    items: Seq<AtomView>,
    q: Seq<AtomView>,
    env: EnvView,
    done: Seq<AtomView>,
    depth: nat,
)
    requires
        proper(env),
        proper_stack(items),
        proper_body(q),
        proper_stack(done),
    ensures
        map_items(items, q, env, done, depth) matches Ok((results, after)) ==> proper_stack(
            results,
        ) && proper(after) && after.frames == env.frames,
    decreases depth, 3nat, items.len(),
{
    if items.len() > 0 {
        lemma_push_frame(env, blank_frame_view(false));
        assert(proper_value(items[0]));
        lemma_push_atom(env.push_blank(false), items[0]);
        let scope = env.push_blank(false).push_atom(items[0]);
        lemma_eval_call(q, scope, depth);
        if let Ok(after) = eval_call(q, scope, depth) {
            lemma_close_scope(after);
            if let Ok((r, next)) = after.close_scope() {
                lemma_map_items(items.drop_first(), q, next, done.push(r), depth);
            }
        }
    }
}

proof fn lemma_reduce_items(items: Seq<AtomView>, q: Seq<AtomView>, env: EnvView, depth: nat)
    requires
        proper(env),
        proper_stack(items),
        proper_body(q),
        !env.lazy_mode(),
    ensures
        stays_in_frame(env, reduce_items(items, q, env, depth)),
    decreases depth, 3nat, items.len(),
{
    if items.len() > 0 {
        assert(proper_value(items[0]));
        lemma_push_atom(env, items[0]);
        lemma_eval_call(q, env.push_atom(items[0]), depth);
        if let Ok(after) = eval_call(q, env.push_atom(items[0]), depth) {
            lemma_reduce_items(items.drop_first(), q, after, depth);
        }
    }
}

proof fn lemma_repeat_callable(times: int, f: AtomView, env: EnvView, depth: nat)
    requires
        proper(env),
        proper_value(f),
        !env.lazy_mode(),
    ensures
        stays_in_frame(env, repeat_callable(times, f, env, depth)),
    decreases depth, 3nat, times,
{
    if times > 0 {
        lemma_eval_callable(f, env, depth);
        if let Ok(after) = eval_callable(f, env, depth) {
            lemma_repeat_callable(times - 1, f, after, depth);
        }
    }
}

proof fn lemma_define_evaluated(env: EnvView, depth: nat)
    requires
        proper(env),
        !env.lazy_mode(),
    ensures
        stays_in_frame(env, define_evaluated(env, depth)),
    decreases depth, 3nat, 0nat,
{
    if env.has_operands(2) {
        lemma_operands(env, 2);
        if let (AtomView::Symbol(name), AtomView::Quotation(expr)) = (
            env.operand(0),
            env.operand(1),
        ) {
            assert(proper_value(env.operand(1)));
            lemma_eval_with_new_scope(expr, env.without_operands(2), depth);
            if let Ok((value, after)) = eval_with_new_scope(expr, env.without_operands(2), depth) {
                lemma_bind_var(after, name, value);
            }
        }
    }
}

/// What a built-in does when no bracket is open: it changes only the top
/// frame, and if its arity is static it takes and leaves exactly the atoms
/// the arity counts.
pub(crate) proof fn lemma_apply_op(h: Handler, env: EnvView, depth: nat)
    requires
        proper(env),
        !env.lazy_mode(),
    ensures
        stays_in_frame(env, apply_op(h, env, depth)),
        apply_op(h, env, depth) matches Ok(after) ==> (static_arity(h) matches Some((i, o))
            ==> stack_effect(env, after, i as int, o as int)),
    decreases depth, 4nat, 0nat,
{
    lemma_plain_ops(env);
    let n = env.stack().len();
    match h {
        Handler::Logic(OpB::Cond) => {
            if n >= 3 {
                lemma_operands(env, 3);
                assert(proper_value(env.operand(1)));
                assert(proper_value(env.operand(0)));
                if let (AtomView::Bool(c), AtomView::Quotation(if_q), AtomView::Quotation(else_q)) =
                    (env.operand(2), env.operand(1), env.operand(0)) {
                    lemma_eval_call(if_q, env.without_operands(3), depth);
                    lemma_eval_call(else_q, env.without_operands(3), depth);
                }
            }
        },
        Handler::Logic(OpB::If) => {
            if n >= 2 {
                lemma_operands(env, 2);
                assert(proper_value(env.operand(0)));
                if let (AtomView::Bool(c), AtomView::Quotation(q)) = (
                    env.operand(1),
                    env.operand(0),
                ) {
                    lemma_eval_call(q, env.without_operands(2).note_conditional(), depth);
                }
            }
        },
        Handler::Stack(OpS::List) => {
            if n >= 1 {
                lemma_take_effect(env, 1);
                assert(proper_value(env.operand(0)));
                if let AtomView::Quotation(q) = env.operand(0) {
                    let rest = env.without_operands(1);
                    let scope = rest.push_blank(false);
                    lemma_push_frame(rest, blank_frame_view(false));
                    lemma_eval_call(q, scope, depth);
                    if let Ok(after) = eval_call(q, scope, depth) {
                        lemma_close_frame(after, true);
                        if let Ok(closed) = after.close_frame(true) {
                            assert(after.frames.drop_last() == rest.frames);
                            assert(closed.frames.drop_last() =~= env.frames.drop_last());
                            assert(closed.stack().take(n - 1) =~= env.stack().take(n - 1));
                        }
                    }
                }
            }
        },
        Handler::Stack(OpS::MapEach) => {
            if n >= 2 {
                lemma_take_effect(env, 2);
                assert(proper_value(env.operand(0)));
                assert(proper_value(env.operand(1)));
                if let (AtomView::List(items), AtomView::Quotation(q)) = (
                    env.operand(1),
                    env.operand(0),
                ) {
                    let start = env.without_operands(2).enter_loop();
                    lemma_map_items(items, q, start, Seq::empty(), depth);
                    if let Ok((results, after)) = map_items(items, q, start, Seq::empty(), depth) {
                        lemma_push_effect(
                            env,
                            after.leave_loop(),
                            AtomView::List(results),
                            2,
                            0,
                        );
                    }
                }
            }
        },
        Handler::Stack(OpS::ReduceInner) => {
            if n >= 2 {
                lemma_take_effect(env, 2);
                assert(proper_value(env.operand(0)));
                assert(proper_value(env.operand(1)));
                if let (AtomView::List(items), AtomView::Quotation(q)) = (
                    env.operand(1),
                    env.operand(0),
                ) {
                    let rest = env.without_operands(2).enter_loop();
                    let scope = rest.push_blank(false);
                    lemma_push_frame(rest, blank_frame_view(false));
                    let reduced = if items.len() == 0 {
                        Ok(scope)
                    } else {
                        reduce_items(items.drop_first(), q, scope.push_atom(items[0]), depth)
                    };
                    if items.len() > 0 {
                        assert(proper_value(items[0]));
                        lemma_push_atom(scope, items[0]);
                        lemma_reduce_items(items.drop_first(), q, scope.push_atom(items[0]), depth);
                    }
                    if let Ok(after) = reduced {
                        assert(after.frames.drop_last() == rest.frames);
                        lemma_close_frame(after.leave_loop(), true);
                        if let Ok(closed) = after.leave_loop().close_frame(true) {
                            assert(closed.frames.drop_last() =~= env.frames.drop_last());
                            assert(closed.stack().take(n - 2) =~= env.stack().take(n - 2));
                        }
                    }
                }
            }
        },
        Handler::Stack(OpS::Repeat) => {
            if n >= 2 {
                lemma_operands(env, 2);
                assert(proper_value(env.operand(1)));
                if let AtomView::Num(times) = env.operand(0) {
                    lemma_repeat_callable(
                        times as int,
                        env.operand(1),
                        env.without_operands(2).enter_loop(),
                        depth,
                    );
                }
            }
        },
        Handler::Stack(OpS::ForElse) | Handler::Stack(OpS::ForIf) => {
            if n >= 1 {
                lemma_operands(env, 1);
                assert(proper_value(env.operand(0)));
                if let AtomView::Quotation(q) = env.operand(0) {
                    lemma_eval_call(q, env.without_operands(1), depth);
                }
            }
        },
        Handler::Stack(OpS::Keep) => {
            if n >= 1 {
                lemma_operands(env, 1);
                assert(proper_value(env.operand(0)));
                let rest = env.without_operands(1);
                if let Some((k, _)) = callable_arity(env.operand(0)) {
                    if rest.stack().len() >= k {
                        assert(proper_frame(rest.top()));
                        let f = FrameView {
                            stack: rest.stack().skip(rest.stack().len() - k),
                            ..blank_frame_view(false)
                        };
                        let scope = rest.push_frame(f);
                        lemma_push_frame(rest, f);
                        lemma_eval_callable(env.operand(0), scope, depth);
                        if let Ok(after) = eval_callable(env.operand(0), scope, depth) {
                            if after.frames.len() >= 2 && after.stack().len() > 0 {
                                lemma_pop_frame(after);
                                assert(after.pop_frame().frames == rest.frames);
                                lemma_push_atom(after.pop_frame(), after.stack().last());
                            }
                        }
                    }
                }
            }
        },
        _ => {},
    }
}

/// What an atom that is no bracket does when no bracket is open: it
/// changes only the top frame.
pub(crate) proof fn lemma_eval_atom(a: AtomView, env: EnvView, depth: nat)
    requires
        proper(env),
        proper_atom(a),
        !is_bracket(a),
        !env.lazy_mode(),
    ensures
        stays_in_frame(env, eval_atom(a, env, depth)),
    decreases depth, 5nat, 0nat,
{
    match a {
        AtomView::Bool(_)
        | AtomView::Num(_)
        | AtomView::Symbol(_)
        | AtomView::Quotation(_)
        | AtomView::Function(_, _) => {
            lemma_push_atom(env, a);
        },
        AtomView::Op(op) => {
            lemma_apply_op(op.f, env, depth);
        },
        AtomView::DefVar => {
            lemma_define_evaluated(env, depth);
        },
        AtomView::DefVarLiteral | AtomView::DefFnLiteral => {
            lemma_plain_ops(env);
        },
        AtomView::Call => {
            if env.has_operands(1) {
                lemma_operands(env, 1);
                assert(proper_value(env.operand(0)));
                lemma_eval_callable(env.operand(0), env.without_operands(1), depth);
            }
        },
        AtomView::Plain(name) => {
            lemma_find_var(env, name);
            match env.find_var(name) {
                Some(AtomView::Function(params, body)) => {
                    lemma_eval_call_function(params, body, env, depth);
                },
                Some(bound) => {
                    lemma_push_atom(env, bound);
                },
                None => {},
            }
        },
        _ => {},
    }
}

/// What atoms do when the frames from `base` up are lazy frames that
/// brackets opened: if the brackets among the atoms close exactly those,
/// the frames below `base - 1` stay as they are.
proof fn lemma_eval_atoms(atoms: Seq<AtomView>, env: EnvView, depth: nat, base: int)
    requires
        proper(env),
        proper_atoms(atoms),
        lazy_above(env, base),
        nests(atoms, env.frames.len() - base),
    ensures
        eval_atoms(atoms, env, depth) matches Ok(after) ==> after.frames.len() == base
            && base_kept(env, after, base) && proper(after),
    decreases depth, 6nat, atoms.len(),
{
    let len = env.frames.len() as int;
    if atoms.len() == 0 {
        assert(env.frames.take(base - 1) =~= env.frames.take(base - 1));
    } else {
        let a = atoms[0];
        assert(proper_atom(a));
        let rest = atoms.drop_first();
        if let Ok(next) = eval_atom(a, env, depth) {
            // One step keeps the shape: the frames from `base` up are lazy,
            // the frame below them is not, and nothing below it moved.
            assert(proper(next) && lazy_above(next, base) && base_kept(env, next, base)
                && next.frames.len() == len + bracket_weight(a)) by {
                match a {
                    AtomView::QuotationStart => {
                        lemma_push_frame(env, blank_frame_view(true));
                        assert(next == env.push_blank(true));
                        assert(next.frames.take(base - 1) =~= env.frames.take(base - 1));
                    },
                    AtomView::QuotationEnd => {
                        lemma_close_frame(env, false);
                        assert(len >= 2);
                        assert(len - 1 >= base);
                        assert(next.frames.take(base - 1) =~= env.frames.take(base - 1)) by {
                            assert(next.frames.drop_last() == env.frames.drop_last().drop_last());
                            assert forall|j: int| 0 <= j < base - 1 implies next.frames[j]
                                == env.frames[j] by {
                                assert(next.frames.drop_last()[j] == next.frames[j]);
                                assert(env.frames.drop_last().drop_last()[j] == env.frames[j]);
                            }
                        }
                        assert forall|j: int| base <= j < next.frames.len() implies (
                        #[trigger] next.frames[j]).lazy by {
                            if j < next.frames.len() - 1 {
                                assert(next.frames.drop_last()[j] == next.frames[j]);
                                assert(env.frames.drop_last().drop_last()[j] == env.frames[j]);
                            }
                        }
                        if base - 1 < next.frames.len() - 1 {
                            assert(next.frames.drop_last()[base - 1] == next.frames[base - 1]);
                            assert(env.frames.drop_last().drop_last()[base - 1] == env.frames[base
                                - 1]);
                        }
                    },
                    _ => {
                        if len > base {
                            assert(env.frames[len - 1].lazy);
                            lemma_push_atom(env, a);
                            assert(next == env.push_atom(a));
                        } else {
                            lemma_eval_atom(a, env, depth);
                        }
                        assert(top_changed(env, next));
                        assert(next.frames.take(base - 1) =~= env.frames.take(base - 1)) by {
                            assert forall|j: int| 0 <= j < base - 1 implies next.frames[j]
                                == env.frames[j] by {
                                assert(next.frames.drop_last()[j] == next.frames[j]);
                                assert(env.frames.drop_last()[j] == env.frames[j]);
                            }
                        }
                        assert forall|j: int| base <= j < next.frames.len() implies (
                        #[trigger] next.frames[j]).lazy by {
                            if j < next.frames.len() - 1 {
                                assert(next.frames.drop_last()[j] == next.frames[j]);
                                assert(env.frames.drop_last()[j] == env.frames[j]);
                            }
                        }
                        if base - 1 < len - 1 {
                            assert(next.frames.drop_last()[base - 1] == next.frames[base - 1]);
                            assert(env.frames.drop_last()[base - 1] == env.frames[base - 1]);
                        }
                    },
                }
            }
            lemma_eval_atoms(rest, next, depth, base);
        }
    }
}

/// Static arities are right. A built-in whose arity is static, run with
/// success outside a lazy frame, finds at least as many atoms as the arity
/// demands, takes exactly those and leaves exactly as many as the arity
/// supplies; the atoms below and the frames below stay as they are.
pub proof fn built_ins_keep_their_arity(h: Handler, env: EnvView, depth: nat)
    requires
        proper(env),
        !env.lazy_mode(),
    ensures
        apply_op(h, env, depth) matches Ok(after) ==> top_changed(env, after) && proper(after) && (
        static_arity(h) matches Some((i, o)) ==> stack_effect(env, after, i as int, o as int)),
{
    lemma_apply_op(h, env, depth);
}

/// Values only, and one frame at a time. Atoms whose brackets nest
/// properly, run with success outside a lazy frame, change only the frame
/// they run in and leave a proper environment: every stack that is not
/// lazy, every list and every binding holds values only, no built-in, no
/// name and none of the atoms that only the parser makes.
pub proof fn nested_atoms_stay_in_frame(atoms: Seq<AtomView>, env: EnvView, depth: nat)
    requires
        proper(env),
        !env.lazy_mode(),
        proper_body(atoms),
    ensures
        eval_atoms(atoms, env, depth) matches Ok(after) ==> top_changed(env, after) && proper(
            after,
        ),
{
    let base = env.frames.len() as int;
    lemma_eval_atoms(atoms, env, depth, base);
    if let Ok(after) = eval_atoms(atoms, env, depth) {
        assert(after.frames.drop_last() =~= after.frames.take(base - 1));
        assert(env.frames.drop_last() =~= env.frames.take(base - 1));
    }
}

/// Whether the brackets of a line's atoms nest properly, in the line itself
/// and in the expression of a definition.
pub open spec fn brackets_nest(atoms: Seq<AtomView>) -> bool {
    nests(atoms, 0) && forall|j: int|
        0 <= j < atoms.len() ==> match #[trigger] atoms[j] {
            AtomView::Quotation(body) => nests(body, 0) && forall|i: int|
                0 <= i < body.len() ==> match #[trigger] body[i] {
                    AtomView::Function(_, inner) => nests(inner, 0),
                    _ => true,
                },
            _ => true,
        }
}

proof fn lemma_flat_atoms_proper(atoms: Seq<AtomView>)
    requires
        forall|j: int| 0 <= j < atoms.len() ==> flat(#[trigger] atoms[j]),
    ensures
        proper_atoms(atoms),
{
    assert forall|j: int| 0 <= j < atoms.len() implies proper_atom(#[trigger] atoms[j]) by {
        assert(flat(atoms[j]));
    }
}

/// The atoms of a line whose brackets nest properly are a proper body.
pub proof fn nested_lines_are_proper(line: Seq<char>)
    requires
        line_atoms(line) matches Ok(atoms) && brackets_nest(atoms),
    ensures
        proper_body(line_atoms(line).unwrap()),
{
    let atoms = line_atoms(line).unwrap();
    if line.len() > 0 && line[0] == '#' {
    } else if let Some((name, after)) = let_form(line) {
        lemma_tokens_flat(line, run_end(line, after, CharClass::Space));
        let body = expr_atoms(line, after).unwrap();
        lemma_flat_atoms_proper(body);
        assert(atoms[0] == AtomView::Quotation(body));
        assert(proper_value(atoms[0]));
    } else if let Some((names, after)) = fn_form(line) {
        lemma_tokens_flat(line, run_end(line, after, CharClass::Space));
        let body = expr_atoms(line, after).unwrap();
        lemma_flat_atoms_proper(body);
        let f = AtomView::Function(names.drop_first(), body);
        let outer = seq![f];
        assert(atoms[0] == AtomView::Quotation(outer));
        assert(outer[0] == f);
        assert(nests(body, 0));
        assert(proper_value(f));
        assert forall|i: int| 0 <= i < outer.len() implies proper_atom(#[trigger] outer[i]) by {
            assert(outer[i] == f);
        }
        assert(proper_value(atoms[0]));
    } else {
        lemma_tokens_flat(line, run_end(line, 0, CharClass::Space));
        lemma_flat_atoms_proper(atoms);
    }
}

/// A line whose brackets nest properly, run with success outside a lazy
/// frame, changes only the top frame and leaves values only where values
/// belong.
pub proof fn nested_line_stays_in_frame(line: Seq<char>, env: EnvView, depth: nat)
    requires
        proper(env),
        !env.lazy_mode(),
        line_atoms(line) matches Ok(atoms) && brackets_nest(atoms),
    ensures
        eval_line(line, env, depth) matches Ok(after) ==> top_changed(env, after) && proper(after),
{
    nested_lines_are_proper(line);
    nested_atoms_stay_in_frame(line_atoms(line).unwrap(), env, depth);
}

/// The environment that a program starts in is proper.
pub proof fn fresh_env_is_proper()
    ensures
        proper(fresh_env()),
        !fresh_env().lazy_mode(),
{
}

} // verus!
