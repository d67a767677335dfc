//! The arity analyzer against the evaluator: where the analysis reports an
//! arity, a successful run takes and leaves exactly that many atoms.

use crate::arity::{
    atom_arity, body_arity, callable_arity, compose, cond_arity, contribution, is_callable, is_cond,
    lemma_scan_lengths, scan,
};
use crate::error::EvalError;
use crate::nesting::{
    lemma_apply_op, lemma_bind_params, lemma_eval_atom, lemma_push_atom, lemma_push_effect,
    lemma_take_effect, lemma_unbind_params, proper, proper_atom, proper_atoms, proper_value,
    stack_effect, top_changed,
};
use crate::ops::static_arity;
use crate::semantics::{eval_atom, eval_atoms, eval_call, eval_call_function, eval_callable};
use crate::types::{Arity, AtomView, Handler, OpB};
use crate::vm::EnvView;
use vstd::prelude::*;

verus! {

/// Demand and supply after one more operation of arity `(i, o)`, without
/// the limit of a byte.
pub open spec fn step_effect(d: int, s: int, i: int, o: int) -> (int, int) {
    if i > s {
        (d + (i - s), o)
    } else {
        (d, s - i + o)
    }
}

/// Demand and supply of the first `upto` entries of an analysis, composed
/// left to right from a demand of `start`, without the limit of a byte.
pub open spec fn fold_effect(arities: Seq<Arity>, quoted: Seq<bool>, upto: int, start: int) -> (
    int,
    int,
)
    decreases upto,
{
    if upto <= 0 {
        (start, 0)
    } else {
        let (d, s) = fold_effect(arities, quoted, upto - 1, start);
        match contribution(arities[upto - 1], quoted[upto - 1]) {
            Some((i, o)) => step_effect(d, s, i as int, o as int),
            None => (d, s),
        }
    }
}

/// Every entry of an analysis is known.
pub open spec fn all_known(arities: Seq<Arity>) -> bool {
    forall|j: int| 0 <= j < arities.len() ==> (#[trigger] arities[j]) is Some
}

proof fn lemma_fold_bounds(arities: Seq<Arity>, quoted: Seq<bool>, upto: int, start: int)
    requires
        0 <= start,
    ensures
        fold_effect(arities, quoted, upto, start).0 >= start,
        fold_effect(arities, quoted, upto, start).1 >= 0,
    decreases upto,
{
    if upto > 0 {
        lemma_fold_bounds(arities, quoted, upto - 1, start);
    }
}

proof fn lemma_fold_shift(arities: Seq<Arity>, quoted: Seq<bool>, upto: int, start: int)
    ensures
        fold_effect(arities, quoted, upto, start).0 == fold_effect(arities, quoted, upto, 0).0
            + start,
        fold_effect(arities, quoted, upto, start).1 == fold_effect(arities, quoted, upto, 0).1,
    decreases upto,
{
    if upto > 0 {
        lemma_fold_shift(arities, quoted, upto - 1, start);
    }
}

proof fn lemma_fold_agree(
    a1: Seq<Arity>,
    q1: Seq<bool>,
    a2: Seq<Arity>,
    q2: Seq<bool>,
    upto: int,
    start: int,
)
    requires
        upto <= a1.len(),
        upto <= a2.len(),
        upto <= q1.len(),
        upto <= q2.len(),
        forall|j: int| 0 <= j < upto ==> a1[j] == a2[j] && q1[j] == q2[j],
    ensures
        fold_effect(a1, q1, upto, start) == fold_effect(a2, q2, upto, start),
    decreases upto,
{
    if upto > 0 {
        lemma_fold_agree(a1, q1, a2, q2, upto - 1, start);
    }
}

/// The analyzer's composition, where it succeeds, is the fold, and every
/// entry it met was known.
proof fn lemma_compose_is_fold(arities: Seq<Arity>, quoted: Seq<bool>, j: int, start: u8)
    requires
        arities.len() == quoted.len(),
        0 <= j <= arities.len(),
        compose(arities, quoted, 0, start, 0) is Some,
    ensures
        0 <= fold_effect(arities, quoted, j, start as int).0 <= 255,
        0 <= fold_effect(arities, quoted, j, start as int).1 <= 255,
        compose(
            arities,
            quoted,
            j,
            fold_effect(arities, quoted, j, start as int).0 as u8,
            fold_effect(arities, quoted, j, start as int).1 as u8,
        ) == compose(arities, quoted, 0, start, 0),
        forall|m: int| 0 <= m < j ==> (#[trigger] arities[m]) is Some,
    decreases j,
{
    if j > 0 {
        lemma_compose_is_fold(arities, quoted, j - 1, start);
    }
}

proof fn lemma_compose_result(arities: Seq<Arity>, quoted: Seq<bool>, start: u8)
    requires
        arities.len() == quoted.len(),
        compose(arities, quoted, 0, start, 0) is Some,
    ensures
        compose(arities, quoted, 0, start, 0) matches Some((i, o)) && (i as int, o as int)
            == fold_effect(arities, quoted, arities.len() as int, start as int),
        all_known(arities),
{
    lemma_compose_is_fold(arities, quoted, arities.len() as int, start);
}

/// Whether the analysis is right about every atom of a body: a built-in
/// carries the arity that is its own, and `cond` comes right after two
/// quotations that the analysis is right about and knows the arity of.
pub open spec fn sound_body(body: Seq<AtomView>) -> bool
    decreases body,
{
    forall|k: int|
        0 <= k < body.len() ==> match #[trigger] body[k] {
            AtomView::Op(op) => op.arity == static_arity(op.f) && (op.f == Handler::Logic(
                OpB::Cond,
            ) ==> k >= 2 && match (body[k - 2], body[k - 1]) {
                (AtomView::Quotation(first), AtomView::Quotation(second)) => body_arity(0, first)
                    is Some && body_arity(0, second) is Some && sound_body(first) && sound_body(
                    second,
                ),
                _ => false,
            }),
            _ => true,
        }
}

/// Whether the analysis is right about a quotation or function.
pub open spec fn sound_callable(f: AtomView) -> bool {
    match f {
        AtomView::Quotation(body) => sound_body(body),
        AtomView::Function(_, body) => sound_body(body),
        _ => false,
    }
}

proof fn lemma_sound_at(body: Seq<AtomView>, k: int)
    requires
        sound_body(body),
        0 <= k < body.len(),
    ensures
        body[k] matches AtomView::Op(op) ==> op.arity == static_arity(op.f),
        is_cond(body[k]) ==> k >= 2 && body[k - 2] is Quotation && body[k - 1] is Quotation
            && callable_arity(body[k - 2]) is Some && callable_arity(body[k - 1]) is Some
            && sound_callable(body[k - 2]) && sound_callable(body[k - 1]),
{
    let a = body[k];
}

/// The analysis stack after one more atom that is not `cond`.
proof fn lemma_scan_push(body: Seq<AtomView>, k: int)
    requires
        0 <= k < body.len(),
        !is_cond(body[k]),
    ensures
        scan(body, (k + 1) as nat).0 == scan(body, k as nat).0.push(
            atom_arity(body[k], scan(body, k as nat).0).0,
        ),
        scan(body, (k + 1) as nat).1 == scan(body, k as nat).1.push(is_callable(body[k])),
        atom_arity(body[k], scan(body, k as nat).0).0 == atom_arity(body[k], Seq::empty()).0,
{
    lemma_scan_lengths(body, k as nat);
    let (arities, quoted) = scan(body, k as nat);
    assert(atom_arity(body[k], arities).1 == arities);
    assert(quoted.take(arities.len() as int) =~= quoted);
}

/// The analysis stack after `cond` that follows two quotations.
proof fn lemma_scan_cond(body: Seq<AtomView>, k: int)
    requires
        2 <= k < body.len(),
        is_cond(body[k]),
        body[k - 1] is Quotation,
        body[k - 2] is Quotation,
    ensures
        scan(body, k as nat).0 == scan(body, (k - 2) as nat).0.push(
            callable_arity(body[k - 2]),
        ).push(callable_arity(body[k - 1])),
        scan(body, k as nat).1 == scan(body, (k - 2) as nat).1.push(true).push(true),
        scan(body, (k + 1) as nat).0 == scan(body, (k - 2) as nat).0.push(
            cond_arity(callable_arity(body[k - 1]), callable_arity(body[k - 2])),
        ),
        scan(body, (k + 1) as nat).1 == scan(body, (k - 2) as nat).1.push(false),
{
    lemma_scan_push(body, k - 2);
    lemma_scan_push(body, k - 1);
    lemma_scan_lengths(body, (k - 2) as nat);
    lemma_scan_lengths(body, k as nat);
    let (a0, q0) = scan(body, (k - 2) as nat);
    let (a2, q2) = scan(body, k as nat);
    assert(a2.take(a2.len() - 2) =~= a0);
    assert(q2.take(a2.len() - 2) =~= q0);
    assert(atom_arity(body[k], a2) == (cond_arity(a2[a2.len() - 1], a2[a2.len() - 2]), a0));
}

/// If every entry of the analysis after `n` atoms is known, so is every
/// entry after fewer.
proof fn lemma_known_before(body: Seq<AtomView>, n: int, k: int)
    requires
        sound_body(body),
        0 <= k <= n <= body.len(),
        all_known(scan(body, n as nat).0),
    ensures
        all_known(scan(body, k as nat).0),
    decreases n - k,
{
    if k < n {
        let m = n - 1;
        lemma_sound_at(body, m);
        if is_cond(body[m]) {
            lemma_scan_cond(body, m);
            let a0 = scan(body, (m - 2) as nat).0;
            let top = cond_arity(callable_arity(body[m - 1]), callable_arity(body[m - 2]));
            assert forall|j: int| 0 <= j < a0.len() implies (#[trigger] a0[j]) is Some by {
                assert(a0.push(top)[j] == a0[j]);
            }
            let a2 = scan(body, m as nat).0;
            assert forall|j: int| 0 <= j < a2.len() implies (#[trigger] a2[j]) is Some by {
                if j < a0.len() {
                    assert(a2[j] == a0[j]);
                }
            }
            lemma_known_before(body, m, k);
        } else {
            lemma_scan_push(body, m);
            let a1 = scan(body, m as nat).0;
            let x = atom_arity(body[m], a1).0;
            assert forall|j: int| 0 <= j < a1.len() implies (#[trigger] a1[j]) is Some by {
                assert(a1.push(x)[j] == a1[j]);
            }
            lemma_known_before(body, m, k);
        }
    }
}

/// Evaluating atoms and then one more is evaluating them all.
proof fn lemma_eval_atoms_push(atoms: Seq<AtomView>, a: AtomView, env: EnvView, depth: nat)
    ensures
        eval_atoms(atoms.push(a), env, depth) == match eval_atoms(atoms, env, depth) {
            Ok(after) => eval_atom(a, after, depth),
            Err(e) => Err(e),
        },
    decreases atoms.len(),
{
    let all = atoms.push(a);
    if atoms.len() == 0 {
        assert(all.drop_first() =~= Seq::<AtomView>::empty());
        assert(all[0] == a);
        match eval_atom(a, env, depth) {
            Ok(after) => {
                assert(eval_atoms(all.drop_first(), after, depth) == Ok::<EnvView, EvalError>(
                    after,
                ));
            },
            Err(_) => {},
        }
    } else {
        assert(all.drop_first() =~= atoms.drop_first().push(a));
        assert(all[0] == atoms[0]);
        if let Ok(next) = eval_atom(atoms[0], env, depth) {
            lemma_eval_atoms_push(atoms.drop_first(), a, next, depth);
        }
    }
}

/// One stack effect after another is the effect that composition gives.
proof fn lemma_effect_then(
    first: EnvView,
    second: EnvView,
    third: EnvView,
    d: int,
    s: int,
    i: int,
    o: int,
)
    requires
        0 <= d,
        0 <= s,
        0 <= i,
        0 <= o,
        stack_effect(first, second, d, s),
        stack_effect(second, third, i, o),
    ensures
        stack_effect(first, third, step_effect(d, s, i, o).0, step_effect(d, s, i, o).1),
{
    let n0 = first.stack().len() as int;
    let n1 = second.stack().len() as int;
    let low = if i > s {
        n1 - i
    } else {
        n0 - d
    };
    assert(0 <= low <= n0 - d);
    assert(low <= n1 - i);
    assert(third.stack().take(low) =~= third.stack().take(n1 - i).take(low));
    assert(second.stack().take(low) =~= second.stack().take(n1 - i).take(low));
    assert(second.stack().take(low) =~= second.stack().take(n0 - d).take(low));
    assert(first.stack().take(low) =~= first.stack().take(n0 - d).take(low));
}

/// The effect of a whole analysis: the fold over all its entries.
pub open spec fn scanned_effect(body: Seq<AtomView>, k: int) -> (int, int) {
    let (arities, quoted) = scan(body, k as nat);
    fold_effect(arities, quoted, arities.len() as int, 0)
}

proof fn lemma_scanned_push(body: Seq<AtomView>, m: int)
    requires
        0 <= m < body.len(),
        !is_cond(body[m]),
        atom_arity(body[m], Seq::empty()).0 matches Some(_),
    ensures
        scanned_effect(body, m + 1) == ({
            let (d, s) = scanned_effect(body, m);
            let (i, o) = contribution(
                atom_arity(body[m], Seq::empty()).0,
                is_callable(body[m]),
            ).unwrap();
            step_effect(d, s, i as int, o as int)
        }),
{
    lemma_scan_push(body, m);
    lemma_scan_lengths(body, m as nat);
    let (a0, q0) = scan(body, m as nat);
    let (a1, q1) = scan(body, (m + 1) as nat);
    lemma_fold_agree(a1, q1, a0, q0, a0.len() as int, 0);
}

proof fn lemma_scanned_cond(body: Seq<AtomView>, m: int)
    requires
        2 <= m < body.len(),
        is_cond(body[m]),
        body[m - 1] is Quotation,
        body[m - 2] is Quotation,
        cond_arity(callable_arity(body[m - 1]), callable_arity(body[m - 2])) is Some,
    ensures
        scanned_effect(body, m + 1) == ({
            let (d, s) = scanned_effect(body, m - 2);
            let (i, o) = cond_arity(
                callable_arity(body[m - 1]),
                callable_arity(body[m - 2]),
            ).unwrap();
            step_effect(d, s, i as int, o as int)
        }),
{
    lemma_scan_cond(body, m);
    lemma_scan_lengths(body, (m - 2) as nat);
    let (a0, q0) = scan(body, (m - 2) as nat);
    let (a1, q1) = scan(body, (m + 1) as nat);
    lemma_fold_agree(a1, q1, a0, q0, a0.len() as int, 0);
}

/// After the first `k` atoms of a body that the analysis is right about,
/// the stack shows the effect that the analysis has composed so far.
proof fn lemma_prefix_effect(body: Seq<AtomView>, env: EnvView, depth: nat, k: int)
    requires
        proper(env),
        !env.lazy_mode(),
        proper_atoms(body),
        sound_body(body),
        0 <= k <= body.len(),
        all_known(scan(body, body.len()).0),
    ensures
        eval_atoms(body.take(k), env, depth) matches Ok(after) ==> top_changed(env, after)
            && proper(after) && stack_effect(
            env,
            after,
            scanned_effect(body, k).0,
            scanned_effect(body, k).1,
        ),
    decreases depth, 1nat, k,
{
    if k == 0 {
        assert(body.take(0) =~= Seq::<AtomView>::empty());
        assert(env.stack().take(env.stack().len() as int) =~= env.stack());
    } else {
        let m = k - 1;
        let a = body[m];
        assert(body.take(k) =~= body.take(m).push(a));
        lemma_eval_atoms_push(body.take(m), a, env, depth);
        lemma_known_before(body, body.len() as int, k);
        lemma_scan_lengths(body, k as nat);
        lemma_scan_lengths(body, m as nat);
        lemma_sound_at(body, m);
        assert(proper_atom(a));
        if let Ok(after) = eval_atoms(body.take(k), env, depth) {
            let mid = eval_atoms(body.take(m), env, depth).unwrap();
            assert(eval_atom(a, mid, depth) == Ok::<EnvView, EvalError>(after));
            if !is_cond(a) {
                lemma_prefix_effect(body, env, depth, m);
                lemma_scan_push(body, m);
                let known = atom_arity(a, Seq::empty()).0;
                assert(known is Some) by {
                    let a1 = scan(body, k as nat).0;
                    assert(a1[a1.len() - 1] is Some);
                }
                lemma_scanned_push(body, m);
                let (d, s) = scanned_effect(body, m);
                lemma_fold_bounds(
                    scan(body, m as nat).0,
                    scan(body, m as nat).1,
                    scan(body, m as nat).0.len() as int,
                    0,
                );
                lemma_eval_atom(a, mid, depth);
                match a {
                    AtomView::Op(op) => {
                        lemma_apply_op(op.f, mid, depth);
                        let (i, o) = op.arity.unwrap();
                        lemma_effect_then(env, mid, after, d, s, i as int, o as int);
                    },
                    _ => {
                        lemma_take_effect(mid, 0);
                        assert(mid.without_operands(0).stack() =~= mid.stack());
                        assert(mid.without_operands(0).frames =~= mid.frames);
                        lemma_push_effect(mid, mid, a, 0, 0);
                        lemma_effect_then(env, mid, after, d, s, 0, 1);
                    },
                }
            } else {
                let first = body[m - 2];
                let second = body[m - 1];
                lemma_scan_cond(body, m);
                let chosen_arity = cond_arity(callable_arity(second), callable_arity(first));
                assert(chosen_arity is Some) by {
                    let a1 = scan(body, k as nat).0;
                    assert(a1[a1.len() - 1] is Some);
                }
                lemma_scanned_cond(body, m);
                // The two quotations were pushed as they are.
                assert(body.take(m) =~= body.take(m - 1).push(second));
                assert(body.take(m - 1) =~= body.take(m - 2).push(first));
                lemma_eval_atoms_push(body.take(m - 1), second, env, depth);
                lemma_eval_atoms_push(body.take(m - 2), first, env, depth);
                lemma_prefix_effect(body, env, depth, m - 2);
                let e0 = eval_atoms(body.take(m - 2), env, depth).unwrap();
                assert(proper_atom(first));
                assert(proper_atom(second));
                lemma_push_atom(e0, first);
                let e1 = e0.push_atom(first);
                assert(eval_atom(first, e0, depth) == Ok::<EnvView, EvalError>(e1));
                lemma_push_atom(e1, second);
                assert(eval_atom(second, e1, depth) == Ok::<EnvView, EvalError>(mid));
                assert(mid.stack() =~= e0.stack().push(first).push(second));
                // `cond` takes them and the boolean below, and runs one.
                assert(mid.has_operands(3));
                assert(mid.operand(0) == second);
                assert(mid.operand(1) == first);
                assert(mid.operand(2) == e0.stack().last());
                let rest = mid.without_operands(3);
                lemma_take_effect(e0, 1);
                assert(rest.stack() =~= e0.without_operands(1).stack());
                assert(rest.frames =~= e0.without_operands(1).frames);
                assert(rest == e0.without_operands(1));
                let c = mid.operand(2)->Bool_0;
                let chosen = if c {
                    first->Quotation_0
                } else {
                    second->Quotation_0
                };
                assert(eval_call(chosen, rest, depth) == Ok::<EnvView, EvalError>(after));
                let (i, o) = body_arity(0, chosen).unwrap();
                lemma_call_effect(chosen, rest, depth);
                let (d, s) = scanned_effect(body, m - 2);
                lemma_fold_bounds(
                    scan(body, (m - 2) as nat).0,
                    scan(body, (m - 2) as nat).1,
                    scan(body, (m - 2) as nat).0.len() as int,
                    0,
                );
                lemma_effect_then(e0, rest, after, 1, 0, i as int, o as int);
                lemma_effect_then(env, e0, after, d, s, i + 1, o as int);
            }
        }
    }
}

/// Running a body that the analysis is right about and reports an arity
/// for takes and leaves exactly the atoms the arity counts.
proof fn lemma_call_effect(body: Seq<AtomView>, env: EnvView, depth: nat)
    requires
        proper(env),
        !env.lazy_mode(),
        proper_atoms(body),
        sound_body(body),
        body_arity(0, body) is Some,
    ensures
        eval_call(body, env, depth) matches Ok(after) ==> top_changed(env, after) && proper(after)
            && stack_effect(
            env,
            after,
            body_arity(0, body).unwrap().0 as int,
            body_arity(0, body).unwrap().1 as int,
        ),
    decreases depth, 0nat, 0nat,
{
    if depth > 0 {
        let n = body.len();
        lemma_scan_lengths(body, n);
        lemma_compose_result(scan(body, n).0, scan(body, n).1, 0);
        lemma_prefix_effect(body, env, (depth - 1) as nat, n as int);
        assert(body.take(n as int) =~= body);
    }
}

/// Running a function with parameters that the analysis is right about
/// and reports an arity for takes and leaves exactly the atoms the arity
/// counts.
proof fn lemma_function_effect(
    params: Seq<Seq<char>>,
    body: Seq<AtomView>,
    env: EnvView,
    depth: nat,
)
    requires
        proper(env),
        !env.lazy_mode(),
        proper_atoms(body),
        sound_body(body),
        params.len() > 0,
        body_arity(params.len(), body) is Some,
    ensures
        eval_call_function(params, body, env, depth) matches Ok(after) ==> top_changed(env, after)
            && proper(after) && stack_effect(
            env,
            after,
            body_arity(params.len(), body).unwrap().0 as int,
            body_arity(params.len(), body).unwrap().1 as int,
        ),
{
    let n = body.len();
    let p = params.len() as int;
    let (arities, quoted) = scan(body, n);
    lemma_scan_lengths(body, n);
    lemma_compose_result(arities, quoted, p as u8);
    lemma_fold_shift(arities, quoted, arities.len() as int, p);
    lemma_fold_bounds(arities, quoted, arities.len() as int, 0);
    lemma_bind_params(env, params);
    if let Ok(after) = eval_call_function(params, body, env, depth) {
        let bound = env.bind_params(params).unwrap();
        let inner = eval_call(body, bound, depth).unwrap();
        assert(depth > 0);
        lemma_prefix_effect(body, bound, (depth - 1) as nat, n as int);
        assert(body.take(n as int) =~= body);
        lemma_unbind_params(inner);
        assert(inner.pop_frame().frames =~= bound.pop_frame().frames);
        let low = env.stack().len() - p;
        assert(after.stack().take(low) =~= env.stack().take(low));
        assert(inner.stack().len() == scanned_effect(body, n as int).1);
    }
}

/// Arity soundness. Where the analyzer reports `(in, out)` for a quotation
/// or function, every successful run of it finds at least `in` atoms on the
/// stack, takes exactly those and leaves exactly `out` in their place; the
/// atoms below and the frames below stay as they are.
///
/// This holds of a run outside a lazy frame, in an environment whose stored
/// bodies nest their brackets properly, for a quotation or function that
/// the analysis is right about: each built-in in it carries its own arity,
/// and each `cond` follows two quotations of known arity, themselves such.
pub proof fn arity_is_sound(f: AtomView, env: EnvView, depth: nat)
    requires
        proper(env),
        !env.lazy_mode(),
        proper_value(f),
        sound_callable(f),
        callable_arity(f) is Some,
    ensures
        eval_callable(f, env, depth) matches Ok(after) ==> stack_effect(
            env,
            after,
            callable_arity(f).unwrap().0 as int,
            callable_arity(f).unwrap().1 as int,
        ) && top_changed(env, after) && proper(after),
{
    match f {
        AtomView::Quotation(body) => {
            lemma_call_effect(body, env, depth);
        },
        AtomView::Function(params, body) => {
            if params.len() == 0 {
                lemma_call_effect(body, env, depth);
            } else {
                lemma_function_effect(params, body, env, depth);
            }
        },
        _ => {},
    }
}

} // verus!
