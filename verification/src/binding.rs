//! Late binding: a quotation holds names, not what they are bound to.

use crate::error::EvalError;
use crate::semantics::{define_evaluated, eval_atom, eval_atoms, eval_call, eval_with_new_scope};
use crate::types::AtomView;
use crate::vm::EnvView;
use vstd::prelude::*;

verus! {

/// Late binding, at capture. In a lazy frame a name is stored as the name
/// it is, whatever the environment binds it to.
pub proof fn capture_keeps_names(name: Seq<char>, env: EnvView, depth: nat)
    requires
        env.lazy_mode(),
    ensures
        eval_atom(AtomView::Plain(name), env, depth) == Ok::<EnvView, EvalError>(
            env.push_atom(AtomView::Plain(name)),
        ),
{
}

/// Late binding, at the call. Running a quotation that holds a name gives
/// what the name is bound to when the quotation runs: a bound value that
/// is no function is pushed.
pub proof fn names_resolve_when_run(name: Seq<char>, value: AtomView, env: EnvView, depth: nat)
    requires
        env.frames.len() >= 1,
        !env.lazy_mode(),
        depth >= 1,
        env.find_var(name) == Some(value),
        !(value is Function),
    ensures
        eval_call(seq![AtomView::Plain(name)], env, depth) == Ok::<EnvView, EvalError>(
            env.push_atom(value),
        ),
{
    let body = seq![AtomView::Plain(name)];
    let d = (depth - 1) as nat;
    assert(body.drop_first() =~= Seq::<AtomView>::empty());
    assert(eval_atoms(body.drop_first(), env.push_atom(value), d) == Ok::<EnvView, EvalError>(
        env.push_atom(value),
    ));
    assert(eval_atom(body[0], env, d) == Ok::<EnvView, EvalError>(env.push_atom(value)));
}

/// Late binding, at the definition. What `fn NAME P1 .. = BODY` lowers to
/// binds the name to the function as written, whatever names the body
/// holds, bound or not, the function's own among them.
pub proof fn definition_needs_no_bindings(
    name: Seq<char>,
    params: Seq<Seq<char>>,
    body: Seq<AtomView>,
    env: EnvView,
    depth: nat,
)
    requires
        env.frames.len() >= 1,
        !env.lazy_mode(),
        depth >= 1,
    ensures
        eval_atoms(
            seq![
                AtomView::Quotation(seq![AtomView::Function(params, body)]),
                AtomView::Symbol(name),
                AtomView::DefVar,
            ],
            env,
            depth,
        ) == env.bind_var(name, AtomView::Function(params, body)),
{
    let f = AtomView::Function(params, body);
    let q = AtomView::Quotation(seq![f]);
    let atoms = seq![q, AtomView::Symbol(name), AtomView::DefVar];
    let d = (depth - 1) as nat;
    let e1 = env.push_atom(q);
    let e2 = e1.push_atom(AtomView::Symbol(name));
    let rest1 = atoms.drop_first();
    let rest2 = rest1.drop_first();
    assert(rest1 =~= seq![AtomView::Symbol(name), AtomView::DefVar]);
    assert(rest2 =~= seq![AtomView::DefVar]);
    assert(rest2.drop_first() =~= Seq::<AtomView>::empty());
    assert(eval_atom(atoms[0], env, depth) == Ok::<EnvView, EvalError>(e1));
    assert(eval_atom(rest1[0], e1, depth) == Ok::<EnvView, EvalError>(e2));
    // The stack of e2 is that of env with the quotation and the symbol on top.
    assert(e2.stack() =~= env.stack().push(q).push(AtomView::Symbol(name)));
    assert(e2.operand(0) == AtomView::Symbol(name));
    assert(e2.operand(1) == q);
    let e3 = e2.without_operands(2);
    assert(e3.stack() =~= env.stack());
    assert(e3.frames =~= env.frames);
    assert(e3 == env);
    // The quotation runs in a scope of its own and leaves the function there.
    let scope = env.push_blank(false);
    let inner = seq![f];
    assert(inner.drop_first() =~= Seq::<AtomView>::empty());
    let e5 = scope.push_atom(f);
    assert(eval_atom(inner[0], scope, d) == Ok::<EnvView, EvalError>(e5));
    assert(eval_atoms(inner.drop_first(), e5, d) == Ok::<EnvView, EvalError>(e5));
    assert(eval_atoms(inner, scope, d) == Ok::<EnvView, EvalError>(e5));
    assert(eval_call(inner, scope, depth) == Ok::<EnvView, EvalError>(e5));
    assert(e5.stack() =~= seq![f]);
    assert(e5.pop_frame().frames =~= env.frames);
    assert(e5.pop_frame() == env);
    assert(eval_with_new_scope(inner, env, depth) == Ok::<(AtomView, EnvView), EvalError>(
        (f, env),
    ));
    assert(define_evaluated(e2, depth) == env.bind_var(name, f));
    assert(eval_atom(rest2[0], e2, depth) == env.bind_var(name, f));
    match env.bind_var(name, f) {
        Ok(bound) => {
            assert(eval_atoms(rest2.drop_first(), bound, depth) == Ok::<EnvView, EvalError>(
                bound,
            ));
            assert(eval_atoms(rest2, e2, depth) == Ok::<EnvView, EvalError>(bound));
        },
        Err(e) => {
            assert(eval_atoms(rest2, e2, depth) == Err::<EnvView, EvalError>(e));
        },
    }
    assert(eval_atoms(rest1, e1, depth) == eval_atoms(rest2, e2, depth));
    assert(eval_atoms(atoms, env, depth) == eval_atoms(rest1, e1, depth));
}

} // verus!
