//! What evaluation means: the effect of atoms and built-ins on the value of
//! an environment, as mathematical functions.
//!
//! Every function takes the number of calls that may still nest (`depth`).
//! Running the body of a quotation or function uses one; at zero a call
//! fails with `DepthExceeded`.

use crate::arity::{callable_arity, is_callable};
use crate::error::EvalError;
use crate::grammar::line_atoms;
use crate::types::{AtomView, Handler, OpA, OpB, OpS};
use crate::vm::{blank_frame_view, EmitView, EnvView, FrameView};
use vstd::prelude::*;

verus! {

/// How an evaluation ends: the environment it leaves, or why it stopped.
pub type Outcome = Result<EnvView, EvalError>;

impl EnvView {
    /// Whether the current operand stack holds at least `n` atoms.
    pub open spec fn has_operands(self, n: int) -> bool {
        self.stack().len() >= n
    }

    /// The operand `k` places below the top of the stack.
    pub open spec fn operand(self, k: int) -> AtomView {
        self.stack()[self.stack().len() - 1 - k]
    }

    /// The environment with the top `n` atoms taken off the stack.
    pub open spec fn without_operands(self, n: int) -> EnvView {
        self.set_stack(self.stack().take(self.stack().len() - n))
    }

    /// A loop-like combinator starts.
    pub open spec fn enter_loop(self) -> EnvView {
        EnvView { for_else: true, loop_like: true, ..self }
    }

    /// A loop-like combinator ends.
    pub open spec fn leave_loop(self) -> EnvView {
        EnvView { loop_like: false, ..self }
    }

    /// An `if` is met: inside a loop-like combinator this is recorded.
    pub open spec fn note_conditional(self) -> EnvView {
        if self.loop_like {
            EnvView { using_for_else: true, ..self }
        } else {
            self
        }
    }

    /// An `if` has run its body: inside a loop-like combinator this is
    /// recorded.
    pub open spec fn note_taken(self) -> EnvView {
        if self.loop_like {
            EnvView { for_else: false, ..self }
        } else {
            self
        }
    }

    /// The environment after the top frame is closed and what its stack held
    /// is pushed on the frame below, as a list or as a quotation; `NoFrame`
    /// if the top frame is the only one.
    pub open spec fn close_frame(self, as_list: bool) -> Outcome {
        if self.frames.len() < 2 {
            Err(EvalError::NoFrame)
        } else {
            Ok(
                self.pop_frame().push_atom(
                    if as_list {
                        AtomView::List(self.stack())
                    } else {
                        AtomView::Quotation(self.stack())
                    },
                ),
            )
        }
    }

    /// The environment after the top frame is closed, and the atom that was
    /// on top of its stack.
    pub open spec fn close_scope(self) -> Result<(AtomView, EnvView), EvalError> {
        if self.frames.len() < 2 {
            Err(EvalError::NoFrame)
        } else if self.stack().len() == 0 {
            Err(EvalError::NoResult)
        } else {
            Ok((self.stack().last(), self.pop_frame()))
        }
    }
}

/// Division that rounds toward zero.
pub open spec fn trunc_div(a: int, b: int) -> int {
    if a >= 0 && b > 0 {
        a / b
    } else if a >= 0 {
        -(a / (-b))
    } else if b > 0 {
        -((-a) / b)
    } else {
        (-a) / (-b)
    }
}

/// The remainder of division that rounds toward zero: it has the sign of
/// the dividend.
pub open spec fn trunc_rem(a: int, b: int) -> int {
    a - b * trunc_div(a, b)
}

/// A number as an atom, if it fits the number type.
pub open spec fn num_atom(v: int) -> Result<AtomView, EvalError> {
    if i32::MIN <= v <= i32::MAX {
        Ok(AtomView::Num(v as i32))
    } else {
        Err(EvalError::Overflow)
    }
}

/// The result of an arithmetic or comparison operator.
pub open spec fn arith_value(op: OpA, a: i32, b: i32) -> Result<AtomView, EvalError> {
    match op {
        OpA::Add => num_atom(a + b),
        OpA::Sub => num_atom(a - b),
        OpA::Mult => num_atom(a * b),
        OpA::Div => if b == 0 {
            Err(EvalError::DivisionByZero)
        } else {
            num_atom(trunc_div(a as int, b as int))
        },
        OpA::Mod => if b == 0 {
            Err(EvalError::DivisionByZero)
        } else if a == i32::MIN && b == -1 {
            Err(EvalError::Overflow)
        } else {
            num_atom(trunc_rem(a as int, b as int))
        },
        OpA::Less => Ok(AtomView::Bool(a < b)),
        OpA::Greater => Ok(AtomView::Bool(a > b)),
        OpA::LEq => Ok(AtomView::Bool(a <= b)),
        OpA::GEq => Ok(AtomView::Bool(a >= b)),
        OpA::Eq => Ok(AtomView::Bool(a == b)),
        OpA::NEq => Ok(AtomView::Bool(a != b)),
    }
}

/// An arithmetic or comparison operator: takes two numbers, leaves one atom.
pub open spec fn apply_arith(op: OpA, env: EnvView) -> Outcome {
    if !env.has_operands(2) {
        Err(EvalError::EmptyStack)
    } else {
        match (env.operand(1), env.operand(0)) {
            (AtomView::Num(a), AtomView::Num(b)) => match arith_value(op, a, b) {
                Ok(v) => Ok(env.without_operands(2).push_atom(v)),
                Err(e) => Err(e),
            },
            _ => Err(EvalError::Type),
        }
    }
}

/// `and`, `or`: take two booleans, leave one.
pub open spec fn apply_connective(conj: bool, env: EnvView) -> Outcome {
    if !env.has_operands(2) {
        Err(EvalError::EmptyStack)
    } else {
        match (env.operand(1), env.operand(0)) {
            (AtomView::Bool(a), AtomView::Bool(b)) => Ok(
                env.without_operands(2).push_atom(
                    AtomView::Bool(
                        if conj {
                            a && b
                        } else {
                            a || b
                        },
                    ),
                ),
            ),
            _ => Err(EvalError::Type),
        }
    }
}

/// `not`: takes a boolean, leaves its negation.
pub open spec fn apply_not(env: EnvView) -> Outcome {
    if !env.has_operands(1) {
        Err(EvalError::EmptyStack)
    } else {
        match env.operand(0) {
            AtomView::Bool(a) => Ok(env.without_operands(1).push_atom(AtomView::Bool(!a))),
            _ => Err(EvalError::Type),
        }
    }
}

/// `drop`, `swap`, `rot3`, `dup`: rearrange the top of the stack.
pub open spec fn apply_shuffle(op: OpS, env: EnvView) -> Outcome {
    match op {
        OpS::Drop => if !env.has_operands(1) {
            Err(EvalError::EmptyStack)
        } else {
            Ok(env.without_operands(1))
        },
        OpS::Swap => if !env.has_operands(2) {
            Err(EvalError::EmptyStack)
        } else {
            Ok(env.without_operands(2).push_atom(env.operand(0)).push_atom(env.operand(1)))
        },
        OpS::Rot3 => if !env.has_operands(3) {
            Err(EvalError::EmptyStack)
        } else {
            Ok(
                env.without_operands(3).push_atom(env.operand(1)).push_atom(
                    env.operand(0),
                ).push_atom(env.operand(2)),
            )
        },
        _ => if !env.has_operands(1) {
            Err(EvalError::EmptyStack)
        } else {
            Ok(env.push_atom(env.operand(0)))
        },
    }
}

/// `splat`: takes a list and appends its atoms to the stack.
pub open spec fn apply_splat(env: EnvView) -> Outcome {
    if !env.has_operands(1) {
        Err(EvalError::EmptyStack)
    } else {
        match env.operand(0) {
            AtomView::List(items) => Ok(env.without_operands(1).append_atoms(items)),
            _ => Err(EvalError::Type),
        }
    }
}

/// `at`: takes a list and an index, leaves the element at the index.
pub open spec fn apply_at(env: EnvView) -> Outcome {
    if !env.has_operands(2) {
        Err(EvalError::EmptyStack)
    } else {
        match (env.operand(1), env.operand(0)) {
            (AtomView::List(items), AtomView::Num(n)) => if 0 <= n < items.len() {
                Ok(env.without_operands(2).push_atom(items[n as int]))
            } else {
                Err(EvalError::OutOfRange)
            },
            _ => Err(EvalError::Type),
        }
    }
}

/// `print`: takes an atom and emits it.
pub open spec fn apply_print(env: EnvView) -> Outcome {
    if !env.has_operands(1) {
        Err(EvalError::EmptyStack)
    } else {
        Ok(env.without_operands(1).emit(EmitView::Print(env.operand(0))))
    }
}

/// `debug`: emits the frames and flags as they are.
pub open spec fn apply_debug(env: EnvView) -> Outcome {
    Ok(env.emit(EmitView::Debug(env.frames, env.loop_like, env.using_for_else, env.for_else)))
}

/// `get`: takes a symbol and leaves what it is bound to, a function as the
/// quotation of its body. An operand that is no symbol is taken and
/// nothing is left.
pub open spec fn apply_get(env: EnvView) -> Outcome {
    if !env.has_operands(1) {
        Err(EvalError::EmptyStack)
    } else {
        let rest = env.without_operands(1);
        match env.operand(0) {
            AtomView::Symbol(name) => match rest.find_var(name) {
                Some(AtomView::Function(_, body)) => Ok(rest.push_atom(AtomView::Quotation(body))),
                Some(a) => Ok(rest.push_atom(a)),
                None => Err(EvalError::UnknownName),
            },
            _ => Ok(rest),
        }
    }
}

/// Whether an atom is an operation of known arity that the stack cannot
/// supply. `cond` is exempt: its arity depends on its branches.
pub open spec fn lacks_operands(a: AtomView, env: EnvView) -> bool {
    a matches AtomView::Op(op) && op.f != Handler::Logic(OpB::Cond) && (op.arity matches Some(
        (n, _),
    ) && env.stack().len() < n)
}

/// A definition: takes a symbol and a value, and binds the one to the other
/// in the top frame.
pub open spec fn define(env: EnvView, function: bool) -> Outcome {
    if !env.has_operands(2) {
        Err(EvalError::EmptyStack)
    } else {
        match (env.operand(0), env.operand(1), function) {
            (AtomView::Symbol(name), AtomView::Quotation(q), true) => env.without_operands(
                2,
            ).bind_var(name, AtomView::Function(Seq::empty(), q)),
            (AtomView::Symbol(name), value, false) => env.without_operands(2).bind_var(name, value),
            _ => Err(EvalError::Type),
        }
    }
}

/// Runs the atoms of a body, unless no further call may nest.
pub open spec fn eval_call(body: Seq<AtomView>, env: EnvView, depth: nat) -> Outcome
    decreases depth, 0nat, 0nat,
{
    if depth == 0 {
        Err(EvalError::DepthExceeded)
    } else {
        eval_atoms(body, env, (depth - 1) as nat)
    }
}

/// Runs a function: without parameters its body runs in the current frame;
/// with parameters they are taken from the stack into a new frame, the body
/// runs there, and what the frame's stack holds at the end goes back onto
/// the caller's stack.
pub open spec fn eval_call_function(
    params: Seq<Seq<char>>,
    body: Seq<AtomView>,
    env: EnvView,
    depth: nat,
) -> Outcome
    decreases depth, 1nat, 0nat,
{
    if params.len() == 0 {
        eval_call(body, env, depth)
    } else {
        match env.bind_params(params) {
            Err(e) => Err(e),
            Ok(bound) => match eval_call(body, bound, depth) {
                Err(e) => Err(e),
                Ok(after) => if after.frames.len() < 2 {
                    Err(EvalError::NoFrame)
                } else {
                    Ok(after.unbind_params())
                },
            },
        }
    }
}

/// Runs a quotation or a function.
pub open spec fn eval_callable(f: AtomView, env: EnvView, depth: nat) -> Outcome
    decreases depth, 2nat, 0nat,
{
    match f {
        AtomView::Quotation(body) => eval_call(body, env, depth),
        AtomView::Function(params, body) => eval_call_function(params, body, env, depth),
        _ => Err(EvalError::NotCallable),
    }
}

/// Runs an expression in a new scope and hands out the atom on top of the
/// scope's stack, closing the scope.
pub open spec fn eval_with_new_scope(expr: Seq<AtomView>, env: EnvView, depth: nat) -> Result<
    (AtomView, EnvView),
    EvalError,
>
    decreases depth, 1nat, 0nat,
{
    match eval_call(expr, env.push_blank(false), depth) {
        Err(e) => Err(e),
        Ok(after) => after.close_scope(),
    }
}

/// `map` over the items still to do: each is run through the quotation in a
/// scope of its own, and the atom on top of that scope joins the results.
pub open spec fn map_items(
    items: Seq<AtomView>,
    q: Seq<AtomView>,
    env: EnvView,
    done: Seq<AtomView>,
    depth: nat,
) -> Result<(Seq<AtomView>, EnvView), EvalError>
    decreases depth, 3nat, items.len(),
{
    if items.len() == 0 {
        Ok((done, env))
    } else {
        match eval_call(q, env.push_blank(false).push_atom(items[0]), depth) {
            Err(e) => Err(e),
            Ok(after) => match after.close_scope() {
                Err(e) => Err(e),
                Ok((r, next)) => map_items(items.drop_first(), q, next, done.push(r), depth),
            },
        }
    }
}

/// `reduce_inner` over the items still to do: each is pushed and the
/// quotation run.
pub open spec fn reduce_items(items: Seq<AtomView>, q: Seq<AtomView>, env: EnvView, depth: nat)
    -> Outcome
    decreases depth, 3nat, items.len(),
{
    if items.len() == 0 {
        Ok(env)
    } else {
        match eval_call(q, env.push_atom(items[0]), depth) {
            Err(e) => Err(e),
            Ok(after) => reduce_items(items.drop_first(), q, after, depth),
        }
    }
}

/// `repeat`: runs a quotation or function `times` times.
pub open spec fn repeat_callable(times: int, f: AtomView, env: EnvView, depth: nat) -> Outcome
    decreases depth, 3nat, times,
{
    if times <= 0 {
        Ok(env)
    } else {
        match eval_callable(f, env, depth) {
            Err(e) => Err(e),
            Ok(after) => repeat_callable(times - 1, f, after, depth),
        }
    }
}

/// `DefVar`: takes a symbol and, below it, a quotation; runs the quotation
/// in a scope of its own and binds the symbol to the atom on top of that
/// scope.
pub open spec fn define_evaluated(env: EnvView, depth: nat) -> Outcome
    decreases depth, 3nat, 0nat,
{
    if !env.has_operands(2) {
        Err(EvalError::EmptyStack)
    } else {
        match (env.operand(0), env.operand(1)) {
            (AtomView::Symbol(name), AtomView::Quotation(expr)) => match eval_with_new_scope(
                expr,
                env.without_operands(2),
                depth,
            ) {
                Err(e) => Err(e),
                Ok((value, after)) => after.bind_var(name, value),
            },
            _ => Err(EvalError::Type),
        }
    }
}

/// What a built-in does.
pub open spec fn apply_op(h: Handler, env: EnvView, depth: nat) -> Outcome
    decreases depth, 4nat, 0nat,
{
    match h {
        Handler::Arith(op) => apply_arith(op, env),
        Handler::Logic(OpB::And) => apply_connective(true, env),
        Handler::Logic(OpB::Or) => apply_connective(false, env),
        Handler::Logic(OpB::Not) => apply_not(env),
        // Takes a boolean and two quotations, and runs the first quotation
        // if the boolean is true, else the second.
        Handler::Logic(OpB::Cond) => if !env.has_operands(3) {
            Err(EvalError::EmptyStack)
        } else {
            match (env.operand(2), env.operand(1), env.operand(0)) {
                (
                    AtomView::Bool(c),
                    AtomView::Quotation(if_q),
                    AtomView::Quotation(else_q),
                ) => eval_call(
                    if c {
                        if_q
                    } else {
                        else_q
                    },
                    env.without_operands(3),
                    depth,
                ),
                _ => Err(EvalError::Type),
            }
        },
        // Takes a boolean and a quotation, and runs the quotation if the
        // boolean is true.
        Handler::Logic(OpB::If) => if !env.has_operands(2) {
            Err(EvalError::EmptyStack)
        } else {
            match (env.operand(1), env.operand(0)) {
                (AtomView::Bool(c), AtomView::Quotation(q)) => {
                    let noted = env.without_operands(2).note_conditional();
                    if c {
                        match eval_call(q, noted, depth) {
                            Err(e) => Err(e),
                            Ok(after) => Ok(after.note_taken()),
                        }
                    } else {
                        Ok(noted)
                    }
                },
                _ => Err(EvalError::Type),
            }
        },
        Handler::Stack(OpS::Drop) => apply_shuffle(OpS::Drop, env),
        Handler::Stack(OpS::Swap) => apply_shuffle(OpS::Swap, env),
        Handler::Stack(OpS::Rot3) => apply_shuffle(OpS::Rot3, env),
        Handler::Stack(OpS::Dup) => apply_shuffle(OpS::Dup, env),
        // Takes a quotation, runs it in a new scope, and leaves what the
        // scope's stack holds as a list.
        Handler::Stack(OpS::List) => if !env.has_operands(1) {
            Err(EvalError::EmptyStack)
        } else {
            match env.operand(0) {
                AtomView::Quotation(q) => match eval_call(
                    q,
                    env.without_operands(1).push_blank(false),
                    depth,
                ) {
                    Err(e) => Err(e),
                    Ok(after) => after.close_frame(true),
                },
                _ => Err(EvalError::Type),
            }
        },
        // Takes a list and a quotation, and leaves the list of the results
        // of the quotation on each item.
        Handler::Stack(OpS::MapEach) => if !env.has_operands(2) {
            Err(EvalError::EmptyStack)
        } else {
            match (env.operand(1), env.operand(0)) {
                (AtomView::List(items), AtomView::Quotation(q)) => match map_items(
                    items,
                    q,
                    env.without_operands(2).enter_loop(),
                    Seq::empty(),
                    depth,
                ) {
                    Err(e) => Err(e),
                    Ok((results, after)) => Ok(
                        after.leave_loop().push_atom(AtomView::List(results)),
                    ),
                },
                _ => Err(EvalError::Type),
            }
        },
        // Takes a list and a quotation; in a new scope, pushes the first
        // item, then each further item followed by a run of the quotation;
        // leaves what the scope's stack holds as a list.
        Handler::Stack(OpS::ReduceInner) => if !env.has_operands(2) {
            Err(EvalError::EmptyStack)
        } else {
            match (env.operand(1), env.operand(0)) {
                (AtomView::List(items), AtomView::Quotation(q)) => {
                    let scope = env.without_operands(2).enter_loop().push_blank(false);
                    let reduced = if items.len() == 0 {
                        Ok(scope)
                    } else {
                        reduce_items(items.drop_first(), q, scope.push_atom(items[0]), depth)
                    };
                    match reduced {
                        Err(e) => Err(e),
                        Ok(after) => after.leave_loop().close_frame(true),
                    }
                },
                _ => Err(EvalError::Type),
            }
        },
        Handler::Stack(OpS::Splat) => apply_splat(env),
        // Takes a count and, below it, a quotation or function, and runs
        // that so many times. A count that is no number runs nothing.
        Handler::Stack(OpS::Repeat) => if !env.has_operands(2) {
            Err(EvalError::EmptyStack)
        } else if !is_callable(env.operand(1)) {
            Err(EvalError::NotCallable)
        } else {
            let looping = env.without_operands(2).enter_loop();
            match env.operand(0) {
                AtomView::Num(times) => match repeat_callable(
                    times as int,
                    env.operand(1),
                    looping,
                    depth,
                ) {
                    Err(e) => Err(e),
                    Ok(after) => Ok(after.leave_loop()),
                },
                _ => Ok(looping.leave_loop()),
            }
        },
        // Take a quotation and run it if no `if` of the last loop-like
        // combinator ran its body (`for_else`), or if one did (`for_if`).
        // An operand that is no quotation is taken and nothing is run.
        Handler::Stack(OpS::ForElse) | Handler::Stack(OpS::ForIf) => if !env.using_for_else {
            Err(EvalError::NoConditional)
        } else if !env.has_operands(1) {
            Err(EvalError::EmptyStack)
        } else {
            match env.operand(0) {
                AtomView::Quotation(q) => if env.for_else == (h == Handler::Stack(OpS::ForElse)) {
                    eval_call(q, env.without_operands(1), depth)
                } else {
                    Ok(env.without_operands(1))
                },
                _ => Ok(env.without_operands(1)),
            }
        },
        Handler::Stack(OpS::Print) => apply_print(env),
        Handler::Stack(OpS::Debug) => apply_debug(env),
        Handler::Stack(OpS::Get) => apply_get(env),
        // Takes a quotation or function of known arity, runs it on a copy
        // of the atoms it consumes, in a scope of its own, and leaves the
        // atom on top of that scope above the atoms it copied.
        Handler::Stack(OpS::Keep) => if !env.has_operands(1) {
            Err(EvalError::EmptyStack)
        } else if !is_callable(env.operand(0)) {
            Err(EvalError::NotCallable)
        } else {
            let rest = env.without_operands(1);
            match callable_arity(env.operand(0)) {
                None => Err(EvalError::UnknownArity),
                Some((n, _)) => if rest.stack().len() < n {
                    Err(EvalError::Arity)
                } else {
                    let scope = rest.push_frame(
                        FrameView {
                            stack: rest.stack().skip(rest.stack().len() - n),
                            ..blank_frame_view(false)
                        },
                    );
                    match eval_callable(env.operand(0), scope, depth) {
                        Err(e) => Err(e),
                        Ok(after) => if after.frames.len() < 2 {
                            Err(EvalError::NoFrame)
                        } else if after.stack().len() == 0 {
                            Err(EvalError::EmptyStack)
                        } else {
                            Ok(after.pop_frame().push_atom(after.stack().last()))
                        },
                    }
                },
            }
        },
        Handler::Stack(OpS::At) => apply_at(env),
    }
}

/// What one atom does.
pub open spec fn eval_atom(a: AtomView, env: EnvView, depth: nat) -> Outcome
    decreases depth, 5nat, 0nat,
{
    if env.lazy_mode() && !(a is QuotationStart) && !(a is QuotationEnd) {
        // A lazy frame collects atoms as they are; names stay unresolved.
        Ok(env.push_atom(a))
    } else if !env.lazy_mode() && lacks_operands(a, env) {
        Err(EvalError::Arity)
    } else {
        match a {
            AtomView::Bool(_)
            | AtomView::Num(_)
            | AtomView::Symbol(_)
            | AtomView::Quotation(_)
            | AtomView::Function(_, _) => Ok(env.push_atom(a)),
            AtomView::Op(op) => apply_op(op.f, env, depth),
            AtomView::QuotationStart => Ok(env.push_blank(true)),
            AtomView::QuotationEnd => env.close_frame(false),
            AtomView::DefVar => define_evaluated(env, depth),
            AtomView::DefVarLiteral => define(env, false),
            AtomView::DefFnLiteral => define(env, true),
            AtomView::Call => if !env.has_operands(1) {
                Err(EvalError::EmptyStack)
            } else {
                eval_callable(env.operand(0), env.without_operands(1), depth)
            },
            AtomView::Plain(name) => match env.find_var(name) {
                Some(AtomView::Function(params, body)) => eval_call_function(
                    params,
                    body,
                    env,
                    depth,
                ),
                Some(bound) => Ok(env.push_atom(bound)),
                None => Err(EvalError::UnknownName),
            },
            AtomView::List(_) => Err(EvalError::UnexpectedAtom),
        }
    }
}

/// What a sequence of atoms does, one after the other.
pub open spec fn eval_atoms(atoms: Seq<AtomView>, env: EnvView, depth: nat) -> Outcome
    decreases depth, 6nat, atoms.len(),
{
    if atoms.len() == 0 {
        Ok(env)
    } else {
        match eval_atom(atoms[0], env, depth) {
            Err(e) => Err(e),
            Ok(after) => eval_atoms(atoms.drop_first(), after, depth),
        }
    }
}

/// What a source line does: its atoms, one after the other.
pub open spec fn eval_line(line: Seq<char>, env: EnvView, depth: nat) -> Outcome {
    match line_atoms(line) {
        Err(e) => Err(EvalError::Parse(e)),
        Ok(atoms) => eval_atoms(atoms, env, depth),
    }
}

/// Where the line that starts at `from` ends: at the next line feed or at
/// the end of the text.
pub open spec fn line_end(text: Seq<char>, from: int) -> int
    decreases text.len() - from,
{
    if 0 <= from < text.len() && text[from] != '\n' {
        line_end(text, from + 1)
    } else {
        from
    }
}

/// What the lines of `text` from `from` on do, one after the other. Lines
/// are separated by line feeds; after the last line feed comes one more
/// line, which may be empty.
pub open spec fn eval_lines(text: Seq<char>, from: int, env: EnvView, depth: nat) -> Outcome
    decreases text.len() - from,
    via eval_lines_decreases
{
    let end = line_end(text, from);
    if !(0 <= from <= text.len()) {
        Ok(env)
    } else {
        match eval_line(text.subrange(from, end), env, depth) {
            Err(e) => Err(e),
            Ok(after) => if end >= text.len() {
                Ok(after)
            } else {
                eval_lines(text, end + 1, after, depth)
            },
        }
    }
}

pub(crate) proof fn lemma_line_end(text: Seq<char>, from: int)
    requires
        0 <= from <= text.len(),
    ensures
        from <= line_end(text, from) <= text.len(),
        line_end(text, from) < text.len() ==> text[line_end(text, from)] == '\n',
    decreases text.len() - from,
{
    if from < text.len() && text[from] != '\n' {
        lemma_line_end(text, from + 1);
    }
}

#[via_fn]
proof fn eval_lines_decreases(text: Seq<char>, from: int, env: EnvView, depth: nat) {
    if 0 <= from <= text.len() {
        lemma_line_end(text, from);
    }
}

/// The root environment before anything has run.
pub open spec fn fresh_env() -> EnvView {
    EnvView {
        frames: seq![blank_frame_view(false)],
        loop_like: false,
        using_for_else: false,
        for_else: true,
        output: Seq::empty(),
    }
}

/// What a program does to a fresh environment.
pub open spec fn eval_program(text: Seq<char>, depth: nat) -> Outcome {
    eval_lines(text, 0, fresh_env(), depth)
}

} // verus!
