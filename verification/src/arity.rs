//! The arity analyzer: a static estimate of how many atoms a quotation or a
//! function takes from the stack and how many it leaves.

use crate::types::{atoms_view, Arity, Atom, AtomView, Handler, OpB};
use crate::vm::Env;
use vstd::prelude::*;

verus! {

/// Whether an atom is `cond`, whose arity comes from its two branches.
pub open spec fn is_cond(a: AtomView) -> bool {
    a matches AtomView::Op(op) && op.f == Handler::Logic(OpB::Cond)
}

/// Whether an atom is a quotation or a function.
pub open spec fn is_callable(a: AtomView) -> bool {
    a is Quotation || a is Function
}

/// The arity of `cond` given the arities of its two branches: the one they
/// agree on, or the only known one, with one more input for the boolean.
pub open spec fn cond_arity(a: Arity, b: Arity) -> Arity {
    let chosen = match (a, b) {
        (Some(x), Some(y)) => if x == y {
            a
        } else {
            None
        },
        (Some(_), None) => a,
        (None, Some(_)) => b,
        (None, None) => None,
    };
    match chosen {
        Some((i, o)) => if i < 255 {
            Some(((i + 1) as u8, o))
        } else {
            None
        },
        None => None,
    }
}

/// One step of composition: running an operation of arity `(i, o)` after a
/// run that so far demands `num_in` atoms and supplies `num_out`.
pub open spec fn compose_step(num_in: u8, num_out: u8, i: u8, o: u8) -> Arity {
    if i > num_out {
        if num_in + (i - num_out) <= 255 {
            Some(((num_in + (i - num_out)) as u8, o))
        } else {
            None
        }
    } else {
        if num_out - i + o <= 255 {
            Some((num_in, (num_out - i + o) as u8))
        } else {
            None
        }
    }
}

/// What an entry of the analysis contributes to the composition: a known
/// quotation or function pushes itself, anything else acts by its arity.
pub open spec fn contribution(arity: Arity, quoted: bool) -> Arity {
    if quoted && arity is Some {
        Some((0u8, 1u8))
    } else {
        arity
    }
}

/// The composition of the entries from index `from` on, left to right.
pub open spec fn compose(
    arities: Seq<Arity>,
    quoted: Seq<bool>,
    from: int,
    num_in: u8,
    num_out: u8,
) -> Arity
    decreases arities.len() - from,
{
    if from < 0 || from >= arities.len() {
        Some((num_in, num_out))
    } else {
        match contribution(arities[from], quoted[from]) {
            None => None,
            Some((i, o)) => match compose_step(num_in, num_out, i, o) {
                None => None,
                Some((ni, no)) => compose(arities, quoted, from + 1, ni, no),
            },
        }
    }
}

/// The arity of one atom met while a body is analyzed, and the arities that
/// stay on the analysis stack: `cond` takes the last two off it.
pub open spec fn atom_arity(a: AtomView, arities: Seq<Arity>) -> (Arity, Seq<Arity>)
    decreases a, 0nat,
{
    match a {
        AtomView::Bool(_) | AtomView::Num(_) | AtomView::Symbol(_) => (Some((0u8, 1u8)), arities),
        AtomView::Quotation(body) => (body_arity(0, body), arities),
        AtomView::Function(params, body) => (body_arity(params.len(), body), arities),
        AtomView::Op(op) => if op.f != Handler::Logic(OpB::Cond) {
            (op.arity, arities)
        } else if arities.len() < 2 {
            (None, arities)
        } else {
            (
                cond_arity(arities[arities.len() - 1], arities[arities.len() - 2]),
                arities.take(arities.len() - 2),
            )
        },
        _ => (None, arities),
    }
}

/// The analysis stack after the first `k` atoms of `body`: the arity of each
/// atom that `cond` has not taken, and whether the atom is a quotation or a
/// function.
pub open spec fn scan(body: Seq<AtomView>, k: nat) -> (Seq<Arity>, Seq<bool>)
    decreases body, k,
{
    if k == 0 || k > body.len() {
        (Seq::empty(), Seq::empty())
    } else {
        let (arities, quoted) = scan(body, (k - 1) as nat);
        let (arity, rest) = atom_arity(body[k - 1], arities);
        (rest.push(arity), quoted.take(rest.len() as int).push(is_callable(body[k - 1])))
    }
}

/// The arity of a body that first takes `params` atoms as named parameters.
pub open spec fn body_arity(params: nat, body: Seq<AtomView>) -> Arity
    decreases body, body.len() + 1,
{
    if params > 255 {
        None
    } else {
        let (arities, quoted) = scan(body, body.len());
        compose(arities, quoted, 0, params as u8, 0)
    }
}

/// The arity of a quotation or function.
pub open spec fn callable_arity(f: AtomView) -> Arity {
    atom_arity(f, Seq::empty()).0
}

pub(crate) proof fn lemma_scan_lengths(body: Seq<AtomView>, k: nat)
    requires
        k <= body.len(),
    ensures
        scan(body, k).0.len() == scan(body, k).1.len(),
        scan(body, k).0.len() <= k,
    decreases k,
{
    if k > 0 {
        lemma_scan_lengths(body, (k - 1) as nat);
        let (arities, quoted) = scan(body, (k - 1) as nat);
        let (arity, rest) = atom_arity(body[k - 1], arities);
        assert(rest.len() <= arities.len());
        assert(scan(body, k) == (
            rest.push(arity),
            quoted.take(rest.len() as int).push(is_callable(body[k - 1])),
        ));
    }
}

fn cond_of(a: Arity, b: Arity) -> (r: Arity)
    ensures
        r == cond_arity(a, b),
{
    let chosen = match (a, b) {
        (Some(x), Some(y)) => if x.0 == y.0 && x.1 == y.1 {
            a
        } else {
            None
        },
        (Some(_), None) => a,
        (None, Some(_)) => b,
        (None, None) => None,
    };
    match chosen {
        Some((i, o)) => if i < 255 {
            Some((i + 1, o))
        } else {
            None
        },
        None => None,
    }
}

/// The arity of one atom given the arities found before it.
pub fn arity_atom(atom: &Atom, env: &mut Env, arities: &mut Vec<Arity>) -> (r: Arity)
    ensures
        r == atom_arity(atom@, old(arities)@).0,
        final(arities)@ == atom_arity(atom@, old(arities)@).1,
        *final(env) == *old(env),
    decreases atom, 1nat,
{
    match atom {
        Atom::Bool(_) | Atom::Num(_) | Atom::Symbol(_) => Some((0, 1)),
        Atom::Quotation(_) | Atom::Function(_, _) => arity_fn(atom, env),
        Atom::Op(op) => {
            let is_cond = match op.f {
                Handler::Logic(OpB::Cond) => true,
                _ => false,
            };
            if !is_cond {
                op.arity
            } else if arities.len() < 2 {
                None
            } else {
                let a = arities.pop().unwrap();
                let b = arities.pop().unwrap();
                assert(arities@ =~= old(arities)@.take(old(arities)@.len() - 2));
                cond_of(a, b)
            }
        },
        _ => None,
    }
}

/// The arity of a quotation or function.
pub fn arity_fn(f: &Atom, env: &mut Env) -> (r: Arity)
    requires
        is_callable(f@),
    ensures
        r == callable_arity(f@),
        *final(env) == *old(env),
    decreases f, 0nat,
{
    let (params, quot): (usize, &Vec<Atom>) = match f {
        Atom::Function(p, q) => (p.len(), q),
        Atom::Quotation(q) => (0, q),
        _ => { return None; },
    };
    let ghost body = atoms_view(quot@);
    assert(callable_arity(f@) == body_arity(params as nat, body));
    if params > 255 {
        return None;
    }
    let mut arities: Vec<Arity> = Vec::new();
    let mut quoted: Vec<bool> = Vec::new();
    let mut k: usize = 0;
    while k < quot.len()
        invariant
            k <= quot.len(),
            body == atoms_view(quot@),
            (arities@, quoted@) == scan(body, k as nat),
            *env == *old(env),
            match f {
                Atom::Function(_, q) => q == quot,
                Atom::Quotation(q) => q == quot,
                _ => false,
            },
        decreases quot.len() - k,
    {
        let arity = arity_atom(&quot[k], env, &mut arities);
        proof {
            lemma_scan_lengths(body, k as nat);
        }
        quoted.truncate(arities.len());
        arities.push(arity);
        quoted.push(
            match &quot[k] {
                Atom::Quotation(_) | Atom::Function(_, _) => true,
                _ => false,
            },
        );
        k += 1;
    }
    proof {
        lemma_scan_lengths(body, k as nat);
    }
    let mut num_in: u8 = params as u8;
    let mut num_out: u8 = 0;
    let mut j: usize = 0;
    while j < arities.len()
        invariant
            j <= arities.len(),
            arities.len() == quoted.len(),
            *env == *old(env),
            params <= 255,
            callable_arity(f@) == compose(arities@, quoted@, 0, params as u8, 0),
            compose(arities@, quoted@, 0, params as u8, 0) == compose(
                arities@,
                quoted@,
                j as int,
                num_in,
                num_out,
            ),
        decreases arities.len() - j,
    {
        let entry: Arity = if quoted[j] && arities[j].is_some() {
            Some((0, 1))
        } else {
            arities[j]
        };
        match entry {
            None => {
                return None;
            },
            Some((i, o)) => {
                if i > num_out {
                    let extra: u8 = i - num_out;
                    if extra > 255 - num_in {
                        return None;
                    }
                    num_in = num_in + extra;
                    num_out = o;
                } else {
                    let left: u8 = num_out - i;
                    if o > 255 - left {
                        return None;
                    }
                    num_out = left + o;
                }
            },
        }
        j += 1;
    }
    Some((num_in, num_out))
}

} // verus!
