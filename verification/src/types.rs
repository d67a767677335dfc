//! The value model: atoms, built-in operation tags and their views.

use crate::ident::{ident_text, idents_text};
use inlinable_string::InlinableString;
use vstd::prelude::*;

verus! {

/// The numbers of the language.
pub type NumType = i32;

/// A name: of a binding, a symbol or a parameter.
pub type Identifier = InlinableString;

/// Stack demand and supply of an operation, when statically known.
pub type Arity = Option<(u8, u8)>;

/// Arithmetic and comparison operators.
#[derive(Debug, Clone, Copy, Hash, PartialEq, Eq, Structural)]
pub enum OpA {
    Add,
    Sub,
    Mult,
    Div,
    Mod,
    Less,
    Greater,
    LEq,
    GEq,
    Eq,
    NEq,
}

/// Boolean operators and conditionals.
#[derive(Debug, Clone, Copy, Hash, PartialEq, Eq, Structural)]
pub enum OpB {
    And,
    Or,
    Not,
    Cond,
    If,
}

/// Stack shuffles and aggregate combinators.
#[derive(Debug, Clone, Copy, Hash, PartialEq, Eq, Structural)]
pub enum OpS {
    Drop,
    Swap,
    Rot3,
    Dup,
    List,
    MapEach,
    ReduceInner,
    Splat,
    Repeat,
    ForElse,
    ForIf,
    Print,
    Debug,
    Get,
    Keep,
    At,
}

/// Which built-in an `Op` runs.
#[derive(Debug, Clone, Copy, Hash, PartialEq, Eq, Structural)]
pub enum Handler {
    Arith(OpA),
    Logic(OpB),
    Stack(OpS),
}

/// A built-in operation together with its static arity, if it has one.
#[derive(Debug, Clone, Copy, Hash, PartialEq, Eq)]
pub struct Op {
    pub f: Handler,
    pub arity: Arity,
}

impl Op {
    /// A built-in with the arity given. The evaluator checks operands
    /// against this arity, whatever the built-in then takes.
    pub fn new(f: Handler, arity: Arity) -> (r: Self)
        ensures
            r == (Op { f, arity }),
    {
        Self { f, arity }
    }
}

/// What the parser emits and the evaluator runs, pushes and stores.
#[derive(Debug, Hash, PartialEq, Eq)]
pub enum Atom {
    Bool(bool),
    Num(NumType),
    /// A finite sequence of atoms, made by `list`.
    List(Vec<Atom>),
    /// A built-in operation.
    Op(Op),
    /// `[`: opens a lazy frame.
    QuotationStart,
    /// `]`: closes the top frame into a quotation.
    QuotationEnd,
    /// Atoms captured and not yet run.
    Quotation(Vec<Atom>),
    /// A body with the names of the parameters it takes from the stack.
    Function(Vec<Identifier>, Vec<Atom>),
    /// Binds a symbol to the result of a quotation; what definition lines
    /// lower to.
    DefVar,
    /// `let`: binds a symbol to the atom below it.
    DefVarLiteral,
    /// `fn`: binds a symbol to the quotation below it, as a function
    /// without parameters.
    DefFnLiteral,
    /// `call`: runs the quotation or function on top of the stack.
    Call,
    /// A quoted name, `'name`.
    Symbol(Identifier),
    /// A name to be resolved when it is run.
    Plain(Identifier),
}

/// The mathematical value of an `Atom`: names are character sequences and
/// nested atoms form sequences.
pub enum AtomView {
    Bool(bool),
    Num(NumType),
    List(Seq<AtomView>),
    Op(Op),
    QuotationStart,
    QuotationEnd,
    Quotation(Seq<AtomView>),
    Function(Seq<Seq<char>>, Seq<AtomView>),
    DefVar,
    DefVarLiteral,
    DefFnLiteral,
    Call,
    Symbol(Seq<char>),
    Plain(Seq<char>),
}

/// The value of an atom.
pub open spec fn atom_view(a: Atom) -> AtomView
    decreases a,
{
    match a {
        Atom::Bool(b) => AtomView::Bool(b),
        Atom::Num(n) => AtomView::Num(n),
        Atom::List(v) => AtomView::List(atoms_view(v@)),
        Atom::Op(op) => AtomView::Op(op),
        Atom::QuotationStart => AtomView::QuotationStart,
        Atom::QuotationEnd => AtomView::QuotationEnd,
        Atom::Quotation(v) => AtomView::Quotation(atoms_view(v@)),
        Atom::Function(p, v) => AtomView::Function(idents_text(p@), atoms_view(v@)),
        Atom::DefVar => AtomView::DefVar,
        Atom::DefVarLiteral => AtomView::DefVarLiteral,
        Atom::DefFnLiteral => AtomView::DefFnLiteral,
        Atom::Call => AtomView::Call,
        Atom::Symbol(s) => AtomView::Symbol(ident_text(s)),
        Atom::Plain(s) => AtomView::Plain(ident_text(s)),
    }
}

/// The values of a sequence of atoms.
pub open spec fn atoms_view(s: Seq<Atom>) -> Seq<AtomView>
    decreases s,
{
    Seq::new(
        s.len(),
        |i: int|
            if 0 <= i < s.len() {
                atom_view(s[i])
            } else {
                arbitrary()
            },
    )
}

impl View for Atom {
    type V = AtomView;

    open spec fn view(&self) -> AtomView {
        atom_view(*self)
    }
}

/// A copy of a list of identifiers, name for name.
pub fn clone_idents(v: &Vec<Identifier>) -> (r: Vec<Identifier>)
    ensures
        idents_text(r@) == idents_text(v@),
{
    let mut r: Vec<Identifier> = Vec::new();
    let mut i: usize = 0;
    while i < v.len()
        invariant
            i <= v.len(),
            r.len() == i,
            forall|j: int| 0 <= j < i ==> ident_text(r[j]) == ident_text(v[j]),
        decreases v.len() - i,
    {
        r.push(v[i].clone());
        i += 1;
    }
    assert(idents_text(r@) =~= idents_text(v@));
    r
}

/// A deep copy of an atom.
pub fn clone_atom(a: &Atom) -> (r: Atom)
    ensures
        r@ == a@,
    decreases a,
{
    match a {
        Atom::Bool(b) => Atom::Bool(*b),
        Atom::Num(n) => Atom::Num(*n),
        Atom::List(v) => Atom::List(clone_atoms(v)),
        Atom::Op(op) => Atom::Op(*op),
        Atom::QuotationStart => Atom::QuotationStart,
        Atom::QuotationEnd => Atom::QuotationEnd,
        Atom::Quotation(v) => Atom::Quotation(clone_atoms(v)),
        Atom::Function(p, v) => Atom::Function(clone_idents(p), clone_atoms(v)),
        Atom::DefVar => Atom::DefVar,
        Atom::DefVarLiteral => Atom::DefVarLiteral,
        Atom::DefFnLiteral => Atom::DefFnLiteral,
        Atom::Call => Atom::Call,
        Atom::Symbol(s) => Atom::Symbol(s.clone()),
        Atom::Plain(s) => Atom::Plain(s.clone()),
    }
}

/// A deep copy of a list of atoms.
pub fn clone_atoms(v: &Vec<Atom>) -> (r: Vec<Atom>)
    ensures
        atoms_view(r@) == atoms_view(v@),
    decreases v,
{
    let mut r: Vec<Atom> = Vec::new();
    let mut i: usize = 0;
    while i < v.len()
        invariant
            i <= v.len(),
            r.len() == i,
            forall|j: int| 0 <= j < i ==> r[j]@ == v[j]@,
        decreases v.len() - i,
    {
        r.push(clone_atom(&v[i]));
        i += 1;
    }
    assert(atoms_view(r@) =~= atoms_view(v@));
    r
}

impl Clone for Atom {
    fn clone(&self) -> (r: Self)
        ensures
            r@ == self@,
    {
        clone_atom(self)
    }
}

} // verus!
