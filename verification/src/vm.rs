//! The environment: a stack of frames, each with an operand stack, local
//! bindings, parameter bindings and a laziness flag.

use crate::error::EvalError;
use crate::ident::{ident_as_str, ident_from_chars, ident_text, idents_text};
use crate::ops::{is_reserved_word, spells_reserved};
use crate::text::{chars_of, text_is};
use crate::types::{atoms_view, clone_atom, clone_atoms, Atom, AtomView, Identifier};
use vstd::prelude::*;

verus! {

/// An operand stack: the last atom is the top.
pub type Stack = Vec<Atom>;

/// How deep calls may nest in a fresh environment.
pub const DEFAULT_DEPTH: usize = 256;

/// A binding map: identifier to atom. Later entries shadow earlier ones of
/// the same name; `insert` never adds such an entry.
#[derive(Debug)]
pub struct Context(pub Vec<(Identifier, Atom)>);

/// The map that a list of bindings stands for.
pub open spec fn bindings_view(es: Seq<(Identifier, Atom)>) -> Map<Seq<char>, AtomView>
    decreases es.len(),
{
    if es.len() == 0 {
        Map::empty()
    } else {
        bindings_view(es.drop_last()).insert(ident_text(es.last().0), es.last().1@)
    }
}

impl View for Context {
    type V = Map<Seq<char>, AtomView>;

    open spec fn view(&self) -> Map<Seq<char>, AtomView> {
        bindings_view(self.0@)
    }
}

proof fn lemma_bindings_found(es: Seq<(Identifier, Atom)>, i: int, k: Seq<char>)
    requires
        0 <= i < es.len(),
        ident_text(es[i].0) == k,
        forall|j: int| i < j < es.len() ==> ident_text(es[j].0) != k,
    ensures
        bindings_view(es).contains_key(k),
        bindings_view(es)[k] == es[i].1@,
    decreases es.len(),
{
    if i < es.len() - 1 {
        lemma_bindings_found(es.drop_last(), i, k);
    }
}

proof fn lemma_bindings_absent(es: Seq<(Identifier, Atom)>, k: Seq<char>)
    requires
        forall|j: int| 0 <= j < es.len() ==> ident_text(es[j].0) != k,
    ensures
        !bindings_view(es).contains_key(k),
    decreases es.len(),
{
    if es.len() > 0 {
        lemma_bindings_absent(es.drop_last(), k);
    }
}

impl Context {
    /// A map that binds nothing.
    pub fn new() -> (r: Context)
        ensures
            r@ == Map::<Seq<char>, AtomView>::empty(),
    {
        Context(Vec::new())
    }

    /// A map that binds nothing, with room for `cap` bindings.
    pub fn with_capacity(cap: usize) -> (r: Context)
        ensures
            r@ == Map::<Seq<char>, AtomView>::empty(),
    {
        Context(Vec::with_capacity(cap))
    }

    /// The atom bound to the name that `wanted` spells, if there is one.
    fn lookup(&self, wanted: &Vec<char>) -> (r: Option<&Atom>)
        ensures
            match r {
                Some(a) => self@.contains_key(wanted@) && a@ == self@[wanted@],
                None => !self@.contains_key(wanted@),
            },
    {
        let mut i: usize = self.0.len();
        while i > 0
            invariant
                i <= self.0.len(),
                forall|j: int| i <= j < self.0.len() ==> ident_text(self.0[j].0) != wanted@,
            decreases i,
        {
            i -= 1;
            if text_is(wanted, ident_as_str(&self.0[i].0)) {
                proof {
                    lemma_bindings_found(self.0@, i as int, wanted@);
                }
                return Some(&self.0[i].1);
            }
        }
        proof {
            lemma_bindings_absent(self.0@, wanted@);
        }
        None
    }

    /// Binds the name that `wanted` spells to `atom`, unless the map
    /// already binds it.
    fn bind(&mut self, wanted: &Vec<char>, atom: Atom) -> (r: Result<(), EvalError>)
        ensures
            old(self)@.contains_key(wanted@) ==> r == Err::<(), EvalError>(
                EvalError::AlreadyBound,
            ) && final(self)@ == old(self)@,
            !old(self)@.contains_key(wanted@) ==> r == Ok::<(), EvalError>(()) && final(self)@
                == old(self)@.insert(wanted@, atom@),
    {
        if self.lookup(wanted).is_some() {
            return Err(EvalError::AlreadyBound);
        }
        let ghost before = self.0@;
        self.0.push((ident_from_chars(wanted), atom));
        assert(self.0@.drop_last() =~= before);
        Ok(())
    }

    /// The atom bound to `ident`, if there is one.
    pub fn get(&self, ident: &str) -> (r: Option<&Atom>)
        ensures
            match r {
                Some(a) => self@.contains_key(ident@) && a@ == self@[ident@],
                None => !self@.contains_key(ident@),
            },
    {
        self.lookup(&chars_of(ident))
    }

    /// Binds `ident` to `atom`, unless the map already binds it.
    pub fn insert_param(&mut self, ident: &str, atom: Atom) -> (r: Result<(), EvalError>)
        ensures
            old(self)@.contains_key(ident@) ==> r == Err::<(), EvalError>(EvalError::AlreadyBound)
                && final(self)@ == old(self)@,
            !old(self)@.contains_key(ident@) ==> r == Ok::<(), EvalError>(()) && final(self)@
                == old(self)@.insert(ident@, atom@),
    {
        self.bind(&chars_of(ident), atom)
    }

    /// Binds `ident` to `atom`, unless the name is reserved or the map
    /// already binds it.
    pub fn insert(&mut self, ident: &str, atom: Atom) -> (r: Result<(), EvalError>)
        ensures
            r == binding_verdict(old(self)@, ident@),
            r is Ok ==> final(self)@ == old(self)@.insert(ident@, atom@),
            r is Err ==> final(self)@ == old(self)@,
    {
        let wanted = chars_of(ident);
        if spells_reserved(&wanted) {
            return Err(EvalError::ReservedWord);
        }
        self.bind(&wanted, atom)
    }
}

/// Whether `name` may be bound in a map that holds `m`: reserved words and
/// names already present are refused.
pub open spec fn binding_verdict(m: Map<Seq<char>, AtomView>, name: Seq<char>) -> Result<
    (),
    EvalError,
> {
    if is_reserved_word(name) {
        Err(EvalError::ReservedWord)
    } else if m.contains_key(name) {
        Err(EvalError::AlreadyBound)
    } else {
        Ok(())
    }
}

impl Context {
    /// A copy of the map, binding for binding.
    pub fn duplicate(&self) -> (r: Context)
        ensures
            r@ == self@,
    {
        let mut r: Vec<(Identifier, Atom)> = Vec::new();
        let mut i: usize = 0;
        while i < self.0.len()
            invariant
                i <= self.0.len(),
                r.len() == i,
                bindings_view(r@) == bindings_view(self.0@.take(i as int)),
            decreases self.0.len() - i,
        {
            let ghost before = r@;
            r.push((self.0[i].0.clone(), clone_atom(&self.0[i].1)));
            proof {
                assert(r@.drop_last() =~= before);
                assert(self.0@.take(i + 1).drop_last() =~= self.0@.take(i as int));
            }
            i += 1;
        }
        assert(self.0@.take(i as int) =~= self.0@);
        Context(r)
    }
}

/// One stack frame.
#[derive(Debug)]
pub struct Frame {
    pub stack: Stack,
    /// The local bindings.
    pub context: Context,
    /// The parameters, bound while the body of a function runs in the
    /// frame.
    pub params: Context,
    /// Whether the frame collects atoms into a quotation.
    pub lazy: bool,
}

/// The mathematical value of a frame.
pub struct FrameView {
    pub stack: Seq<AtomView>,
    pub context: Map<Seq<char>, AtomView>,
    pub params: Map<Seq<char>, AtomView>,
    pub lazy: bool,
}

impl View for Frame {
    type V = FrameView;

    open spec fn view(&self) -> FrameView {
        FrameView {
            stack: atoms_view(self.stack@),
            context: self.context@,
            params: self.params@,
            lazy: self.lazy,
        }
    }
}

/// A frame with nothing on its stack and nothing bound.
pub open spec fn blank_frame_view(lazy: bool) -> FrameView {
    FrameView { stack: Seq::empty(), context: Map::empty(), params: Map::empty(), lazy }
}

/// The values of a sequence of frames.
pub open spec fn frames_view(s: Seq<Frame>) -> Seq<FrameView> {
    Seq::new(s.len(), |i: int| s[i]@)
}

/// A frame that is not lazy, with nothing on its stack and nothing bound.
pub fn blank_frame() -> (r: Frame)
    ensures
        r@ == blank_frame_view(false),
{
    let r = Frame {
        stack: Vec::with_capacity(10),
        context: Context::new(),
        params: Context::new(),
        lazy: false,
    };
    assert(atoms_view(r.stack@) =~= Seq::empty());
    r
}

impl Frame {
    /// A copy of the frame.
    pub fn duplicate(&self) -> (r: Frame)
        ensures
            r@ == self@,
    {
        Frame {
            stack: clone_atoms(&self.stack),
            context: self.context.duplicate(),
            params: self.params.duplicate(),
            lazy: self.lazy,
        }
    }
}

/// What `debug` records: the frames and flags at the moment it ran.
#[derive(Debug)]
pub struct Snapshot {
    pub frames: Vec<Frame>,
    pub loop_like: bool,
    pub using_for_else: bool,
    pub for_else: bool,
}

/// One piece of output, in the order it was produced.
#[derive(Debug)]
pub enum Emit {
    /// The atom that `print` took from the stack.
    Print(Atom),
    /// The environment as `debug` saw it.
    Debug(Snapshot),
}

/// The value of a piece of output.
pub enum EmitView {
    Print(AtomView),
    Debug(Seq<FrameView>, bool, bool, bool),
}

impl View for Emit {
    type V = EmitView;

    open spec fn view(&self) -> EmitView {
        match self {
            Emit::Print(a) => EmitView::Print(a@),
            Emit::Debug(s) => EmitView::Debug(
                frames_view(s.frames@),
                s.loop_like,
                s.using_for_else,
                s.for_else,
            ),
        }
    }
}

/// The values of the output so far.
pub open spec fn emits_view(s: Seq<Emit>) -> Seq<EmitView> {
    Seq::new(s.len(), |i: int| s[i]@)
}

/// The evaluator's state.
#[derive(Debug)]
pub struct Env {
    /// The frames, the root first. The evaluator needs at least one.
    pub frames: Vec<Frame>,
    /// Whether a loop-like combinator is running.
    pub loop_like: bool,
    /// Whether an `if` has been met inside a loop-like combinator.
    pub using_for_else: bool,
    /// Whether no `if` has run its body since the last loop-like
    /// combinator started.
    pub for_else: bool,
    /// How many more calls may nest inside one another.
    pub depth: usize,
    /// What `print` and `debug` have produced so far.
    pub output: Vec<Emit>,
}

/// The mathematical value of an environment. The call depth still allowed is
/// not part of it.
pub struct EnvView {
    pub frames: Seq<FrameView>,
    pub loop_like: bool,
    pub using_for_else: bool,
    pub for_else: bool,
    pub output: Seq<EmitView>,
}

impl View for Env {
    type V = EnvView;

    open spec fn view(&self) -> EnvView {
        EnvView {
            frames: frames_view(self.frames@),
            loop_like: self.loop_like,
            using_for_else: self.using_for_else,
            for_else: self.for_else,
            output: emits_view(self.output@),
        }
    }
}

/// The binding of `name` in the nearest frame that has one, walking from the
/// last frame to the first.
pub open spec fn find_in_contexts(frames: Seq<FrameView>, name: Seq<char>) -> Option<AtomView>
    decreases frames.len(),
{
    if frames.len() == 0 {
        None
    } else if frames.last().context.contains_key(name) {
        Some(frames.last().context[name])
    } else {
        find_in_contexts(frames.drop_last(), name)
    }
}

/// What binding parameters does to an operand stack: one atom is taken from
/// the top for each name, last name first, and a name may occur only once.
pub open spec fn take_params(
    stack: Seq<AtomView>,
    names: Seq<Seq<char>>,
    bound: Map<Seq<char>, AtomView>,
) -> Result<(Seq<AtomView>, Map<Seq<char>, AtomView>), EvalError>
    decreases names.len(),
{
    if names.len() == 0 {
        Ok((stack, bound))
    } else if stack.len() == 0 {
        Err(EvalError::EmptyStack)
    } else if bound.contains_key(names.last()) {
        Err(EvalError::AlreadyBound)
    } else {
        take_params(stack.drop_last(), names.drop_last(), bound.insert(names.last(), stack.last()))
    }
}

proof fn lemma_take_params(
    stack: Seq<AtomView>,
    names: Seq<Seq<char>>,
    bound: Map<Seq<char>, AtomView>,
)
    ensures
        take_params(stack, names, bound) is Ok <==> names.no_duplicates() && names.len()
            <= stack.len() && forall|i: int|
            0 <= i < names.len() ==> !bound.contains_key(#[trigger] names[i]),
        take_params(stack, names, bound) matches Ok((rest, all)) ==> {
            &&& rest == stack.take(stack.len() - names.len())
            &&& forall|k: Seq<char>|
                #[trigger] all.contains_key(k) <==> bound.contains_key(k) || names.contains(k)
            &&& forall|k: Seq<char>| bound.contains_key(k) ==> #[trigger] all[k] == bound[k]
            &&& forall|i: int|
                0 <= i < names.len() ==> all[#[trigger] names[i]] == stack[stack.len()
                    - names.len() + i]
        },
    decreases names.len(),
{
    let n = names.len() as int;
    let len = stack.len() as int;
    if n == 0 {
        assert(stack.take(len - n) =~= stack);
    } else if len > 0 && !bound.contains_key(names.last()) {
        let last = names.last();
        let front = names.drop_last();
        let next = bound.insert(last, stack.last());
        let below = stack.drop_last();
        lemma_take_params(below, front, next);
        assert(take_params(stack, names, bound) == take_params(below, front, next));
        assert forall|i: int| 0 <= i < n - 1 implies #[trigger] front[i] == names[i] by {}
        let fine = names.no_duplicates() && n <= len && forall|i: int|
            0 <= i < n ==> !bound.contains_key(#[trigger] names[i]);
        let fine_below = front.no_duplicates() && n - 1 <= len - 1 && forall|i: int|
            0 <= i < n - 1 ==> !next.contains_key(#[trigger] front[i]);
        if fine {
            assert forall|i: int| 0 <= i < n - 1 implies !next.contains_key(
                #[trigger] front[i],
            ) by {
                assert(names[i] != names[n - 1]);
                assert(!bound.contains_key(names[i]));
            }
            assert(fine_below);
        }
        if fine_below {
            assert forall|i: int, j: int| 0 <= i < n && 0 <= j < n && i != j implies names[i]
                != names[j] by {
                if i < n - 1 && j < n - 1 {
                    assert(front[i] != front[j]);
                } else if i < n - 1 {
                    assert(!next.contains_key(front[i]));
                } else {
                    assert(!next.contains_key(front[j]));
                }
            }
            assert forall|i: int| 0 <= i < n implies !bound.contains_key(#[trigger] names[i]) by {
                if i < n - 1 {
                    assert(!next.contains_key(front[i]));
                }
            }
            assert(fine);
        }
        if let Ok((rest, all)) = take_params(stack, names, bound) {
            assert(rest =~= stack.take(len - n));
            assert forall|k: Seq<char>|
                #[trigger] all.contains_key(k) <==> bound.contains_key(k) || names.contains(
                    k,
                ) by {
                if front.contains(k) {
                    let i = choose|i: int| 0 <= i < front.len() && front[i] == k;
                    assert(names[i] == k);
                }
                if names.contains(k) {
                    let i = choose|i: int| 0 <= i < names.len() && names[i] == k;
                    if i < n - 1 {
                        assert(front[i] == k);
                    }
                }
                assert(names[n - 1] == last);
            }
            assert forall|k: Seq<char>| bound.contains_key(k) implies #[trigger] all[k]
                == bound[k] by {
                assert(next.contains_key(k));
                assert(k != last);
            }
            assert forall|i: int| 0 <= i < n implies all[#[trigger] names[i]] == stack[len - n
                + i] by {
                if i < n - 1 {
                    assert(front[i] == names[i]);
                    assert(below[(len - 1) - (n - 1) + i] == stack[len - n + i]);
                } else {
                    assert(next.contains_key(last));
                    assert(all[last] == next[last]);
                }
            }
        }
    } else {
        if len > 0 {
            assert(bound.contains_key(names[n - 1]));
        }
    }
}

/// Parameters take the top of the stack. Binding succeeds exactly when no
/// name occurs twice and the stack holds an atom for each; it then takes
/// that many atoms off the stack and binds exactly the names, to those
/// atoms in order: the last name to the atom that was on top.
pub proof fn parameters_take_the_top(stack: Seq<AtomView>, names: Seq<Seq<char>>)
    ensures
        take_params(stack, names, Map::empty()) is Ok <==> names.no_duplicates() && names.len()
            <= stack.len(),
        take_params(stack, names, Map::empty()) matches Ok((rest, bound)) ==> {
            &&& rest == stack.take(stack.len() - names.len())
            &&& forall|k: Seq<char>| #[trigger] bound.contains_key(k) <==> names.contains(k)
            &&& forall|i: int|
                0 <= i < names.len() ==> bound[#[trigger] names[i]] == stack[stack.len()
                    - names.len() + i]
        },
{
    lemma_take_params(stack, names, Map::empty());
}

impl EnvView {
    /// The top frame.
    pub open spec fn top(self) -> FrameView {
        self.frames.last()
    }

    /// The environment with `f` in place of the top frame.
    pub open spec fn set_top(self, f: FrameView) -> EnvView {
        EnvView { frames: self.frames.update(self.frames.len() - 1, f), ..self }
    }

    /// The operand stack of the top frame.
    pub open spec fn stack(self) -> Seq<AtomView> {
        self.top().stack
    }

    /// The environment with `s` as the operand stack of the top frame.
    pub open spec fn set_stack(self, s: Seq<AtomView>) -> EnvView {
        self.set_top(FrameView { stack: s, ..self.top() })
    }

    /// The environment with `a` pushed on the current stack.
    pub open spec fn push_atom(self, a: AtomView) -> EnvView {
        self.set_stack(self.stack().push(a))
    }

    /// The environment with the atoms of `s` pushed in order.
    pub open spec fn append_atoms(self, s: Seq<AtomView>) -> EnvView {
        self.set_stack(self.stack() + s)
    }

    /// The environment without the top atom of the current stack.
    pub open spec fn drop_atom(self) -> EnvView {
        self.set_stack(self.stack().drop_last())
    }

    /// The environment with `f` as a new top frame.
    pub open spec fn push_frame(self, f: FrameView) -> EnvView {
        EnvView { frames: self.frames.push(f), ..self }
    }

    /// The environment with a blank frame as a new top frame.
    pub open spec fn push_blank(self, lazy: bool) -> EnvView {
        self.push_frame(blank_frame_view(lazy))
    }

    /// The environment without its top frame.
    pub open spec fn pop_frame(self) -> EnvView {
        EnvView { frames: self.frames.drop_last(), ..self }
    }

    /// Whether the top frame collects atoms into a quotation.
    pub open spec fn lazy_mode(self) -> bool {
        self.top().lazy
    }

    /// The environment after `name` is bound to `a` in the top frame, or why
    /// it may not be.
    pub open spec fn bind_var(self, name: Seq<char>, a: AtomView) -> Result<EnvView, EvalError> {
        match binding_verdict(self.top().context, name) {
            Ok(_) => {
                let context = self.top().context.insert(name, a);
                Ok(self.set_top(FrameView { context, ..self.top() }))
            },
            Err(e) => Err(e),
        }
    }

    /// The environment after the top of the stack is bound to `names` in a
    /// new frame, or why it cannot be.
    pub open spec fn bind_params(self, names: Seq<Seq<char>>) -> Result<EnvView, EvalError> {
        match take_params(self.stack(), names, Map::empty()) {
            Ok((rest, bound)) => Ok(
                self.set_stack(rest).push_frame(
                    FrameView { params: bound, ..blank_frame_view(false) },
                ),
            ),
            Err(e) => Err(e),
        }
    }

    /// The environment after the top frame is closed and what its stack held
    /// is appended to the stack of the frame below.
    pub open spec fn unbind_params(self) -> EnvView {
        self.pop_frame().append_atoms(self.stack())
    }

    /// The binding of `name`: a parameter of the top frame first, then the
    /// local bindings of the frames from the top one down.
    pub open spec fn find_var(self, name: Seq<char>) -> Option<AtomView> {
        if self.frames.len() > 0 && self.top().params.contains_key(name) {
            Some(self.top().params[name])
        } else {
            find_in_contexts(self.frames, name)
        }
    }

    /// The environment with one more piece of output.
    pub open spec fn emit(self, e: EmitView) -> EnvView {
        EnvView { output: self.output.push(e), ..self }
    }
}

impl Env {
    /// An environment with one empty root frame.
    pub fn new() -> (r: Env)
        ensures
            r@ == (EnvView {
                frames: seq![blank_frame_view(false)],
                loop_like: false,
                using_for_else: false,
                for_else: true,
                output: Seq::empty(),
            }),
            r.depth == DEFAULT_DEPTH,
            r.frames.len() == 1,
    {
        Env::with_depth(DEFAULT_DEPTH)
    }

    /// An environment with one empty root frame, in which calls may nest
    /// `depth` deep.
    pub fn with_depth(depth: usize) -> (r: Env)
        ensures
            r@ == (EnvView {
                frames: seq![blank_frame_view(false)],
                loop_like: false,
                using_for_else: false,
                for_else: true,
                output: Seq::empty(),
            }),
            r.depth == depth,
            r.frames.len() == 1,
    {
        let mut frames: Vec<Frame> = Vec::new();
        frames.push(blank_frame());
        let r = Env {
            frames,
            loop_like: false,
            using_for_else: false,
            for_else: true,
            depth,
            output: Vec::new(),
        };
        assert(r@.frames =~= seq![blank_frame_view(false)]);
        assert(r@.output =~= Seq::empty());
        r
    }

    /// The top frame, to read or change in place.
    pub fn last_frame(&mut self) -> (r: &mut Frame)
        requires
            old(self).frames.len() > 0,
        ensures
            *r == old(self).frames@.last(),
            final(self).frames@ == old(self).frames@.update(
                old(self).frames.len() - 1,
                *final(r),
            ),
            final(self).loop_like == old(self).loop_like,
            final(self).using_for_else == old(self).using_for_else,
            final(self).for_else == old(self).for_else,
            final(self).depth == old(self).depth,
            final(self).output == old(self).output,
    {
        let n = self.frames.len();
        &mut self.frames[n - 1]
    }

    /// Pushes the atoms in order on the current operand stack.
    pub fn append_atoms(&mut self, atoms: Vec<Atom>)
        requires
            old(self).frames.len() > 0,
        ensures
            final(self)@ == old(self)@.append_atoms(atoms_view(atoms@)),
            final(self).depth == old(self).depth,
            final(self).frames.len() == old(self).frames.len(),
    {
        let n = self.frames.len();
        let ghost added = atoms@;
        let mut atoms = atoms;
        self.frames[n - 1].stack.append(&mut atoms);
        proof {
            let a = self@;
            let b = old(self)@.append_atoms(atoms_view(added));
            assert(a.top().stack =~= b.top().stack);
            assert(a.frames =~= b.frames);
        }
    }

    /// Pushes an atom on the current operand stack.
    pub fn push_atom(&mut self, atom: Atom)
        requires
            old(self).frames.len() > 0,
        ensures
            final(self)@ == old(self)@.push_atom(atom@),
            final(self).depth == old(self).depth,
            final(self).frames.len() == old(self).frames.len(),
    {
        let n = self.frames.len();
        self.frames[n - 1].stack.push(atom);
        proof {
            let a = self@;
            let b = old(self)@.push_atom(atom@);
            assert(a.top().stack =~= b.top().stack);
            assert(a.frames =~= b.frames);
        }
    }

    /// Takes the top atom off the current operand stack.
    pub fn pop_atom(&mut self) -> (r: Result<Atom, EvalError>)
        requires
            old(self).frames.len() > 0,
        ensures
            final(self).depth == old(self).depth,
            final(self).frames.len() == old(self).frames.len(),
            match r {
                Ok(a) => old(self)@.stack().len() > 0 && a@ == old(self)@.stack().last()
                    && final(self)@ == old(self)@.drop_atom(),
                Err(e) => old(self)@.stack().len() == 0 && e == EvalError::EmptyStack
                    && final(self)@ == old(self)@,
            },
    {
        let n = self.frames.len();
        match self.frames[n - 1].stack.pop() {
            Some(a) => {
                proof {
                    let x = self@;
                    let y = old(self)@.drop_atom();
                    assert(x.top().stack =~= y.top().stack);
                    assert(x.frames =~= y.frames);
                }
                Ok(a)
            },
            None => {
                assert(self@.frames =~= old(self)@.frames);
                Err(EvalError::EmptyStack)
            },
        }
    }

    /// Opens a blank frame on top, lazy or not.
    pub fn push_blank(&mut self, lazy: bool)
        ensures
            final(self)@ == old(self)@.push_blank(lazy),
            final(self).depth == old(self).depth,
            final(self).frames.len() == old(self).frames.len() + 1,
    {
        let mut f = blank_frame();
        f.lazy = lazy;
        self.frames.push(f);
        assert(self@.frames =~= old(self)@.push_blank(lazy).frames);
    }

    /// Removes the top frame and hands it out; `None` if there is no frame.
    pub fn pop(&mut self) -> (r: Option<Frame>)
        ensures
            final(self).depth == old(self).depth,
            match r {
                Some(f) => old(self).frames.len() > 0 && f@ == old(self)@.top() && final(self)@
                    == old(self)@.pop_frame() && final(self).frames.len() == old(self).frames.len()
                    - 1,
                None => old(self).frames.len() == 0 && final(self)@ == old(self)@,
            },
    {
        let r = self.frames.pop();
        proof {
            if r is Some {
                assert(self@.frames =~= old(self)@.pop_frame().frames);
            } else {
                assert(self@.frames =~= old(self)@.frames);
            }
        }
        r
    }

    /// Binds `ident` to `atom` in the top frame.
    pub fn bind_var(&mut self, ident: &str, atom: Atom) -> (r: Result<(), EvalError>)
        requires
            old(self).frames.len() > 0,
        ensures
            final(self).depth == old(self).depth,
            final(self).frames.len() == old(self).frames.len(),
            match old(self)@.bind_var(ident@, atom@) {
                Ok(e) => r is Ok && final(self)@ == e,
                Err(e) => r == Err::<(), EvalError>(e) && final(self)@ == old(self)@,
            },
    {
        let n = self.frames.len();
        let r = self.frames[n - 1].context.insert(ident, atom);
        proof {
            if r is Ok {
                assert(self@.frames =~= old(self)@.bind_var(ident@, atom@).unwrap().frames);
            } else {
                assert(self@.frames =~= old(self)@.frames);
            }
        }
        r
    }

    /// Takes one atom from the stack for each name, last name first, and
    /// opens a new frame whose parameters are those bindings.
    pub fn bind_params(&mut self, idents: &Vec<Identifier>) -> (r: Result<(), EvalError>)
        requires
            old(self).frames.len() > 0,
        ensures
            final(self).depth == old(self).depth,
            match old(self)@.bind_params(idents_text(idents@)) {
                Ok(e) => r is Ok && final(self)@ == e && final(self).frames.len() == old(
                    self,
                ).frames.len() + 1,
                Err(e) => r == Err::<(), EvalError>(e) && final(self).frames.len() == old(
                    self,
                ).frames.len(),
            },
    {
        let ghost names = idents_text(idents@);
        let ghost goal = take_params(old(self)@.stack(), names, Map::empty());
        let mut bound = Context::with_capacity(idents.len());
        let mut i: usize = idents.len();
        proof {
            assert(names.take(i as int) =~= names);
            assert(self@.frames =~= old(self)@.set_stack(self@.stack()).frames);
        }
        while i > 0
            invariant
                i <= idents.len(),
                names == idents_text(idents@),
                self.frames.len() == old(self).frames.len(),
                self.frames.len() > 0,
                self.depth == old(self).depth,
                self@ == old(self)@.set_stack(self@.stack()),
                goal == take_params(old(self)@.stack(), names, Map::empty()),
                goal == take_params(self@.stack(), names.take(i as int), bound@),
            decreases i,
        {
            i -= 1;
            let ghost before = self@;
            proof {
                assert(names.take(i + 1).last() == ident_text(idents[i as int]));
                assert(names.take(i + 1).drop_last() =~= names.take(i as int));
            }
            let atom = match self.pop_atom() {
                Ok(a) => a,
                Err(e) => {
                    assert(goal == Err::<(Seq<AtomView>, Map<Seq<char>, AtomView>), EvalError>(e));
                    return Err(e);
                },
            };
            let ghost shown = bound@;
            match bound.insert_param(ident_as_str(&idents[i]), atom) {
                Ok(_) => {},
                Err(e) => {
                    assert(goal == Err::<(Seq<AtomView>, Map<Seq<char>, AtomView>), EvalError>(e));
                    return Err(e);
                },
            }
            proof {
                assert(self@.frames =~= old(self)@.set_stack(self@.stack()).frames);
                assert(goal == take_params(
                    before.stack().drop_last(),
                    names.take(i as int),
                    shown.insert(names.take(i + 1).last(), before.stack().last()),
                ));
            }
        }
        proof {
            assert(names.take(0) =~= Seq::<Seq<char>>::empty());
        }
        let mut f = blank_frame();
        f.params = bound;
        self.frames.push(f);
        proof {
            let e = old(self)@.bind_params(names).unwrap();
            assert(self@.frames =~= e.frames);
        }
        Ok(())
    }

    /// Closes the top frame and appends what its stack held to the stack of
    /// the frame below.
    pub fn unbind_params(&mut self)
        requires
            old(self).frames.len() >= 2,
        ensures
            final(self)@ == old(self)@.unbind_params(),
            final(self).depth == old(self).depth,
            final(self).frames.len() == old(self).frames.len() - 1,
    {
        let frame = self.frames.pop().unwrap();
        assert(self@.frames =~= old(self)@.pop_frame().frames);
        self.append_atoms(frame.stack);
    }

    /// A copy of what `ident` is bound to.
    pub fn find_var(&self, ident: &Identifier) -> (r: Option<Atom>)
        ensures
            match r {
                Some(a) => self@.find_var(ident_text(*ident)) == Some(a@),
                None => self@.find_var(ident_text(*ident)) is None,
            },
    {
        let name = chars_of(ident_as_str(ident));
        let n = self.frames.len();
        if n > 0 {
            if let Some(a) = self.frames[n - 1].params.lookup(&name) {
                return Some(clone_atom(a));
            }
        }
        let mut i: usize = n;
        assert(self@.frames.take(i as int) =~= self@.frames);
        while i > 0
            invariant
                i <= n,
                n == self.frames.len(),
                name@ == ident_text(*ident),
                n > 0 ==> !self@.top().params.contains_key(name@),
                find_in_contexts(self@.frames, name@) == find_in_contexts(
                    self@.frames.take(i as int),
                    name@,
                ),
            decreases i,
        {
            i -= 1;
            proof {
                assert(self@.frames.take(i + 1).drop_last() =~= self@.frames.take(i as int));
                assert(self@.frames.take(i + 1).last() == self.frames[i as int]@);
            }
            if let Some(a) = self.frames[i].context.lookup(&name) {
                return Some(clone_atom(a));
            }
        }
        None
    }

    /// Records a piece of output.
    pub fn emit(&mut self, e: Emit)
        ensures
            final(self)@ == old(self)@.emit(e@),
            final(self).depth == old(self).depth,
            final(self).frames.len() == old(self).frames.len(),
    {
        self.output.push(e);
        assert(self@.output =~= old(self)@.output.push(e@));
    }

    /// A copy of the frames and flags as they are now.
    pub fn snapshot(&self) -> (r: Snapshot)
        ensures
            frames_view(r.frames@) == self@.frames,
            r.loop_like == self.loop_like,
            r.using_for_else == self.using_for_else,
            r.for_else == self.for_else,
    {
        let mut frames: Vec<Frame> = Vec::new();
        let mut i: usize = 0;
        while i < self.frames.len()
            invariant
                i <= self.frames.len(),
                frames.len() == i,
                forall|j: int| 0 <= j < i ==> frames[j]@ == self.frames[j]@,
            decreases self.frames.len() - i,
        {
            frames.push(self.frames[i].duplicate());
            i += 1;
        }
        assert(frames_view(frames@) =~= self@.frames);
        Snapshot {
            frames,
            loop_like: self.loop_like,
            using_for_else: self.using_for_else,
            for_else: self.for_else,
        }
    }

    /// Whether the top frame collects atoms into a quotation.
    pub fn lazy_mode(&self) -> (r: bool)
        requires
            self.frames.len() > 0,
        ensures
            r == self@.lazy_mode(),
    {
        self.frames[self.frames.len() - 1].lazy
    }
}

} // verus!
