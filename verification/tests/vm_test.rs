use inlinable_string::InlinableString;
use pancake::error::EvalError;
use pancake::types::Atom;
use pancake::vm::{blank_frame, Context, Env};

fn name(s: &str) -> InlinableString {
    InlinableString::from(s)
}

#[test]
fn a_new_environment_has_one_empty_frame() {
    let mut env = Env::new();
    assert_eq!(1, env.frames.len());
    assert!(!env.lazy_mode());
    assert_eq!((false, false, true), (env.loop_like, env.using_for_else, env.for_else));
    assert!(env.output.is_empty());
    let root = env.pop().unwrap();
    assert!(root.stack.is_empty());
    assert!(root.context.get("a").is_none());
    assert!(root.params.get("a").is_none());
    assert!(!root.lazy);
    assert!(env.pop().is_none());
}

#[test]
fn push_and_pop_work_on_the_top_frame() {
    let mut env = Env::new();
    env.push_atom(Atom::Num(1));
    env.push_blank(true);
    assert!(env.lazy_mode());
    env.push_atom(Atom::Num(2));
    env.append_atoms(vec![Atom::Num(3), Atom::Num(4)]);
    assert_eq!(Ok(Atom::Num(4)), env.pop_atom());
    assert_eq!(vec![Atom::Num(2), Atom::Num(3)], env.last_frame().stack);
    assert_eq!(vec![Atom::Num(2), Atom::Num(3)], env.pop().unwrap().stack);
    assert!(!env.lazy_mode());
    assert_eq!(Ok(Atom::Num(1)), env.pop_atom());
    assert_eq!(Err(EvalError::EmptyStack), env.pop_atom());
}

#[test]
fn last_frame_can_be_changed_in_place() {
    let mut env = Env::new();
    env.last_frame().stack.push(Atom::Bool(true));
    env.last_frame().lazy = true;
    assert!(env.lazy_mode());
    assert_eq!(Ok(Atom::Bool(true)), env.pop_atom());
}

#[test]
fn bind_var_refuses_reserved_and_bound_names() {
    let mut env = Env::new();
    assert_eq!(Ok(()), env.bind_var("a", Atom::Num(1)));
    assert_eq!(Err(EvalError::AlreadyBound), env.bind_var("a", Atom::Num(2)));
    assert_eq!(Err(EvalError::ReservedWord), env.bind_var("swap", Atom::Num(2)));
    assert_eq!(Err(EvalError::ReservedWord), env.bind_var("true", Atom::Num(2)));
    assert_eq!(Err(EvalError::ReservedWord), env.bind_var("==", Atom::Num(2)));
    assert_eq!(Some(Atom::Num(1)), env.find_var(&name("a")));
    assert_eq!(None, env.find_var(&name("swap")));
}

#[test]
fn find_var_walks_the_frames_from_the_top() {
    let mut env = Env::new();
    env.bind_var("a", Atom::Num(1)).unwrap();
    env.bind_var("b", Atom::Num(10)).unwrap();
    env.push_blank(false);
    env.bind_var("a", Atom::Num(2)).unwrap();
    assert_eq!(Some(Atom::Num(2)), env.find_var(&name("a")));
    assert_eq!(Some(Atom::Num(10)), env.find_var(&name("b")));
    assert_eq!(None, env.find_var(&name("c")));
    env.pop();
    assert_eq!(Some(Atom::Num(1)), env.find_var(&name("a")));
    env.pop();
    assert_eq!(None, env.find_var(&name("a")));
}

#[test]
fn bind_params_gives_the_last_name_the_top_of_the_stack() {
    let mut env = Env::new();
    env.append_atoms(vec![Atom::Num(0), Atom::Num(1), Atom::Num(2)]);
    env.bind_var("b", Atom::Num(99)).unwrap();
    assert_eq!(Ok(()), env.bind_params(&vec![name("a"), name("b")]));
    assert_eq!(2, env.frames.len());
    assert!(!env.lazy_mode());
    assert!(env.last_frame().stack.is_empty());
    assert_eq!(Some(Atom::Num(1)), env.find_var(&name("a")));
    assert_eq!(Some(Atom::Num(2)), env.find_var(&name("b")));
    env.push_atom(Atom::Num(7));
    env.push_atom(Atom::Num(8));
    env.unbind_params();
    assert_eq!(1, env.frames.len());
    assert_eq!(Some(Atom::Num(99)), env.find_var(&name("b")));
    assert_eq!(None, env.find_var(&name("a")));
    assert_eq!(vec![Atom::Num(0), Atom::Num(7), Atom::Num(8)], env.pop().unwrap().stack);
}

#[test]
fn parameters_are_found_in_the_top_frame_only() {
    let mut env = Env::new();
    env.push_atom(Atom::Num(1));
    env.bind_params(&vec![name("p")]).unwrap();
    env.push_blank(false);
    assert_eq!(None, env.find_var(&name("p")));
    env.pop();
    assert_eq!(Some(Atom::Num(1)), env.find_var(&name("p")));
}

#[test]
fn bind_params_may_take_reserved_names_but_no_name_twice() {
    let mut env = Env::new();
    env.append_atoms(vec![Atom::Num(1), Atom::Num(2)]);
    assert_eq!(Ok(()), env.bind_params(&vec![name("dup")]));
    assert_eq!(Some(Atom::Num(2)), env.find_var(&name("dup")));
    let mut env = Env::new();
    env.append_atoms(vec![Atom::Num(1), Atom::Num(2)]);
    assert_eq!(Err(EvalError::AlreadyBound), env.bind_params(&vec![name("a"), name("a")]));
    assert_eq!(1, env.frames.len());
    let mut env = Env::new();
    env.push_atom(Atom::Num(1));
    assert_eq!(Err(EvalError::EmptyStack), env.bind_params(&vec![name("a"), name("b")]));
    assert_eq!(1, env.frames.len());
    let mut env = Env::new();
    assert_eq!(Ok(()), env.bind_params(&vec![]));
    assert_eq!(2, env.frames.len());
}

#[test]
fn a_context_binds_each_name_once() {
    let mut c = Context::with_capacity(4);
    assert_eq!(Ok(()), c.insert("a", Atom::Num(1)));
    assert_eq!(Ok(()), c.insert_param("let", Atom::Num(2)));
    assert_eq!(Err(EvalError::ReservedWord), c.insert("fn", Atom::Num(3)));
    assert_eq!(Err(EvalError::AlreadyBound), c.insert("a", Atom::Num(3)));
    assert_eq!(Err(EvalError::AlreadyBound), c.insert_param("let", Atom::Num(3)));
    assert_eq!(Some(&Atom::Num(1)), c.get("a"));
    assert_eq!(Some(&Atom::Num(2)), c.get("let"));
    assert_eq!(None, c.get("b"));
    assert_eq!(None, Context::new().get("a"));
    let copy = c.duplicate();
    assert_eq!(Some(&Atom::Num(1)), copy.get("a"));
}

#[test]
fn snapshots_copy_the_frames() {
    let mut env = Env::new();
    env.push_atom(Atom::Num(1));
    env.bind_var("a", Atom::Bool(true)).unwrap();
    let s = env.snapshot();
    env.push_atom(Atom::Num(2));
    assert_eq!(1, s.frames.len());
    assert_eq!(vec![Atom::Num(1)], s.frames[0].stack);
    assert_eq!(Some(&Atom::Bool(true)), s.frames[0].context.get("a"));
    let f = blank_frame().duplicate();
    assert!(f.stack.is_empty());
}

#[test]
fn cloning_an_atom_copies_it_whole() {
    let a = Atom::Function(
        vec![name("a_name_longer_than_thirty_characters_goes_to_the_heap")],
        vec![Atom::List(vec![Atom::Symbol(name("s")), Atom::Quotation(vec![Atom::Call])])],
    );
    assert_eq!(a, a.clone());
}
