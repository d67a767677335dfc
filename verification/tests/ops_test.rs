use pancake::ops::{
    get_arithmetic_op, get_boolean_op, get_stack_op, is_reserved, is_special, make_builtin,
};
use pancake::types::{Handler, Op, OpA, OpB, OpS};
use std::convert::TryFrom;

#[test]
fn arithmetic_operators_by_name() {
    let table = [
        ("+", OpA::Add),
        ("-", OpA::Sub),
        ("*", OpA::Mult),
        ("/", OpA::Div),
        ("%", OpA::Mod),
        ("<", OpA::Less),
        (">", OpA::Greater),
        ("<=", OpA::LEq),
        (">=", OpA::GEq),
        ("==", OpA::Eq),
        ("!=", OpA::NEq),
    ];
    for (name, op) in table.iter() {
        assert_eq!(Some(Op::new(Handler::Arith(*op), Some((2, 1)))), get_arithmetic_op(name));
    }
    assert_eq!(None, get_arithmetic_op("="));
    assert_eq!(None, get_arithmetic_op("and"));
    assert_eq!(None, get_arithmetic_op(""));
    assert_eq!(None, get_arithmetic_op("+ "));
}

#[test]
fn boolean_operators_by_name() {
    assert_eq!(Some(Op::new(Handler::Logic(OpB::And), Some((2, 1)))), get_boolean_op("and"));
    assert_eq!(Some(Op::new(Handler::Logic(OpB::Or), Some((2, 1)))), get_boolean_op("or"));
    assert_eq!(Some(Op::new(Handler::Logic(OpB::Not), Some((1, 1)))), get_boolean_op("not"));
    assert_eq!(Some(Op::new(Handler::Logic(OpB::Cond), None)), get_boolean_op("cond"));
    assert_eq!(Some(Op::new(Handler::Logic(OpB::If), None)), get_boolean_op("if"));
    assert_eq!(None, get_boolean_op("xor"));
    assert_eq!(None, get_boolean_op("dup"));
    assert_eq!(None, get_boolean_op("AND"));
}

#[test]
fn stack_operators_by_name() {
    let table = [
        ("drop", OpS::Drop, Some((1, 0))),
        ("swap", OpS::Swap, Some((2, 2))),
        ("rot3", OpS::Rot3, Some((3, 3))),
        ("dup", OpS::Dup, Some((1, 2))),
        ("list", OpS::List, Some((1, 1))),
        ("map", OpS::MapEach, Some((2, 1))),
        ("reduce_inner", OpS::ReduceInner, Some((2, 1))),
        ("splat", OpS::Splat, None),
        ("repeat", OpS::Repeat, None),
        ("for_else", OpS::ForElse, None),
        ("for_if", OpS::ForIf, None),
        ("print", OpS::Print, Some((1, 0))),
        ("debug", OpS::Debug, Some((0, 0))),
        ("get", OpS::Get, None),
        ("keep", OpS::Keep, None),
        ("at", OpS::At, Some((2, 1))),
    ];
    for (name, op, arity) in table.iter() {
        assert_eq!(Some(Op::new(Handler::Stack(*op), *arity)), get_stack_op(name));
        assert_eq!(Op::new(Handler::Stack(*op), *arity), make_builtin(Handler::Stack(*op)));
    }
    assert_eq!(None, get_stack_op("reduce"));
    assert_eq!(None, get_stack_op("append"));
    assert_eq!(None, get_stack_op("not"));
}

#[test]
fn reserved_words_by_name() {
    for word in ["call", "let", "fn", "true", "false", "not"].iter() {
        assert!(is_special(word));
        assert!(is_reserved(word));
    }
    for word in ["+", "!=", "and", "cond", "if", "dup", "reduce_inner", "at"].iter() {
        assert!(is_reserved(word));
    }
    for word in ["and", "dup", "+", "a"].iter() {
        assert!(!is_special(word));
    }
    for word in ["a", "Let", "calls", "", "reduce", "append", "curry", "cat", "="].iter() {
        assert!(!is_reserved(word));
    }
}

#[test]
fn operator_tags_by_name() {
    assert_eq!(Ok(OpA::Add), OpA::try_from("+"));
    assert_eq!(Ok(OpA::NEq), OpA::try_from("!="));
    assert_eq!(Ok(OpA::Eq), OpA::try_from("=="));
    assert_eq!(Err("Unrecognized arithmetic operator."), OpA::try_from("="));
    assert_eq!(Ok(OpB::Not), OpB::try_from("not"));
    assert_eq!(Ok(OpB::Cond), OpB::try_from("cond"));
    assert_eq!(Err("Unrecognized boolean operator."), OpB::try_from("nand"));
    assert_eq!(Ok(OpS::ReduceInner), OpS::try_from("reduce_inner"));
    assert_eq!(Ok(OpS::MapEach), OpS::try_from("map"));
    assert_eq!(Err("Unrecognized stack operator."), OpS::try_from("reduce"));
    assert_eq!(Err("Unrecognized stack operator."), OpS::try_from(""));
}
