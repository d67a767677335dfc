//! The built-in operations by name, and the words no binding may take.

use crate::text::{chars_of, text_is};
use crate::types::{Arity, Handler, Op, OpA, OpB, OpS};
use vstd::prelude::*;

verus! {

/// The stack demand and supply of each built-in, where it does not depend on
/// its operands.
pub open spec fn static_arity(h: Handler) -> Arity {
    match h {
        Handler::Arith(_) => Some((2u8, 1u8)),
        Handler::Logic(OpB::And) => Some((2u8, 1u8)),
        Handler::Logic(OpB::Or) => Some((2u8, 1u8)),
        Handler::Logic(OpB::Not) => Some((1u8, 1u8)),
        Handler::Logic(OpB::Cond) => None,
        Handler::Logic(OpB::If) => None,
        Handler::Stack(OpS::Drop) => Some((1u8, 0u8)),
        Handler::Stack(OpS::Swap) => Some((2u8, 2u8)),
        Handler::Stack(OpS::Rot3) => Some((3u8, 3u8)),
        Handler::Stack(OpS::Dup) => Some((1u8, 2u8)),
        Handler::Stack(OpS::List) => Some((1u8, 1u8)),
        Handler::Stack(OpS::MapEach) => Some((2u8, 1u8)),
        Handler::Stack(OpS::ReduceInner) => Some((2u8, 1u8)),
        Handler::Stack(OpS::Splat) => None,
        Handler::Stack(OpS::Repeat) => None,
        Handler::Stack(OpS::ForElse) => None,
        Handler::Stack(OpS::ForIf) => None,
        Handler::Stack(OpS::Print) => Some((1u8, 0u8)),
        Handler::Stack(OpS::Debug) => Some((0u8, 0u8)),
        Handler::Stack(OpS::Get) => None,
        Handler::Stack(OpS::Keep) => None,
        Handler::Stack(OpS::At) => Some((2u8, 1u8)),
    }
}

/// The built-in that `h` names, with its static arity.
pub open spec fn builtin(h: Handler) -> Op {
    Op { f: h, arity: static_arity(h) }
}

pub fn make_builtin(h: Handler) -> (r: Op)
    ensures
        r == builtin(h),
{
    let arity: Arity = match h {
        Handler::Arith(_) => Some((2, 1)),
        Handler::Logic(OpB::And) => Some((2, 1)),
        Handler::Logic(OpB::Or) => Some((2, 1)),
        Handler::Logic(OpB::Not) => Some((1, 1)),
        Handler::Logic(OpB::Cond) => None,
        Handler::Logic(OpB::If) => None,
        Handler::Stack(OpS::Drop) => Some((1, 0)),
        Handler::Stack(OpS::Swap) => Some((2, 2)),
        Handler::Stack(OpS::Rot3) => Some((3, 3)),
        Handler::Stack(OpS::Dup) => Some((1, 2)),
        Handler::Stack(OpS::List) => Some((1, 1)),
        Handler::Stack(OpS::MapEach) => Some((2, 1)),
        Handler::Stack(OpS::ReduceInner) => Some((2, 1)),
        Handler::Stack(OpS::Splat) => None,
        Handler::Stack(OpS::Repeat) => None,
        Handler::Stack(OpS::ForElse) => None,
        Handler::Stack(OpS::ForIf) => None,
        Handler::Stack(OpS::Print) => Some((1, 0)),
        Handler::Stack(OpS::Debug) => Some((0, 0)),
        Handler::Stack(OpS::Get) => None,
        Handler::Stack(OpS::Keep) => None,
        Handler::Stack(OpS::At) => Some((2, 1)),
    };
    Op::new(h, arity)
}

/// The arithmetic or comparison operator that a punctuation string names.
pub open spec fn arithmetic_op_named(name: Seq<char>) -> Option<OpA> {
    if name == "+"@ {
        Some(OpA::Add)
    } else if name == "-"@ {
        Some(OpA::Sub)
    } else if name == "*"@ {
        Some(OpA::Mult)
    } else if name == "/"@ {
        Some(OpA::Div)
    } else if name == "%"@ {
        Some(OpA::Mod)
    } else if name == "<"@ {
        Some(OpA::Less)
    } else if name == ">"@ {
        Some(OpA::Greater)
    } else if name == "<="@ {
        Some(OpA::LEq)
    } else if name == ">="@ {
        Some(OpA::GEq)
    } else if name == "=="@ {
        Some(OpA::Eq)
    } else if name == "!="@ {
        Some(OpA::NEq)
    } else {
        None
    }
}

/// The boolean operator or conditional that a word names.
pub open spec fn boolean_op_named(name: Seq<char>) -> Option<OpB> {
    if name == "and"@ {
        Some(OpB::And)
    } else if name == "or"@ {
        Some(OpB::Or)
    } else if name == "cond"@ {
        Some(OpB::Cond)
    } else if name == "not"@ {
        Some(OpB::Not)
    } else if name == "if"@ {
        Some(OpB::If)
    } else {
        None
    }
}

/// The stack operation or combinator that a word names.
pub open spec fn stack_op_named(name: Seq<char>) -> Option<OpS> {
    if name == "drop"@ {
        Some(OpS::Drop)
    } else if name == "swap"@ {
        Some(OpS::Swap)
    } else if name == "rot3"@ {
        Some(OpS::Rot3)
    } else if name == "dup"@ {
        Some(OpS::Dup)
    } else if name == "list"@ {
        Some(OpS::List)
    } else if name == "map"@ {
        Some(OpS::MapEach)
    } else if name == "reduce_inner"@ {
        Some(OpS::ReduceInner)
    } else if name == "splat"@ {
        Some(OpS::Splat)
    } else if name == "repeat"@ {
        Some(OpS::Repeat)
    } else if name == "for_else"@ {
        Some(OpS::ForElse)
    } else if name == "for_if"@ {
        Some(OpS::ForIf)
    } else if name == "print"@ {
        Some(OpS::Print)
    } else if name == "debug"@ {
        Some(OpS::Debug)
    } else if name == "get"@ {
        Some(OpS::Get)
    } else if name == "keep"@ {
        Some(OpS::Keep)
    } else if name == "at"@ {
        Some(OpS::At)
    } else {
        None
    }
}

/// One of the six words of the syntax itself.
pub open spec fn is_special_ident(name: Seq<char>) -> bool {
    name == "call"@ || name == "let"@ || name == "fn"@ || name == "true"@ || name == "false"@
        || name == "not"@
}

/// A word that no binding may take: a word of the syntax or the name of a
/// built-in.
pub open spec fn is_reserved_word(name: Seq<char>) -> bool {
    is_special_ident(name) || arithmetic_op_named(name) is Some || boolean_op_named(name) is Some
        || stack_op_named(name) is Some
}

/// What asking for an operator of one family gives: the operator of that
/// name, or the complaint that there is none.
pub open spec fn named_or<T>(found: Option<T>, complaint: &'static str) -> Result<
    T,
    &'static str,
> {
    match found {
        Some(op) => Ok(op),
        None => Err(complaint),
    }
}

impl OpA {
    /// The operator that the characters name.
    pub fn named(name: &Vec<char>) -> (r: Option<Self>)
        ensures
            r == arithmetic_op_named(name@),
    {
        if text_is(name, "+") {
            Some(Self::Add)
        } else if text_is(name, "-") {
            Some(Self::Sub)
        } else if text_is(name, "*") {
            Some(Self::Mult)
        } else if text_is(name, "/") {
            Some(Self::Div)
        } else if text_is(name, "%") {
            Some(Self::Mod)
        } else if text_is(name, "<") {
            Some(Self::Less)
        } else if text_is(name, ">") {
            Some(Self::Greater)
        } else if text_is(name, "<=") {
            Some(Self::LEq)
        } else if text_is(name, ">=") {
            Some(Self::GEq)
        } else if text_is(name, "==") {
            Some(Self::Eq)
        } else if text_is(name, "!=") {
            Some(Self::NEq)
        } else {
            None
        }
    }
}

impl<'a> TryFrom<&'a str> for OpA {
    type Error = &'static str;

    fn try_from(op: &'a str) -> (r: Result<Self, Self::Error>) {
        match Self::named(&chars_of(op)) {
            Some(found) => Ok(found),
            None => Err("Unrecognized arithmetic operator."),
        }
    }
}

impl<'a> vstd::std_specs::convert::TryFromSpecImpl<&'a str> for OpA {
    open spec fn obeys_try_from_spec() -> bool {
        true
    }

    open spec fn try_from_spec(op: &'a str) -> Result<Self, &'static str> {
        named_or(arithmetic_op_named(op@), "Unrecognized arithmetic operator.")
    }
}

impl OpB {
    /// The operator that the characters name.
    pub fn named(name: &Vec<char>) -> (r: Option<Self>)
        ensures
            r == boolean_op_named(name@),
    {
        if text_is(name, "and") {
            Some(Self::And)
        } else if text_is(name, "or") {
            Some(Self::Or)
        } else if text_is(name, "cond") {
            Some(Self::Cond)
        } else if text_is(name, "not") {
            Some(Self::Not)
        } else if text_is(name, "if") {
            Some(Self::If)
        } else {
            None
        }
    }
}

impl<'a> TryFrom<&'a str> for OpB {
    type Error = &'static str;

    fn try_from(op: &'a str) -> (r: Result<Self, Self::Error>) {
        match Self::named(&chars_of(op)) {
            Some(found) => Ok(found),
            None => Err("Unrecognized boolean operator."),
        }
    }
}

impl<'a> vstd::std_specs::convert::TryFromSpecImpl<&'a str> for OpB {
    open spec fn obeys_try_from_spec() -> bool {
        true
    }

    open spec fn try_from_spec(op: &'a str) -> Result<Self, &'static str> {
        named_or(boolean_op_named(op@), "Unrecognized boolean operator.")
    }
}

impl OpS {
    /// The operation that the characters name.
    pub fn named(name: &Vec<char>) -> (r: Option<Self>)
        ensures
            r == stack_op_named(name@),
    {
        if text_is(name, "drop") {
            Some(Self::Drop)
        } else if text_is(name, "swap") {
            Some(Self::Swap)
        } else if text_is(name, "rot3") {
            Some(Self::Rot3)
        } else if text_is(name, "dup") {
            Some(Self::Dup)
        } else if text_is(name, "list") {
            Some(Self::List)
        } else if text_is(name, "map") {
            Some(Self::MapEach)
        } else if text_is(name, "reduce_inner") {
            Some(Self::ReduceInner)
        } else if text_is(name, "splat") {
            Some(Self::Splat)
        } else if text_is(name, "repeat") {
            Some(Self::Repeat)
        } else if text_is(name, "for_else") {
            Some(Self::ForElse)
        } else if text_is(name, "for_if") {
            Some(Self::ForIf)
        } else if text_is(name, "print") {
            Some(Self::Print)
        } else if text_is(name, "debug") {
            Some(Self::Debug)
        } else if text_is(name, "get") {
            Some(Self::Get)
        } else if text_is(name, "keep") {
            Some(Self::Keep)
        } else if text_is(name, "at") {
            Some(Self::At)
        } else {
            None
        }
    }
}

impl<'a> TryFrom<&'a str> for OpS {
    type Error = &'static str;

    fn try_from(op: &'a str) -> (r: Result<Self, Self::Error>) {
        match Self::named(&chars_of(op)) {
            Some(found) => Ok(found),
            None => Err("Unrecognized stack operator."),
        }
    }
}

impl<'a> vstd::std_specs::convert::TryFromSpecImpl<&'a str> for OpS {
    open spec fn obeys_try_from_spec() -> bool {
        true
    }

    open spec fn try_from_spec(op: &'a str) -> Result<Self, &'static str> {
        named_or(stack_op_named(op@), "Unrecognized stack operator.")
    }
}

/// The arithmetic or comparison built-in of that name.
pub fn get_arithmetic_op(op: &str) -> (r: Option<Op>)
    ensures
        r == match arithmetic_op_named(op@) {
            Some(a) => Some(builtin(Handler::Arith(a))),
            None => None,
        },
{
    match OpA::named(&chars_of(op)) {
        Some(a) => Some(make_builtin(Handler::Arith(a))),
        None => None,
    }
}

/// The boolean built-in of that name.
pub fn get_boolean_op(op: &str) -> (r: Option<Op>)
    ensures
        r == match boolean_op_named(op@) {
            Some(b) => Some(builtin(Handler::Logic(b))),
            None => None,
        },
{
    match OpB::named(&chars_of(op)) {
        Some(b) => Some(make_builtin(Handler::Logic(b))),
        None => None,
    }
}

/// The stack built-in of that name.
pub fn get_stack_op(op: &str) -> (r: Option<Op>)
    ensures
        r == match stack_op_named(op@) {
            Some(s) => Some(builtin(Handler::Stack(s))),
            None => None,
        },
{
    match OpS::named(&chars_of(op)) {
        Some(s) => Some(make_builtin(Handler::Stack(s))),
        None => None,
    }
}

/// Whether the characters spell one of the six words of the syntax
/// itself.
pub fn spells_special(name: &Vec<char>) -> (r: bool)
    ensures
        r == is_special_ident(name@),
{
    text_is(name, "call") || text_is(name, "let") || text_is(name, "fn") || text_is(name, "true")
        || text_is(name, "false") || text_is(name, "not")
}

/// Whether the characters spell a word that no binding may take.
pub fn spells_reserved(name: &Vec<char>) -> (r: bool)
    ensures
        r == is_reserved_word(name@),
{
    spells_special(name) || OpA::named(name).is_some() || OpB::named(name).is_some() || OpS::named(
        name,
    ).is_some()
}

/// Whether `name` is one of the six words of the syntax itself.
pub fn is_special(name: &str) -> (r: bool)
    ensures
        r == is_special_ident(name@),
{
    spells_special(&chars_of(name))
}

/// Whether `name` is a word that no binding may take.
pub fn is_reserved(name: &str) -> (r: bool)
    ensures
        r == is_reserved_word(name@),
{
    spells_reserved(&chars_of(name))
}

} // verus!
