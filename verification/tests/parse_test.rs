use inlinable_string::InlinableString;
use pancake::error::ParseError;
use pancake::ops::{get_arithmetic_op, get_boolean_op, get_stack_op};
use pancake::parse::{
    parse_chars, parse_def, parse_expr, parse_fn, parse_ident, parse_let, parse_line, parse_op,
    parse_special_ident, parse_token,
};
use pancake::text::{chars_of, copy_range, text_is};
use pancake::types::Atom;

fn name(s: &str) -> InlinableString {
    InlinableString::from(s)
}

fn arith(s: &str) -> Atom {
    Atom::Op(get_arithmetic_op(s).unwrap())
}

fn stack(s: &str) -> Atom {
    Atom::Op(get_stack_op(s).unwrap())
}

#[test]
fn test_parse_fn() {
    assert_ne!(None, parse_fn("fn f a b c = 1 2 3").unwrap());
}

#[test]
fn test_special_ident_fail() {
    let test_val = parse_special_ident("a");
    if let Some(_) = test_val {
        panic!("Unexpected Ok.")
    }
}

#[test]
fn test_parse_var_name() {
    assert_eq!(Some(("", Atom::Plain(name("a")))), parse_ident("a"));
}

#[test]
fn test_parse_var_fail() {
    let test_val = parse_ident("=");
    if let Some(_) = test_val {
        panic!("Unexpected Ok.")
    }
}

#[test]
fn comment_line_has_no_atoms() {
    assert_eq!(Ok(vec![]), parse_line("# 1 2 + anything [ goes"));
    assert_eq!(Ok(vec![]), parse_line("#"));
}

#[test]
fn empty_and_blank_lines_have_no_atoms() {
    assert_eq!(Ok(vec![]), parse_line(""));
    assert_eq!(Ok(vec![]), parse_line("  \t \r"));
}

#[test]
fn hash_after_the_first_character_is_an_operator() {
    assert_eq!(Err(ParseError::UnknownOperator), parse_line(" # x"));
}

#[test]
fn numbers_with_and_without_sign() {
    assert_eq!(
        Ok(vec![Atom::Num(0), Atom::Num(-7), Atom::Num(12), Atom::Num(7)]),
        parse_line("0 -7 0012 007")
    );
}

#[test]
fn number_limits() {
    assert_eq!(
        Ok(vec![Atom::Num(2147483647), Atom::Num(-2147483648)]),
        parse_line("2147483647 -2147483648")
    );
    assert_eq!(Err(ParseError::UnexpectedInput), parse_line("2147483648"));
    assert_eq!(Err(ParseError::UnexpectedInput), parse_line("99999999999999999999999"));
}

#[test]
fn minus_before_a_number_too_large_is_the_operator() {
    assert_eq!(Ok(arith("-")), parse_token("-2147483649"));
    assert_eq!(Err(ParseError::UnexpectedInput), parse_line("-2147483649"));
}

#[test]
fn minus_binds_to_following_digits() {
    assert_eq!(Ok(vec![Atom::Num(2), Atom::Num(-1)]), parse_line("2-1"));
    assert_eq!(Ok(vec![Atom::Num(2), arith("-"), Atom::Num(1)]), parse_line("2 - 1"));
}

#[test]
fn every_operator() {
    let names = ["+", "-", "*", "/", "%", "<", ">", "<=", ">=", "==", "!="];
    for n in names.iter() {
        assert_eq!(Ok(vec![arith(n)]), parse_line(n));
    }
}

#[test]
fn unknown_operator_is_an_error() {
    assert_eq!(Err(ParseError::UnknownOperator), parse_line("1 2 +-"));
    assert_eq!(Err(ParseError::UnknownOperator), parse_line("="));
    assert_eq!(Err(ParseError::UnknownOperator), parse_line("1 ( 2 )"));
    assert_eq!(Err(ParseError::UnknownOperator), parse_token("=>"));
}

#[test]
fn operators_swallow_all_punctuation() {
    assert_eq!(Err(ParseError::UnknownOperator), parse_line("1 1 +-2"));
    assert_eq!(Err(ParseError::UnknownOperator), parse_line("1 1 <=="));
    assert_eq!(
        Ok(vec![Atom::Num(1), Atom::Num(1), arith("+"), Atom::Num(-2)]),
        parse_line("1 1 + -2")
    );
    assert_eq!(
        Ok(vec![Atom::Num(1), Atom::Num(1), arith("+"), Atom::Num(2), arith("*")]),
        parse_line("1 1 +2 *")
    );
}

#[test]
fn brackets() {
    assert_eq!(
        Ok(vec![Atom::QuotationStart, Atom::Num(1), Atom::QuotationEnd, Atom::QuotationEnd]),
        parse_line("[1]]")
    );
}

#[test]
fn symbols() {
    assert_eq!(
        Ok(vec![Atom::Symbol(name("abc_9")), Atom::Symbol(name("Z"))]),
        parse_line("'abc_9 'Z")
    );
}

#[test]
fn symbol_of_reserved_word_is_an_error() {
    assert_eq!(Err(ParseError::UnexpectedInput), parse_line("'dup"));
    assert_eq!(Err(ParseError::UnexpectedInput), parse_line("'let"));
    assert_eq!(Err(ParseError::UnexpectedInput), parse_line("'not"));
    assert_eq!(Err(ParseError::UnexpectedInput), parse_line("' a"));
    assert_eq!(Err(ParseError::UnexpectedInput), parse_line("'9"));
}

#[test]
fn reserved_words() {
    assert_eq!(
        Ok(vec![
            Atom::Call,
            Atom::DefVarLiteral,
            Atom::DefFnLiteral,
            Atom::Bool(true),
            Atom::Bool(false),
            Atom::Op(get_boolean_op("not").unwrap()),
        ]),
        parse_line("call let fn true false not")
    );
}

#[test]
fn every_built_in_word() {
    for n in ["and", "or", "cond", "not", "if"].iter() {
        assert_eq!(Ok(vec![Atom::Op(get_boolean_op(n).unwrap())]), parse_line(n));
    }
    let words = [
        "drop", "swap", "rot3", "dup", "list", "map", "reduce_inner", "splat", "repeat",
        "for_else", "for_if", "print", "debug", "get", "keep", "at",
    ];
    for n in words.iter() {
        assert_eq!(Ok(vec![stack(n)]), parse_line(n));
    }
}

#[test]
fn identifiers() {
    assert_eq!(
        Ok(vec![Atom::Plain(name("dupe")), Atom::Plain(name("x_1")), Atom::Plain(name("If"))]),
        parse_line("dupe x_1 If")
    );
}

#[test]
fn tokens_need_no_whitespace_between_them() {
    assert_eq!(
        Ok(vec![
            Atom::Num(1),
            Atom::Plain(name("a")),
            Atom::Symbol(name("b")),
            Atom::QuotationStart,
            arith("+"),
            Atom::QuotationEnd,
            stack("dup"),
        ]),
        parse_line("1a'b[+]dup")
    );
}

#[test]
fn unexpected_characters() {
    assert_eq!(Err(ParseError::UnexpectedInput), parse_line("1 _a"));
    assert_eq!(Err(ParseError::UnexpectedInput), parse_line("\"text\""));
    assert_eq!(Err(ParseError::UnexpectedInput), parse_line("{"));
    assert_eq!(Err(ParseError::UnexpectedInput), parse_line("caf\u{e9}"));
    assert_eq!(Err(ParseError::UnexpectedInput), parse_token(""));
    assert_eq!(Err(ParseError::UnexpectedInput), parse_token(" 1"));
}

#[test]
fn first_failing_token_names_the_error() {
    assert_eq!(Err(ParseError::UnexpectedInput), parse_line("{ +-"));
    assert_eq!(Err(ParseError::UnknownOperator), parse_line("+- {"));
}

#[test]
fn parse_token_reads_the_first_token_only() {
    assert_eq!(Ok(Atom::Num(12)), parse_token("12 34"));
    assert_eq!(Ok(Atom::Plain(name("ab"))), parse_token("ab+"));
}

#[test]
fn let_definition_lowers_to_three_atoms() {
    assert_eq!(
        Ok(vec![
            Atom::Quotation(vec![Atom::Num(1), Atom::Num(2), arith("+")]),
            Atom::Symbol(name("a")),
            Atom::DefVar,
        ]),
        parse_line("let a = 1 2 +")
    );
    assert_eq!(
        Ok(Some(vec![Atom::Quotation(vec![]), Atom::Symbol(name("a")), Atom::DefVar])),
        parse_let("let \t a  =")
    );
}

#[test]
fn fn_definition_lowers_to_three_atoms() {
    assert_eq!(
        Ok(vec![
            Atom::Quotation(vec![Atom::Function(
                vec![name("a"), name("b"), name("c")],
                vec![Atom::Num(1), Atom::Num(2), Atom::Num(3)],
            )]),
            Atom::Symbol(name("f")),
            Atom::DefVar,
        ]),
        parse_line("fn f a b c = 1 2 3")
    );
    assert_eq!(
        Ok(Some(vec![
            Atom::Quotation(vec![Atom::Function(
                vec![],
                vec![Atom::QuotationStart, Atom::Plain(name("inc")), Atom::QuotationEnd],
            )]),
            Atom::Symbol(name("inc")),
            Atom::DefVar,
        ])),
        parse_def("fn inc =[inc]")
    );
}

#[test]
fn lines_that_only_look_like_definitions() {
    assert_eq!(Ok(None), parse_let("letter = 1"));
    assert_eq!(Ok(None), parse_let(" let a = 1"));
    assert_eq!(Ok(None), parse_let("let a= 1"));
    assert_eq!(Ok(None), parse_let("let = 1"));
    assert_eq!(Ok(None), parse_fn("fn  = 1"));
    assert_eq!(Ok(None), parse_fn("fn f a"));
    assert_eq!(Ok(None), parse_def("1 2 +"));
    assert_eq!(
        Ok(vec![Atom::Plain(name("letter")), Atom::Num(1)]),
        parse_line("letter 1")
    );
    assert_eq!(
        Ok(vec![Atom::DefVarLiteral, Atom::Plain(name("a"))]),
        parse_line("let a")
    );
}

#[test]
fn malformed_definitions_are_errors() {
    assert_eq!(Err(ParseError::UnknownOperator), parse_line("let dup = 5"));
    assert_eq!(Err(ParseError::UnknownOperator), parse_line("fn f dup = 5"));
    assert_eq!(Err(ParseError::UnknownOperator), parse_line("let a == 5"));
    assert_eq!(Err(ParseError::UnknownOperator), parse_line("let a = 1 +-"));
    assert_eq!(Err(ParseError::UnexpectedInput), parse_def("fn f = {"));
}

#[test]
fn parsing_twice_gives_the_same_atoms() {
    let lines = ["fn fib = dup 2 <= [ drop 1 ] [ 1 - dup 1 - fib swap fib + ] cond", "1 +-", ""];
    for l in lines.iter() {
        assert_eq!(parse_line(l), parse_line(l));
    }
}

#[test]
fn parse_expr_ignores_definition_forms() {
    assert_eq!(Err(ParseError::UnknownOperator), parse_expr("let a = 1"));
    assert_eq!(Ok(vec![Atom::Num(1)]), parse_expr("  1  "));
}

#[test]
fn parse_ident_hands_back_the_rest() {
    assert_eq!(Some((" b", Atom::Plain(name("a_1")))), parse_ident("a_1 b"));
    assert_eq!(Some(("+", Atom::Plain(name("dupe")))), parse_ident("dupe+"));
    assert_eq!(None, parse_ident("dup"));
    assert_eq!(None, parse_ident(" a"));
    assert_eq!(None, parse_ident(""));
}

#[test]
fn long_names_keep_every_character() {
    let long = "a_name_longer_than_thirty_characters_goes_to_the_heap";
    assert_eq!(Ok(vec![Atom::Plain(name(long))]), parse_line(long));
    assert_eq!(
        Ok(vec![Atom::Symbol(name(long)), Atom::Plain(name("b"))]),
        parse_line(&format!("'{} b", long))
    );
}

#[test]
fn parse_op_takes_the_whole_string() {
    assert_eq!(Ok(arith("<=")), parse_op("<="));
    assert_eq!(Err(ParseError::UnknownOperator), parse_op("<= "));
    assert_eq!(Err(ParseError::UnknownOperator), parse_op(""));
    assert_eq!(Err(ParseError::UnknownOperator), parse_op("and"));
}

#[test]
fn special_words() {
    assert_eq!(Some(Atom::Call), parse_special_ident("call"));
    assert_eq!(Some(Atom::Bool(false)), parse_special_ident("false"));
    assert_eq!(Some(stack("keep")), parse_special_ident("keep"));
    assert_eq!(None, parse_special_ident("call "));
    assert_eq!(None, parse_special_ident("+"));
    assert_eq!(None, parse_special_ident(""));
}

#[test]
fn characters_of_text() {
    let chars = chars_of("a\u{e9}[1]");
    assert_eq!(vec!['a', '\u{e9}', '[', '1', ']'], chars);
    assert_eq!(vec!['\u{e9}', '['], copy_range(&chars, 1, 3));
    assert_eq!(Vec::<char>::new(), copy_range(&chars, 5, 5));
    assert!(text_is(&chars, "a\u{e9}[1]"));
    assert!(!text_is(&chars, "a\u{e9}[1"));
    assert!(!text_is(&chars, "a\u{e9}[1]]"));
    assert!(!text_is(&chars, "ae[1]"));
    assert!(text_is(&Vec::new(), ""));
    assert_eq!(parse_line("1 [dup] 'a"), parse_chars(&chars_of("1 [dup] 'a")));
}
