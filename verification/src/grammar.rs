//! The grammar of a source line, as functions on its characters.
//!
//! A line is either a comment, a `let` definition, a `fn` definition, or a
//! free expression: tokens with optional whitespace between them. At each
//! position the token alternatives are tried in a fixed order and each takes
//! as many characters as it can.

use crate::error::ParseError;
use crate::ops::{arithmetic_op_named, boolean_op_named, builtin, is_reserved_word, stack_op_named};
use crate::types::{AtomView, Handler};
use vstd::prelude::*;

verus! {

/// The character classes of the grammar.
#[derive(Debug, Clone, Copy, PartialEq, Eq, Structural)]
pub enum CharClass {
    /// Space, tab, carriage return, line feed.
    Space,
    /// `0` to `9`.
    Digit,
    /// An ASCII letter.
    Alpha,
    /// What may follow the first letter of an identifier: an ASCII letter, a
    /// digit or an underscore.
    Word,
    /// Operator punctuation.
    Punct,
}

pub open spec fn in_class(k: CharClass, c: char) -> bool {
    match k {
        CharClass::Space => c == ' ' || c == '\t' || c == '\r' || c == '\n',
        CharClass::Digit => '0' <= c <= '9',
        CharClass::Alpha => ('a' <= c <= 'z') || ('A' <= c <= 'Z'),
        CharClass::Word => ('a' <= c <= 'z') || ('A' <= c <= 'Z') || ('0' <= c <= '9') || c
            == '_',
        CharClass::Punct => c == '+' || c == '!' || c == '@' || c == '#' || c == '$' || c == '%'
            || c == '^' || c == '&' || c == '*' || c == '(' || c == ')' || c == '<' || c == '>'
            || c == ',' || c == '-' || c == '=' || c == '?' || c == '/' || c == '.' || c == '|',
    }
}

/// Where the longest run of characters of class `k` that starts at `i` ends.
pub open spec fn run_end(s: Seq<char>, i: int, k: CharClass) -> int
    decreases s.len() - i,
{
    if 0 <= i < s.len() && in_class(k, s[i]) {
        run_end(s, i + 1, k)
    } else {
        i
    }
}

pub(crate) proof fn lemma_run_end(s: Seq<char>, i: int, k: CharClass)
    requires
        0 <= i <= s.len(),
    ensures
        i <= run_end(s, i, k) <= s.len(),
        forall|j: int| i <= j < run_end(s, i, k) ==> in_class(k, #[trigger] s[j]),
        run_end(s, i, k) < s.len() ==> !in_class(k, s[run_end(s, i, k)]),
    decreases s.len() - i,
{
    if i < s.len() && in_class(k, s[i]) {
        lemma_run_end(s, i + 1, k);
    }
}

/// The number that a digit stands for.
pub open spec fn digit_of(c: char) -> int {
    c as int - '0' as int
}

/// The decimal value of the digits of `s` from `from` up to `to`.
pub open spec fn digits_value(s: Seq<char>, from: int, to: int) -> int
    decreases to - from,
{
    if to <= from {
        0
    } else {
        digits_value(s, from, to - 1) * 10 + digit_of(s[to - 1])
    }
}

/// A number literal at `i`: an optional minus and digits, whose value fits
/// the number type. Gives the value and where the literal ends.
pub open spec fn number_at(s: Seq<char>, i: int) -> Option<(i32, int)> {
    let j = if 0 <= i < s.len() && s[i] == '-' {
        i + 1
    } else {
        i
    };
    let k = run_end(s, j, CharClass::Digit);
    let v = if j > i {
        -digits_value(s, j, k)
    } else {
        digits_value(s, j, k)
    };
    if k > j && i32::MIN <= v <= i32::MAX {
        Some((v as i32, k))
    } else {
        None
    }
}

/// An identifier at `i`: a letter, then letters, digits and underscores.
/// Gives where it ends.
pub open spec fn ident_at(s: Seq<char>, i: int) -> Option<int> {
    if 0 <= i < s.len() && in_class(CharClass::Alpha, s[i]) {
        Some(run_end(s, i + 1, CharClass::Word))
    } else {
        None
    }
}

/// An identifier at `i` that is no reserved word. Gives where it ends.
pub open spec fn name_at(s: Seq<char>, i: int) -> Option<int> {
    match ident_at(s, i) {
        Some(e) => if is_reserved_word(s.subrange(i, e)) {
            None
        } else {
            Some(e)
        },
        None => None,
    }
}

/// The atom that a reserved word stands for.
pub open spec fn special_atom(word: Seq<char>) -> Option<AtomView> {
    if word == "call"@ {
        Some(AtomView::Call)
    } else if word == "let"@ {
        Some(AtomView::DefVarLiteral)
    } else if word == "fn"@ {
        Some(AtomView::DefFnLiteral)
    } else if word == "true"@ {
        Some(AtomView::Bool(true))
    } else if word == "false"@ {
        Some(AtomView::Bool(false))
    } else {
        match boolean_op_named(word) {
            Some(b) => Some(AtomView::Op(builtin(Handler::Logic(b)))),
            None => match stack_op_named(word) {
                Some(t) => Some(AtomView::Op(builtin(Handler::Stack(t)))),
                None => None,
            },
        }
    }
}

/// The atom of an identifier: what the word stands for if it is reserved,
/// else a reference to the name.
pub open spec fn word_atom(word: Seq<char>) -> AtomView {
    match special_atom(word) {
        Some(a) => a,
        None => AtomView::Plain(word),
    }
}

/// The token that starts at `i`, and where it ends.
pub open spec fn token_at(s: Seq<char>, i: int) -> Result<(AtomView, int), ParseError> {
    if !(0 <= i < s.len()) {
        Err(ParseError::UnexpectedInput)
    } else if s[i] == '[' {
        Ok((AtomView::QuotationStart, i + 1))
    } else if s[i] == ']' {
        Ok((AtomView::QuotationEnd, i + 1))
    } else if let Some((v, e)) = number_at(s, i) {
        Ok((AtomView::Num(v), e))
    } else if s[i] == '\'' {
        match name_at(s, i + 1) {
            Some(e) => Ok((AtomView::Symbol(s.subrange(i + 1, e)), e)),
            None => Err(ParseError::UnexpectedInput),
        }
    } else if in_class(CharClass::Punct, s[i]) {
        let e = run_end(s, i, CharClass::Punct);
        match arithmetic_op_named(s.subrange(i, e)) {
            Some(a) => Ok((AtomView::Op(builtin(Handler::Arith(a))), e)),
            None => Err(ParseError::UnknownOperator),
        }
    } else if let Some(e) = ident_at(s, i) {
        Ok((word_atom(s.subrange(i, e)), e))
    } else {
        Err(ParseError::UnexpectedInput)
    }
}

pub(crate) proof fn lemma_token_at(s: Seq<char>, i: int)
    requires
        0 <= i < s.len(),
    ensures
        token_at(s, i) matches Ok((_, e)) ==> i < e <= s.len(),
{
    lemma_run_end(s, i, CharClass::Digit);
    lemma_run_end(s, i + 1, CharClass::Digit);
    lemma_run_end(s, i, CharClass::Punct);
    lemma_run_end(s, i + 1, CharClass::Word);
    if i + 1 < s.len() {
        lemma_run_end(s, i + 2, CharClass::Word);
    }
}

/// The atoms of the tokens from `i` on, where `i` is the end of the text or
/// the start of a token. Whitespace may follow each token.
pub open spec fn tokens_from(s: Seq<char>, i: int) -> Result<Seq<AtomView>, ParseError>
    decreases s.len() - i,
    via tokens_from_decreases
{
    if !(0 <= i < s.len()) {
        Ok(Seq::empty())
    } else {
        match token_at(s, i) {
            Err(e) => Err(e),
            Ok((a, e)) => match tokens_from(s, run_end(s, e, CharClass::Space)) {
                Err(e) => Err(e),
                Ok(rest) => Ok(seq![a] + rest),
            },
        }
    }
}

#[via_fn]
proof fn tokens_from_decreases(s: Seq<char>, i: int) {
    if 0 <= i < s.len() {
        lemma_token_at(s, i);
        if let Ok((a, e)) = token_at(s, i) {
            lemma_run_end(s, e, CharClass::Space);
        }
    }
}

/// The atoms of the expression that starts at `from`, after any whitespace.
pub open spec fn expr_atoms(s: Seq<char>, from: int) -> Result<Seq<AtomView>, ParseError> {
    tokens_from(s, run_end(s, from, CharClass::Space))
}

/// The head of a `let` definition: `let`, whitespace, a name, whitespace and
/// `=`. Gives the name and where the expression starts.
pub open spec fn let_form(s: Seq<char>) -> Option<(Seq<char>, int)> {
    let w1 = run_end(s, 3, CharClass::Space);
    if s.len() >= 3 && s[0] == 'l' && s[1] == 'e' && s[2] == 't' && w1 > 3 {
        match name_at(s, w1) {
            Some(e) => {
                let w2 = run_end(s, e, CharClass::Space);
                if w2 > e && w2 < s.len() && s[w2] == '=' {
                    Some((s.subrange(w1, e), w2 + 1))
                } else {
                    None
                }
            },
            None => None,
        }
    } else {
        None
    }
}

/// The names that follow the name ending at `e`, each after whitespace, and
/// where the last of them ends.
pub open spec fn more_names(s: Seq<char>, e: int) -> (Seq<Seq<char>>, int)
    decreases s.len() - e,
    via more_names_decreases
{
    let w = run_end(s, e, CharClass::Space);
    if 0 <= e && w > e {
        match name_at(s, w) {
            Some(e2) => {
                let (names, end) = more_names(s, e2);
                (seq![s.subrange(w, e2)] + names, end)
            },
            None => (Seq::empty(), e),
        }
    } else {
        (Seq::empty(), e)
    }
}

#[via_fn]
proof fn more_names_decreases(s: Seq<char>, e: int) {
    if 0 <= e <= s.len() {
        lemma_run_end(s, e, CharClass::Space);
        let w = run_end(s, e, CharClass::Space);
        if w < s.len() {
            lemma_run_end(s, w + 1, CharClass::Word);
        }
    } else if 0 <= e {
        assert(run_end(s, e, CharClass::Space) == e);
    }
}

/// The head of a `fn` definition: `fn`, whitespace, one or more names with
/// whitespace between them, whitespace and `=`. Gives the names, the
/// function's own first, and where the expression starts.
pub open spec fn fn_form(s: Seq<char>) -> Option<(Seq<Seq<char>>, int)> {
    let w1 = run_end(s, 2, CharClass::Space);
    if s.len() >= 2 && s[0] == 'f' && s[1] == 'n' && w1 > 2 {
        match name_at(s, w1) {
            Some(e) => {
                let (names, end) = more_names(s, e);
                let w2 = run_end(s, end, CharClass::Space);
                if w2 > end && w2 < s.len() && s[w2] == '=' {
                    Some((seq![s.subrange(w1, e)] + names, w2 + 1))
                } else {
                    None
                }
            },
            None => None,
        }
    } else {
        None
    }
}

/// What a definition line lowers to, if the line is one: the atoms that,
/// evaluated in order, bind the name.
pub open spec fn def_atoms(s: Seq<char>) -> Option<Result<Seq<AtomView>, ParseError>> {
    if let Some((name, after)) = let_form(s) {
        Some(
            match expr_atoms(s, after) {
                Ok(body) => Ok(
                    seq![AtomView::Quotation(body), AtomView::Symbol(name), AtomView::DefVar],
                ),
                Err(e) => Err(e),
            },
        )
    } else if let Some((names, after)) = fn_form(s) {
        Some(
            match expr_atoms(s, after) {
                Ok(body) => Ok(
                    seq![
                        AtomView::Quotation(seq![AtomView::Function(names.drop_first(), body)]),
                        AtomView::Symbol(names[0]),
                        AtomView::DefVar,
                    ],
                ),
                Err(e) => Err(e),
            },
        )
    } else {
        None
    }
}

/// The atoms of a source line.
pub open spec fn line_atoms(s: Seq<char>) -> Result<Seq<AtomView>, ParseError> {
    if s.len() > 0 && s[0] == '#' {
        Ok(Seq::empty())
    } else {
        match def_atoms(s) {
            Some(r) => r,
            None => expr_atoms(s, 0),
        }
    }
}

proof fn lemma_tokens_fail_at_a_token(s: Seq<char>, i: int)
    requires
        0 <= i,
    ensures
        tokens_from(s, i) matches Err(e) ==> exists|j: int|
            i <= j < s.len() && #[trigger] token_at(s, j) == Err::<(AtomView, int), ParseError>(e),
    decreases s.len() - i,
{
    if i < s.len() {
        lemma_token_at(s, i);
        if let Ok((a, e)) = token_at(s, i) {
            lemma_run_end(s, e, CharClass::Space);
            lemma_tokens_fail_at_a_token(s, run_end(s, e, CharClass::Space));
        }
    }
}

/// Parsing is total, and fails only at a token: a line that has no atoms
/// has a position at which no token starts or at which punctuation names
/// no operator, and the error says which.
pub proof fn lines_fail_only_at_a_token(line: Seq<char>)
    ensures
        line_atoms(line) matches Err(e) ==> exists|j: int|
            0 <= j < line.len() && #[trigger] token_at(line, j) == Err::<
                (AtomView, int),
                ParseError,
            >(e),
{
    if line.len() > 0 && line[0] == '#' {
    } else if let Some((name, after)) = let_form(line) {
        lemma_run_end(line, 3, CharClass::Space);
        let w1 = run_end(line, 3, CharClass::Space);
        lemma_run_end(line, w1 + 1, CharClass::Word);
        let e = name_at(line, w1).unwrap();
        lemma_run_end(line, e, CharClass::Space);
        lemma_run_end(line, after, CharClass::Space);
        lemma_tokens_fail_at_a_token(line, run_end(line, after, CharClass::Space));
    } else if let Some((names, after)) = fn_form(line) {
        lemma_run_end(line, 2, CharClass::Space);
        let w1 = run_end(line, 2, CharClass::Space);
        lemma_run_end(line, w1 + 1, CharClass::Word);
        let e = name_at(line, w1).unwrap();
        lemma_more_names(line, e);
        let end = more_names(line, e).1;
        lemma_run_end(line, end, CharClass::Space);
        lemma_run_end(line, after, CharClass::Space);
        lemma_tokens_fail_at_a_token(line, run_end(line, after, CharClass::Space));
    } else {
        lemma_run_end(line, 0, CharClass::Space);
        lemma_tokens_fail_at_a_token(line, run_end(line, 0, CharClass::Space));
    }
}

proof fn lemma_more_names(s: Seq<char>, e: int)
    requires
        0 <= e <= s.len(),
    ensures
        e <= more_names(s, e).1 <= s.len(),
    decreases s.len() - e,
{
    lemma_run_end(s, e, CharClass::Space);
    let w = run_end(s, e, CharClass::Space);
    if w > e {
        if w < s.len() {
            lemma_run_end(s, w + 1, CharClass::Word);
        }
        if let Some(e2) = name_at(s, w) {
            lemma_more_names(s, e2);
        }
    }
}

} // verus!
