//! The parser: from a source line to the atoms the evaluator runs.

use crate::error::ParseError;
use crate::grammar::{
    def_atoms, digit_of, digits_value, expr_atoms, fn_form, ident_at, in_class, lemma_run_end,
    let_form, line_atoms, more_names, name_at, number_at, run_end, special_atom, token_at,
    tokens_from, CharClass,
};
use crate::ident::{ident_from_chars, ident_text, idents_text};
use crate::ops::{arithmetic_op_named, builtin, make_builtin, spells_reserved};
use crate::text::{chars_of, copy_range, text_is};
use crate::types::{atoms_view, Atom, AtomView, Handler, Identifier, OpA, OpB, OpS};
use vstd::prelude::*;

verus! {

/// Whether `c` belongs to the class `k`.
fn classify(k: CharClass, c: char) -> (r: bool)
    ensures
        r == in_class(k, c),
{
    match k {
        CharClass::Space => c == ' ' || c == '\t' || c == '\r' || c == '\n',
        CharClass::Digit => '0' <= c && c <= '9',
        CharClass::Alpha => ('a' <= c && c <= 'z') || ('A' <= c && c <= 'Z'),
        CharClass::Word => ('a' <= c && c <= 'z') || ('A' <= c && c <= 'Z') || ('0' <= c && c
            <= '9') || c == '_',
        CharClass::Punct => c == '+' || c == '!' || c == '@' || c == '#' || c == '$' || c == '%'
            || c == '^' || c == '&' || c == '*' || c == '(' || c == ')' || c == '<' || c == '>'
            || c == ',' || c == '-' || c == '=' || c == '?' || c == '/' || c == '.' || c == '|',
    }
}

/// Where the longest run of characters of class `k` from `i` ends.
fn scan_run(chars: &Vec<char>, i: usize, k: CharClass) -> (r: usize)
    requires
        i <= chars.len(),
    ensures
        r == run_end(chars@, i as int, k),
        i <= r <= chars.len(),
{
    let mut j: usize = i;
    while j < chars.len() && classify(k, chars[j])
        invariant
            i <= j <= chars.len(),
            run_end(chars@, i as int, k) == run_end(chars@, j as int, k),
        decreases chars.len() - j,
    {
        j += 1;
    }
    j
}

proof fn lemma_digits_value_bounds(s: Seq<char>, from: int, to: int)
    requires
        0 <= from <= to <= s.len(),
        forall|j: int| from <= j < to ==> in_class(CharClass::Digit, #[trigger] s[j]),
    ensures
        0 <= digits_value(s, from, to),
        forall|m: int| from <= m <= to ==> digits_value(s, from, m) <= digits_value(s, from, to),
    decreases to - from,
{
    if to > from {
        lemma_digits_value_bounds(s, from, to - 1);
        assert(0 <= digit_of(s[to - 1]) <= 9);
    }
}

/// A number literal at `i`.
fn scan_number(chars: &Vec<char>, i: usize) -> (r: Option<(i32, usize)>)
    requires
        i < chars.len(),
    ensures
        match r {
            Some((v, e)) => number_at(chars@, i as int) == Some((v, e as int)) && i < e
                <= chars.len(),
            None => number_at(chars@, i as int) is None,
        },
{
    let negative = chars[i] == '-';
    let j: usize = if negative {
        i + 1
    } else {
        i
    };
    let k = scan_run(chars, j, CharClass::Digit);
    if k == j {
        return None;
    }
    proof {
        lemma_run_end(chars@, j as int, CharClass::Digit);
        lemma_digits_value_bounds(chars@, j as int, k as int);
    }
    let mut acc: i64 = 0;
    let mut m: usize = j;
    while m < k
        invariant
            j <= m <= k <= chars.len(),
            i < chars.len(),
            j < k,
            negative == (chars@[i as int] == '-'),
            j == if negative {
                i + 1
            } else {
                i as int
            },
            k == run_end(chars@, j as int, CharClass::Digit),
            acc == digits_value(chars@, j as int, m as int),
            0 <= acc <= 2147483648,
            forall|x: int| j <= x < k ==> in_class(CharClass::Digit, #[trigger] chars@[x]),
            forall|x: int|
                j <= x <= k ==> digits_value(chars@, j as int, x) <= digits_value(
                    chars@,
                    j as int,
                    k as int,
                ),
        decreases k - m,
    {
        let d: i64 = (chars[m] as u32 - '0' as u32) as i64;
        assert(d == digit_of(chars@[m as int]));
        acc = acc * 10 + d;
        m += 1;
        if acc > 2147483648 {
            assert(digits_value(chars@, j as int, m as int) <= digits_value(
                chars@,
                j as int,
                k as int,
            ));
            return None;
        }
    }
    if negative {
        Some(((0 - acc) as i32, k))
    } else if acc <= 2147483647 {
        Some((acc as i32, k))
    } else {
        None
    }
}

/// Where the identifier that starts at `i` ends, if one starts there.
fn scan_ident(chars: &Vec<char>, i: usize) -> (r: Option<usize>)
    requires
        i <= chars.len(),
    ensures
        match r {
            Some(e) => ident_at(chars@, i as int) == Some(e as int) && i < e <= chars.len(),
            None => ident_at(chars@, i as int) is None,
        },
{
    if i < chars.len() && classify(CharClass::Alpha, chars[i]) {
        Some(scan_run(chars, i + 1, CharClass::Word))
    } else {
        None
    }
}

/// The atom that the characters stand for if they spell a reserved word.
fn special_word(word: &Vec<char>) -> (r: Option<Atom>)
    ensures
        match r {
            Some(a) => special_atom(word@) == Some(a@),
            None => special_atom(word@) is None,
        },
{
    if text_is(word, "call") {
        Some(Atom::Call)
    } else if text_is(word, "let") {
        Some(Atom::DefVarLiteral)
    } else if text_is(word, "fn") {
        Some(Atom::DefFnLiteral)
    } else if text_is(word, "true") {
        Some(Atom::Bool(true))
    } else if text_is(word, "false") {
        Some(Atom::Bool(false))
    } else if let Some(b) = OpB::named(word) {
        Some(Atom::Op(make_builtin(Handler::Logic(b))))
    } else if let Some(t) = OpS::named(word) {
        Some(Atom::Op(make_builtin(Handler::Stack(t))))
    } else {
        None
    }
}

/// The atom that a reserved word stands for.
pub fn parse_special_ident(token: &str) -> (r: Option<Atom>)
    ensures
        match r {
            Some(a) => special_atom(token@) == Some(a@),
            None => special_atom(token@) is None,
        },
{
    special_word(&chars_of(token))
}

/// An identifier at `i` that is no reserved word, as a reference to the name.
fn scan_name(chars: &Vec<char>, i: usize) -> (r: Option<(Atom, usize)>)
    requires
        i <= chars.len(),
    ensures
        match r {
            Some((a, e)) => name_at(chars@, i as int) == Some(e as int) && a@ == AtomView::Plain(
                chars@.subrange(i as int, e as int),
            ) && i < e <= chars.len(),
            None => name_at(chars@, i as int) is None,
        },
{
    match scan_ident(chars, i) {
        Some(e) => {
            let word = copy_range(chars, i, e);
            if spells_reserved(&word) {
                None
            } else {
                Some((Atom::Plain(ident_from_chars(&word)), e))
            }
        },
        None => None,
    }
}

/// A quoted name at `i`: an apostrophe and an identifier that is no reserved
/// word.
fn scan_symbol(chars: &Vec<char>, i: usize) -> (r: Option<(Atom, usize)>)
    requires
        i < chars.len(),
    ensures
        match r {
            Some((a, e)) => chars@[i as int] == '\'' && name_at(chars@, i + 1) == Some(e as int)
                && a@ == AtomView::Symbol(chars@.subrange(i + 1, e as int)) && i < e
                <= chars.len(),
            None => chars@[i as int] != '\'' || name_at(chars@, i + 1) is None,
        },
{
    if chars[i] != '\'' {
        return None;
    }
    match scan_name(chars, i + 1) {
        Some((Atom::Plain(name), e)) => Some((Atom::Symbol(name), e)),
        _ => None,
    }
}

/// An opening or closing bracket at `i`.
fn scan_bracket(chars: &Vec<char>, i: usize) -> (r: Option<Atom>)
    requires
        i < chars.len(),
    ensures
        match r {
            Some(a) => a@ == (if chars@[i as int] == '[' {
                AtomView::QuotationStart
            } else {
                AtomView::QuotationEnd
            }) && (chars@[i as int] == '[' || chars@[i as int] == ']'),
            None => chars@[i as int] != '[' && chars@[i as int] != ']',
        },
{
    if chars[i] == '[' {
        Some(Atom::QuotationStart)
    } else if chars[i] == ']' {
        Some(Atom::QuotationEnd)
    } else {
        None
    }
}

/// The operator that the punctuation names.
fn operator(token: &Vec<char>) -> (r: Result<Atom, ParseError>)
    ensures
        match r {
            Ok(a) => arithmetic_op_named(token@) matches Some(o) && a@ == AtomView::Op(
                builtin(Handler::Arith(o)),
            ),
            Err(e) => arithmetic_op_named(token@) is None && e == ParseError::UnknownOperator,
        },
{
    match OpA::named(token) {
        Some(a) => Ok(Atom::Op(make_builtin(Handler::Arith(a)))),
        None => Err(ParseError::UnknownOperator),
    }
}

/// The operator that a string of punctuation names.
pub fn parse_op(token: &str) -> (r: Result<Atom, ParseError>)
    ensures
        match r {
            Ok(a) => arithmetic_op_named(token@) matches Some(o) && a@ == AtomView::Op(
                builtin(Handler::Arith(o)),
            ),
            Err(e) => arithmetic_op_named(token@) is None && e == ParseError::UnknownOperator,
        },
{
    operator(&chars_of(token))
}

/// The token that starts at `i`, and where it ends.
fn scan_token(chars: &Vec<char>, i: usize) -> (r: Result<(Atom, usize), ParseError>)
    requires
        i < chars.len(),
    ensures
        match r {
            Ok((a, e)) => token_at(chars@, i as int) == Ok::<(AtomView, int), ParseError>(
                (a@, e as int),
            ) && i < e <= chars.len(),
            Err(e) => token_at(chars@, i as int) == Err::<(AtomView, int), ParseError>(e),
        },
{
    if let Some(a) = scan_bracket(chars, i) {
        return Ok((a, i + 1));
    }
    if let Some((v, e)) = scan_number(chars, i) {
        return Ok((Atom::Num(v), e));
    }
    if chars[i] == '\'' {
        return match scan_symbol(chars, i) {
            Some(found) => Ok(found),
            None => Err(ParseError::UnexpectedInput),
        };
    }
    if classify(CharClass::Punct, chars[i]) {
        let e = scan_run(chars, i, CharClass::Punct);
        proof {
            lemma_run_end(chars@, i as int, CharClass::Punct);
        }
        return match operator(&copy_range(chars, i, e)) {
            Ok(a) => Ok((a, e)),
            Err(err) => Err(err),
        };
    }
    match scan_ident(chars, i) {
        Some(e) => {
            let word = copy_range(chars, i, e);
            match special_word(&word) {
                Some(a) => Ok((a, e)),
                None => Ok((Atom::Plain(ident_from_chars(&word)), e)),
            }
        },
        None => Err(ParseError::UnexpectedInput),
    }
}

/// The first token of `token`.
pub fn parse_token(token: &str) -> (r: Result<Atom, ParseError>)
    ensures
        match r {
            Ok(a) => token_at(token@, 0) matches Ok((v, _)) && a@ == v,
            Err(e) => token_at(token@, 0) == Err::<(AtomView, int), ParseError>(e),
        },
{
    let chars = chars_of(token);
    if chars.len() == 0 {
        return Err(ParseError::UnexpectedInput);
    }
    match scan_token(&chars, 0) {
        Ok((a, _)) => Ok(a),
        Err(e) => Err(e),
    }
}

/// An identifier at the start of `token` that is no reserved word, as a
/// reference to the name, with the text that follows it.
pub fn parse_ident(token: &str) -> (r: Option<(&str, Atom)>)
    ensures
        match r {
            Some((rest, a)) => name_at(token@, 0) matches Some(e) && a@ == AtomView::Plain(
                token@.subrange(0, e),
            ) && rest@ == token@.subrange(e, token@.len() as int),
            None => name_at(token@, 0) is None,
        },
{
    let chars = chars_of(token);
    match scan_name(&chars, 0) {
        Some((a, e)) => Some((token.substring_char(e, chars.len()), a)),
        None => None,
    }
}

/// The atoms of the expression that starts at `from`.
fn scan_expr(chars: &Vec<char>, from: usize) -> (r: Result<Vec<Atom>, ParseError>)
    requires
        from <= chars.len(),
    ensures
        match r {
            Ok(v) => expr_atoms(chars@, from as int) == Ok::<Seq<AtomView>, ParseError>(
                atoms_view(v@),
            ),
            Err(e) => expr_atoms(chars@, from as int) == Err::<Seq<AtomView>, ParseError>(e),
        },
{
    let mut out: Vec<Atom> = Vec::new();
    let mut i: usize = scan_run(chars, from, CharClass::Space);
    let ghost goal = expr_atoms(chars@, from as int);
    assert(atoms_view(out@) =~= Seq::empty());
    while i < chars.len()
        invariant
            i <= chars.len(),
            goal == expr_atoms(chars@, from as int),
            goal == match tokens_from(chars@, i as int) {
                Ok(rest) => Ok::<Seq<AtomView>, ParseError>(atoms_view(out@) + rest),
                Err(e) => Err(e),
            },
        decreases chars.len() - i,
    {
        match scan_token(chars, i) {
            Ok((a, e)) => {
                let ghost before = atoms_view(out@);
                let ghost av = a@;
                out.push(a);
                i = scan_run(chars, e, CharClass::Space);
                proof {
                    assert(atoms_view(out@) =~= before.push(av));
                    match tokens_from(chars@, i as int) {
                        Ok(rest) => {
                            assert(before + (seq![av] + rest) =~= before.push(av) + rest);
                        },
                        Err(_) => {},
                    }
                }
            },
            Err(e) => {
                return Err(e);
            },
        }
    }
    assert(atoms_view(out@) + Seq::<AtomView>::empty() =~= atoms_view(out@));
    Ok(out)
}

/// The atoms of an expression.
pub fn parse_expr(expr: &str) -> (r: Result<Vec<Atom>, ParseError>)
    ensures
        match r {
            Ok(v) => expr_atoms(expr@, 0) == Ok::<Seq<AtomView>, ParseError>(atoms_view(v@)),
            Err(e) => expr_atoms(expr@, 0) == Err::<Seq<AtomView>, ParseError>(e),
        },
{
    scan_expr(&chars_of(expr), 0)
}

/// The head of a `let` definition: the name and where the expression
/// starts.
fn let_head(chars: &Vec<char>) -> (r: Option<(Identifier, usize)>)
    ensures
        match r {
            Some((name, after)) => let_form(chars@) == Some((ident_text(name), after as int))
                && after <= chars.len(),
            None => let_form(chars@) is None,
        },
{
    if !(chars.len() >= 3 && chars[0] == 'l' && chars[1] == 'e' && chars[2] == 't') {
        return None;
    }
    let w1 = scan_run(chars, 3, CharClass::Space);
    if w1 == 3 {
        return None;
    }
    match scan_name(chars, w1) {
        Some((Atom::Plain(name), e)) => {
            let w2 = scan_run(chars, e, CharClass::Space);
            if w2 > e && w2 < chars.len() && chars[w2] == '=' {
                Some((name, w2 + 1))
            } else {
                None
            }
        },
        _ => None,
    }
}

/// The head of a `fn` definition: the function's name, its parameters and
/// where the expression starts.
fn fn_head(chars: &Vec<char>) -> (r: Option<(Identifier, Vec<Identifier>, usize)>)
    ensures
        match r {
            Some((name, params, after)) => fn_form(chars@) == Some(
                (seq![ident_text(name)] + idents_text(params@), after as int),
            ) && after <= chars.len(),
            None => fn_form(chars@) is None,
        },
{
    if !(chars.len() >= 2 && chars[0] == 'f' && chars[1] == 'n') {
        return None;
    }
    let w1 = scan_run(chars, 2, CharClass::Space);
    if w1 == 2 {
        return None;
    }
    let (name, first_end) = match scan_name(chars, w1) {
        Some((Atom::Plain(name), e)) => (name, e),
        _ => { return None; },
    };
    let mut params: Vec<Identifier> = Vec::new();
    let mut end: usize = first_end;
    let ghost goal = more_names(chars@, first_end as int);
    assert(idents_text(params@) =~= Seq::empty());
    assert(Seq::<Seq<char>>::empty() + goal.0 =~= goal.0);
    loop
        invariant
            end <= chars.len(),
            goal == more_names(chars@, first_end as int),
            goal == (idents_text(params@) + more_names(chars@, end as int).0, more_names(
                chars@,
                end as int,
            ).1),
        ensures
            end <= chars.len(),
            goal == (idents_text(params@), end as int),
        decreases chars.len() - end,
    {
        let w = scan_run(chars, end, CharClass::Space);
        if w == end {
            assert(idents_text(params@) + Seq::<Seq<char>>::empty() =~= idents_text(params@));
            break ;
        }
        match scan_name(chars, w) {
            Some((Atom::Plain(param), e2)) => {
                let ghost before = idents_text(params@);
                let ghost text = ident_text(param);
                params.push(param);
                proof {
                    assert(idents_text(params@) =~= before.push(text));
                    let rest = more_names(chars@, e2 as int).0;
                    assert(before + (seq![text] + rest) =~= before.push(text) + rest);
                }
                end = e2;
            },
            _ => {
                assert(idents_text(params@) + Seq::<Seq<char>>::empty() =~= idents_text(params@));
                break ;
            },
        }
    }
    let w2 = scan_run(chars, end, CharClass::Space);
    if w2 > end && w2 < chars.len() && chars[w2] == '=' {
        Some((name, params, w2 + 1))
    } else {
        None
    }
}

/// What a `let` definition lowers to, if the characters are one.
fn let_atoms(chars: &Vec<char>) -> (r: Result<Option<Vec<Atom>>, ParseError>)
    ensures
        match let_form(chars@) {
            Some((name, after)) => match expr_atoms(chars@, after) {
                Ok(body) => r matches Ok(Some(v)) && atoms_view(v@) == seq![
                    AtomView::Quotation(body),
                    AtomView::Symbol(name),
                    AtomView::DefVar,
                ],
                Err(e) => r == Err::<Option<Vec<Atom>>, ParseError>(e),
            },
            None => r == Ok::<Option<Vec<Atom>>, ParseError>(None),
        },
{
    match let_head(chars) {
        Some((name, after)) => {
            let body = match scan_expr(chars, after) {
                Ok(b) => b,
                Err(e) => { return Err(e); },
            };
            let mut out: Vec<Atom> = Vec::new();
            out.push(Atom::Quotation(body));
            out.push(Atom::Symbol(name));
            out.push(Atom::DefVar);
            assert(atoms_view(out@) =~= seq![
                AtomView::Quotation(atoms_view(body@)),
                AtomView::Symbol(ident_text(name)),
                AtomView::DefVar,
            ]);
            Ok(Some(out))
        },
        None => Ok(None),
    }
}

/// What a `fn` definition lowers to, if the characters are one.
fn fn_atoms(chars: &Vec<char>) -> (r: Result<Option<Vec<Atom>>, ParseError>)
    ensures
        match fn_form(chars@) {
            Some((names, after)) => match expr_atoms(chars@, after) {
                Ok(body) => r matches Ok(Some(v)) && atoms_view(v@) == seq![
                    AtomView::Quotation(seq![AtomView::Function(names.drop_first(), body)]),
                    AtomView::Symbol(names[0]),
                    AtomView::DefVar,
                ],
                Err(e) => r == Err::<Option<Vec<Atom>>, ParseError>(e),
            },
            None => r == Ok::<Option<Vec<Atom>>, ParseError>(None),
        },
{
    match fn_head(chars) {
        Some((name, params, after)) => {
            let body = match scan_expr(chars, after) {
                Ok(b) => b,
                Err(e) => { return Err(e); },
            };
            let ghost names = seq![ident_text(name)] + idents_text(params@);
            assert(names.drop_first() =~= idents_text(params@));
            let mut inner: Vec<Atom> = Vec::new();
            inner.push(Atom::Function(params, body));
            assert(atoms_view(inner@) =~= seq![
                AtomView::Function(names.drop_first(), atoms_view(body@)),
            ]);
            let mut out: Vec<Atom> = Vec::new();
            out.push(Atom::Quotation(inner));
            out.push(Atom::Symbol(name));
            out.push(Atom::DefVar);
            assert(atoms_view(out@) =~= seq![
                AtomView::Quotation(atoms_view(inner@)),
                AtomView::Symbol(names[0]),
                AtomView::DefVar,
            ]);
            Ok(Some(out))
        },
        None => Ok(None),
    }
}

/// What a definition lowers to, if the characters are one.
fn def_of(chars: &Vec<char>) -> (r: Result<Option<Vec<Atom>>, ParseError>)
    ensures
        match def_atoms(chars@) {
            Some(Ok(atoms)) => r matches Ok(Some(v)) && atoms_view(v@) == atoms,
            Some(Err(e)) => r == Err::<Option<Vec<Atom>>, ParseError>(e),
            None => r == Ok::<Option<Vec<Atom>>, ParseError>(None),
        },
{
    match let_atoms(chars) {
        Ok(None) => fn_atoms(chars),
        found => found,
    }
}

/// What a `let` definition lowers to, if the line is one.
pub fn parse_let(line: &str) -> (r: Result<Option<Vec<Atom>>, ParseError>)
    ensures
        match let_form(line@) {
            Some((name, after)) => match expr_atoms(line@, after) {
                Ok(body) => r matches Ok(Some(v)) && atoms_view(v@) == seq![
                    AtomView::Quotation(body),
                    AtomView::Symbol(name),
                    AtomView::DefVar,
                ],
                Err(e) => r == Err::<Option<Vec<Atom>>, ParseError>(e),
            },
            None => r == Ok::<Option<Vec<Atom>>, ParseError>(None),
        },
{
    let_atoms(&chars_of(line))
}

/// What a `fn` definition lowers to, if the line is one.
pub fn parse_fn(line: &str) -> (r: Result<Option<Vec<Atom>>, ParseError>)
    ensures
        match fn_form(line@) {
            Some((names, after)) => match expr_atoms(line@, after) {
                Ok(body) => r matches Ok(Some(v)) && atoms_view(v@) == seq![
                    AtomView::Quotation(seq![AtomView::Function(names.drop_first(), body)]),
                    AtomView::Symbol(names[0]),
                    AtomView::DefVar,
                ],
                Err(e) => r == Err::<Option<Vec<Atom>>, ParseError>(e),
            },
            None => r == Ok::<Option<Vec<Atom>>, ParseError>(None),
        },
{
    fn_atoms(&chars_of(line))
}

/// What a definition line such as `let a = 100` or `fn inc = 1 +` lowers
/// to, if the line is one.
pub fn parse_def(line: &str) -> (r: Result<Option<Vec<Atom>>, ParseError>)
    ensures
        match def_atoms(line@) {
            Some(Ok(atoms)) => r matches Ok(Some(v)) && atoms_view(v@) == atoms,
            Some(Err(e)) => r == Err::<Option<Vec<Atom>>, ParseError>(e),
            None => r == Ok::<Option<Vec<Atom>>, ParseError>(None),
        },
{
    def_of(&chars_of(line))
}

/// What a parse gave, as the values of its atoms.
pub open spec fn parsed(r: Result<Vec<Atom>, ParseError>) -> Result<Seq<AtomView>, ParseError> {
    match r {
        Ok(v) => Ok(atoms_view(v@)),
        Err(e) => Err(e),
    }
}

/// The atoms of a line given as its characters.
pub fn parse_chars(line: &Vec<char>) -> (r: Result<Vec<Atom>, ParseError>)
    ensures
        parsed(r) == line_atoms(line@),
{
    if line.len() > 0 && line[0] == '#' {
        let out: Vec<Atom> = Vec::new();
        assert(atoms_view(out@) =~= Seq::empty());
        return Ok(out);
    }
    match def_of(line) {
        Ok(Some(v)) => Ok(v),
        Ok(None) => scan_expr(line, 0),
        Err(e) => Err(e),
    }
}

/// The atoms of a source line. A line that starts with `#` is a comment and
/// has none. Every line has atoms or an error: where no token starts, or
/// where punctuation names no operator.
pub fn parse_line(line: &str) -> (r: Result<Vec<Atom>, ParseError>)
    ensures
        parsed(r) == line_atoms(line@),
{
    parse_chars(&chars_of(line))
}

/// The parser is pure: whatever two parses of the same line gave, they
/// gave the same.
pub proof fn parse_line_is_pure(
    line: Seq<char>,
    first: Result<Vec<Atom>, ParseError>,
    second: Result<Vec<Atom>, ParseError>,
)
    requires
        parsed(first) == line_atoms(line),
        parsed(second) == line_atoms(line),
    ensures
        parsed(first) == parsed(second),
{
}

} // verus!
