use inlinable_string::InlinableString;
use pancake::error::{EvalError, ParseError};
use pancake::eval::{
    eval_atom, eval_call, eval_call_function, eval_call_quotation, eval_line, eval_program,
    eval_with_new_scope,
};
use pancake::ops::{get_arithmetic_op, get_stack_op};
use pancake::parse::parse_line;
use pancake::types::{Atom, Handler, Op, OpA};
use pancake::vm::{Emit, Env, DEFAULT_DEPTH};

fn run(prog: &str) -> Result<Vec<Atom>, EvalError> {
    eval_program(prog).map(|mut env| env.pop().unwrap().stack)
}

fn nums(v: Vec<i32>) -> Result<Vec<Atom>, EvalError> {
    Ok(v.into_iter().map(|n| Atom::Num(n)).collect())
}

fn bools(v: Vec<bool>) -> Result<Vec<Atom>, EvalError> {
    Ok(v.into_iter().map(|b| Atom::Bool(b)).collect())
}

fn name(s: &str) -> InlinableString {
    InlinableString::from(s)
}

#[test]
fn arithmetic_exact_values() {
    assert_eq!(nums(vec![5, -1, 6, 3, 1]), run("2 3 + 2 3 - 2 3 * 7 2 / 7 2 %"));
}

#[test]
fn division_rounds_toward_zero() {
    assert_eq!(nums(vec![-3, -3, 3]), run("-7 2 / 7 -2 / -7 -2 /"));
    assert_eq!(nums(vec![0, 0]), run("1 -2 / -1 2 /"));
}

#[test]
fn remainder_takes_the_sign_of_the_dividend() {
    assert_eq!(nums(vec![-1, 1, -1, 0]), run("-7 2 % 7 -2 % -7 -2 % -6 3 %"));
}

#[test]
fn comparisons_exact_values() {
    assert_eq!(
        bools(vec![true, false, false, true, true, true, true, false, true, false, false, true]),
        run("1 2 < 2 1 < 1 2 > 2 1 > 1 1 <= 1 2 <= 1 1 >= 1 2 >= 3 3 == 3 4 == 3 3 != 3 4 !=")
    );
}

#[test]
fn division_by_zero() {
    assert_eq!(Err(EvalError::DivisionByZero), run("1 0 /"));
    assert_eq!(Err(EvalError::DivisionByZero), run("1 0 %"));
}

#[test]
fn arithmetic_overflow() {
    assert_eq!(Err(EvalError::Overflow), run("2147483647 1 +"));
    assert_eq!(Err(EvalError::Overflow), run("-2147483648 1 -"));
    assert_eq!(Err(EvalError::Overflow), run("65536 65536 *"));
    assert_eq!(Err(EvalError::Overflow), run("-2147483648 -1 /"));
    assert_eq!(Err(EvalError::Overflow), run("-2147483648 -1 %"));
    assert_eq!(nums(vec![2147483647, -2147483648]), run("2147483646 1 + -2147483647 1 -"));
    assert_eq!(nums(vec![-2147483648, 0]), run("-2147483648 1 / -2147483648 1 %"));
}

#[test]
fn arity_is_checked_before_running() {
    assert_eq!(Err(EvalError::Arity), run("1 +"));
    assert_eq!(Err(EvalError::Arity), run("dup"));
    assert_eq!(Err(EvalError::Arity), run("1 2 rot3"));
    assert_eq!(Err(EvalError::Arity), run("not"));
    assert_eq!(Err(EvalError::Arity), run("print"));
    assert_eq!(Err(EvalError::Arity), run("[1] map"));
}

#[test]
fn operations_of_unknown_arity_find_the_stack_empty() {
    assert_eq!(Err(EvalError::EmptyStack), run("cond"));
    assert_eq!(Err(EvalError::EmptyStack), run("true [1] cond"));
    assert_eq!(Err(EvalError::EmptyStack), run("[1] if"));
    assert_eq!(Err(EvalError::EmptyStack), run("splat"));
    assert_eq!(Err(EvalError::EmptyStack), run("3 repeat"));
    assert_eq!(Err(EvalError::EmptyStack), run("get"));
    assert_eq!(Err(EvalError::EmptyStack), run("keep"));
    assert_eq!(Err(EvalError::EmptyStack), run("call"));
    assert_eq!(Err(EvalError::EmptyStack), run("'a let"));
    assert_eq!(Err(EvalError::EmptyStack), run("fn"));
}

#[test]
fn a_built_in_without_its_arity_runs_unchecked() {
    let mut env = Env::new();
    let add = Atom::Op(Op::new(Handler::Arith(OpA::Add), None));
    assert_eq!(Err(EvalError::EmptyStack), eval_atom(add, &mut env));
}

#[test]
fn type_errors() {
    assert_eq!(Err(EvalError::Type), run("true 1 +"));
    assert_eq!(Err(EvalError::Type), run("1 true <"));
    assert_eq!(Err(EvalError::Type), run("1 true and"));
    assert_eq!(Err(EvalError::Type), run("1 not"));
    assert_eq!(Err(EvalError::Type), run("1 [2] [3] cond"));
    assert_eq!(Err(EvalError::Type), run("true 2 [3] cond"));
    assert_eq!(Err(EvalError::Type), run("1 [2] if"));
    assert_eq!(Err(EvalError::Type), run("true 2 if"));
    assert_eq!(Err(EvalError::Type), run("1 list"));
    assert_eq!(Err(EvalError::Type), run("1 splat"));
    assert_eq!(Err(EvalError::Type), run("1 2 at"));
    assert_eq!(Err(EvalError::Type), run("[1] list true at"));
    assert_eq!(Err(EvalError::Type), run("1 [2] map"));
    assert_eq!(Err(EvalError::Type), run("[1] list 2 map"));
    assert_eq!(Err(EvalError::Type), run("1 [2] reduce_inner"));
    assert_eq!(Err(EvalError::Type), run("1 2 let"));
    assert_eq!(Err(EvalError::Type), run("1 'f fn"));
}

#[test]
fn boolean_operators() {
    assert_eq!(
        bools(vec![true, false, false, true, true, false, false, true]),
        run(
            "true true and true false and false false and \
             true false or true true or false false or true not false not"
        )
    );
}

#[test]
fn shuffles() {
    assert_eq!(nums(vec![1]), run("1 2 drop"));
    assert_eq!(nums(vec![2, 1]), run("1 2 swap"));
    assert_eq!(nums(vec![0, 2, 3, 1]), run("0 1 2 3 rot3"));
    assert_eq!(nums(vec![1, 2, 2]), run("1 2 dup"));
}

#[test]
fn cond_runs_one_branch_in_the_current_frame() {
    assert_eq!(nums(vec![10, 6]), run("10 true [ 3 3 + ] [ 1 1 + ] cond"));
    assert_eq!(nums(vec![11]), run("10 false [ 2 * ] [ 1 + ] cond"));
}

#[test]
fn if_runs_its_body_only_when_true() {
    assert_eq!(nums(vec![1, 2]), run("1 true [2] if"));
    assert_eq!(nums(vec![1]), run("1 false [2] if"));
}

#[test]
fn list_and_splat_and_at() {
    assert_eq!(
        Ok(vec![Atom::List(vec![Atom::Num(1), Atom::Num(5)])]),
        run("[1 2 3 +] list")
    );
    assert_eq!(Ok(vec![Atom::List(vec![])]), run("[] list"));
    assert_eq!(nums(vec![9, 1, 2]), run("9 [1 2] list splat"));
    assert_eq!(nums(vec![10, 30]), run("[10 20 30] list 0 at [10 20 30] list 2 at"));
}

#[test]
fn at_outside_the_list() {
    assert_eq!(Err(EvalError::OutOfRange), run("[10 20 30] list 3 at"));
    assert_eq!(Err(EvalError::OutOfRange), run("[10 20 30] list -1 at"));
    assert_eq!(Err(EvalError::OutOfRange), run("[] list 0 at"));
}

#[test]
fn list_does_not_see_the_stack_below() {
    assert_eq!(Err(EvalError::Arity), run("1 2 [+] list"));
}

#[test]
fn map_takes_the_top_of_each_scope() {
    assert_eq!(
        Ok(vec![Atom::List(vec![Atom::Num(7), Atom::Num(7)])]),
        run("[1 2] list [5 7] map")
    );
    assert_eq!(Ok(vec![Atom::List(vec![])]), run("[] list [1 +] map"));
    assert_eq!(Err(EvalError::NoResult), run("[1 2] list [drop] map"));
}

#[test]
fn reduce_inner_runs_between_neighbours() {
    assert_eq!(Ok(vec![Atom::List(vec![Atom::Num(10)])]), run("[1 2 3 4] list [+] reduce_inner"));
    assert_eq!(Ok(vec![Atom::List(vec![Atom::Num(4)])]), run("[4] list [+] reduce_inner"));
    assert_eq!(Ok(vec![Atom::List(vec![])]), run("[] list [+] reduce_inner"));
    assert_eq!(
        Ok(vec![Atom::List(vec![Atom::Num(1), Atom::Num(2), Atom::Num(3)])]),
        run("[1 2 3] list [] reduce_inner")
    );
}

#[test]
fn reduce_inner_on_nothing_leaves_the_frames_as_they_were() {
    let mut env = Env::new();
    eval_line("[] list [+] reduce_inner", &mut env).unwrap();
    assert_eq!(1, env.frames.len());
    assert_eq!(vec![Atom::List(vec![])], env.pop().unwrap().stack);
}

#[test]
fn repeat_counts() {
    assert_eq!(nums(vec![8]), run("1 [2 *] 3 repeat"));
    assert_eq!(nums(vec![1]), run("1 [2 *] 0 repeat"));
    assert_eq!(nums(vec![1]), run("1 [2 *] -5 repeat"));
}

#[test]
fn repeat_runs_a_function_with_parameters() {
    assert_eq!(Err(EvalError::UnknownName), run("fn sq a = a a *\n2 'sq get 2 repeat"));
    let mut env = Env::new();
    env.push_atom(Atom::Num(3));
    env.push_atom(Atom::Function(
        vec![name("a")],
        vec![Atom::Plain(name("a")), Atom::Plain(name("a"))],
    ));
    env.push_atom(Atom::Num(2));
    eval_atom(Atom::Op(get_stack_op("repeat").unwrap()), &mut env).unwrap();
    assert_eq!(vec![Atom::Num(3), Atom::Num(3), Atom::Num(3)], env.pop().unwrap().stack);
}

#[test]
fn repeat_with_a_count_that_is_no_number_runs_nothing() {
    assert_eq!(nums(vec![1]), run("1 [2 *] true repeat"));
}

#[test]
fn repeat_on_something_not_callable() {
    assert_eq!(Err(EvalError::NotCallable), run("1 2 3 repeat"));
}

#[test]
fn call_runs_quotations_and_functions() {
    assert_eq!(nums(vec![3]), run("[1 2 +] call"));
    assert_eq!(Err(EvalError::NotCallable), run("1 call"));
    let mut env = Env::new();
    env.push_atom(Atom::Num(4));
    env.push_atom(Atom::Function(vec![name("x")], vec![Atom::Plain(name("x")), Atom::Num(1)]));
    eval_atom(Atom::Call, &mut env).unwrap();
    assert_eq!(vec![Atom::Num(4), Atom::Num(1)], env.pop().unwrap().stack);
}

#[test]
fn eval_call_quotation_refuses_other_atoms() {
    let mut env = Env::new();
    assert_eq!(Ok(()), eval_call_quotation(Atom::Quotation(vec![Atom::Num(1)]), &mut env));
    assert_eq!(
        Err(EvalError::NotCallable),
        eval_call_quotation(Atom::Function(vec![], vec![]), &mut env)
    );
    assert_eq!(Err(EvalError::NotCallable), eval_call_quotation(Atom::Num(1), &mut env));
    assert_eq!(vec![Atom::Num(1)], env.pop().unwrap().stack);
}

#[test]
fn for_else_and_for_if_need_a_conditional_in_a_loop() {
    assert_eq!(Err(EvalError::NoConditional), run("[1] for_else"));
    assert_eq!(Err(EvalError::NoConditional), run("[1] for_if"));
    assert_eq!(Err(EvalError::NoConditional), run("true [1] if [2] for_else"));
    assert_eq!(Err(EvalError::NoConditional), run("[1 2] list [1 +] map [2] for_else"));
}

#[test]
fn for_else_runs_when_no_body_ran() {
    assert_eq!(
        nums(vec![1, 2, 9]),
        run("[1 2] list [dup 5 > [drop 0] if] map splat [9] for_else")
    );
    assert_eq!(nums(vec![1, 2]), run("[1 2] list [dup 5 > [drop 0] if] map splat [9] for_if"));
}

#[test]
fn for_if_runs_when_a_body_ran() {
    assert_eq!(nums(vec![1, 0, 9]), run("[1 7] list [dup 5 > [drop 0] if] map splat [9] for_if"));
    assert_eq!(nums(vec![1, 0]), run("[1 7] list [dup 5 > [drop 0] if] map splat [9] for_else"));
}

#[test]
fn for_else_takes_an_operand_that_is_no_quotation() {
    assert_eq!(nums(vec![1]), run("[1] list [dup 5 > [drop 0] if] map splat 7 for_else"));
}

#[test]
fn loop_flags() {
    let mut env = Env::new();
    assert_eq!((false, false, true), (env.loop_like, env.using_for_else, env.for_else));
    eval_line("true [1] if", &mut env).unwrap();
    assert_eq!((false, false, true), (env.loop_like, env.using_for_else, env.for_else));
    eval_line("[1] [false [2] if] 1 repeat", &mut env).unwrap();
    assert_eq!((false, true, true), (env.loop_like, env.using_for_else, env.for_else));
    eval_line("[1] [true [2] if] 1 repeat", &mut env).unwrap();
    assert_eq!((false, true, false), (env.loop_like, env.using_for_else, env.for_else));
    eval_line("[] 0 repeat", &mut env).unwrap();
    assert_eq!((false, true, true), (env.loop_like, env.using_for_else, env.for_else));
}

#[test]
fn an_inner_loop_ends_the_loop_for_what_follows_it() {
    let mut env = Env::new();
    eval_line("[1] list [ [] 0 repeat true [2] if ] map", &mut env).unwrap();
    assert_eq!((false, false, true), (env.loop_like, env.using_for_else, env.for_else));
}

#[test]
fn keep_leaves_the_inputs_under_the_result() {
    assert_eq!(Ok(vec![Atom::Num(3), Atom::Num(2), Atom::Bool(true)]), run("3 2 [>] keep"));
    assert_eq!(nums(vec![1, 2, 3, 6]), run("1 2 3 [2 *] keep"));
    assert_eq!(nums(vec![1, 5]), run("1 [5] keep"));
}

#[test]
fn keep_failures() {
    assert_eq!(Err(EvalError::UnknownArity), run("1 [x] keep"));
    assert_eq!(Err(EvalError::UnknownArity), run("1 [call] keep"));
    assert_eq!(Err(EvalError::NotCallable), run("1 2 keep"));
    assert_eq!(Err(EvalError::Arity), run("1 [+] keep"));
    assert_eq!(Err(EvalError::EmptyStack), run("1 [drop] keep"));
}

#[test]
fn get_pushes_function_bodies_and_values() {
    assert_eq!(
        Ok(vec![Atom::Quotation(vec![Atom::Num(1), Atom::Op(get_arithmetic_op("+").unwrap())])]),
        run("fn inc = 1 +\n'inc get")
    );
    assert_eq!(
        Ok(vec![Atom::Quotation(vec![Atom::Plain(name("a"))])]),
        run("fn id a = a\n'id get")
    );
    assert_eq!(nums(vec![17]), run("let a = 17\n'a get"));
    assert_eq!(Err(EvalError::UnknownName), run("'nothing get"));
    assert_eq!(nums(vec![]), run("1 get"));
}

#[test]
fn print_and_debug_go_to_the_output() {
    let mut env = Env::new();
    eval_line("1 2 print debug [3] list print", &mut env).unwrap();
    assert_eq!(3, env.output.len());
    match &env.output[0] {
        Emit::Print(a) => assert_eq!(&Atom::Num(2), a),
        _ => panic!("expected a printed atom"),
    }
    match &env.output[1] {
        Emit::Debug(s) => {
            assert_eq!(1, s.frames.len());
            assert_eq!(vec![Atom::Num(1)], s.frames[0].stack);
            assert_eq!((false, false, true), (s.loop_like, s.using_for_else, s.for_else));
        }
        _ => panic!("expected a snapshot"),
    }
    match &env.output[2] {
        Emit::Print(a) => assert_eq!(&Atom::List(vec![Atom::Num(3)]), a),
        _ => panic!("expected a printed atom"),
    }
    assert_eq!(vec![Atom::Num(1)], env.pop().unwrap().stack);
}

#[test]
fn unknown_name() {
    assert_eq!(Err(EvalError::UnknownName), run("nothing"));
    assert_eq!(Err(EvalError::UnknownName), run("[nothing] call"));
}

#[test]
fn reserved_words_cannot_be_bound() {
    let reserved = ["dup", "call", "let", "fn", "true", "false", "not", "and", "keep", "+", "<="];
    for word in reserved.iter() {
        let mut env = Env::new();
        env.push_atom(Atom::Num(1));
        env.push_atom(Atom::Symbol(name(word)));
        assert_eq!(Err(EvalError::ReservedWord), eval_atom(Atom::DefVarLiteral, &mut env));
    }
}

#[test]
fn names_are_bound_once_in_a_frame() {
    assert_eq!(Err(EvalError::AlreadyBound), run("let a = 1\nlet a = 2"));
    assert_eq!(Err(EvalError::AlreadyBound), run("1 'a let [2] 'a fn"));
    assert_eq!(Err(EvalError::AlreadyBound), run("fn f = 1\nfn f = 2"));
}

#[test]
fn a_name_may_be_bound_again_in_a_scope_above() {
    assert_eq!(nums(vec![6, 5]), run("let a = 5\nlet b = 1 'a let a 5 +\nb a"));
}

#[test]
fn definitions_need_a_result() {
    assert_eq!(Err(EvalError::NoResult), run("let a ="));
    assert_eq!(Err(EvalError::NoResult), run("let a = 1 drop"));
}

#[test]
fn let_binds_the_top_of_its_scope() {
    assert_eq!(nums(vec![3]), run("let a = 1 2 3\na"));
}

#[test]
fn parameters_take_the_stack_in_order() {
    assert_eq!(nums(vec![0, 3, 2, 1]), run("fn rev a b c = c b a\n0 1 2 3 rev"));
    assert_eq!(Err(EvalError::EmptyStack), run("fn rev a b c = c b a\n1 2 rev"));
    assert_eq!(Err(EvalError::AlreadyBound), run("fn twice a a = a\n1 2 twice"));
}

#[test]
fn parameters_shadow_bindings_in_the_function_body() {
    assert_eq!(nums(vec![7, 1]), run("let a = 1\nfn f a = a\n7 f a"));
}

#[test]
fn a_function_without_parameters_sees_its_callers_parameters() {
    assert_eq!(nums(vec![8]), run("fn twice = a 2 *\nfn f a = twice\n4 f"));
}

#[test]
fn a_scope_opened_inside_a_function_does_not_see_its_parameters() {
    assert_eq!(Err(EvalError::UnknownName), run("fn f a = [a] list\n1 f"));
    assert_eq!(
        Err(EvalError::UnknownName),
        run("fn search L e = L [e ==] map [or] reduce_inner splat\nlet L = [1 2 3]list\nL 0 search")
    );
}

#[test]
fn a_quotation_that_names_parameters_has_no_arity() {
    assert_eq!(Err(EvalError::UnknownArity), run("fn f lo hi = 1 2 [lo hi == and] keep\n1 2 f"));
}

#[test]
fn names_in_quotations_are_resolved_when_called() {
    assert_eq!(nums(vec![5]), run("[later] 5 'later let call"));
    assert_eq!(
        Ok(vec![Atom::Quotation(vec![Atom::Plain(name("a"))])]),
        run("let a = 1\n[a]")
    );
    assert_eq!(
        nums(vec![120]),
        run("fn fact = dup 1 <= [ drop 1 ] [ dup 1 - fact * ] cond\n5 fact")
    );
}

#[test]
fn a_lazy_frame_stores_every_atom_but_brackets() {
    let mut env = Env::new();
    eval_line("[ call let fn 'a b + dup 1 true", &mut env).unwrap();
    assert_eq!(2, env.frames.len());
    assert_eq!(parse_line("call let fn 'a b + dup 1 true").unwrap(), env.pop().unwrap().stack);
}

#[test]
fn a_line_with_matching_brackets_keeps_the_frames() {
    let lines = [
        "1 2 +",
        "[ 1 [ 2 ] ] call",
        "fn f a = [ a ] call",
        "3 f",
        "[1 2 3] list [1 +] map [+] reduce_inner splat",
        "let x = [ 1 ] call",
        "1 [2 *] keep [3] 2 repeat",
    ];
    let mut env = Env::new();
    for line in lines.iter() {
        let before = env.frames.len();
        eval_line(line, &mut env).unwrap();
        assert_eq!(before, env.frames.len());
    }
    assert_eq!(1, env.frames.len());
}

#[test]
fn an_unmatched_bracket_changes_the_frames() {
    let mut env = Env::new();
    eval_line("[ 1", &mut env).unwrap();
    assert_eq!(2, env.frames.len());
    eval_line("[ 2 ]", &mut env).unwrap();
    assert_eq!(2, env.frames.len());
    eval_line("] ", &mut env).unwrap();
    assert_eq!(1, env.frames.len());
    assert_eq!(
        vec![Atom::Quotation(vec![Atom::Num(1), Atom::Quotation(vec![Atom::Num(2)])])],
        env.pop().unwrap().stack
    );
}

#[test]
fn closing_the_root_frame_fails() {
    assert_eq!(Err(EvalError::NoFrame), run("]"));
    assert_eq!(Err(EvalError::NoFrame), run("fn f = ]\nf"));
    let mut env = Env::new();
    assert_eq!(Err(EvalError::NoFrame), eval_line("1 ]", &mut env));
    assert_eq!(1, env.frames.len());
}

#[test]
fn a_list_atom_cannot_be_evaluated() {
    let mut env = Env::new();
    assert_eq!(Err(EvalError::UnexpectedAtom), eval_atom(Atom::List(vec![]), &mut env));
    assert_eq!(nums(vec![]), run("let l = [1] list\n[l] call drop"));
}

#[test]
fn parse_errors_surface_from_evaluation() {
    assert_eq!(Err(EvalError::Parse(ParseError::UnknownOperator)), run("1 2 +-"));
    assert_eq!(Err(EvalError::Parse(ParseError::UnexpectedInput)), run("1\n{"));
    let mut env = Env::new();
    assert_eq!(
        Err(EvalError::Parse(ParseError::UnknownOperator)),
        eval_line("1 =", &mut env)
    );
    assert_eq!(Vec::<Atom>::new(), env.pop().unwrap().stack);
}

#[test]
fn calls_nest_only_so_deep() {
    assert_eq!(Err(EvalError::DepthExceeded), run("fn forever = forever\nforever"));
    let mut env = Env::with_depth(0);
    assert_eq!(Ok(()), eval_line("1 2 + [3]", &mut env));
    assert_eq!(Err(EvalError::DepthExceeded), eval_line("call", &mut env));
    let mut env = Env::with_depth(2);
    assert_eq!(Ok(()), eval_line("[[1] call] call", &mut env));
    assert_eq!(Err(EvalError::DepthExceeded), eval_line("[[[1] call] call] call", &mut env));
    assert_eq!(2, env.depth);
}

#[test]
fn the_depth_allowed_is_kept() {
    let mut env = Env::new();
    assert_eq!(DEFAULT_DEPTH, env.depth);
    let fib = "fn fib = dup 2 <= [ drop 1 ] [ 1 - dup 1 - fib swap fib + ] cond";
    eval_line(fib, &mut env).unwrap();
    eval_line("10 fib", &mut env).unwrap();
    assert_eq!(DEFAULT_DEPTH, env.depth);
    assert_eq!(Err(EvalError::UnknownName), eval_line("[[nothing] call] call", &mut env));
    assert_eq!(DEFAULT_DEPTH, env.depth);
    assert_eq!(vec![Atom::Num(55)], env.pop().unwrap().stack);
}

#[test]
fn eval_program_splits_on_line_feeds() {
    assert_eq!(nums(vec![1, 2, 3]), run("1\n2\r\n\n3\n"));
    assert_eq!(nums(vec![]), run(""));
    assert_eq!(nums(vec![1]), run("# a comment\n1\n# 2"));
}

#[test]
fn eval_call_runs_in_the_current_frame() {
    let mut env = Env::new();
    env.push_atom(Atom::Num(1));
    eval_call(parse_line("2 +").unwrap(), &mut env).unwrap();
    assert_eq!(vec![Atom::Num(3)], env.pop().unwrap().stack);
}

#[test]
fn eval_call_function_gives_results_back_to_the_caller() {
    let mut env = Env::new();
    eval_line("1 2 3", &mut env).unwrap();
    eval_call_function(
        vec![name("a"), name("b")],
        parse_line("b a b").unwrap(),
        &mut env,
    )
    .unwrap();
    assert_eq!(1, env.frames.len());
    assert_eq!(
        vec![Atom::Num(1), Atom::Num(3), Atom::Num(2), Atom::Num(3)],
        env.pop().unwrap().stack
    );
}

#[test]
fn eval_with_new_scope_hands_out_the_top() {
    let mut env = Env::new();
    env.push_atom(Atom::Num(9));
    assert_eq!(Ok(Atom::Num(3)), eval_with_new_scope(parse_line("1 2 3").unwrap(), &mut env));
    assert_eq!(Err(EvalError::NoResult), eval_with_new_scope(vec![], &mut env));
    assert_eq!(Err(EvalError::Arity), eval_with_new_scope(parse_line("+").unwrap(), &mut env));
    assert_eq!(1, env.frames.len() - 1);
}

#[test]
fn long_names_bind_and_resolve() {
    let long = "a_name_longer_than_thirty_characters_goes_to_the_heap";
    let short = "a_name_longer_than_thirty_characters_goes_to_the_hea";
    assert_eq!(nums(vec![7]), run(&format!("let {} = 7\n{}", long, long)));
    assert_eq!(
        Err(EvalError::UnknownName),
        run(&format!("let {} = 7\n{}", long, short))
    );
    assert_eq!(
        nums(vec![1, 2]),
        run(&format!("1 '{} let 2 '{} let {} {}", short, long, short, long))
    );
}

fn is_value(a: &Atom) -> bool {
    match a {
        Atom::Bool(_) | Atom::Num(_) | Atom::Symbol(_) => true,
        Atom::Quotation(_) | Atom::Function(_, _) => true,
        Atom::List(items) => items.iter().all(is_value),
        _ => false,
    }
}

#[test]
fn stacks_hold_values_only() {
    let lines = [
        "1 true 'a [ call let fn dup x ] [ [ + ] ]",
        "fn f a = a [ a call ] dup",
        "2 f 'f get",
        "[ 1 2 [ 3 ] ] list dup [ ] map",
        "let v = [ debug print ]",
        "v 'w let w",
    ];
    let mut env = Env::new();
    for line in lines.iter() {
        eval_line(line, &mut env).unwrap();
        assert_eq!(1, env.frames.len());
        assert!(env.frames[0].stack.iter().all(is_value));
    }
    assert_eq!(12, env.frames[0].stack.len());
}

#[test]
fn a_long_program_runs() {
    let mut program = String::new();
    for _ in 0..5000 {
        program.push_str("1 2 + [ dup * ] call drop\n");
    }
    program.push_str("7");
    assert_eq!(nums(vec![7]), run(&program));
    let mut line = String::new();
    for _ in 0..20000 {
        line.push_str("1 ");
    }
    for _ in 0..19999 {
        line.push_str("+ ");
    }
    assert_eq!(nums(vec![20000]), run(&line));
}
