use inlinable_string::InlinableString;
use pancake::arity::{arity_atom, arity_fn};
use pancake::ops::{get_boolean_op, get_stack_op};
use pancake::parse::parse_line;
use pancake::types::{Atom, Handler, Op, OpA};
use pancake::vm::Env;

fn quote(body: &str) -> Atom {
    let mut env = Env::new();
    pancake::eval::eval_line(&format!("[{}]", body), &mut env).unwrap();
    env.pop_atom().unwrap()
}

fn arity_of(body: &str) -> Option<(u8, u8)> {
    arity_fn(&quote(body), &mut Env::new())
}

#[test]
fn literals_supply_one_atom_each() {
    assert_eq!(Some((0, 0)), arity_of(""));
    assert_eq!(Some((0, 3)), arity_of("1 true 'a"));
}

#[test]
fn operations_compose_left_to_right() {
    assert_eq!(Some((2, 1)), arity_of("+"));
    assert_eq!(Some((1, 1)), arity_of("1 +"));
    assert_eq!(Some((3, 1)), arity_of("+ +"));
    assert_eq!(Some((0, 1)), arity_of("1 2 +"));
    assert_eq!(Some((1, 2)), arity_of("dup"));
    assert_eq!(Some((1, 3)), arity_of("dup dup"));
    assert_eq!(Some((2, 2)), arity_of("swap"));
    assert_eq!(Some((3, 3)), arity_of("rot3"));
    assert_eq!(Some((1, 0)), arity_of("drop"));
    assert_eq!(Some((2, 0)), arity_of("drop print"));
    assert_eq!(Some((3, 2)), arity_of("rot3 =="));
    assert_eq!(Some((2, 1)), arity_of("!= 1 2 == and"));
    assert_eq!(Some((0, 0)), arity_of("debug"));
}

#[test]
fn a_nested_quotation_supplies_itself() {
    assert_eq!(Some((0, 1)), arity_of("[1 +]"));
    assert_eq!(Some((0, 2)), arity_of("[+] [dup dup]"));
    assert_eq!(Some((1, 1)), arity_of("[1 +] map"));
    assert_eq!(Some((0, 1)), arity_of("[1 2 3] list"));
}

#[test]
fn a_nested_quotation_of_unknown_arity_makes_the_whole_unknown() {
    assert_eq!(None, arity_of("[x]"));
    assert_eq!(None, arity_of("[x] drop"));
}

#[test]
fn cond_takes_the_arity_of_its_branches_and_a_boolean() {
    assert_eq!(Some((1, 1)), arity_of("false [2 *] [3 *] cond"));
    assert_eq!(Some((2, 1)), arity_of("[2 *] [3 *] cond"));
    assert_eq!(Some((1, 2)), arity_of("[1 2] [3 4] cond"));
    assert_eq!(Some((3, 1)), arity_of("[+] [-] cond"));
}

#[test]
fn cond_with_one_known_branch_uses_it() {
    assert_eq!(Some((2, 1)), arity_of("[2 *] [x] cond"));
    assert_eq!(Some((2, 1)), arity_of("[x] [2 *] cond"));
}

#[test]
fn cond_without_a_known_branch_is_unknown() {
    assert_eq!(None, arity_of("[x] [y] cond"));
    assert_eq!(None, arity_of("[1] [1 2] cond"));
    assert_eq!(None, arity_of("cond"));
    assert_eq!(None, arity_of("[1] cond"));
}

#[test]
fn operations_of_unknown_arity_make_the_whole_unknown() {
    for word in ["if", "splat", "repeat", "for_else", "for_if", "get", "keep", "call", "x"].iter() {
        assert_eq!(None, arity_of(&format!("[1] {}", word)));
    }
    assert_eq!(None, arity_of("let"));
    assert_eq!(None, arity_of("fn"));
}

#[test]
fn brackets_in_a_body_are_unknown() {
    let body = parse_line("[ 1 ]").unwrap();
    assert_eq!(None, arity_fn(&Atom::Quotation(body), &mut Env::new()));
}

#[test]
fn parameters_count_as_inputs() {
    let name = |s: &str| InlinableString::from(s);
    let f = Atom::Function(vec![name("a"), name("b")], vec![Atom::Num(1)]);
    assert_eq!(Some((2, 1)), arity_fn(&f, &mut Env::new()));
    let g = Atom::Function(vec![name("a")], parse_line("+").unwrap());
    assert_eq!(Some((3, 1)), arity_fn(&g, &mut Env::new()));
    let h = Atom::Function(vec![name("a")], parse_line("a").unwrap());
    assert_eq!(None, arity_fn(&h, &mut Env::new()));
}

#[test]
fn counts_beyond_a_byte_are_unknown() {
    let many: Vec<Atom> = (0..255).map(|n| Atom::Num(n)).collect();
    assert_eq!(Some((0, 255)), arity_fn(&Atom::Quotation(many), &mut Env::new()));
    let more: Vec<Atom> = (0..256).map(|n| Atom::Num(n)).collect();
    assert_eq!(None, arity_fn(&Atom::Quotation(more), &mut Env::new()));
    let drops: Vec<Atom> = (0..256).map(|_| Atom::Op(get_stack_op("drop").unwrap())).collect();
    assert_eq!(None, arity_fn(&Atom::Quotation(drops), &mut Env::new()));
    let params: Vec<InlinableString> = (0..256)
        .map(|n| InlinableString::from(format!("p{}", n).as_str()))
        .collect();
    assert_eq!(None, arity_fn(&Atom::Function(params, vec![]), &mut Env::new()));
}

#[test]
fn arity_atom_of_single_atoms() {
    let mut env = Env::new();
    let mut found: Vec<Option<(u8, u8)>> = Vec::new();
    assert_eq!(Some((0, 1)), arity_atom(&Atom::Num(1), &mut env, &mut found));
    assert_eq!(Some((0, 1)), arity_atom(&Atom::Bool(true), &mut env, &mut found));
    assert_eq!(None, arity_atom(&Atom::Call, &mut env, &mut found));
    assert_eq!(None, arity_atom(&Atom::List(vec![]), &mut env, &mut found));
    assert_eq!(Some((1, 1)), arity_atom(&quote("1 +"), &mut env, &mut found));
    let custom = Atom::Op(Op::new(Handler::Arith(OpA::Add), Some((5, 4))));
    assert_eq!(Some((5, 4)), arity_atom(&custom, &mut env, &mut found));
    assert!(found.is_empty());
}

#[test]
fn arity_atom_of_cond_takes_two_found_arities() {
    let mut env = Env::new();
    let cond = Atom::Op(get_boolean_op("cond").unwrap());
    let mut found = vec![Some((9, 9)), Some((1, 1)), Some((1, 1))];
    assert_eq!(Some((2, 1)), arity_atom(&cond, &mut env, &mut found));
    assert_eq!(vec![Some((9, 9))], found);
    assert_eq!(None, arity_atom(&cond, &mut env, &mut found));
    assert_eq!(vec![Some((9, 9))], found);
    let mut found = vec![Some((255, 1)), None];
    assert_eq!(None, arity_atom(&cond, &mut env, &mut found));
    assert!(found.is_empty());
}

#[test]
fn a_run_takes_and_leaves_what_the_analysis_counts() {
    let bodies = [
        "",
        "1 2 +",
        "+",
        "+ +",
        "dup dup",
        "swap drop",
        "rot3 == not",
        "[1 +] map",
        "[+] reduce_inner",
        "[7] list",
        "true [2 *] [3 *] cond",
        "[1 2] [3 4] cond",
        "drop [dup] [dup] cond",
        "0 at print debug",
    ];
    let stacks = [
        "1 2 3 4",
        "9 8 [1 2 3] list [4 5] list",
        "1 2 true",
        "[] list [1] list 2 2",
        "5 5 5 false 5",
    ];
    let mut successes = 0;
    for body in bodies.iter() {
        let (takes, leaves) = arity_of(body).unwrap();
        for stack in stacks.iter() {
            let mut env = Env::new();
            pancake::eval::eval_line(stack, &mut env).unwrap();
            let before = env.snapshot().frames.pop().unwrap().stack;
            let callable = quote(body);
            env.push_atom(callable);
            if pancake::eval::eval_atom(Atom::Call, &mut env).is_ok() {
                successes += 1;
                assert_eq!(1, env.frames.len());
                let after = env.pop().unwrap().stack;
                let kept = before.len() - takes as usize;
                assert_eq!(kept + leaves as usize, after.len());
                assert_eq!(before[..kept], after[..kept]);
            }
        }
    }
    assert!(successes >= 30);
}

#[test]
fn a_branch_of_unknown_arity_can_belie_the_analysis() {
    assert_eq!(Some((2, 1)), arity_of("[2 *] [x] cond"));
    let mut env = Env::new();
    pancake::eval::eval_line("fn x = 1 2 3", &mut env).unwrap();
    pancake::eval::eval_line("5 false [2 *] [x] cond", &mut env).unwrap();
    assert_eq!(
        vec![Atom::Num(5), Atom::Num(1), Atom::Num(2), Atom::Num(3)],
        env.pop().unwrap().stack
    );
}
