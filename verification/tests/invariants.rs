use gears_lang::compiler::compile_str;
use gears_lang::errors::GearsError;
use gears_lang::module::Module;
use gears_lang::object::{false_obj, true_obj, ArcGearsObject, GearsObject};
use gears_lang::opcodes::operands;
use gears_lang::vm::execute_function;
use std::sync::Arc;

const PROGRAM: &str = r#"
def pick(b: bool, n: int) -> int {
    let r: int = 0;
    if b {
        let x: int = n + 1;
        r = x
    } else {
        let y: int = n * 2;
        let z: int = y - 1;
        r = z
    };
    r
}

def sum_to(n: int) -> int {
    let s: int = 0;
    let i: int = 0;
    while i < n {
        i = i + 1;
        if i == 3 {
            s = s + 100
        } else {
            s = s + i
        }
    };
    s
}

def squares() -> int {
    let s: int = 0;
    for i in 0 to 4 {
        for j in 0 to 4 {
            if i == j {
                s = s + i * j
            } else {
                s = s
            }
        }
    };
    s
}

def nested(a: int, b: int) -> list {
    [a + 2 * b, "x" + "y", a < b, [a, [b]], sum_to(a) == 103]
}
"#;

fn number(value: i64) -> ArcGearsObject {
    Arc::new(GearsObject::Int(value))
}

fn module() -> Module {
    compile_str(PROGRAM, "program").expect("compiles")
}

fn code_of(module: &Module, name: &str) -> Vec<u8> {
    module.get_function(name).unwrap().get_opcodes().clone()
}

/// The places of the opcodes of `code`, read from its start.
fn opcode_places(code: &[u8]) -> Vec<usize> {
    let mut places = Vec::new();
    let mut at = 0;
    while at < code.len() {
        places.push(at);
        at += 1 + operands(code[at]);
    }
    assert_eq!(at, code.len(), "the last instruction is whole");
    places
}

const NAMES: [&str; 4] = ["pick", "sum_to", "squares", "nested"];

#[test]
fn compiled_functions_end_with_return() {
    let module = module();
    for name in NAMES {
        let code = code_of(&module, name);
        let places = opcode_places(&code);
        let last = *places.last().expect("not empty");
        assert_eq!(last, code.len() - 1);
        assert_eq!(code[last], 0);
    }
}

#[test]
fn compiled_jumps_land_on_opcodes_inside_the_function() {
    let module = module();
    let mut jumps = 0;
    for name in NAMES {
        let code = code_of(&module, name);
        let places = opcode_places(&code);
        for &p in &places {
            let target = match code[p] {
                2 | 4 => Some(p + 2 + code[p + 1] as usize),
                3 => Some(code[p + 1] as usize),
                _ => None,
            };
            if let Some(t) = target {
                jumps += 1;
                assert!(t < code.len(), "{} jumps from {} to {}", name, p, t);
                assert!(places.contains(&t), "{} jumps from {} into an instruction", name, p);
            }
        }
    }
    assert!(jumps >= 12);
}

/// Walks every way through `code` from an empty stack. Gives the lowest
/// depth at which an instruction finds what it takes, less what it takes, or
/// `None` where two ways come to one place with stacks of different depths.
fn lowest_margin(code: &[u8]) -> Option<i64> {
    let mut depth: Vec<Option<i64>> = vec![None; code.len() + 1];
    let mut work = vec![(0usize, 0i64)];
    let mut margin = i64::MAX;
    while let Some((p, d)) = work.pop() {
        match depth[p] {
            Some(seen) => {
                if seen != d {
                    return None;
                }
                continue;
            }
            None => depth[p] = Some(d),
        }
        let op = code[p];
        let next = p + 1 + operands(op);
        let (pops, pushes) = match op {
            0 | 4 | 31 | 40 => (1, if op == 40 { 1 } else { 0 }),
            10..=19 => (2, 1),
            1 => (code[p + 2] as i64, 1),
            25 => (code[p + 1] as i64, 1),
            20 | 30 | 32 | 33 | 34 => (0, 1),
            _ => (0, 0),
        };
        margin = margin.min(d - pops);
        let after = d - pops + pushes;
        match op {
            0 => {}
            2 => work.push((p + 2 + code[p + 1] as usize, after)),
            3 => work.push((code[p + 1] as usize, after)),
            4 => {
                work.push((p + 2 + code[p + 1] as usize, after));
                work.push((next, after));
            }
            _ => work.push((next, after)),
        }
    }
    Some(margin)
}

#[test]
fn compiled_code_keeps_one_stack_depth_at_every_place() {
    let module = module();
    for name in NAMES {
        let margin = lowest_margin(&code_of(&module, name));
        assert!(margin.is_some(), "{}: two depths at one place", name);
        assert!(margin.unwrap() >= 0, "{}: the stack is too low", name);
    }
}

#[test]
fn branches_that_leave_the_same_number_of_values_meet_at_one_depth() {
    let source = "def f(b: bool) -> int { 1; if b { 2; 3 } else { 4; 5 } }";
    let module = compile_str(source, "t").expect("compiles");
    assert_eq!(lowest_margin(&code_of(&module, "f")), Some(0));
    assert_eq!(execute_function(&module, "f", vec![true_obj()]), Ok(number(3)));
    assert_eq!(execute_function(&module, "f", vec![false_obj()]), Ok(number(5)));
}

#[test]
fn a_body_without_a_value_meets_at_one_depth_and_returns_from_an_empty_stack() {
    let source = "def f(b: bool) -> int { if b { let x: int = 1; } else { let y: int = 2; }; }";
    let module = compile_str(source, "t").expect("compiles");
    assert_eq!(lowest_margin(&code_of(&module, "f")), Some(-1));
    assert_eq!(
        execute_function(&module, "f", vec![true_obj()]),
        Err(GearsError::InternalCompilerError("Unexpected Empty Stack".to_string()))
    );
}

#[test]
fn branches_that_leave_different_numbers_of_values_meet_at_two_depths() {
    let source = "def f(b: bool) -> int { if b { 1; 2 } else { 3 } }";
    let module = compile_str(source, "t").expect("compiles");
    assert_eq!(lowest_margin(&code_of(&module, "f")), None);
}

#[test]
fn compiled_code_reads_only_slots_that_were_set() {
    let module = module();
    for name in NAMES {
        let code = code_of(&module, name);
        let argc = module.get_function(name).unwrap().num_args();
        // The slots that are set on every way to each place.
        let mut set: Vec<Option<Vec<u8>>> = vec![None; code.len() + 1];
        let mut work: Vec<(usize, Vec<u8>)> = vec![(0, (0..argc as u8).collect())];
        while let Some((p, have)) = work.pop() {
            let merged: Vec<u8> = match &set[p] {
                Some(seen) => {
                    let both: Vec<u8> = seen.iter().copied().filter(|k| have.contains(k)).collect();
                    if both.len() == seen.len() {
                        continue;
                    }
                    both
                }
                None => have,
            };
            set[p] = Some(merged.clone());
            let op = code[p];
            let next = p + 1 + operands(op);
            let mut after = merged.clone();
            if op == 30 {
                assert!(merged.contains(&code[p + 1]), "{}: slot {} read at {}", name, code[p + 1], p);
            }
            if op == 31 && !after.contains(&code[p + 1]) {
                after.push(code[p + 1]);
            }
            match op {
                0 => {}
                2 => work.push((p + 2 + code[p + 1] as usize, after)),
                3 => work.push((code[p + 1] as usize, after)),
                4 => {
                    work.push((p + 2 + code[p + 1] as usize, after.clone()));
                    work.push((next, after));
                }
                _ => work.push((next, after)),
            }
        }
    }
}

#[test]
fn the_functions_run() {
    let module = module();
    assert_eq!(execute_function(&module, "pick", vec![true_obj(), number(4)]), Ok(number(5)));
    assert_eq!(execute_function(&module, "pick", vec![false_obj(), number(4)]), Ok(number(7)));
    assert_eq!(execute_function(&module, "sum_to", vec![number(5)]), Ok(number(112)));
    assert_eq!(execute_function(&module, "sum_to", vec![number(0)]), Ok(number(0)));
    assert_eq!(execute_function(&module, "squares", vec![]), Ok(number(14)));
}

#[test]
fn a_pure_expression_runs_to_its_value() {
    let module = module();
    let expected = GearsObject::List(vec![
        number(3 + 2 * 4),
        Arc::new(GearsObject::Str("xy".to_string())),
        Arc::new(GearsObject::Bool(true)),
        Arc::new(GearsObject::List(vec![
            number(3),
            Arc::new(GearsObject::List(vec![number(4)])),
        ])),
        Arc::new(GearsObject::Bool(true)),
    ]);
    assert_eq!(
        execute_function(&module, "nested", vec![number(3), number(4)]),
        Ok(Arc::new(expected))
    );
}

#[test]
fn a_pure_expression_fails_as_its_evaluation_fails() {
    let module = compile_str(
        "def f(a: int, b: int) -> list { [a / b, a / (b - b), missing_is_not_reached(a)] } def missing_is_not_reached(a: int) -> int { a }",
        "m",
    )
    .expect("compiles");
    assert_eq!(
        execute_function(&module, "f", vec![number(6), number(3)]),
        Err(GearsError::TypeError("ArithmeticError: Division by zero".to_string()))
    );
}

#[test]
fn every_written_constant_is_in_the_pool_once() {
    let module = compile_str(
        r#"def f() -> int { let a: str = "a"; for i in 7 to 9 { a = "a" + "b" }; 7 + 9 + 9 }"#,
        "m",
    )
    .expect("compiles");
    let mut pool = Vec::new();
    for i in 0..module.const_count() {
        pool.push(module.get_const(i).clone());
    }
    for expected in [
        GearsObject::Str("a".to_string()),
        GearsObject::Str("b".to_string()),
        GearsObject::Int(7),
        GearsObject::Int(9),
    ] {
        assert_eq!(pool.iter().filter(|c| **c == expected).count(), 1);
    }
    assert_eq!(pool.len(), 4);
}

#[test]
fn a_fault_is_reported_as_the_first_one() {
    match compile_str("def f() -> int { nothing + (1 + true) }", "m") {
        Err(GearsError::SymbolNotFound(name)) => assert_eq!(name, "nothing"),
        other => panic!("unexpected {:?}", other),
    }
    match compile_str("def f() -> int { (1 + true) + nothing }", "m") {
        Err(GearsError::TypeError(_)) => {}
        other => panic!("unexpected {:?}", other),
    }
}

const PURE: &str = r#"
def fact(n: int) -> int { if n < 2 { 1 } else { n * fact(n - 1) } }
def pick(b: bool, x: int, y: int) -> int { if b { x + 1 } else { y * 2 } }
def twice(x: int) -> int { pick(true, x, 0) + pick(false, 0, x) }
def ratio(a: int, b: int) -> int { 100 + half(a / b) }
def half(a: int) -> int { a / 2 }
def maybe(b: bool) -> int | none { if b { 7 } }
def nest(a: int, b: int) -> int { if a < b { if a == 0 { b } else { a } } else { fact(b) } }
"#;

#[test]
fn branches_and_calls_give_what_the_expressions_mean() {
    let module = compile_str(PURE, "pure").expect("compiles");
    assert_eq!(execute_function(&module, "fact", vec![number(0)]), Ok(number(1)));
    assert_eq!(execute_function(&module, "fact", vec![number(5)]), Ok(number(120)));
    assert_eq!(
        execute_function(&module, "pick", vec![true_obj(), number(4), number(9)]),
        Ok(number(5))
    );
    assert_eq!(
        execute_function(&module, "pick", vec![false_obj(), number(4), number(9)]),
        Ok(number(18))
    );
    assert_eq!(execute_function(&module, "twice", vec![number(3)]), Ok(number(10)));
    assert_eq!(execute_function(&module, "ratio", vec![number(9), number(2)]), Ok(number(102)));
    assert_eq!(execute_function(&module, "maybe", vec![true_obj()]), Ok(number(7)));
    assert_eq!(
        execute_function(&module, "maybe", vec![false_obj()]),
        Ok(Arc::new(GearsObject::NoneValue))
    );
    assert_eq!(execute_function(&module, "nest", vec![number(0), number(3)]), Ok(number(3)));
    assert_eq!(execute_function(&module, "nest", vec![number(2), number(3)]), Ok(number(2)));
    assert_eq!(execute_function(&module, "nest", vec![number(4), number(3)]), Ok(number(6)));
}

#[test]
fn a_failure_inside_a_called_function_is_the_result_of_the_call() {
    let module = compile_str(PURE, "pure").expect("compiles");
    assert_eq!(
        execute_function(&module, "ratio", vec![number(1), number(0)]),
        Err(GearsError::TypeError("ArithmeticError: Division by zero".to_string()))
    );
}

#[test]
fn a_module_holds_no_constant_twice_and_its_copy_holds_the_same() {
    let module = compile_str(PURE, "pure").expect("compiles");
    let copy = module.clone();
    assert_eq!(copy.const_count(), module.const_count());
    for i in 0..module.const_count() {
        assert_eq!(copy.get_const(i), module.get_const(i));
        for j in 0..i {
            assert_ne!(module.get_const(i), module.get_const(j));
        }
    }
    assert_eq!(
        copy.get_function("fact").unwrap().get_opcodes(),
        module.get_function("fact").unwrap().get_opcodes()
    );
    assert_eq!(execute_function(&copy, "fact", vec![number(4)]), Ok(number(24)));
}

#[test]
fn a_parameter_after_two_of_one_name_reads_the_slot_before_its_own() {
    let module = compile_str("def f(a: int, a: int, b: int) -> int { b }", "t").expect("compiles");
    assert_eq!(
        execute_function(&module, "f", vec![number(1), number(2), number(3)]),
        Ok(number(2))
    );
}
