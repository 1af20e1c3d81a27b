use gears_lang::compiler::compile_str;
use gears_lang::errors::{GearsError, InterOpErrorType};
use gears_lang::module::Module;
use gears_lang::object::{false_obj, none_obj, true_obj, ArcGearsObject, GearsObject};
use gears_lang::vm::execute_function;
use std::sync::Arc;

const ASSIGNMENT: &str = r#"
def assignment() -> int {
    let a: int = 4;
    let b: int = 40;
    a + b
}

def return_assignment() -> int {
    let a: int = 13;
    a
}

def reassign() -> int {
    let a: int = 4;
    a = 9;
    a
}
"#;

const BRANCHING: &str = r#"
def test_true() -> bool { true }

def test_false() -> bool { false }

def simple_branch(b: bool) -> int {
    if b { 5 } else { 4 }
}

def five_or_none(b: bool | none) -> int | none {
    if b { 5 }
}

def while_loop() -> int {
    let x: int = 0;
    while x < 5 {
        x = x + 1
    };
    x
}

def for_loop() -> int {
    let s: int = 9;
    for i in 0 to 5 {
        s = s + i
    };
    s
}
"#;

const COMPARISON: &str = r#"
def compare_less(a: int, b: int) -> bool { a < b }
def compare_less_eq(a: int, b: int) -> bool { a <= b }
def compare_greater(a: int, b: int) -> bool { a > b }
def compare_greater_eq(a: int, b: int) -> bool { a >= b }
def compare_eq(a: int, b: int) -> bool { a == b }
def compare_not_eq(a: int, b: int) -> bool { a != b }
"#;

const FUNCTION: &str = r#"
def add(a: int, b: int) -> int { a + b }

def expr_test() {
    if false { }
}

def returns_none(a: int, b: int) {
    if false { }
}

def main_no_args() -> int {
    12 * add(1 + 2, 3) + 20
}

def main_args(a: int, b: int) -> int {
    add(a, b * 10) + 1
}
"#;

const MATH: &str = "def basic_math() -> int { 4 + 3 * 5 - 42 / 6 }";

const STRINGS: &str = r#"def simple_string() -> str { "simple string" }"#;

fn setup(source: &str) -> Module {
    compile_str(source, "test").expect("Test failure")
}

fn number(value: i64) -> ArcGearsObject {
    Arc::new(GearsObject::from(value))
}

#[test]
fn assignment() {
    let module = compile_str(ASSIGNMENT, "assignment");
    assert_eq!(
        execute_function(&module.expect("Test failure"), "assignment", vec![]).unwrap(),
        number(44)
    );
}

#[test]
fn return_assignment() {
    let module = compile_str(ASSIGNMENT, "assignment");
    assert_eq!(
        execute_function(&module.expect("Test failure"), "return_assignment", vec![]).unwrap(),
        number(13)
    );
}

#[test]
fn reassignment() {
    let module = compile_str(ASSIGNMENT, "assignment").expect("Test failure");
    assert_eq!(execute_function(&module, "reassign", vec![]).unwrap(), number(9));
}

#[test]
fn test_bool_return() {
    assert_eq!(execute_function(&setup(BRANCHING), "test_true", vec![]).unwrap(), true_obj());
    assert_eq!(execute_function(&setup(BRANCHING), "test_false", vec![]).unwrap(), false_obj());
}

#[test]
fn test_simple_branch_true() {
    assert_eq!(
        execute_function(&setup(BRANCHING), "simple_branch", vec![true_obj()]).unwrap(),
        number(5)
    );
}

#[test]
fn test_simple_branch_false() {
    assert_eq!(
        execute_function(&setup(BRANCHING), "simple_branch", vec![false_obj()]).unwrap(),
        number(4)
    );
}

#[test]
fn test_five_or_none_true() {
    assert_eq!(
        execute_function(&setup(BRANCHING), "five_or_none", vec![true_obj()]).unwrap(),
        number(5)
    );
}

#[test]
fn test_five_or_none_false() {
    assert_eq!(
        execute_function(&setup(BRANCHING), "five_or_none", vec![none_obj()]).unwrap(),
        none_obj()
    );
}

#[test]
fn test_simple_while_loop() {
    assert_eq!(execute_function(&setup(BRANCHING), "while_loop", vec![]).unwrap(), number(5));
}

#[test]
fn test_simple_for_loop() {
    assert_eq!(execute_function(&setup(BRANCHING), "for_loop", vec![]).unwrap(), number(19));
}

#[test]
fn test_compare() {
    let test_set = vec![
        // a, b, <,   <=,   >,    >=,     ==,    !=
        (3, 4, true, true, false, false, false, true),
        (4, 4, false, true, false, true, true, false),
        (5, 4, false, false, true, true, false, true),
    ];

    for row in test_set {
        let a = number(row.0);
        let b = number(row.1);

        assert_eq!(
            execute_function(&setup(COMPARISON), "compare_less", vec![a.clone(), b.clone()])
                .unwrap(),
            Arc::new(GearsObject::Bool(row.2)),
            "Compare Failed for: {} < {}",
            row.0,
            row.1
        );

        assert_eq!(
            execute_function(&setup(COMPARISON), "compare_less_eq", vec![a.clone(), b.clone()])
                .unwrap(),
            Arc::new(GearsObject::Bool(row.3)),
            "Compare Failed for: {} <= {}",
            row.0,
            row.1
        );

        assert_eq!(
            execute_function(&setup(COMPARISON), "compare_greater", vec![a.clone(), b.clone()])
                .unwrap(),
            Arc::new(GearsObject::Bool(row.4)),
            "Compare Failed for: {} > {}",
            row.0,
            row.1
        );

        assert_eq!(
            execute_function(&setup(COMPARISON), "compare_greater_eq", vec![a.clone(), b.clone()])
                .unwrap(),
            Arc::new(GearsObject::Bool(row.5)),
            "Compare Failed for: {} >= {}",
            row.0,
            row.1
        );

        assert_eq!(
            execute_function(&setup(COMPARISON), "compare_eq", vec![a.clone(), b.clone()]).unwrap(),
            Arc::new(GearsObject::Bool(row.6)),
            "Compare Failed for: {} == {}",
            row.0,
            row.1
        );

        assert_eq!(
            execute_function(&setup(COMPARISON), "compare_not_eq", vec![a.clone(), b.clone()])
                .unwrap(),
            Arc::new(GearsObject::Bool(row.7)),
            "Compare Failed for: {} != {}",
            row.0,
            row.1
        );
    }
}

#[test]
fn function_calling() {
    assert_eq!(execute_function(&setup(FUNCTION), "expr_test", vec![]).unwrap(), none_obj());
}

#[test]
fn expr_in_call() {
    assert_eq!(execute_function(&setup(FUNCTION), "main_no_args", vec![]).unwrap(), number(92));
}

#[test]
fn returns_none() {
    assert_eq!(
        execute_function(&setup(FUNCTION), "returns_none", vec![number(1), number(9)]).unwrap(),
        none_obj()
    );
}

#[test]
fn pass_args() {
    assert_eq!(
        execute_function(&setup(FUNCTION), "main_args", vec![number(1), number(9)]).unwrap(),
        number(92)
    );
}

#[test]
fn pass_too_few_args() {
    match execute_function(&setup(FUNCTION), "main_args", vec![number(1)]) {
        Ok(_) => panic!("Should not have passed"),
        Err(error) => match error {
            GearsError::InterOpError { error, .. } => match error {
                InterOpErrorType::TooFewArgs => {}
                _ => panic!("Wrong error returned"),
            },
            _ => panic!("Wrong error returned"),
        },
    }
}

#[test]
fn pass_too_many_args() {
    match execute_function(&setup(FUNCTION), "main_args", vec![number(1), number(1), number(1)]) {
        Ok(_) => panic!("Should not have passed"),
        Err(error) => match error {
            GearsError::InterOpError { error, .. } => match error {
                InterOpErrorType::TooManyArgs => {}
                _ => panic!("Wrong error returned"),
            },
            _ => panic!("Wrong error returned"),
        },
    }
}

#[test]
fn math() {
    let module = compile_str(MATH, "math");

    if module.is_err() {
        panic!("{:?}", module)
    }

    // The result will be 12
    assert_eq!(
        execute_function(&module.expect("Test"), "basic_math", vec![]).unwrap(),
        number(4 + 3 * 5 - 42 / 6)
    );
}

#[test]
fn return_string() {
    assert_eq!(
        execute_function(&setup(STRINGS), "simple_string", vec![]).unwrap(),
        Arc::new(GearsObject::from("simple string"))
    );
}

#[test]
fn bad_typing() {
    let strings = vec![
        r#"def test() -> int { let a: int = "test" }"#,
        r#"def test() -> int { let a: int = 1 + true }"#,
        r#"def test() -> int { let a: int = false + 2 }"#,
        r#"def test() -> int { let a: int = true }"#,
        r#"def test() -> str { 1 }"#,
        r#"def test() -> bool { 1 }"#,
        r#"def test() -> list { 1 }"#,
    ];

    for (index, string) in strings.iter().enumerate() {
        let res = compile_str(string, &format!("string-{}", index));

        match res {
            Ok(_) => panic!("String passed. {:?}", string),
            Err(e) => match e {
                GearsError::TypeError(_) => {}
                _ => {
                    println!("{:?}", e);
                    panic!("Not a type error {:?}", string);
                }
            },
        }
    }
}

fn run(source: &str, function: &str, args: Vec<ArcGearsObject>) -> Result<ArcGearsObject, GearsError> {
    execute_function(&compile_str(source, "sample").expect("compiles"), function, args)
}

#[test]
fn program_arithmetic_with_precedence() {
    assert_eq!(run("def m() -> int { 4 + 3 * 5 - 42 / 6 }", "m", vec![]), Ok(number(12)));
}

#[test]
fn program_arguments_and_a_binding() {
    assert_eq!(
        run("def f(a:int,b:int)->int{ let c:int=a+b; c*4 }", "f", vec![number(1), number(9)]),
        Ok(number(40))
    );
}

#[test]
fn program_branch() {
    let source = "def g(b:bool)->int{ if b { 5 } else { 4 } }";
    assert_eq!(run(source, "g", vec![true_obj()]), Ok(number(5)));
    assert_eq!(run(source, "g", vec![false_obj()]), Ok(number(4)));
}

#[test]
fn program_while() {
    assert_eq!(
        run("def w()->int{ let x:int=0; while x<5 { x = x+1 }; x }", "w", vec![]),
        Ok(number(5))
    );
}

#[test]
fn program_for() {
    assert_eq!(
        run("def r()->int{ let s:int=0; for i in 0 to 10 { s = s+i }; s }", "r", vec![]),
        Ok(number(45))
    );
}

#[test]
fn program_text_concatenation() {
    assert_eq!(
        run(r#"def s()->str{ "hello" + " " + "world" }"#, "s", vec![]),
        Ok(Arc::new(GearsObject::Str("hello world".to_string())))
    );
}

#[test]
fn program_binding_a_text_to_an_int_is_a_type_error() {
    match compile_str(r#"def t() -> int { let a:int = "x"; a }"#, "t") {
        Err(GearsError::TypeError(m)) => assert_eq!(m, "int is not compatible with str"),
        other => panic!("unexpected {:?}", other),
    }
}

#[test]
fn program_adding_a_bool_is_a_type_error() {
    match compile_str("def t() -> int { let a:int = 1 + true; a }", "t") {
        Err(GearsError::TypeError(m)) => assert_eq!(m, "Unable to perform + on int and bool"),
        other => panic!("unexpected {:?}", other),
    }
}

#[test]
fn program_wrong_argument_counts() {
    let source = "def f(a:int,b:int)->int{ let c:int=a+b; c*4 }";
    match run(source, "f", vec![number(1)]) {
        Err(GearsError::InterOpError { error: InterOpErrorType::TooFewArgs, .. }) => {}
        other => panic!("unexpected {:?}", other),
    }
    match run(source, "f", vec![number(1), number(9), number(2)]) {
        Err(GearsError::InterOpError { error: InterOpErrorType::TooManyArgs, .. }) => {}
        other => panic!("unexpected {:?}", other),
    }
}

#[test]
fn program_undefined_name() {
    match compile_str("def t() -> int { missing }", "t") {
        Err(GearsError::SymbolNotFound(name)) => assert_eq!(name, "missing"),
        other => panic!("unexpected {:?}", other),
    }
    match compile_str("def t() -> int { missing(1) }", "t") {
        Err(GearsError::SymbolNotFound(name)) => assert_eq!(name, "missing"),
        other => panic!("unexpected {:?}", other),
    }
    match compile_str("def t() -> int { x = 1; 2 }", "t") {
        Err(GearsError::SymbolNotFound(name)) => assert_eq!(name, "x"),
        other => panic!("unexpected {:?}", other),
    }
}

#[test]
fn program_division_by_zero_at_run_time() {
    match run("def d() -> int { 1 / 0 }", "d", vec![]) {
        Err(GearsError::TypeError(m)) => assert_eq!(m, "ArithmeticError: Division by zero"),
        other => panic!("unexpected {:?}", other),
    }
}

#[test]
fn division_truncates_toward_zero_and_wraps() {
    let source = "def d(a: int, b: int) -> int { a / b }";
    assert_eq!(run(source, "d", vec![number(-7), number(2)]), Ok(number(-3)));
    assert_eq!(run(source, "d", vec![number(7), number(-2)]), Ok(number(-3)));
    assert_eq!(run(source, "d", vec![number(-7), number(-2)]), Ok(number(3)));
    assert_eq!(run(source, "d", vec![number(i64::MIN), number(-1)]), Ok(number(i64::MIN)));
}

#[test]
fn arithmetic_wraps() {
    let source = "def a(x: int, y: int) -> int { x + y } def m(x: int, y: int) -> int { x * y } def s(x: int, y: int) -> int { x - y }";
    assert_eq!(run(source, "a", vec![number(i64::MAX), number(1)]), Ok(number(i64::MIN)));
    assert_eq!(run(source, "m", vec![number(i64::MAX), number(2)]), Ok(number(-2)));
    assert_eq!(run(source, "s", vec![number(i64::MIN), number(1)]), Ok(number(i64::MAX)));
}

#[test]
fn functions_may_be_called_before_they_are_defined() {
    let source = "def main() -> int { later(2) } def later(a: int) -> int { a * 21 }";
    assert_eq!(run(source, "main", vec![]), Ok(number(42)));
}

#[test]
fn recursion() {
    let source = "def fact(n: int) -> int { if n < 2 { 1 } else { n * fact(n - 1) } }";
    assert_eq!(run(source, "fact", vec![number(10)]), Ok(number(3628800)));
}

#[test]
fn lists_are_values() {
    let source = "def l(a: int) -> list { [a, 2, a + 3] }";
    assert_eq!(
        run(source, "l", vec![number(1)]),
        Ok(Arc::new(GearsObject::List(vec![number(1), number(2), number(4)])))
    );
    assert_eq!(
        run("def e() -> list { [] }", "e", vec![]),
        Ok(Arc::new(GearsObject::List(vec![])))
    );
}

#[test]
fn an_if_without_else_is_none_when_not_taken() {
    let source = "def f(b: bool) -> int | none { if b { 1 } }";
    assert_eq!(run(source, "f", vec![false_obj()]), Ok(none_obj()));
    assert_eq!(run(source, "f", vec![true_obj()]), Ok(number(1)));
}

#[test]
fn a_second_definition_of_a_name_is_an_error() {
    match compile_str("def a() -> int { 1 } def a() -> int { 2 }", "t") {
        Err(GearsError::ParseError { message, .. }) => assert_eq!(message, "a is defined twice"),
        other => panic!("unexpected {:?}", other),
    }
}

#[test]
fn a_variable_is_not_callable_and_a_function_is_no_value() {
    match compile_str("def a(x: int) -> int { x(1) }", "t") {
        Err(GearsError::ParseError { message, .. }) => assert_eq!(message, "x is not callable"),
        other => panic!("unexpected {:?}", other),
    }
    match compile_str("def a() -> int { a }", "t") {
        Err(GearsError::InternalCompilerError(m)) => {
            assert_eq!(m, "Functions are not first class yet")
        }
        other => panic!("unexpected {:?}", other),
    }
}

#[test]
fn a_body_must_give_a_declared_return_type() {
    match compile_str("def a() -> int | bool { \"x\" }", "t") {
        Err(GearsError::TypeError(m)) => {
            assert_eq!(m, "Function a returns str but declares int | bool")
        }
        other => panic!("unexpected {:?}", other),
    }
    assert!(compile_str("def a() -> int | str { \"x\" }", "t").is_ok());
}

#[test]
fn a_branch_has_the_types_of_both_sides() {
    assert!(compile_str("def a(b: bool) -> int | str { if b { 1 } else { \"x\" } }", "t").is_ok());
    match compile_str("def a(b: bool) -> int { if b { 1 } else { \"x\" } }", "t") {
        Err(GearsError::TypeError(m)) => {
            assert_eq!(m, "Function a returns int | str but declares int")
        }
        other => panic!("unexpected {:?}", other),
    }
}

#[test]
fn a_jump_that_does_not_fit_in_a_byte_is_an_internal_error() {
    let mut body = String::new();
    for _ in 0..130 {
        body.push_str("x = x + 1; ");
    }
    let source = format!("def f(b: bool) -> int {{ let x: int = 0; if b {{ {} 1 }} else {{ 2 }} }}", body);
    match compile_str(&source, "t") {
        Err(GearsError::InternalCompilerError(m)) => assert_eq!(m, "Jump too far"),
        other => panic!("unexpected {:?}", other),
    }
}

#[test]
fn constants_are_pooled_once() {
    let module = compile_str("def f() -> int { 7 + 7 + 8 + 7 } def g() -> int { 8 }", "t").unwrap();
    assert_eq!(module.const_count(), 2);
    assert_eq!(module.get_const(0), &GearsObject::Int(7));
    assert_eq!(module.get_const(1), &GearsObject::Int(8));
    assert_eq!(
        module.get_function("f").unwrap().get_opcodes(),
        &vec![20, 0, 20, 0, 10, 20, 1, 10, 20, 0, 10, 0]
    );
}

#[test]
fn every_function_ends_with_return() {
    let module = compile_str(BRANCHING, "t").unwrap();
    for name in ["test_true", "test_false", "simple_branch", "five_or_none", "while_loop", "for_loop"] {
        let code = module.get_function(name).unwrap().get_opcodes();
        assert_eq!(code.last(), Some(&0u8));
    }
}

#[test]
fn compiled_branch_layout() {
    let module = compile_str("def g(b:bool)->int{ if b { 5 } else { 4 } }", "t").unwrap();
    assert_eq!(
        module.get_function("g").unwrap().get_opcodes(),
        &vec![30, 0, 4, 4, 20, 0, 2, 2, 20, 1, 0]
    );
}

#[test]
fn compiled_for_loop_layout() {
    let module = compile_str("def r()->int{ let s:int=0; for i in 0 to 10 { s = s+i }; s }", "t").unwrap();
    assert_eq!(
        module.get_function("r").unwrap().get_opcodes(),
        &vec![
            20, 0, 31, 0, // s = 0
            20, 0, 31, 1, // i = 0
            30, 1, 20, 1, 16, 4, 14, // i < 10, leave when false
            30, 0, 30, 1, 10, 31, 0, // s = s + i
            30, 1, 40, 31, 1, // i = i + 1
            3, 8, // back to the test
            30, 0, 0
        ]
    );
}

#[test]
fn module_lookups() {
    let module = compile_str("def a() -> int { 1 } def b() -> int { 2 }", "t").unwrap();
    assert_eq!(module.get_function("b").unwrap().get_name(), "b");
    assert_eq!(module.get_function("b").unwrap().num_args(), 0);
    assert_eq!(module.get_function_by_index(0).unwrap().get_name(), "a");
    assert_eq!(
        module.get_function_by_index(2).err(),
        Some(GearsError::FunctionNotFound("2".to_string()))
    );
    assert_eq!(
        module.get_function("c").err(),
        Some(GearsError::FunctionNotFound("c".to_string()))
    );
}
