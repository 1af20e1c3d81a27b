use gears_lang::errors::{GearsError, InterOpErrorType};
use gears_lang::module::ModuleBuilder;
use gears_lang::object::{false_obj, none_obj, true_obj, GearsObject};
use gears_lang::vm::{execute_bounded, execute_function};
use std::sync::Arc;

#[test]
fn test_addition() {
    let mut module_builder = ModuleBuilder::new("Test".to_string());

    module_builder.start_function("simple_math".to_string(), 0);
    module_builder.load_int(3);
    module_builder.load_int(4);
    module_builder.op_add();
    module_builder.load_int(8);
    module_builder.op_add();
    module_builder.finish_function();

    let module = module_builder.build();
    let result = execute_function(&module, "simple_math", Vec::new());
    assert_eq!(result, Ok(Arc::new(GearsObject::Int(15))));
}

#[test]
fn test_subtraction() {
    let mut module_builder = ModuleBuilder::new("Test".to_string());

    module_builder.start_function("simple_math".to_string(), 0);
    module_builder.load_int(20);
    module_builder.load_int(4);
    module_builder.op_sub();
    module_builder.load_int(5);
    module_builder.op_sub();
    module_builder.finish_function();

    let module = module_builder.build();
    let result = execute_function(&module, "simple_math", Vec::new());
    assert_eq!(result, Ok(Arc::new(GearsObject::Int(11))));
}

#[test]
fn test_mul() {
    let mut module_builder = ModuleBuilder::new("Test".to_string());

    module_builder.start_function("simple_math".to_string(), 0);
    module_builder.load_int(3);
    module_builder.load_int(4);
    module_builder.op_mul();
    module_builder.load_int(5);
    module_builder.op_mul();
    module_builder.finish_function();

    let module = module_builder.build();
    let result = execute_function(&module, "simple_math", Vec::new());
    assert_eq!(result, Ok(Arc::new(GearsObject::Int(60))));
}

#[test]
fn test_div() {
    let mut module_builder = ModuleBuilder::new("Test".to_string());

    module_builder.start_function("simple_math".to_string(), 0);
    module_builder.load_int(50);
    module_builder.load_int(5);
    module_builder.op_div();
    module_builder.load_int(5);
    module_builder.op_div();
    module_builder.finish_function();

    let module = module_builder.build();
    let result = execute_function(&module, "simple_math", Vec::new());
    assert_eq!(result, Ok(Arc::new(GearsObject::Int(2))));
}

#[test]
fn division_by_zero_is_a_type_error() {
    let mut b = ModuleBuilder::new("Test".to_string());
    b.start_function("f".to_string(), 0);
    b.load_int(1);
    b.load_int(0);
    b.op_div();
    b.finish_function();
    let module = b.build();
    match execute_function(&module, "f", Vec::new()) {
        Err(GearsError::TypeError(m)) => assert_eq!(m, "ArithmeticError: Division by zero"),
        other => panic!("unexpected {:?}", other),
    }
}

#[test]
fn unknown_function_is_reported() {
    let module = ModuleBuilder::new("Test".to_string()).build();
    assert_eq!(
        execute_function(&module, "nothing", Vec::new()),
        Err(GearsError::FunctionNotFound("nothing".to_string()))
    );
}

#[test]
fn empty_stack_at_return() {
    let mut b = ModuleBuilder::new("Test".to_string());
    b.start_function("f".to_string(), 0);
    b.finish_function();
    let module = b.build();
    assert_eq!(
        execute_function(&module, "f", Vec::new()),
        Err(GearsError::InternalCompilerError("Unexpected Empty Stack".to_string()))
    );
}

#[test]
fn argument_counts_are_checked() {
    let mut b = ModuleBuilder::new("Test".to_string());
    b.start_function("f".to_string(), 2);
    b.load_fast(0);
    b.load_fast(1);
    b.op_add();
    b.finish_function();
    let module = b.build();
    let one = Arc::new(GearsObject::Int(1));
    match execute_function(&module, "f", vec![one.clone()]) {
        Err(GearsError::InterOpError { error: InterOpErrorType::TooFewArgs, message }) => {
            assert_eq!(message, "Function missing args: f, expected: 2, received: 1")
        }
        other => panic!("unexpected {:?}", other),
    }
    match execute_function(&module, "f", vec![one.clone(), one.clone(), one.clone()]) {
        Err(GearsError::InterOpError { error: InterOpErrorType::TooManyArgs, message }) => {
            assert_eq!(message, "Function pass extra args: f, expected: 2, received: 3")
        }
        other => panic!("unexpected {:?}", other),
    }
    assert_eq!(
        execute_function(&module, "f", vec![one.clone(), Arc::new(GearsObject::Int(9))]),
        Ok(Arc::new(GearsObject::Int(10)))
    );
}

#[test]
fn load_of_an_unset_slot_fails() {
    let mut b = ModuleBuilder::new("Test".to_string());
    b.start_function("f".to_string(), 0);
    b.load_fast(3);
    b.finish_function();
    let module = b.build();
    assert_eq!(
        execute_function(&module, "f", Vec::new()),
        Err(GearsError::InternalCompilerError("LOAD_FAST failed".to_string()))
    );
}

#[test]
fn store_creates_a_slot_and_leaves_those_below_unset() {
    let mut b = ModuleBuilder::new("Test".to_string());
    b.start_function("stored".to_string(), 0);
    b.load_int(7);
    b.store_fast(2);
    b.load_fast(2);
    b.finish_function();
    b.start_function("below".to_string(), 0);
    b.load_int(7);
    b.store_fast(2);
    b.load_fast(1);
    b.finish_function();
    let module = b.build();
    assert_eq!(execute_function(&module, "stored", Vec::new()), Ok(Arc::new(GearsObject::Int(7))));
    assert_eq!(
        execute_function(&module, "below", Vec::new()),
        Err(GearsError::InternalCompilerError("LOAD_FAST failed".to_string()))
    );
}

#[test]
fn singletons_are_loaded() {
    let mut b = ModuleBuilder::new("Test".to_string());
    b.start_function("t".to_string(), 0);
    b.load_bool(&true);
    b.finish_function();
    b.start_function("f".to_string(), 0);
    b.load_bool(&false);
    b.finish_function();
    b.start_function("n".to_string(), 0);
    b.load_none();
    b.finish_function();
    let module = b.build();
    assert_eq!(execute_function(&module, "t", Vec::new()), Ok(true_obj()));
    assert_eq!(execute_function(&module, "f", Vec::new()), Ok(false_obj()));
    assert_eq!(execute_function(&module, "n", Vec::new()), Ok(none_obj()));
}

#[test]
fn lists_are_built_with_the_top_last() {
    let mut b = ModuleBuilder::new("Test".to_string());
    b.start_function("f".to_string(), 0);
    b.load_int(1);
    b.load_int(2);
    b.load_int(3);
    b.build_list(2);
    b.finish_function();
    let module = b.build();
    assert_eq!(
        execute_function(&module, "f", Vec::new()),
        Ok(Arc::new(GearsObject::List(vec![
            Arc::new(GearsObject::Int(2)),
            Arc::new(GearsObject::Int(3)),
        ])))
    );
}

#[test]
fn calls_pass_the_leftmost_argument_first() {
    let mut b = ModuleBuilder::new("Test".to_string());
    b.start_function("sub".to_string(), 2);
    b.load_fast(0);
    b.load_fast(1);
    b.op_sub();
    b.finish_function();
    b.start_function("main".to_string(), 0);
    b.load_int(10);
    b.load_int(3);
    b.call_fn(0, 2);
    b.finish_function();
    let module = b.build();
    assert_eq!(execute_function(&module, "main", Vec::new()), Ok(Arc::new(GearsObject::Int(7))));
}

#[test]
fn call_of_a_missing_index_fails() {
    let mut b = ModuleBuilder::new("Test".to_string());
    b.start_function("main".to_string(), 0);
    b.call_fn(9, 0);
    b.finish_function();
    let module = b.build();
    assert_eq!(
        execute_function(&module, "main", Vec::new()),
        Err(GearsError::FunctionNotFound("9".to_string()))
    );
}

#[test]
fn load_of_a_missing_constant_fails() {
    let mut b = ModuleBuilder::new("Test".to_string());
    b.start_function("main".to_string(), 0);
    b.load_const(0);
    b.finish_function();
    let module = b.build();
    assert_eq!(
        execute_function(&module, "main", Vec::new()),
        Err(GearsError::InternalCompilerError("LOAD_CONST failed".to_string()))
    );
}

#[test]
fn unknown_opcode_is_named() {
    // The jump lands on the operand of the last instruction, the byte 7.
    let mut b = ModuleBuilder::new("Test".to_string());
    b.start_function("main".to_string(), 0);
    b.load_bool(&true);
    let exit = b.start_jump_if_false();
    b.end_loop(5, exit);
    b.load_fast(7);
    b.finish_function();
    let module = b.build();
    assert_eq!(
        module.get_function("main").unwrap().get_opcodes(),
        &vec![32, 4, 2, 3, 6, 30, 7, 0]
    );
    assert_eq!(
        execute_function(&module, "main", Vec::new()),
        Err(GearsError::InternalCompilerError("Unexpected Opcode: 7".to_string()))
    );
}

#[test]
fn running_off_the_end_of_the_code_fails() {
    let mut b = ModuleBuilder::new("Test".to_string());
    b.start_function("main".to_string(), 0);
    b.load_bool(&true);
    let exit = b.start_jump_if_false();
    b.end_loop(200, exit);
    b.finish_function();
    let module = b.build();
    assert_eq!(
        execute_function(&module, "main", Vec::new()),
        Err(GearsError::InternalCompilerError("Instruction pointer out of bounds".to_string()))
    );
}

#[test]
fn an_endless_loop_stops_at_the_step_limit() {
    let mut b = ModuleBuilder::new("Test".to_string());
    b.start_function("spin".to_string(), 0);
    let head = b.start_loop_check();
    b.load_bool(&true);
    let exit = b.start_jump_if_false();
    b.end_loop(head, exit);
    b.load_none();
    b.finish_function();
    let module = b.build();
    assert_eq!(
        execute_bounded(&module, "spin", Vec::new(), 1000),
        Err(GearsError::InternalCompilerError("Step limit reached".to_string()))
    );
}

#[test]
fn a_loop_that_ends_returns() {
    // x = 0; while x < 5 { x = x + 1 }; x
    let mut b = ModuleBuilder::new("Test".to_string());
    b.start_function("count".to_string(), 0);
    b.load_int(0);
    b.store_fast(0);
    let head = b.start_loop_check();
    b.load_fast(0);
    b.load_int(5);
    b.op_less();
    let exit = b.start_jump_if_false();
    b.load_fast(0);
    b.inc_one();
    b.store_fast(0);
    b.end_loop(head, exit);
    b.load_fast(0);
    b.finish_function();
    let module = b.build();
    assert_eq!(execute_function(&module, "count", Vec::new()), Ok(Arc::new(GearsObject::Int(5))));
    assert_eq!(
        module.get_function("count").unwrap().get_opcodes(),
        &vec![20, 0, 31, 0, 30, 0, 20, 1, 16, 4, 7, 30, 0, 40, 31, 0, 3, 4, 30, 0, 0]
    );
}

#[test]
fn a_loop_at_the_start_of_a_function_jumps_back_to_zero() {
    let mut b = ModuleBuilder::new("Test".to_string());
    b.start_function("f".to_string(), 1);
    let head = b.start_loop_check();
    b.load_fast(0);
    let exit = b.start_jump_if_false();
    b.load_bool(&false);
    b.store_fast(0);
    b.end_loop(head, exit);
    b.load_int(1);
    b.finish_function();
    let module = b.build();
    assert_eq!(
        module.get_function("f").unwrap().get_opcodes(),
        &vec![30, 0, 4, 5, 33, 31, 0, 3, 0, 20, 0, 0]
    );
    assert_eq!(execute_function(&module, "f", vec![true_obj()]), Ok(Arc::new(GearsObject::Int(1))));
}

#[test]
fn branches_are_patched() {
    // if arg { 5 } else { 4 }
    let mut b = ModuleBuilder::new("Test".to_string());
    b.start_function("pick".to_string(), 1);
    b.load_fast(0);
    let first = b.start_jump_if_false();
    b.load_int(5);
    let second = b.start_else(first);
    b.load_int(4);
    b.end_jump(second);
    b.finish_function();
    let module = b.build();
    assert_eq!(
        module.get_function("pick").unwrap().get_opcodes(),
        &vec![30, 0, 4, 4, 20, 0, 2, 2, 20, 1, 0]
    );
    assert_eq!(execute_function(&module, "pick", vec![true_obj()]), Ok(Arc::new(GearsObject::Int(5))));
    assert_eq!(execute_function(&module, "pick", vec![false_obj()]), Ok(Arc::new(GearsObject::Int(4))));
}
