use gears_lang::compiler::{compile_str, types_to_text, visit_block, visit_body, visit_expr, visit_stmt};
use gears_lang::ast::{ArgAst, BinOpAst, ExprAst, ModStmtAst, RangeAst, StmtAst};
use gears_lang::errors::GearsError;
use gears_lang::module::{code_ends_with_return, disassemble, Function, ModuleBuilder};
use gears_lang::object::GearsObject;
use gears_lang::opcodes::{operands, print_code};
use gears_lang::symbol::{
    clone_types, types_contain, types_subset, SymbolTable, SymbolType, Type,
};
use gears_lang::text::{
    append_decimal, append_signed_decimal, append_str, collect, decimal_string, digit_value,
    to_chars, widen,
};

fn types(names: &[&str]) -> Vec<Type> {
    names.iter().map(|n| Type::from(*n)).collect()
}

fn names(types: &[Type]) -> Vec<String> {
    types.iter().map(|t| t.name().to_string()).collect()
}

#[test]
fn the_global_scope_counts_its_own_names() {
    let mut global = SymbolTable::new_global();
    assert!(global.is_global());
    assert_eq!(global.get_next_index(), Some(0));
    assert_eq!(global.def_fn("f".to_string(), vec![], types(&["none"])), 0);
    assert_eq!(
        global.def_fn("g".to_string(), vec![("a".to_string(), types(&["int"]))], types(&["int"])),
        1
    );
    assert_eq!(global.get_next_index(), Some(2));
    let (symbol, found_global) = global.resolve(&"g".to_string());
    assert!(found_global);
    let symbol = symbol.expect("g is defined");
    assert_eq!(*symbol.get_index(), 1);
    match symbol.get_type() {
        SymbolType::Function { arg_types, return_types } => {
            assert_eq!(arg_types.len(), 1);
            assert_eq!(arg_types[0].0, "a");
            assert_eq!(names(return_types), vec!["int".to_string()]);
        }
        other => panic!("unexpected {:?}", other),
    }
}

#[test]
fn slots_run_on_through_nested_scopes_of_a_function() {
    let mut global = SymbolTable::new_global();
    global.def_fn("f".to_string(), vec![], types(&["none"]));
    global.def_fn("g".to_string(), vec![], types(&["none"]));
    let mut body = global.push();
    assert!(!body.is_global());
    assert_eq!(body.def_variable("a".to_string(), types(&["int"])), 0);
    assert_eq!(body.def_variable("b".to_string(), types(&["int"])), 1);
    {
        let mut block = body.push();
        assert_eq!(block.get_next_index(), Some(2));
        assert_eq!(block.def_variable("c".to_string(), types(&["int"])), 2);
        let mut inner = block.push();
        assert_eq!(inner.def_variable("d".to_string(), types(&["int"])), 3);
        assert_eq!(*inner.resolve(&"a".to_string()).0.unwrap().get_index(), 0);
        assert_eq!(*inner.resolve(&"c".to_string()).0.unwrap().get_index(), 2);
        assert_eq!(*inner.resolve(&"d".to_string()).0.unwrap().get_index(), 3);
    }
    assert_eq!(body.def_variable("e".to_string(), types(&["int"])), 2);
    assert!(body.resolve(&"c".to_string()).0.is_none());
}

#[test]
fn resolution_says_whether_the_name_is_global() {
    let mut global = SymbolTable::new_global();
    global.def_fn("f".to_string(), vec![], types(&["none"]));
    let mut body = global.push();
    body.def_variable("x".to_string(), types(&["int", "bool"]));
    let (x, x_global) = body.resolve(&"x".to_string());
    assert!(!x_global);
    match x.unwrap().get_type() {
        SymbolType::Variable { types } => {
            assert_eq!(names(types), vec!["int".to_string(), "bool".to_string()])
        }
        other => panic!("unexpected {:?}", other),
    }
    let (f, f_global) = body.resolve(&"f".to_string());
    assert!(f.is_some());
    assert!(f_global);
    let (missing, missing_global) = body.resolve(&"nothing".to_string());
    assert!(missing.is_none());
    assert!(missing_global);
}

#[test]
fn the_inner_binding_hides_the_outer_one() {
    let global = SymbolTable::new_global();
    let mut body = global.push();
    body.def_variable("x".to_string(), types(&["int"]));
    let mut block = body.push();
    block.def_variable("x".to_string(), types(&["str"]));
    assert_eq!(*block.resolve(&"x".to_string()).0.unwrap().get_index(), 1);
}

#[test]
fn a_second_definition_in_a_scope_replaces_the_first() {
    let global = SymbolTable::new_global();
    let mut body = global.push();
    assert_eq!(body.def_variable("x".to_string(), types(&["int"])), 0);
    assert_eq!(body.def_variable("x".to_string(), types(&["str"])), 1);
    assert_eq!(body.get_next_index(), Some(1));
    assert_eq!(*body.resolve(&"x".to_string()).0.unwrap().get_index(), 1);
}

#[test]
fn the_next_index_must_fit_in_a_byte() {
    let global = SymbolTable::new_global();
    let mut body = global.push();
    for i in 0..256 {
        assert_eq!(body.get_next_index(), Some(i as u8));
        body.def_variable(format!("v{}", i), types(&["int"]));
    }
    assert_eq!(body.get_next_index(), None);
    let block = body.push();
    assert_eq!(block.get_next_index(), None);
}

#[test]
fn type_sets() {
    let int_or_bool = types(&["int", "bool"]);
    assert!(types_contain(&int_or_bool, &Type::new_bool()));
    assert!(!types_contain(&int_or_bool, &Type::new_str()));
    assert!(types_subset(&types(&["bool"]), &int_or_bool));
    assert!(types_subset(&types(&[]), &int_or_bool));
    assert!(!types_subset(&types(&["bool", "none"]), &int_or_bool));
    assert_eq!(names(&clone_types(&int_or_bool)), vec!["int".to_string(), "bool".to_string()]);
    assert_eq!(types_to_text(&int_or_bool), "int | bool");
    assert_eq!(types_to_text(&types(&["list"])), "list");
    assert_eq!(types_to_text(&types(&[])), "");
    assert!(Type::new_int().same(&Type::from("int")));
    assert!(Type::new_list().same(&Type::from("list".to_string())));
    assert!(!Type::new_none().same(&Type::new_str()));
    assert_eq!(Type::new_none().duplicate().name(), "none");
}

#[test]
fn interning_gives_one_place_to_equal_values() {
    let mut b = ModuleBuilder::new("m".to_string());
    assert_eq!(b.intern(GearsObject::Int(5)), 0);
    assert_eq!(b.intern(GearsObject::Str("5".to_string())), 1);
    assert_eq!(b.intern(GearsObject::Int(5)), 0);
    assert_eq!(b.intern(GearsObject::Str("5".to_string())), 1);
    assert_eq!(b.intern(GearsObject::Int(6)), 2);
    let module = b.build();
    assert_eq!(module.const_count(), 3);
}

#[test]
fn finishing_adds_a_return_unless_one_ends_the_function() {
    let mut b = ModuleBuilder::new("m".to_string());
    b.start_function("plain".to_string(), 0);
    b.load_int(0);
    b.finish_function();
    b.start_function("returned".to_string(), 0);
    b.load_none();
    b.op_return();
    b.finish_function();
    b.start_function("empty".to_string(), 3);
    assert_eq!(b.code_len(), 0);
    b.finish_function();
    b.finish_function();
    b.load_none();
    let module = b.build();
    assert_eq!(module.get_function("plain").unwrap().get_opcodes(), &vec![20, 0, 0]);
    assert_eq!(module.get_function("returned").unwrap().get_opcodes(), &vec![34, 0]);
    assert_eq!(module.get_function("empty").unwrap().get_opcodes(), &vec![0]);
    assert_eq!(module.get_function("empty").unwrap().num_args(), 3);
    assert!(module.get_function_by_index(3).is_err());
    assert!(code_ends_with_return(&vec![20, 0, 0]));
    assert!(!code_ends_with_return(&vec![20, 0]));
    assert!(!code_ends_with_return(&vec![]));
    assert_eq!(Function::new("f".to_string(), 2).get_opcodes(), &Vec::<u8>::new());
}

#[test]
fn the_latest_function_of_a_name_is_found() {
    let mut b = ModuleBuilder::new("m".to_string());
    b.start_function("f".to_string(), 0);
    b.load_bool(&true);
    b.finish_function();
    b.start_function("f".to_string(), 1);
    b.load_bool(&false);
    b.finish_function();
    let module = b.build();
    assert_eq!(module.get_function("f").unwrap().num_args(), 1);
    assert_eq!(module.get_function_by_index(0).unwrap().num_args(), 0);
}

#[test]
fn patches_can_be_asked_for() {
    let mut b = ModuleBuilder::new("m".to_string());
    assert!(b.can_patch(7));
    b.start_function("f".to_string(), 0);
    assert!(!b.can_patch(0));
    let exit = b.start_jump_if_false();
    assert_eq!(exit, 1);
    assert!(b.can_patch(exit));
    assert!(b.can_patch_after(exit, 2));
    assert!(!b.can_patch(2));
    for _ in 0..127 {
        b.load_fast(0);
    }
    assert!(b.can_patch(exit));
    assert!(!b.can_patch_after(exit, 2));
    b.load_fast(0);
    assert!(!b.can_patch(exit));
}

#[test]
fn listing() {
    let mut b = ModuleBuilder::new("m".to_string());
    b.start_function("f".to_string(), 1);
    b.load_fast(0);
    let exit = b.start_jump_if_false();
    b.load_int(7);
    b.call_fn(0, 1);
    b.end_jump(exit);
    b.finish_function();
    let module = b.build();
    assert_eq!(
        disassemble(&module, "f"),
        Ok("0 LOAD_FAST 0\n2 JUMP_IF_FALSE 5\n4 LOAD_CONST 0\n6 CALL_FUNCTION 0 1\n9 RETURN\n"
            .to_string())
    );
    assert_eq!(disassemble(&module, "g"), Err(GearsError::FunctionNotFound("g".to_string())));
}

#[test]
fn opcode_names_and_operand_counts() {
    assert_eq!(print_code(0), "RETURN");
    assert_eq!(print_code(1), "CALL_FUNCTION");
    assert_eq!(print_code(2), "JUMP");
    assert_eq!(print_code(3), "JUMP_ABSOLUTE");
    assert_eq!(print_code(4), "JUMP_IF_FALSE");
    assert_eq!(print_code(10), "BIN_ADD");
    assert_eq!(print_code(19), "BIN_GREATER_THAN_EQUAL");
    assert_eq!(print_code(20), "LOAD_CONST");
    assert_eq!(print_code(25), "BUILD_LIST");
    assert_eq!(print_code(30), "LOAD_FAST");
    assert_eq!(print_code(31), "STORE_FAST");
    assert_eq!(print_code(34), "LOAD_NONE");
    assert_eq!(print_code(40), "INC_ONE");
    assert_eq!(print_code(5), "UNKNOWN");
    assert_eq!(print_code(255), "UNKNOWN");
    assert_eq!(operands(1), 2);
    assert_eq!(operands(2), 1);
    assert_eq!(operands(25), 1);
    assert_eq!(operands(31), 1);
    assert_eq!(operands(0), 0);
    assert_eq!(operands(10), 0);
    assert_eq!(operands(99), 0);
}

#[test]
fn texts_and_numbers() {
    assert_eq!(decimal_string(0), "0");
    assert_eq!(decimal_string(9), "9");
    assert_eq!(decimal_string(10), "10");
    assert_eq!(decimal_string(u64::MAX), "18446744073709551615");
    let mut s = String::from("x");
    append_decimal(&mut s, 120);
    append_str(&mut s, "|");
    append_signed_decimal(&mut s, -45);
    append_signed_decimal(&mut s, 0);
    append_signed_decimal(&mut s, i64::MIN);
    assert_eq!(s, "x120|-450-9223372036854775808");
    assert_eq!(widen(17), 17u64);
    assert_eq!(digit_value('7'), Some(7));
    assert_eq!(digit_value('a'), None);
    assert_eq!(to_chars("aé\n"), vec!['a', 'é', '\n']);
    assert_eq!(collect(&vec!['a', 'b', 'c', 'd'], 1, 3), "bc");
    assert_eq!(collect(&vec!['a'], 1, 1), "");
}

#[test]
fn visiting_pieces_of_a_program() {
    let global = SymbolTable::new_global();
    let mut scope = global.push();
    scope.def_variable("x".to_string(), types(&["int"]));
    let mut b = ModuleBuilder::new("m".to_string());
    b.start_function("f".to_string(), 1);
    let sum = ExprAst::new_op(ExprAst::Variable("x".to_string()), BinOpAst::Add, ExprAst::Integer(2));
    assert_eq!(names(&visit_expr(&sum, &scope, &mut b).unwrap()), vec!["int".to_string()]);
    let binding = StmtAst::new_assignment(
        "y".to_string(),
        vec!["int".to_string(), "none".to_string()],
        ExprAst::Integer(1),
    );
    assert_eq!(
        names(&visit_stmt(&binding, &mut scope, &mut b).unwrap()),
        vec!["int".to_string(), "none".to_string()]
    );
    assert_eq!(*scope.resolve(&"y".to_string()).0.unwrap().get_index(), 1);
    let block = (
        vec![Box::new(StmtAst::new_reassignment("y".to_string(), ExprAst::NoneLiteral))],
        Some(Box::new(StmtAst::Expr(ExprAst::Str("t".to_string())))),
    );
    assert_eq!(names(&visit_block(&block, &scope, &mut b).unwrap()), vec!["str".to_string()]);
    let empty = (vec![], None);
    assert_eq!(names(&visit_body(&empty, &mut scope, &mut b).unwrap()), vec!["none".to_string()]);
    let looping = ExprAst::new_for("i".to_string(), RangeAst::new(0, 3), (vec![], None));
    assert_eq!(names(&visit_expr(&looping, &scope, &mut b).unwrap()), vec!["none".to_string()]);
    let whiling = ExprAst::new_while(ExprAst::Bool(false), (vec![], None));
    assert_eq!(names(&visit_expr(&whiling, &scope, &mut b).unwrap()), vec!["none".to_string()]);
    let listing = ExprAst::new_list(vec![ExprAst::Integer(1), ExprAst::Bool(true)]);
    assert_eq!(names(&visit_expr(&listing, &scope, &mut b).unwrap()), vec!["list".to_string()]);
    let branch = ExprAst::new_if(
        ExprAst::Bool(true),
        (vec![], Some(Box::new(StmtAst::Expr(ExprAst::Integer(1))))),
        None,
    );
    assert_eq!(
        names(&visit_expr(&branch, &scope, &mut b).unwrap()),
        vec!["int".to_string(), "none".to_string()]
    );
    b.finish_function();
    let module = b.build();
    assert_eq!(
        module.get_function("f").unwrap().get_opcodes(),
        &vec![
            30, 0, 20, 0, 10, // x + 2
            20, 1, 31, 1, // y = 1
            34, 31, 1, 20, 2, // y = none; "t"
            20, 3, 31, 2, 30, 2, 20, 4, 16, 4, 7, 30, 2, 40, 31, 2, 3, 18, // for
            33, 4, 2, 3, 32, // while
            20, 1, 32, 25, 2, // [1, true]
            32, 4, 4, 20, 1, 2, 1, 34, // if
            0
        ]
    );
}

#[test]
fn a_program_can_be_built_from_trees() {
    let def = ModStmtAst::new_fn(
        "twice".to_string(),
        vec![ArgAst::new("a".to_string(), vec!["int".to_string()])],
        Some(vec!["int".to_string()]),
        (
            vec![],
            Some(Box::new(StmtAst::Expr(ExprAst::new_op(
                ExprAst::Variable("a".to_string()),
                BinOpAst::Mul,
                ExprAst::Integer(2),
            )))),
        ),
    );
    let module = gears_lang::compiler::compile_ast(vec![Box::new(def)], "m").unwrap();
    assert_eq!(
        gears_lang::vm::execute_function(
            &module,
            "twice",
            vec![std::sync::Arc::new(GearsObject::Int(21))]
        ),
        Ok(std::sync::Arc::new(GearsObject::Int(42)))
    );
    let binding = StmtAst::Assignment {
        new: true,
        name: "x".to_string(),
        expr: ExprAst::Integer(1),
        types: None,
    };
    let bad = ModStmtAst::new_fn("f".to_string(), vec![], None, (vec![Box::new(binding)], None));
    assert_eq!(
        gears_lang::compiler::compile_ast(vec![Box::new(bad)], "m").err(),
        Some(GearsError::InternalCompilerError("Binding without declared types".to_string()))
    );
}

#[test]
fn function_keeps_its_declared_return_types() {
    let module = compile_str("def a() -> int { 1 } def b(x: int) -> str | none { \"s\" }", "t").unwrap();
    let a = module.get_function("a").unwrap();
    let names: Vec<&str> = a.return_types().iter().map(|t| t.name()).collect();
    assert_eq!(names, vec!["int"]);
    let b = module.get_function("b").unwrap();
    let names: Vec<&str> = b.return_types().iter().map(|t| t.name()).collect();
    assert_eq!(names, vec!["str", "none"]);
}

#[test]
fn new_function_returns_none() {
    let f = Function::new("f".to_string(), 2);
    let names: Vec<&str> = f.return_types().iter().map(|t| t.name()).collect();
    assert_eq!(names, vec!["none"]);
    assert_eq!(f.num_args(), 2);
    assert!(f.get_opcodes().is_empty());
}
