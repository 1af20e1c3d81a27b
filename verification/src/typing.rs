use vstd::prelude::*;
use crate::ast::{BlockView, DefinitionView, ExprView, StmtView};
use crate::compiler::{
    arguments_model, bad_return, bind_model, block_model, body_model, call_model, close_loop,
    compile_model, declare_model, defined_twice, else_model, expr_model, for_head_model, for_model,
    function_model, function_symbol, functions_model, if_model, incompatible, internal,
    invoke_model, jump_too_far, list_model, load_model, loop_scope, not_callable, not_first_class,
    op_model, op_types, other_kind, rebind_model, sequence_model, stmt_model, stmts_model,
    types_union, variable, variable_model, while_model, Visit,
};
use crate::errors::ErrorView;
use crate::module::{BuilderView, ModuleView};
use crate::object::Value;
use crate::symbol::{define, next_index, resolve, subset_of, EntryView, SymbolTypeView};

verus! {

/// The errors that stand for a limit of the bytecode format, not for a fault
/// of the program: an index or a jump distance that does not fit in a byte.
pub open spec fn limit_error(e: ErrorView) -> bool {
    e == internal("Too many constants"@) || e == internal("Too many variables"@) || e == internal(
        "Too many list elements"@,
    ) || e == internal("Too many arguments"@) || e == internal("Too many functions"@) || e
        == jump_too_far()
}

/// The type set of a variable that is read.
pub open spec fn variable_types(name: Seq<char>, s: Seq<Seq<EntryView>>) -> Result<
    Seq<Seq<char>>,
    ErrorView,
> {
    match resolve(s, name).0 {
        None => Err(ErrorView::SymbolNotFound(name)),
        Some(symbol) => match symbol.sym_type {
            SymbolTypeView::Function { .. } => Err(not_first_class()),
            SymbolTypeView::Variable { types } => Ok(types),
        },
    }
}

/// The type set of a call of `name`: the declared return types of the
/// function.
pub open spec fn call_types(name: Seq<char>, s: Seq<Seq<EntryView>>) -> Result<
    Seq<Seq<char>>,
    ErrorView,
> {
    match resolve(s, name).0 {
        None => Err(ErrorView::SymbolNotFound(name)),
        Some(symbol) => match symbol.sym_type {
            SymbolTypeView::Function { return_types, .. } => if !resolve(s, name).1 {
                Err(internal("Closures are not supported yet"@))
            } else {
                Ok(return_types)
            },
            SymbolTypeView::Variable { .. } => Err(not_callable(name)),
        },
    }
}

/// A new binding: the value must have one of the declared types. Gives the
/// declared types and the scope with the variable.
pub open spec fn bind_types(
    name: Seq<char>,
    declared: Seq<Seq<char>>,
    found: Seq<Seq<char>>,
    s: Seq<Seq<EntryView>>,
) -> Result<(Seq<Seq<char>>, Seq<Seq<EntryView>>), ErrorView> {
    if !subset_of(found, declared) {
        Err(incompatible(declared, found))
    } else {
        Ok((declared, define(s, name, variable(declared, next_index(s) as u8))))
    }
}

/// An assignment: the variable must exist, and the value must have one of
/// its declared types.
pub open spec fn rebind_types(
    name: Seq<char>,
    found: Seq<Seq<char>>,
    s: Seq<Seq<EntryView>>,
) -> Result<
    (Seq<Seq<char>>, Seq<Seq<EntryView>>),
    ErrorView,
> {
    match resolve(s, name).0 {
        None => Err(ErrorView::SymbolNotFound(name)),
        Some(symbol) => match symbol.sym_type {
            SymbolTypeView::Function { .. } => Err(not_first_class()),
            SymbolTypeView::Variable { types } => if !subset_of(found, types) {
                Err(incompatible(types, found))
            } else {
                Ok((types, s))
            },
        },
    }
}

/// The type set of an expression in a scope, or the fault that makes the
/// expression ill-typed there.
pub open spec fn expr_types(
    e: ExprView,
    s: Seq<Seq<EntryView>>,
) -> Result<Seq<Seq<char>>, ErrorView>
    decreases e, 1nat,
{
    match e {
        ExprView::Integer(_) => Ok(seq!["int"@]),
        ExprView::Str(_) => Ok(seq!["str"@]),
        ExprView::Bool(_) => Ok(seq!["bool"@]),
        ExprView::NoneLiteral => Ok(seq!["none"@]),
        ExprView::Variable(name) => variable_types(name, s),
        ExprView::List(_) => list_types(e, s),
        ExprView::Op(_, _, _) => operation_types(e, s),
        ExprView::FunctionCall { .. } => invoke_types(e, s),
        ExprView::If { .. } => if_types(e, s),
        ExprView::While { .. } => while_types(e, s),
        ExprView::For { .. } => for_types(e, s),
    }
}

/// The first fault among the expressions of a sequence from the `i`th on.
pub open spec fn sequence_types(items: Seq<ExprView>, i: nat, s: Seq<Seq<EntryView>>) -> Result<
    (),
    ErrorView,
>
    decreases items, items.len() - i,
{
    if i >= items.len() {
        Ok(())
    } else {
        match expr_types(items[i as int], s) {
            Err(e) => Err(e),
            Ok(_) => sequence_types(items, i + 1, s),
        }
    }
}

/// The types of a list literal: `list`, where each item has a type.
pub open spec fn list_types(
    e: ExprView,
    s: Seq<Seq<EntryView>>,
) -> Result<Seq<Seq<char>>, ErrorView>
    decreases e, 0nat,
{
    match e {
        ExprView::List(items) => match sequence_types(items, 0, s) {
            Err(e) => Err(e),
            Ok(_) => Ok(seq!["list"@]),
        },
        _ => Err(other_kind()),
    }
}

/// The types of a binary operation, or its type error.
pub open spec fn operation_types(e: ExprView, s: Seq<Seq<EntryView>>) -> Result<
    Seq<Seq<char>>,
    ErrorView,
>
    decreases e, 0nat,
{
    match e {
        ExprView::Op(left, op, right) => match expr_types(*left, s) {
            Err(e) => Err(e),
            Ok(l) => match expr_types(*right, s) {
                Err(e) => Err(e),
                Ok(r) => op_types(op, l, r),
            },
        },
        _ => Err(other_kind()),
    }
}

/// The types that a call returns, or the error of the call.
pub open spec fn invoke_types(e: ExprView, s: Seq<Seq<EntryView>>) -> Result<
    Seq<Seq<char>>,
    ErrorView,
>
    decreases e, 0nat,
{
    match e {
        ExprView::FunctionCall { name, args } => match sequence_types(args, 0, s) {
            Err(e) => Err(e),
            Ok(_) => call_types(name, s),
        },
        _ => Err(other_kind()),
    }
}

/// A branch has the types of both blocks; without a second block, the type
/// `none` stands for it.
pub open spec fn if_types(e: ExprView, s: Seq<Seq<EntryView>>) -> Result<Seq<Seq<char>>, ErrorView>
    decreases e, 0nat,
{
    match e {
        ExprView::If { cond_expr, exprs, else_exprs } => match expr_types(*cond_expr, s) {
            Err(e) => Err(e),
            Ok(_) => match block_types(exprs, s) {
                Err(e) => Err(e),
                Ok(a) => match (match else_exprs {
                    Some(other) => block_types(other, s),
                    None => Ok(seq!["none"@]),
                }) {
                    Err(e) => Err(e),
                    Ok(b) => Ok(types_union(a, b)),
                },
            },
        },
        _ => Err(other_kind()),
    }
}

/// A loop has the types of its body.
pub open spec fn while_types(e: ExprView, s: Seq<Seq<EntryView>>) -> Result<
    Seq<Seq<char>>,
    ErrorView,
>
    decreases e, 0nat,
{
    match e {
        ExprView::While { cond_expr, exprs } => match expr_types(*cond_expr, s) {
            Err(e) => Err(e),
            Ok(_) => block_types(exprs, s),
        },
        _ => Err(other_kind()),
    }
}

/// A counting loop has the types of its body, in which the loop's variable
/// is an integer.
pub open spec fn for_types(e: ExprView, s: Seq<Seq<EntryView>>) -> Result<Seq<Seq<char>>, ErrorView>
    decreases e, 0nat,
{
    match e {
        ExprView::For { name, start, end, exprs } => block_types(exprs, loop_scope(name, s)),
        _ => Err(other_kind()),
    }
}

/// The type set of a statement and the scope after it, or the fault that
/// makes the statement ill-typed.
pub open spec fn stmt_types(st: StmtView, s: Seq<Seq<EntryView>>) -> Result<
    (Seq<Seq<char>>, Seq<Seq<EntryView>>),
    ErrorView,
>
    decreases st, 0nat,
{
    match st {
        StmtView::Expr(e) => match expr_types(e, s) {
            Err(e) => Err(e),
            Ok(t) => Ok((t, s)),
        },
        StmtView::Assignment { new, name, expr, types } => match expr_types(expr, s) {
            Err(e) => Err(e),
            Ok(found) => if new {
                match types {
                    None => Err(internal("Binding without declared types"@)),
                    Some(given) => bind_types(name, given, found, s),
                }
            } else {
                rebind_types(name, found, s)
            },
        },
    }
}

/// The statements of a list from the `i`th on, checked in order.
pub open spec fn stmts_types(
    list: Seq<StmtView>,
    i: nat,
    before: (Seq<Seq<char>>, Seq<Seq<EntryView>>),
) -> Result<(Seq<Seq<char>>, Seq<Seq<EntryView>>), ErrorView>
    decreases list, list.len() - i,
{
    if i >= list.len() {
        Ok(before)
    } else {
        match stmt_types(list[i as int], before.1) {
            Err(e) => Err(e),
            Ok(after) => stmts_types(list, i + 1, after),
        }
    }
}

/// The type set of a body in a scope: that of its last statement, or `none`.
pub open spec fn body_types(block: BlockView, s: Seq<Seq<EntryView>>) -> Result<
    Seq<Seq<char>>,
    ErrorView,
>
    decreases block, 1nat,
{
    match stmts_types(block.stmts, 0, (seq!["none"@], s)) {
        Err(e) => Err(e),
        Ok(before) => match block.tail {
            Some(last) => match stmt_types(*last, before.1) {
                Err(e) => Err(e),
                Ok(after) => Ok(after.0),
            },
            None => Ok(before.0),
        },
    }
}

/// The type set of a block: that of its body in a fresh scope.
pub open spec fn block_types(block: BlockView, s: Seq<Seq<EntryView>>) -> Result<
    Seq<Seq<char>>,
    ErrorView,
>
    decreases block, 2nat,
{
    body_types(block, s.push(Seq::empty()))
}

/// The global scope after the definitions from the `i`th on were declared.
pub open spec fn declared_scope(
    defs: Seq<DefinitionView>,
    i: nat,
    global: Seq<Seq<EntryView>>,
) -> Result<
    Seq<Seq<EntryView>>,
    ErrorView,
>
    decreases defs.len() - i,
{
    if i >= defs.len() {
        Ok(global)
    } else if resolve(global, defs[i as int].name).0 is Some {
        Err(defined_twice(defs[i as int].name))
    } else {
        declared_scope(
            defs,
            i + 1,
            define(
                global,
                defs[i as int].name,
                function_symbol(defs[i as int], next_index(global) as u8),
            ),
        )
    }
}

/// The scope of a body after the arguments from the `i`th on were defined.
pub open spec fn arguments_scope(
    args: Seq<(Seq<char>, Seq<Seq<char>>)>,
    i: nat,
    s: Seq<Seq<EntryView>>,
) -> Seq<Seq<EntryView>>
    decreases args.len() - i,
{
    if i >= args.len() {
        s
    } else {
        arguments_scope(
            args,
            i + 1,
            define(s, args[i as int].0, variable(args[i as int].1, next_index(s) as u8)),
        )
    }
}

/// A definition is well-typed when its body is, and gives one of the
/// declared return types.
pub open spec fn definition_typed(def: DefinitionView, global: Seq<Seq<EntryView>>) -> Result<
    (),
    ErrorView,
> {
    match body_types(def.exprs, arguments_scope(def.args, 0, global.push(Seq::empty()))) {
        Err(e) => Err(e),
        Ok(found) => if !subset_of(found, def.return_type) {
            Err(bad_return(def.name, def.return_type, found))
        } else {
            Ok(())
        },
    }
}

/// The first fault among the definitions from the `i`th on.
pub open spec fn definitions_typed(
    defs: Seq<DefinitionView>,
    i: nat,
    global: Seq<Seq<EntryView>>,
) -> Result<
    (),
    ErrorView,
>
    decreases defs.len() - i,
{
    if i >= defs.len() {
        Ok(())
    } else {
        match definition_typed(defs[i as int], global) {
            Err(e) => Err(e),
            Ok(_) => definitions_typed(defs, i + 1, global),
        }
    }
}

/// The first fault of a program, if it has one: a name defined twice, a name
/// that is not bound, a name used as what it is not, or a value of a type
/// that is not allowed where it stands.
pub open spec fn program_typed(defs: Seq<DefinitionView>) -> Result<(), ErrorView> {
    match declared_scope(defs, 0, seq![Seq::<EntryView>::empty()]) {
        Err(e) => Err(e),
        Ok(global) => definitions_typed(defs, 0, global),
    }
}

/// A program is well-typed when it has no fault.
pub open spec fn well_typed(defs: Seq<DefinitionView>) -> bool {
    program_typed(defs) is Ok
}

/// A visit agrees with the typing of what was visited: it succeeds with the
/// types of the typing and leaves the scope as it was, or it fails with the
/// fault of the typing or at a limit of the format.
pub open spec fn agrees(
    model: Result<Visit, ErrorView>,
    typed: Result<Seq<Seq<char>>, ErrorView>,
    s: Seq<Seq<EntryView>>,
) -> bool {
    match model {
        Ok(v) => typed == Ok::<Seq<Seq<char>>, ErrorView>(v.types) && v.scope == s,
        Err(e) => limit_error(e) || typed == Err::<Seq<Seq<char>>, ErrorView>(e),
    }
}

/// A visit of statements agrees with their typing: it succeeds with the
/// types and the scope of the typing, or it fails with the fault of the
/// typing or at a limit of the format.
pub open spec fn agrees_with_scope(
    model: Result<Visit, ErrorView>,
    typed: Result<(Seq<Seq<char>>, Seq<Seq<EntryView>>), ErrorView>,
) -> bool {
    match model {
        Ok(v) => typed == Ok::<(Seq<Seq<char>>, Seq<Seq<EntryView>>), ErrorView>(
            (v.types, v.scope),
        ),
        Err(e) => limit_error(e) || typed == Err::<
            (Seq<Seq<char>>, Seq<Seq<EntryView>>),
            ErrorView,
        >(e),
    }
}

/// A run of visits agrees with the typing of what was visited.
pub open spec fn run_agrees(
    model: Result<BuilderView, ErrorView>,
    typed: Result<(), ErrorView>,
) -> bool {
    match model {
        Ok(_) => typed is Ok,
        Err(e) => limit_error(e) || typed == Err::<(), ErrorView>(e),
    }
}

proof fn lemma_load_typed(
    value: Value,
    types: Seq<Seq<char>>,
    s: Seq<Seq<EntryView>>,
    b: BuilderView,
)
    ensures
        agrees(load_model(value, types, s, b), Ok(types), s),
{
    reveal(load_model);
}

proof fn lemma_variable_typed(name: Seq<char>, s: Seq<Seq<EntryView>>, b: BuilderView)
    ensures
        agrees(variable_model(name, s, b), variable_types(name, s), s),
{
    reveal(variable_model);
}

proof fn lemma_call_typed(name: Seq<char>, argc: nat, s: Seq<Seq<EntryView>>, b: BuilderView)
    ensures
        agrees(call_model(name, argc, s, b), call_types(name, s), s),
{
    reveal(call_model);
}

proof fn lemma_bind_typed(
    name: Seq<char>,
    declared: Seq<Seq<char>>,
    value: Visit,
    s: Seq<Seq<EntryView>>,
)
    ensures
        agrees_with_scope(
            bind_model(name, declared, value, s),
            bind_types(name, declared, value.types, s),
        ),
{
    reveal(bind_model);
}

proof fn lemma_rebind_typed(name: Seq<char>, value: Visit, s: Seq<Seq<EntryView>>)
    ensures
        agrees_with_scope(rebind_model(name, value, s), rebind_types(name, value.types, s)),
{
    reveal(rebind_model);
}

proof fn lemma_close_typed(body: Visit, head: int, exit: int, s: Seq<Seq<EntryView>>)
    ensures
        agrees(close_loop(body, head, exit, s), Ok(body.types), s),
{
    reveal(close_loop);
}

/// Compiling an expression agrees with its typing.
pub proof fn lemma_expr_typed(e: ExprView, s: Seq<Seq<EntryView>>, b: BuilderView)
    ensures
        agrees(expr_model(e, s, b), expr_types(e, s), s),
    decreases e, 1nat,
{
    match e {
        ExprView::Integer(n) => {
            lemma_load_typed(Value::Int(n), seq!["int"@], s, b);
        },
        ExprView::Str(t) => {
            lemma_load_typed(Value::Str(t), seq!["str"@], s, b);
        },
        ExprView::Bool(_) => {},
        ExprView::NoneLiteral => {},
        ExprView::Variable(name) => {
            lemma_variable_typed(name, s, b);
        },
        ExprView::List(_) => {
            lemma_list_typed(e, s, b);
        },
        ExprView::FunctionCall { .. } => {
            lemma_invoke_typed(e, s, b);
        },
        ExprView::Op(_, _, _) => {
            lemma_operation_typed(e, s, b);
        },
        ExprView::If { .. } => {
            lemma_if_typed(e, s, b);
        },
        ExprView::While { .. } => {
            lemma_while_typed(e, s, b);
        },
        ExprView::For { .. } => {
            lemma_for_typed(e, s, b);
        },
    }
}

/// Compiling the expressions of a sequence agrees with their typing.
pub proof fn lemma_sequence_typed(
    items: Seq<ExprView>,
    i: nat,
    s: Seq<Seq<EntryView>>,
    b: BuilderView,
)
    ensures
        run_agrees(sequence_model(items, i, s, b), sequence_types(items, i, s)),
    decreases items, items.len() - i,
{
    if i < items.len() {
        lemma_expr_typed(items[i as int], s, b);
        match expr_model(items[i as int], s, b) {
            Ok(v) => {
                lemma_sequence_typed(items, i + 1, s, v.builder);
            },
            Err(_) => {},
        }
    }
}

proof fn lemma_list_typed(e: ExprView, s: Seq<Seq<EntryView>>, b: BuilderView)
    requires
        e is List,
    ensures
        agrees(list_model(e, s, b), list_types(e, s), s),
    decreases e, 0nat,
{
    match e {
        ExprView::List(items) => {
            lemma_sequence_typed(items, 0, s, b);
        },
        _ => {},
    }
}

proof fn lemma_invoke_typed(e: ExprView, s: Seq<Seq<EntryView>>, b: BuilderView)
    requires
        e is FunctionCall,
    ensures
        agrees(invoke_model(e, s, b), invoke_types(e, s), s),
    decreases e, 0nat,
{
    match e {
        ExprView::FunctionCall { name, args } => {
            lemma_sequence_typed(args, 0, s, b);
            match sequence_model(args, 0, s, b) {
                Ok(after) => {
                    lemma_call_typed(name, args.len(), s, after);
                },
                Err(_) => {},
            }
        },
        _ => {},
    }
}

proof fn lemma_operation_typed(e: ExprView, s: Seq<Seq<EntryView>>, b: BuilderView)
    requires
        e is Op,
    ensures
        agrees(op_model(e, s, b), operation_types(e, s), s),
    decreases e, 0nat,
{
    match e {
        ExprView::Op(left, op, right) => {
            lemma_expr_typed(*left, s, b);
            match expr_model(*left, s, b) {
                Ok(l) => {
                    lemma_expr_typed(*right, s, l.builder);
                },
                Err(_) => {},
            }
        },
        _ => {},
    }
}

proof fn lemma_else_typed(
    first: Visit,
    exit: int,
    second: Result<Visit, ErrorView>,
    typed: Result<Seq<Seq<char>>, ErrorView>,
    s: Seq<Seq<EntryView>>,
)
    requires
        agrees(second, typed, s),
    ensures
        agrees(
            else_model(first, exit, second, s),
            match typed {
                Err(e) => Err(e),
                Ok(b) => Ok(types_union(first.types, b)),
            },
            s,
        ),
{
    reveal(else_model);
}

proof fn lemma_if_typed(e: ExprView, s: Seq<Seq<EntryView>>, b: BuilderView)
    requires
        e is If,
    ensures
        agrees(if_model(e, s, b), if_types(e, s), s),
    decreases e, 0nat,
{
    match e {
        ExprView::If { cond_expr, exprs, else_exprs } => {
            lemma_expr_typed(*cond_expr, s, b);
            match expr_model(*cond_expr, s, b) {
                Ok(c) => {
                    let b1 = c.builder.start_jump_if_false();
                    lemma_block_typed(exprs, s, b1);
                    match block_model(exprs, s, b1) {
                        Ok(first) => {
                            if first.builder.can_patch_after(b1.last_index(), 2) {
                                let b2 = first.builder.start_else(b1.last_index());
                                let second = match else_exprs {
                                    Some(other) => block_model(other, s, b2),
                                    None => Ok(
                                        Visit {
                                            types: seq!["none"@],
                                            builder: b2.emit(seq![crate::opcodes::LOAD_NONE]),
                                            scope: s,
                                        },
                                    ),
                                };
                                let typed = match else_exprs {
                                    Some(other) => block_types(other, s),
                                    None => Ok(seq!["none"@]),
                                };
                                match else_exprs {
                                    Some(other) => {
                                        lemma_block_typed(other, s, b2);
                                    },
                                    None => {},
                                }
                                assert(if_model(e, s, b) == else_model(
                                    first,
                                    b1.last_index(),
                                    second,
                                    s,
                                ));
                                lemma_else_typed(first, b1.last_index(), second, typed, s);
                            }
                        },
                        Err(_) => {},
                    }
                },
                Err(_) => {},
            }
        },
        _ => {},
    }
}

proof fn lemma_while_typed(e: ExprView, s: Seq<Seq<EntryView>>, b: BuilderView)
    requires
        e is While,
    ensures
        agrees(while_model(e, s, b), while_types(e, s), s),
    decreases e, 0nat,
{
    match e {
        ExprView::While { cond_expr, exprs } => {
            lemma_expr_typed(*cond_expr, s, b);
            match expr_model(*cond_expr, s, b) {
                Ok(c) => {
                    let b1 = c.builder.start_jump_if_false();
                    lemma_block_typed(exprs, s, b1);
                    match block_model(exprs, s, b1) {
                        Ok(body) => {
                            lemma_close_typed(body, b.last_index(), b1.last_index(), s);
                        },
                        Err(_) => {},
                    }
                },
                Err(_) => {},
            }
        },
        _ => {},
    }
}

proof fn lemma_for_head_typed(start: i64, end: i64, s: Seq<Seq<EntryView>>, b: BuilderView)
    ensures
        for_head_model(start, end, s, b) matches Err(e) ==> limit_error(e),
{
    reveal(for_head_model);
    reveal(load_model);
}

proof fn lemma_for_typed(e: ExprView, s: Seq<Seq<EntryView>>, b: BuilderView)
    requires
        e is For,
    ensures
        agrees(for_model(e, s, b), for_types(e, s), s),
    decreases e, 0nat,
{
    match e {
        ExprView::For { name, start, end, exprs } => {
            lemma_for_head_typed(start, end, s, b);
            if next_index(s.push(Seq::empty())) <= 255 {
                match for_head_model(start, end, s, b) {
                    Ok((stored, tested)) => {
                        lemma_block_typed(exprs, loop_scope(name, s), tested);
                        match block_model(exprs, loop_scope(name, s), tested) {
                            Ok(body) => {
                                let closing = Visit {
                                    types: body.types,
                                    builder: body.builder.emit(
                                        seq![
                                            crate::opcodes::LOAD_FAST,
                                            crate::compiler::loop_slot(s),
                                            crate::opcodes::INC_ONE,
                                            crate::opcodes::STORE_FAST,
                                            crate::compiler::loop_slot(s),
                                        ],
                                    ),
                                    scope: s,
                                };
                                lemma_close_typed(
                                    closing,
                                    stored.last_index(),
                                    tested.last_index(),
                                    s,
                                );
                            },
                            Err(_) => {},
                        }
                    },
                    Err(_) => {},
                }
            }
        },
        _ => {},
    }
}

/// Compiling a statement agrees with its typing.
pub proof fn lemma_stmt_typed(st: StmtView, s: Seq<Seq<EntryView>>, b: BuilderView)
    ensures
        agrees_with_scope(stmt_model(st, s, b), stmt_types(st, s)),
    decreases st, 0nat,
{
    match st {
        StmtView::Expr(e) => {
            lemma_expr_typed(e, s, b);
        },
        StmtView::Assignment { new, name, expr, types } => {
            lemma_expr_typed(expr, s, b);
            match expr_model(expr, s, b) {
                Ok(value) => {
                    if new {
                        match types {
                            Some(given) => {
                                lemma_bind_typed(name, given, value, s);
                            },
                            None => {},
                        }
                    } else {
                        lemma_rebind_typed(name, value, s);
                    }
                },
                Err(_) => {},
            }
        },
    }
}

/// Compiling the statements of a list agrees with their typing.
pub proof fn lemma_stmts_typed(list: Seq<StmtView>, i: nat, before: Visit)
    ensures
        agrees_with_scope(
            stmts_model(list, i, before),
            stmts_types(list, i, (before.types, before.scope)),
        ),
    decreases list, list.len() - i,
{
    if i < list.len() {
        lemma_stmt_typed(list[i as int], before.scope, before.builder);
        match stmt_model(list[i as int], before.scope, before.builder) {
            Ok(v) => {
                lemma_stmts_typed(list, i + 1, v);
            },
            Err(_) => {},
        }
    }
}

/// Compiling a body agrees with its typing, but for the scope, which the
/// body may extend.
pub proof fn lemma_body_typed(block: BlockView, s: Seq<Seq<EntryView>>, b: BuilderView)
    ensures
        match body_model(block, s, b) {
            Ok(v) => body_types(block, s) == Ok::<Seq<Seq<char>>, ErrorView>(v.types),
            Err(e) => limit_error(e) || body_types(block, s) == Err::<Seq<Seq<char>>, ErrorView>(e),
        },
    decreases block, 1nat,
{
    let start = Visit { types: seq!["none"@], builder: b, scope: s };
    lemma_stmts_typed(block.stmts, 0, start);
    match stmts_model(block.stmts, 0, start) {
        Ok(before) => {
            match block.tail {
                Some(last) => {
                    lemma_stmt_typed(*last, before.scope, before.builder);
                },
                None => {},
            }
        },
        Err(_) => {},
    }
}

/// Compiling a block agrees with its typing.
pub proof fn lemma_block_typed(block: BlockView, s: Seq<Seq<EntryView>>, b: BuilderView)
    ensures
        agrees(block_model(block, s, b), block_types(block, s), s),
    decreases block, 2nat,
{
    lemma_body_typed(block, s.push(Seq::empty()), b);
}

/// The first pass agrees with the declarations of the typing.
pub proof fn lemma_declared(defs: Seq<DefinitionView>, i: nat, global: Seq<Seq<EntryView>>)
    ensures
        match declare_model(defs, i, global) {
            Ok(s) => declared_scope(defs, i, global) == Ok::<Seq<Seq<EntryView>>, ErrorView>(s),
            Err(e) => limit_error(e) || declared_scope(defs, i, global) == Err::<
                Seq<Seq<EntryView>>,
                ErrorView,
            >(e),
        },
    decreases defs.len() - i,
{
    if i < defs.len() && resolve(global, defs[i as int].name).0 is None && next_index(global)
        <= 255 {
        lemma_declared(
            defs,
            i + 1,
            define(
                global,
                defs[i as int].name,
                function_symbol(defs[i as int], next_index(global) as u8),
            ),
        );
    }
}

/// The scope that the arguments are defined in agrees with that of the
/// typing.
pub proof fn lemma_arguments(args: Seq<(Seq<char>, Seq<Seq<char>>)>, i: nat, s: Seq<Seq<EntryView>>)
    ensures
        match arguments_model(args, i, s) {
            Ok(after) => arguments_scope(args, i, s) == after,
            Err(e) => limit_error(e),
        },
    decreases args.len() - i,
{
    if i < args.len() && next_index(s) <= 255 {
        lemma_arguments(
            args,
            i + 1,
            define(s, args[i as int].0, variable(args[i as int].1, next_index(s) as u8)),
        );
    }
}

/// Compiling a definition agrees with its typing.
pub proof fn lemma_definition_typed(
    def: DefinitionView,
    global: Seq<Seq<EntryView>>,
    b: BuilderView,
)
    ensures
        run_agrees(function_model(def, global, b), definition_typed(def, global)),
{
    reveal(function_model);
    lemma_arguments(def.args, 0, global.push(Seq::empty()));
    match arguments_model(def.args, 0, global.push(Seq::empty())) {
        Ok(local) => {
            lemma_body_typed(
                def.exprs,
                local,
                b.begin(def.name, def.args.len() as usize).returning(def.return_type),
            );
        },
        Err(_) => {},
    }
}

/// Compiling the definitions of a program agrees with their typing.
pub proof fn lemma_definitions_typed(
    defs: Seq<DefinitionView>,
    i: nat,
    global: Seq<Seq<EntryView>>,
    b: BuilderView,
)
    ensures
        run_agrees(functions_model(defs, i, global, b), definitions_typed(defs, i, global)),
    decreases defs.len() - i,
{
    if i < defs.len() {
        lemma_definition_typed(defs[i as int], global, b);
        match function_model(defs[i as int], global, b) {
            Ok(after) => {
                lemma_definitions_typed(defs, i + 1, global, after);
            },
            Err(_) => {},
        }
    }
}

/// The compiler accepts the well-typed programs: a program compiles exactly
/// when it has no fault, unless it runs into a limit of the bytecode format;
/// and when the compiler reports another error, it is the first fault of the
/// program.
pub proof fn lemma_well_typed_compiles(defs: Seq<DefinitionView>, name: Seq<char>)
    ensures
        match compile_model(defs, name) {
            Ok(_) => well_typed(defs),
            Err(e) => limit_error(e) || program_typed(defs) == Err::<(), ErrorView>(e),
        },
        well_typed(defs) ==> compile_model(defs, name) is Ok || limit_error(
            compile_model(defs, name)->Err_0,
        ),
{
    lemma_declared(defs, 0, seq![Seq::<EntryView>::empty()]);
    match declare_model(defs, 0, seq![Seq::<EntryView>::empty()]) {
        Ok(global) => {
            lemma_definitions_typed(
                defs,
                0,
                global,
                BuilderView { module: ModuleView::empty(name), current: None },
            );
        },
        Err(_) => {},
    }
}

} // verus!
