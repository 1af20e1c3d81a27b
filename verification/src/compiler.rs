use vstd::prelude::*;
use crate::ast::{
    args_view, block_view, boxed_view, exprs_view, lemma_program_args_counted, program_view,
    stmts_view, ArgAst, BinOpAst, BlockView, DefinitionView, ExprAst, ExprView, ModStmtAst,
    RangeAst, Stmts, StmtAst, StmtView,
};
use crate::errors::{parse_failure, ErrorView, GearsError};
use crate::lexer::{lex, lex_model};
use crate::parser::{parse_model, parse_tokens};
use crate::lexer::Span;
use crate::constants::{lemma_constants_pooled_once, written_in_program};
use crate::depths::{
    all_stacks_in_order, balanced, joined, lemma_compiled_joins_agree,
    lemma_compiled_stacks_in_order,
};
use crate::jumps::{all_sound, lemma_compiled_code_in_order};
use crate::slots::{all_slots_in_order, lemma_compiled_slots_in_order};
use crate::typing::{lemma_well_typed_compiles, limit_error, program_typed, well_typed};
use crate::module::{
    marker, no_duplicates, pool_index, BuilderView, Module, ModuleBuilder, ModuleView,
};
use crate::object::{GearsObject, Value};
use crate::opcodes::{
    BIN_ADD, BIN_DIV, BIN_EQUAL, BIN_GREATER_THAN, BIN_GREATER_THAN_EQUAL, BIN_LESS_THAN,
    BIN_LESS_THAN_EQUAL, BIN_MUL, BIN_NOT_EQUAL, BIN_SUB, BUILD_LIST, CALL_FUNCTION, INC_ONE, JUMP,
    LOAD_FALSE, LOAD_FAST, LOAD_NONE, LOAD_TRUE, STORE_FAST,
};
use crate::symbol::{
    clone_types, define, next_index, resolve, subset_of, types_contain, types_subset, EntryView,
    SymbolTable, SymbolType, SymbolTypeView, SymbolView, Type, Types,
};
use crate::text::append_str;

verus! {

/// What visiting a piece of the program gives: the type set of its value, and
/// the builder and the scope as they are afterwards.
pub struct Visit {
    pub types: Seq<Seq<char>>,
    pub builder: BuilderView,
    pub scope: Seq<Seq<EntryView>>,
}

/// The tags of a type set, separated by ` | `.
pub open spec fn types_text(types: Seq<Seq<char>>) -> Seq<char>
    decreases types.len(),
{
    if types.len() == 0 {
        Seq::empty()
    } else if types.len() == 1 {
        types[0]
    } else {
        types_text(types.drop_last()) + " | "@ + types.last()
    }
}

/// The union of two type sets: the tags of `a`, then each tag of `b` that has
/// not come before.
pub open spec fn types_union(a: Seq<Seq<char>>, b: Seq<Seq<char>>) -> Seq<Seq<char>>
    decreases b.len(),
{
    if b.len() == 0 {
        a
    } else {
        let u = types_union(a, b.drop_last());
        if u.contains(b.last()) {
            u
        } else {
            u.push(b.last())
        }
    }
}

/// The type set holds the tag `tag` and no other.
pub open spec fn exactly(types: Seq<Seq<char>>, tag: Seq<char>) -> bool {
    types.len() > 0 && forall|i: int| 0 <= i < types.len() ==> types[i] == tag
}

/// The failure of an assignment whose value may have a type that the variable
/// was not declared with.
pub open spec fn incompatible(declared: Seq<Seq<char>>, found: Seq<Seq<char>>) -> ErrorView {
    ErrorView::TypeError(types_text(declared) + " is not compatible with "@ + types_text(found))
}

/// The failure of an arithmetic operator on operands it is not defined for.
pub open spec fn undefined_operation(
    op: BinOpAst,
    left: Seq<Seq<char>>,
    right: Seq<Seq<char>>,
) -> ErrorView {
    ErrorView::TypeError(
        "Unable to perform "@ + op.text() + " on "@ + types_text(left) + " and "@ + types_text(
            right,
        ),
    )
}

/// The failure of a function whose body may give a type that the function was
/// not declared to return.
pub open spec fn bad_return(
    name: Seq<char>,
    declared: Seq<Seq<char>>,
    found: Seq<Seq<char>>,
) -> ErrorView {
    ErrorView::TypeError(
        "Function "@ + name + " returns "@ + types_text(found) + " but declares "@ + types_text(
            declared,
        ),
    )
}

/// The error for a call of a name that is bound to a variable.
pub open spec fn not_callable(name: Seq<char>) -> ErrorView {
    ErrorView::ParseError { location: Span::at(0, 0), message: name + " is not callable"@ }
}

/// The error for a second definition of a name in one scope.
pub open spec fn defined_twice(name: Seq<char>) -> ErrorView {
    ErrorView::ParseError { location: Span::at(0, 0), message: name + " is defined twice"@ }
}

/// An error of the compiler itself, with its message.
pub open spec fn internal(message: Seq<char>) -> ErrorView {
    ErrorView::InternalCompilerError(message)
}

/// The error for a jump whose distance does not fit in a byte.
pub open spec fn jump_too_far() -> ErrorView {
    internal("Jump too far"@)
}

/// The error for a function that is used as a value.
pub open spec fn not_first_class() -> ErrorView {
    internal("Functions are not first class yet"@)
}

/// The opcode of a binary operator.
pub open spec fn op_code(op: BinOpAst) -> u8 {
    match op {
        BinOpAst::Add => BIN_ADD,
        BinOpAst::Sub => BIN_SUB,
        BinOpAst::Mul => BIN_MUL,
        BinOpAst::Div => BIN_DIV,
        BinOpAst::EqEq => BIN_EQUAL,
        BinOpAst::NotEq => BIN_NOT_EQUAL,
        BinOpAst::LessThan => BIN_LESS_THAN,
        BinOpAst::LessThanEq => BIN_LESS_THAN_EQUAL,
        BinOpAst::GreaterThan => BIN_GREATER_THAN,
        BinOpAst::GreaterThanEq => BIN_GREATER_THAN_EQUAL,
    }
}

/// The type set of `left op right`. Arithmetic wants both sides to be
/// integers and gives an integer; `+` also takes two texts and gives a text.
/// A comparison takes any operands and gives a boolean.
#[verifier::opaque]
pub open spec fn op_types(op: BinOpAst, left: Seq<Seq<char>>, right: Seq<Seq<char>>) -> Result<
    Seq<Seq<char>>,
    ErrorView,
> {
    if op.is_arithmetic() {
        if exactly(left, "int"@) && exactly(right, "int"@) {
            Ok(seq!["int"@])
        } else if op == BinOpAst::Add && exactly(left, "str"@) && exactly(right, "str"@) {
            Ok(seq!["str"@])
        } else {
            Err(undefined_operation(op, left, right))
        }
    } else {
        Ok(seq!["bool"@])
    }
}

/// The symbol of a variable with the given type set and slot.
pub open spec fn variable(types: Seq<Seq<char>>, slot: u8) -> SymbolView {
    SymbolView { sym_type: SymbolTypeView::Variable { types: types }, index: slot }
}

/// Loading a constant: it is interned, and its place must fit in a byte.
#[verifier::opaque]
pub open spec fn load_model(
    value: Value,
    types: Seq<Seq<char>>,
    s: Seq<Seq<EntryView>>,
    b: BuilderView,
) -> Result<Visit, ErrorView> {
    if pool_index(b.module.consts, value) > 255 {
        Err(internal("Too many constants"@))
    } else {
        Ok(Visit { types: types, builder: b.load_value(value), scope: s })
    }
}

/// Reading a variable.
#[verifier::opaque]
pub open spec fn variable_model(name: Seq<char>, s: Seq<Seq<EntryView>>, b: BuilderView) -> Result<
    Visit,
    ErrorView,
> {
    match resolve(s, name).0 {
        None => Err(ErrorView::SymbolNotFound(name)),
        Some(symbol) => match symbol.sym_type {
            SymbolTypeView::Function { .. } => Err(not_first_class()),
            SymbolTypeView::Variable { types } => Ok(
                Visit { types: types, builder: b.emit(seq![LOAD_FAST, symbol.index]), scope: s },
            ),
        },
    }
}

/// Calling `name` with `argc` arguments, which are on the stack already.
#[verifier::opaque]
pub open spec fn call_model(
    name: Seq<char>,
    argc: nat,
    s: Seq<Seq<EntryView>>,
    b: BuilderView,
) -> Result<Visit, ErrorView> {
    match resolve(s, name).0 {
        None => Err(ErrorView::SymbolNotFound(name)),
        Some(symbol) => match symbol.sym_type {
            SymbolTypeView::Function { return_types, .. } => if !resolve(s, name).1 {
                Err(internal("Closures are not supported yet"@))
            } else if argc > 255 {
                Err(internal("Too many arguments"@))
            } else {
                Ok(
                    Visit {
                        types: return_types,
                        builder: b.emit(seq![CALL_FUNCTION, symbol.index, argc as u8]),
                        scope: s,
                    },
                )
            },
            SymbolTypeView::Variable { .. } => Err(not_callable(name)),
        },
    }
}

/// Closing a loop whose marker is `head` and whose exit jump stands at `exit`.
#[verifier::opaque]
pub open spec fn close_loop(body: Visit, head: int, exit: int, s: Seq<Seq<EntryView>>) -> Result<
    Visit,
    ErrorView,
> {
    if BuilderView::loop_target(head) > 255 || !body.builder.can_patch_after(exit, 2) {
        Err(jump_too_far())
    } else {
        Ok(Visit { types: body.types, builder: body.builder.end_loop(head, exit), scope: s })
    }
}

/// Binding a new variable to the value on the stack.
#[verifier::opaque]
pub open spec fn bind_model(
    name: Seq<char>,
    declared: Seq<Seq<char>>,
    value: Visit,
    s: Seq<Seq<EntryView>>,
) -> Result<Visit, ErrorView> {
    if !subset_of(value.types, declared) {
        Err(incompatible(declared, value.types))
    } else if next_index(s) > 255 {
        Err(internal("Too many variables"@))
    } else {
        Ok(
            Visit {
                types: declared,
                builder: value.builder.emit(seq![STORE_FAST, next_index(s) as u8]),
                scope: define(s, name, variable(declared, next_index(s) as u8)),
            },
        )
    }
}

/// Storing the value on the stack in a variable that exists.
#[verifier::opaque]
pub open spec fn rebind_model(name: Seq<char>, value: Visit, s: Seq<Seq<EntryView>>) -> Result<
    Visit,
    ErrorView,
> {
    match resolve(s, name).0 {
        None => Err(ErrorView::SymbolNotFound(name)),
        Some(symbol) => match symbol.sym_type {
            SymbolTypeView::Function { .. } => Err(not_first_class()),
            SymbolTypeView::Variable { types } => if !subset_of(value.types, types) {
                Err(incompatible(types, value.types))
            } else {
                Ok(
                    Visit {
                        types: types,
                        builder: value.builder.emit(seq![STORE_FAST, symbol.index]),
                        scope: s,
                    },
                )
            },
        },
    }
}

/// What compiling the expression `e` in scope `s` does to the builder `b`, and
/// the type set of the expression; or the error that stops it.
pub open spec fn expr_model(e: ExprView, s: Seq<Seq<EntryView>>, b: BuilderView) -> Result<
    Visit,
    ErrorView,
>
    decreases e, 1nat,
{
    match e {
        ExprView::Integer(n) => load_model(Value::Int(n), seq!["int"@], s, b),
        ExprView::Str(t) => load_model(Value::Str(t), seq!["str"@], s, b),
        ExprView::Bool(v) => Ok(
            Visit {
                types: seq!["bool"@],
                builder: b.emit(seq![if v {
                    LOAD_TRUE
                } else {
                    LOAD_FALSE
                }]),
                scope: s,
            },
        ),
        ExprView::NoneLiteral => Ok(
            Visit { types: seq!["none"@], builder: b.emit(seq![LOAD_NONE]), scope: s },
        ),
        ExprView::Variable(name) => variable_model(name, s, b),
        ExprView::List(_) => list_model(e, s, b),
        ExprView::Op(_, _, _) => op_model(e, s, b),
        ExprView::FunctionCall { .. } => invoke_model(e, s, b),
        ExprView::If { .. } => if_model(e, s, b),
        ExprView::While { .. } => while_model(e, s, b),
        ExprView::For { .. } => for_model(e, s, b),
    }
}

/// The error that stands for an expression of another kind than a model is
/// for. No compilation reports it.
pub open spec fn other_kind() -> ErrorView {
    internal("Expression of another kind"@)
}

/// A list: its elements in order, then the instruction that builds it.
pub open spec fn list_model(e: ExprView, s: Seq<Seq<EntryView>>, b: BuilderView) -> Result<
    Visit,
    ErrorView,
>
    decreases e, 0nat,
{
    match e {
        ExprView::List(items) => match sequence_model(items, 0, s, b) {
            Err(e) => Err(e),
            Ok(after) => if items.len() > 255 {
                Err(internal("Too many list elements"@))
            } else {
                Ok(
                    Visit {
                        types: seq!["list"@],
                        builder: after.emit(seq![BUILD_LIST, items.len() as u8]),
                        scope: s,
                    },
                )
            },
        },
        _ => Err(other_kind()),
    }
}

/// A binary operation: the left operand, the right operand, the operator.
pub open spec fn op_model(e: ExprView, s: Seq<Seq<EntryView>>, b: BuilderView) -> Result<
    Visit,
    ErrorView,
>
    decreases e, 0nat,
{
    match e {
        ExprView::Op(left, op, right) => match expr_model(*left, s, b) {
            Err(e) => Err(e),
            Ok(l) => match expr_model(*right, s, l.builder) {
                Err(e) => Err(e),
                Ok(r) => match op_types(op, l.types, r.types) {
                    Err(e) => Err(e),
                    Ok(t) => Ok(
                        Visit { types: t, builder: r.builder.emit(seq![op_code(op)]), scope: s },
                    ),
                },
            },
        },
        _ => Err(other_kind()),
    }
}

/// A call: the arguments in order, then the call instruction.
pub open spec fn invoke_model(e: ExprView, s: Seq<Seq<EntryView>>, b: BuilderView) -> Result<
    Visit,
    ErrorView,
>
    decreases e, 0nat,
{
    match e {
        ExprView::FunctionCall { name, args } => match sequence_model(args, 0, s, b) {
            Err(e) => Err(e),
            Ok(after) => call_model(name, args.len(), s, after),
        },
        _ => Err(other_kind()),
    }
}

/// The second half of a branch: after the first block, whose builder is
/// `first.builder`, and whose conditional jump stands at `exit`.
#[verifier::opaque]
pub open spec fn else_model(
    first: Visit,
    exit: int,
    second: Result<Visit, ErrorView>,
    s: Seq<Seq<EntryView>>,
) -> Result<Visit, ErrorView> {
    match second {
        Err(e) => Err(e),
        Ok(o) => if !o.builder.can_patch(first.builder.emit(seq![JUMP, 0u8]).last_index()) {
            Err(jump_too_far())
        } else {
            Ok(
                Visit {
                    types: types_union(first.types, o.types),
                    builder: o.builder.patch(first.builder.emit(seq![JUMP, 0u8]).last_index()),
                    scope: s,
                },
            )
        },
    }
}

/// A branch: the condition, a conditional jump over the first block, the
/// first block, a jump over the second block, and the second block; without
/// one, the value `none` stands in its place.
pub open spec fn if_model(e: ExprView, s: Seq<Seq<EntryView>>, b: BuilderView) -> Result<
    Visit,
    ErrorView,
>
    decreases e, 0nat,
{
    match e {
        ExprView::If { cond_expr, exprs, else_exprs } => match expr_model(*cond_expr, s, b) {
            Err(e) => Err(e),
            Ok(c) => match block_model(exprs, s, c.builder.start_jump_if_false()) {
                Err(e) => Err(e),
                Ok(a) => if !a.builder.can_patch_after(
                    c.builder.start_jump_if_false().last_index(),
                    2,
                ) {
                    Err(jump_too_far())
                } else {
                    else_model(
                        a,
                        c.builder.start_jump_if_false().last_index(),
                        match else_exprs {
                            Some(other) => block_model(
                                other,
                                s,
                                a.builder.start_else(c.builder.start_jump_if_false().last_index()),
                            ),
                            None => Ok(
                                Visit {
                                    types: seq!["none"@],
                                    builder: a.builder.start_else(
                                        c.builder.start_jump_if_false().last_index(),
                                    ).emit(seq![LOAD_NONE]),
                                    scope: s,
                                },
                            ),
                        },
                        s,
                    )
                },
            },
        },
        _ => Err(other_kind()),
    }
}

/// A loop: the condition, a conditional jump out, the body, and the jump
/// back to the condition.
pub open spec fn while_model(e: ExprView, s: Seq<Seq<EntryView>>, b: BuilderView) -> Result<
    Visit,
    ErrorView,
>
    decreases e, 0nat,
{
    match e {
        ExprView::While { cond_expr, exprs } => match expr_model(*cond_expr, s, b) {
            Err(e) => Err(e),
            Ok(c) => match block_model(exprs, s, c.builder.start_jump_if_false()) {
                Err(e) => Err(e),
                Ok(body) => close_loop(
                    body,
                    b.last_index(),
                    c.builder.start_jump_if_false().last_index(),
                    s,
                ),
            },
        },
        _ => Err(other_kind()),
    }
}

/// The slot of the variable of a `for` loop in scope `s`.
pub open spec fn loop_slot(s: Seq<Seq<EntryView>>) -> u8 {
    next_index(s.push(Seq::empty())) as u8
}

/// The scope of the body of a `for` loop over `name` in scope `s`.
pub open spec fn loop_scope(name: Seq<char>, s: Seq<Seq<EntryView>>) -> Seq<Seq<EntryView>> {
    define(s.push(Seq::empty()), name, variable(seq!["int"@], loop_slot(s)))
}

/// The head of a `for` loop: the variable is set to `start`, and the test
/// `variable < end` with the conditional jump out follows. Gives the builder
/// after the store and the builder after the jump.
#[verifier::opaque]
pub open spec fn for_head_model(
    start: i64,
    end: i64,
    s: Seq<Seq<EntryView>>,
    b: BuilderView,
) -> Result<
    (BuilderView, BuilderView),
    ErrorView,
> {
    match load_model(Value::Int(start), seq!["int"@], s, b) {
        Err(e) => Err(e),
        Ok(first) => match load_model(
            Value::Int(end),
            seq!["int"@],
            s,
            first.builder.emit(seq![STORE_FAST, loop_slot(s)]).emit(seq![LOAD_FAST, loop_slot(s)]),
        ) {
            Err(e) => Err(e),
            Ok(last) => Ok(
                (
                    first.builder.emit(seq![STORE_FAST, loop_slot(s)]),
                    last.builder.emit(seq![BIN_LESS_THAN]).start_jump_if_false(),
                ),
            ),
        },
    }
}

/// A counting loop: in a fresh scope the variable is defined and set to the
/// start; the test, the body and the increment of the variable follow, and
/// the jump back to the test.
pub open spec fn for_model(e: ExprView, s: Seq<Seq<EntryView>>, b: BuilderView) -> Result<
    Visit,
    ErrorView,
>
    decreases e, 0nat,
{
    match e {
        ExprView::For { name, start, end, exprs } => if next_index(s.push(Seq::empty())) > 255 {
            Err(internal("Too many variables"@))
        } else {
            match for_head_model(start, end, s, b) {
                Err(e) => Err(e),
                Ok((stored, tested)) => match block_model(exprs, loop_scope(name, s), tested) {
                    Err(e) => Err(e),
                    Ok(body) => close_loop(
                        Visit {
                            types: body.types,
                            builder: body.builder.emit(
                                seq![
                                    LOAD_FAST,
                                    loop_slot(s),
                                    INC_ONE,
                                    STORE_FAST,
                                    loop_slot(s),
                                ],
                            ),
                            scope: s,
                        },
                        stored.last_index(),
                        tested.last_index(),
                        s,
                    ),
                },
            }
        },
        _ => Err(other_kind()),
    }
}

/// The builder after the expressions of a sequence from the `i`th on were
/// compiled in order.
pub open spec fn sequence_model(
    items: Seq<ExprView>,
    i: nat,
    s: Seq<Seq<EntryView>>,
    b: BuilderView,
) -> Result<BuilderView, ErrorView>
    decreases items, items.len() - i,
{
    if i >= items.len() {
        Ok(b)
    } else {
        match expr_model(items[i as int], s, b) {
            Err(e) => Err(e),
            Ok(v) => sequence_model(items, i + 1, s, v.builder),
        }
    }
}

/// What compiling the statement `st` does to the builder and the scope, and
/// the type set of the statement.
pub open spec fn stmt_model(st: StmtView, s: Seq<Seq<EntryView>>, b: BuilderView) -> Result<
    Visit,
    ErrorView,
>
    decreases st, 0nat,
{
    match st {
        StmtView::Expr(e) => expr_model(e, s, b),
        StmtView::Assignment { new, name, expr, types } => match expr_model(expr, s, b) {
            Err(e) => Err(e),
            Ok(value) => if new {
                match types {
                    None => Err(internal("Binding without declared types"@)),
                    Some(given) => bind_model(name, given, value, s),
                }
            } else {
                rebind_model(name, value, s)
            },
        },
    }
}

/// The statements of a list from the `i`th on, compiled in order, where
/// `before` is what the statements before them gave.
pub open spec fn stmts_model(list: Seq<StmtView>, i: nat, before: Visit) -> Result<
    Visit,
    ErrorView,
>
    decreases list, list.len() - i,
{
    if i >= list.len() {
        Ok(before)
    } else {
        match stmt_model(list[i as int], before.scope, before.builder) {
            Err(e) => Err(e),
            Ok(v) => stmts_model(list, i + 1, v),
        }
    }
}

/// The statements of a body, compiled in order in the scope `s`: those that
/// end in a semicolon, then the final one. An empty body has the type `none`.
pub open spec fn body_model(stmts: BlockView, s: Seq<Seq<EntryView>>, b: BuilderView) -> Result<
    Visit,
    ErrorView,
>
    decreases stmts, 1nat,
{
    match stmts_model(stmts.stmts, 0, Visit { types: seq!["none"@], builder: b, scope: s }) {
        Err(e) => Err(e),
        Ok(before) => match stmts.tail {
            Some(last) => stmt_model(*last, before.scope, before.builder),
            None => Ok(before),
        },
    }
}

/// A block: its statements are compiled in a fresh scope inside `s`, which is
/// gone afterwards.
pub open spec fn block_model(stmts: BlockView, s: Seq<Seq<EntryView>>, b: BuilderView) -> Result<
    Visit,
    ErrorView,
>
    decreases stmts, 2nat,
{
    match body_model(stmts, s.push(Seq::empty()), b) {
        Err(e) => Err(e),
        Ok(v) => Ok(Visit { scope: s, ..v }),
    }
}

/// Whether a visit came out as its model says: on success with the model's
/// type set, builder and scope, on failure with the model's error.
pub open spec fn visited(
    r: Result<Types, GearsError>,
    builder: BuilderView,
    scope: Seq<Seq<EntryView>>,
    model: Result<Visit, ErrorView>,
) -> bool {
    match model {
        Ok(v) => r matches Ok(t) && t.deep_view() == v.types && builder == v.builder && scope
            == v.scope,
        Err(e) => r matches Err(err) && err@ == e,
    }
}

/// Whether a run of visits came out as its model says.
pub open spec fn emitted(
    r: Result<(), GearsError>,
    builder: BuilderView,
    model: Result<BuilderView, ErrorView>,
) -> bool {
    match model {
        Ok(b) => r is Ok && builder == b,
        Err(e) => r matches Err(err) && err@ == e,
    }
}

fn internal_error(message: &str) -> (e: GearsError)
    ensures
        e@ == internal(message@),
{
    GearsError::InternalCompilerError(String::from_str(message))
}

fn symbol_not_found(name: &String) -> (e: GearsError)
    ensures
        e@ == ErrorView::SymbolNotFound(name@),
{
    GearsError::SymbolNotFound(name.clone())
}

/// The type set that holds `t` alone.
fn single(t: Type) -> (r: Types)
    ensures
        r.deep_view() == seq![t@],
{
    let mut r: Types = Vec::new();
    r.push(t);
    assert(r.deep_view() =~= seq![t@]);
    r
}

/// Renders a type set, its tags separated by ` | `.
pub fn types_to_text(types: &Types) -> (text: String)
    ensures
        text@ == types_text(types.deep_view()),
{
    let mut text = String::new();
    let mut i: usize = 0;
    while i < types.len()
        invariant
            i <= types.len(),
            text@ == types_text(types.deep_view().take(i as int)),
        decreases types.len() - i,
    {
        let ghost before = types.deep_view().take(i as int);
        let ghost after = types.deep_view().take(i + 1);
        assert(after.drop_last() =~= before);
        assert(after.last() == types@[i as int]@);
        if i > 0 {
            append_str(&mut text, " | ");
        }
        append_str(&mut text, types[i].name());
        assert(text@ =~= types_text(after));
        i += 1;
    }
    assert(types.deep_view().take(i as int) =~= types.deep_view());
    text
}

fn compile_types(types: &Vec<String>) -> (r: Vec<Type>)
    ensures
        r.deep_view() == types.deep_view(),
{
    let mut types_vec: Vec<Type> = Vec::new();
    let mut i: usize = 0;
    while i < types.len()
        invariant
            i <= types.len(),
            types_vec.len() == i,
            forall|j: int| 0 <= j < i ==> types_vec@[j]@ == types@[j]@,
        decreases types.len() - i,
    {
        types_vec.push(Type::from(types[i].clone()));
        i += 1;
    }
    assert(types_vec.deep_view() =~= types.deep_view());
    types_vec
}

/// Whether the type set holds the tag `tag` and no other.
fn is_exactly(types: &Types, tag: &str) -> (r: bool)
    ensures
        r == exactly(types.deep_view(), tag@),
{
    if types.len() == 0 {
        return false;
    }
    let mut i: usize = 0;
    while i < types.len()
        invariant
            i <= types.len(),
            forall|j: int| 0 <= j < i ==> types.deep_view()[j] == tag@,
        decreases types.len() - i,
    {
        if !crate::text::str_eq(types[i].name(), tag) {
            assert(types.deep_view()[i as int] != tag@);
            return false;
        }
        i += 1;
    }
    true
}

/// The union of two type sets.
fn union_types(a: Types, b: &Types) -> (r: Types)
    ensures
        r.deep_view() == types_union(a.deep_view(), b.deep_view()),
{
    let mut r = a;
    let mut i: usize = 0;
    while i < b.len()
        invariant
            i <= b.len(),
            r.deep_view() == types_union(a.deep_view(), b.deep_view().take(i as int)),
        decreases b.len() - i,
    {
        let ghost before = b.deep_view().take(i as int);
        let ghost after = b.deep_view().take(i + 1);
        assert(after.drop_last() =~= before);
        assert(after.last() == b@[i as int]@);
        if !types_contain(&r, &b[i]) {
            let ghost old_view = r.deep_view();
            r.push(b[i].duplicate());
            assert(r.deep_view() =~= old_view.push(b@[i as int]@));
        }
        i += 1;
    }
    assert(b.deep_view().take(i as int) =~= b.deep_view());
    r
}

fn incompatible_error(declared: &Types, found: &Types) -> (e: GearsError)
    ensures
        e@ == incompatible(declared.deep_view(), found.deep_view()),
{
    let mut m = types_to_text(declared);
    append_str(&mut m, " is not compatible with ");
    let found_text = types_to_text(found);
    append_str(&mut m, found_text.as_str());
    GearsError::TypeError(m)
}

fn undefined_operation_error(op: BinOpAst, left: &Types, right: &Types) -> (e: GearsError)
    ensures
        e@ == undefined_operation(op, left.deep_view(), right.deep_view()),
{
    let mut m = String::new();
    append_str(&mut m, "Unable to perform ");
    append_str(&mut m, op.symbol());
    append_str(&mut m, " on ");
    let left_text = types_to_text(left);
    append_str(&mut m, left_text.as_str());
    append_str(&mut m, " and ");
    let right_text = types_to_text(right);
    append_str(&mut m, right_text.as_str());
    assert(m@ =~= "Unable to perform "@ + op.text() + " on "@ + types_text(left.deep_view())
        + " and "@ + types_text(right.deep_view()));
    GearsError::TypeError(m)
}

fn not_callable_error(name: &String) -> (e: GearsError)
    ensures
        e@ == not_callable(name@),
{
    let mut m = name.clone();
    append_str(&mut m, " is not callable");
    GearsError::ParseError { location: Span::new(0, 0), message: m }
}

/// The type set of `left op right`, or the type error.
fn check_op(op: BinOpAst, left: &Types, right: &Types) -> (r: Result<Types, GearsError>)
    ensures
        match op_types(op, left.deep_view(), right.deep_view()) {
            Ok(t) => r matches Ok(types) && types.deep_view() == t,
            Err(e) => r matches Err(err) && err@ == e,
        },
{
    proof {
        reveal(op_types);
    }
    match op {
        BinOpAst::Add | BinOpAst::Sub | BinOpAst::Mul | BinOpAst::Div => {
            if is_exactly(left, "int") && is_exactly(right, "int") {
                Ok(single(Type::new_int()))
            } else if op == BinOpAst::Add && is_exactly(left, "str") && is_exactly(right, "str") {
                Ok(single(Type::new_str()))
            } else {
                Err(undefined_operation_error(op, left, right))
            }
        },
        _ => Ok(single(Type::new_bool())),
    }
}

fn emit_op(op: BinOpAst, builder: &mut ModuleBuilder)
    ensures
        final(builder)@ == old(builder)@.emit(seq![op_code(op)]),
{
    match op {
        BinOpAst::Add => builder.op_add(),
        BinOpAst::Sub => builder.op_sub(),
        BinOpAst::Mul => builder.op_mul(),
        BinOpAst::Div => builder.op_div(),
        BinOpAst::EqEq => builder.op_eqeq(),
        BinOpAst::NotEq => builder.op_not_eq(),
        BinOpAst::LessThan => builder.op_less(),
        BinOpAst::LessThanEq => builder.op_less_eq(),
        BinOpAst::GreaterThan => builder.op_greater(),
        BinOpAst::GreaterThanEq => builder.op_greater_eq(),
    }
}

/// Interns `value` and emits its load, unless the pool is too full for a
/// one-byte index.
fn load_value(value: GearsObject, builder: &mut ModuleBuilder) -> (r: Result<(), GearsError>)
    ensures
        pool_index(old(builder)@.module.consts, value@) <= 255 ==> r is Ok && final(builder)@
            == old(builder)@.load_value(value@),
        pool_index(old(builder)@.module.consts, value@) > 255 ==> (r matches Err(e) && e@
            == internal("Too many constants"@)),
{
    let index = builder.intern(value);
    if index > 255 {
        Err(internal_error("Too many constants"))
    } else {
        builder.load_const(index as u8);
        Ok(())
    }
}

fn close_loop_exec(body_types: Types, head: usize, exit: usize, builder: &mut ModuleBuilder) -> (r:
    Result<Types, GearsError>)
    ensures
        forall|s: Seq<Seq<EntryView>>|
            visited(
                r,
                final(builder)@,
                s,
                #[trigger] close_loop(
                    Visit { types: body_types.deep_view(), builder: old(builder)@, scope: s },
                    marker(head),
                    exit as int,
                    s,
                ),
            ),
{
    proof {
        reveal(close_loop);
    }
    if head != usize::MAX && head >= 255 {
        return Err(internal_error("Jump too far"));
    }
    if !builder.can_patch_after(exit, 2) {
        return Err(internal_error("Jump too far"));
    }
    builder.end_loop(head, exit);
    Ok(body_types)
}

/// Compiles one expression: checks its types in `scope`, appends its code to
/// the function under construction, and gives the types of the value that the
/// code leaves on the stack.
pub fn visit_expr(expr: &ExprAst, scope: &SymbolTable, builder: &mut ModuleBuilder) -> (r: Result<
    Types,
    GearsError,
>)
    ensures
        visited(r, final(builder)@, scope@, expr_model(expr@, scope@, old(builder)@)),
    decreases expr, 1nat,
{
    proof {
        reveal(load_model);
    }
    match expr {
        ExprAst::Integer(n) => {
            match load_value(GearsObject::Int(*n), builder) {
                Err(e) => Err(e),
                Ok(_) => Ok(single(Type::new_int())),
            }
        },
        ExprAst::Str(t) => {
            match load_value(GearsObject::Str(t.clone()), builder) {
                Err(e) => Err(e),
                Ok(_) => Ok(single(Type::new_str())),
            }
        },
        ExprAst::Bool(b) => {
            builder.load_bool(b);
            Ok(single(Type::new_bool()))
        },
        ExprAst::NoneLiteral => {
            builder.load_none();
            Ok(single(Type::new_none()))
        },
        ExprAst::Variable(name) => visit_variable(name, scope, builder),
        ExprAst::List(items) => {
            match visit_items(items, scope, builder) {
                Err(e) => Err(e),
                Ok(_) => {
                    if items.len() > 255 {
                        Err(internal_error("Too many list elements"))
                    } else {
                        builder.build_list(items.len() as u8);
                        Ok(single(Type::new_list()))
                    }
                },
            }
        },
        ExprAst::Op(left, op, right) => visit_op(left, *op, right, Ghost(*expr), scope, builder),
        ExprAst::FunctionCall { name, args } => {
            match visit_args(args, scope, builder) {
                Err(e) => Err(e),
                Ok(_) => visit_call(name, args.len(), scope, builder),
            }
        },
        ExprAst::If { cond_expr, exprs, else_exprs } => visit_if(
            cond_expr,
            exprs,
            else_exprs,
            Ghost(*expr),
            scope,
            builder,
        ),
        ExprAst::While { cond_expr, exprs } => visit_while(
            cond_expr,
            exprs,
            Ghost(*expr),
            scope,
            builder,
        ),
        ExprAst::For { name, range, exprs } => visit_for(
            name,
            range,
            exprs,
            Ghost(*expr),
            scope,
            builder,
        ),
    }
}

fn visit_variable(name: &String, scope: &SymbolTable, builder: &mut ModuleBuilder) -> (r: Result<
    Types,
    GearsError,
>)
    ensures
        visited(r, final(builder)@, scope@, variable_model(name@, scope@, old(builder)@)),
{
    proof {
        reveal(variable_model);
    }
    let (maybe_symbol, _) = scope.resolve(name);
    match maybe_symbol {
        Some(symbol) => match symbol.get_type() {
            SymbolType::Function { .. } => Err(internal_error("Functions are not first class yet")),
            SymbolType::Variable { types } => {
                builder.load_fast(*symbol.get_index());
                Ok(clone_types(types))
            },
        },
        None => Err(symbol_not_found(name)),
    }
}

fn visit_call(name: &String, argc: usize, scope: &SymbolTable, builder: &mut ModuleBuilder) -> (r:
    Result<Types, GearsError>)
    ensures
        visited(r, final(builder)@, scope@, call_model(name@, argc as nat, scope@, old(builder)@)),
{
    proof {
        reveal(call_model);
    }
    let (maybe_symbol, is_global) = scope.resolve(name);
    match maybe_symbol {
        Some(symbol) => match symbol.get_type() {
            SymbolType::Function { return_types, .. } => {
                if !is_global {
                    Err(internal_error("Closures are not supported yet"))
                } else if argc > 255 {
                    Err(internal_error("Too many arguments"))
                } else {
                    builder.call_fn(*symbol.get_index(), argc as u8);
                    Ok(clone_types(return_types))
                }
            },
            SymbolType::Variable { .. } => Err(not_callable_error(name)),
        },
        None => Err(symbol_not_found(name)),
    }
}

fn visit_op(
    left: &ExprAst,
    op: BinOpAst,
    right: &ExprAst,
    Ghost(whole): Ghost<ExprAst>,
    scope: &SymbolTable,
    builder: &mut ModuleBuilder,
) -> (r: Result<Types, GearsError>)
    requires
        whole == ExprAst::Op(Box::new(*left), op, Box::new(*right)),
    ensures
        visited(r, final(builder)@, scope@, expr_model(whole@, scope@, old(builder)@)),
    decreases whole, 0nat,
{
    let left_types = match visit_expr(left, scope, builder) {
        Ok(t) => t,
        Err(e) => {
            return Err(e);
        },
    };
    let right_types = match visit_expr(right, scope, builder) {
        Ok(t) => t,
        Err(e) => {
            return Err(e);
        },
    };
    match check_op(op, &left_types, &right_types) {
        Err(e) => Err(e),
        Ok(t) => {
            emit_op(op, builder);
            Ok(t)
        },
    }
}

fn visit_if(
    cond_expr: &ExprAst,
    exprs: &Stmts,
    else_exprs: &Option<Stmts>,
    Ghost(whole): Ghost<ExprAst>,
    scope: &SymbolTable,
    builder: &mut ModuleBuilder,
) -> (r: Result<Types, GearsError>)
    requires
        whole == (ExprAst::If {
            cond_expr: Box::new(*cond_expr),
            exprs: *exprs,
            else_exprs: *else_exprs,
        }),
    ensures
        visited(r, final(builder)@, scope@, expr_model(whole@, scope@, old(builder)@)),
    decreases whole, 0nat,
{
    proof {
        reveal(else_model);
    }
    match visit_expr(cond_expr, scope, builder) {
        Err(e) => {
            return Err(e);
        },
        Ok(_) => {},
    }
    let jump_index = builder.start_jump_if_false();
    let if_types = match visit_block(exprs, scope, builder) {
        Ok(t) => t,
        Err(e) => {
            return Err(e);
        },
    };
    if !builder.can_patch_after(jump_index, 2) {
        return Err(internal_error("Jump too far"));
    }
    let else_index = builder.start_else(jump_index);
    let else_types = match else_exprs {
        Some(other) => match visit_block(other, scope, builder) {
            Ok(t) => t,
            Err(e) => {
                return Err(e);
            },
        },
        None => {
            builder.load_none();
            single(Type::new_none())
        },
    };
    if !builder.can_patch(else_index) {
        return Err(internal_error("Jump too far"));
    }
    builder.end_jump(else_index);
    Ok(union_types(if_types, &else_types))
}

fn visit_while(
    cond_expr: &ExprAst,
    exprs: &Stmts,
    Ghost(whole): Ghost<ExprAst>,
    scope: &SymbolTable,
    builder: &mut ModuleBuilder,
) -> (r: Result<Types, GearsError>)
    requires
        whole == (ExprAst::While { cond_expr: Box::new(*cond_expr), exprs: *exprs }),
    ensures
        visited(r, final(builder)@, scope@, expr_model(whole@, scope@, old(builder)@)),
    decreases whole, 0nat,
{
    let loop_index = builder.start_loop_check();
    match visit_expr(cond_expr, scope, builder) {
        Err(e) => {
            return Err(e);
        },
        Ok(_) => {},
    }
    let jump_index = builder.start_jump_if_false();
    let result = match visit_block(exprs, scope, builder) {
        Ok(t) => t,
        Err(e) => {
            return Err(e);
        },
    };
    close_loop_exec(result, loop_index, jump_index, builder)
}

fn visit_for(
    name: &String,
    range: &RangeAst,
    exprs: &Stmts,
    Ghost(whole): Ghost<ExprAst>,
    scope: &SymbolTable,
    builder: &mut ModuleBuilder,
) -> (r: Result<Types, GearsError>)
    requires
        whole == (ExprAst::For { name: *name, range: *range, exprs: *exprs }),
    ensures
        visited(r, final(builder)@, scope@, expr_model(whole@, scope@, old(builder)@)),
    decreases whole, 0nat,
{
    proof {
        reveal(for_head_model);
        reveal(load_model);
    }
    let mut local_scope = scope.push();
    let name_index = match local_scope.get_next_index() {
        Some(i) => i,
        None => {
            return Err(internal_error("Too many variables"));
        },
    };
    local_scope.def_variable(name.clone(), single(Type::new_int()));
    match load_value(GearsObject::Int(range.start()), builder) {
        Err(e) => {
            return Err(e);
        },
        Ok(_) => {},
    }
    builder.store_fast(name_index);
    let loop_index = builder.start_loop_check();
    builder.load_fast(name_index);
    match load_value(GearsObject::Int(range.end()), builder) {
        Err(e) => {
            return Err(e);
        },
        Ok(_) => {},
    }
    builder.op_less();
    let jump_index = builder.start_jump_if_false();
    let result = match visit_block(exprs, &local_scope, builder) {
        Ok(t) => t,
        Err(e) => {
            return Err(e);
        },
    };
    let ghost before = builder@;
    builder.load_fast(name_index);
    builder.inc_one();
    builder.store_fast(name_index);
    assert(builder@ == before.emit(seq![LOAD_FAST, name_index, INC_ONE, STORE_FAST, name_index]))
        by {
        if before.current is Some {
            assert(builder@.code() =~= before.code() + seq![
                LOAD_FAST,
                name_index,
                INC_ONE,
                STORE_FAST,
                name_index,
            ]);
        }
    }
    close_loop_exec(result, loop_index, jump_index, builder)
}

fn visit_items(items: &Vec<Box<ExprAst>>, scope: &SymbolTable, builder: &mut ModuleBuilder) -> (r:
    Result<(), GearsError>)
    ensures
        emitted(r, final(builder)@, sequence_model(boxed_view(items@), 0, scope@, old(builder)@)),
    decreases items, 1nat,
{
    let mut i: usize = 0;
    while i < items.len()
        invariant
            i <= items.len(),
            sequence_model(boxed_view(items@), 0, scope@, old(builder)@) == sequence_model(
                boxed_view(items@),
                i as nat,
                scope@,
                builder@,
            ),
        decreases items.len() - i,
    {
        match visit_expr(&items[i], scope, builder) {
            Err(e) => {
                return Err(e);
            },
            Ok(_) => {},
        }
        i += 1;
    }
    Ok(())
}

fn visit_args(args: &Vec<ExprAst>, scope: &SymbolTable, builder: &mut ModuleBuilder) -> (r: Result<
    (),
    GearsError,
>)
    ensures
        emitted(r, final(builder)@, sequence_model(exprs_view(args@), 0, scope@, old(builder)@)),
    decreases args, 1nat,
{
    let mut i: usize = 0;
    while i < args.len()
        invariant
            i <= args.len(),
            sequence_model(exprs_view(args@), 0, scope@, old(builder)@) == sequence_model(
                exprs_view(args@),
                i as nat,
                scope@,
                builder@,
            ),
        decreases args.len() - i,
    {
        match visit_expr(&args[i], scope, builder) {
            Err(e) => {
                return Err(e);
            },
            Ok(_) => {},
        }
        i += 1;
    }
    Ok(())
}

/// Binds a new variable to the value on the stack.
fn bind_variable(
    name: &String,
    given: &Vec<String>,
    expr_types: Types,
    scope: &mut SymbolTable,
    builder: &mut ModuleBuilder,
) -> (r: Result<Types, GearsError>)
    ensures
        visited(
            r,
            final(builder)@,
            final(scope)@,
            bind_model(
                name@,
                given.deep_view(),
                Visit { types: expr_types.deep_view(), builder: old(builder)@, scope: old(scope)@ },
                old(scope)@,
            ),
        ),
{
    proof {
        reveal(bind_model);
    }
    let declared = compile_types(given);
    if !types_subset(&expr_types, &declared) {
        return Err(incompatible_error(&declared, &expr_types));
    }
    let index = match scope.get_next_index() {
        Some(i) => i,
        None => {
            return Err(internal_error("Too many variables"));
        },
    };
    scope.def_variable(name.clone(), clone_types(&declared));
    builder.store_fast(index);
    Ok(declared)
}

/// Stores the value on the stack in a variable that exists.
fn rebind_variable(
    name: &String,
    expr_types: Types,
    scope: &SymbolTable,
    builder: &mut ModuleBuilder,
) -> (r: Result<Types, GearsError>)
    ensures
        visited(
            r,
            final(builder)@,
            scope@,
            rebind_model(
                name@,
                Visit { types: expr_types.deep_view(), builder: old(builder)@, scope: scope@ },
                scope@,
            ),
        ),
{
    proof {
        reveal(rebind_model);
    }
    let (symbol, _is_global) = scope.resolve(name);
    match symbol {
        None => Err(symbol_not_found(name)),
        Some(found) => match found.get_type() {
            SymbolType::Function { .. } => Err(internal_error("Functions are not first class yet")),
            SymbolType::Variable { types: declared } => {
                if !types_subset(&expr_types, declared) {
                    Err(incompatible_error(declared, &expr_types))
                } else {
                    builder.store_fast(*found.get_index());
                    Ok(clone_types(declared))
                }
            },
        },
    }
}

/// Compiles one statement. A binding defines or updates its variable in
/// `scope` and stores the value in its slot.
pub fn visit_stmt(stmt: &StmtAst, scope: &mut SymbolTable, builder: &mut ModuleBuilder) -> (r:
    Result<Types, GearsError>)
    ensures
        visited(
            r,
            final(builder)@,
            final(scope)@,
            stmt_model(stmt@, old(scope)@, old(builder)@),
        ),
    decreases stmt, 0nat,
{
    match stmt {
        StmtAst::Expr(e) => visit_expr(e, scope, builder),
        StmtAst::Assignment { name, expr, new, types } => {
            let expr_types = match visit_expr(expr, scope, builder) {
                Ok(t) => t,
                Err(e) => {
                    return Err(e);
                },
            };
            if *new {
                match types {
                    None => Err(internal_error("Binding without declared types")),
                    Some(given) => bind_variable(name, given, expr_types, scope, builder),
                }
            } else {
                rebind_variable(name, expr_types, scope, builder)
            }
        },
    }
}

/// Compiles the statements of a body in `scope`, and gives the type set of
/// the last one.
pub fn visit_body(stmts: &Stmts, scope: &mut SymbolTable, builder: &mut ModuleBuilder) -> (r:
    Result<Types, GearsError>)
    ensures
        visited(
            r,
            final(builder)@,
            final(scope)@,
            body_model(block_view(*stmts), old(scope)@, old(builder)@),
        ),
    decreases stmts, 1nat,
{
    let mut last_type = single(Type::new_none());
    let list = &stmts.0;
    let mut i: usize = 0;
    while i < list.len()
        invariant
            i <= list.len(),
            *list == stmts.0,
            stmts_model(
                stmts_view(list@),
                0,
                Visit { types: seq!["none"@], builder: old(builder)@, scope: old(scope)@ },
            ) == stmts_model(
                stmts_view(list@),
                i as nat,
                Visit { types: last_type.deep_view(), builder: builder@, scope: scope@ },
            ),
        decreases list.len() - i,
    {
        last_type = match visit_stmt(&list[i], scope, builder) {
            Ok(t) => t,
            Err(e) => {
                return Err(e);
            },
        };
        i += 1;
    }
    match &stmts.1 {
        Some(last) => visit_stmt(last, scope, builder),
        None => Ok(last_type),
    }
}

/// Compiles a block in a scope of its own inside `scope`, and gives the types
/// of its value.
pub fn visit_block(stmts: &Stmts, scope: &SymbolTable, builder: &mut ModuleBuilder) -> (r: Result<
    Types,
    GearsError,
>)
    ensures
        visited(r, final(builder)@, scope@, block_model(block_view(*stmts), scope@, old(builder)@)),
    decreases stmts, 2nat,
{
    let mut local_scope = scope.push();
    visit_body(stmts, &mut local_scope, builder)
}

/// The symbol of a function.
pub open spec fn function_symbol(def: DefinitionView, index: u8) -> SymbolView {
    SymbolView {
        sym_type: SymbolTypeView::Function { arg_types: def.args, return_types: def.return_type },
        index: index,
    }
}

/// The first pass: the global scope after the definitions from the `i`th on
/// were declared in order. A name may be defined once only.
pub open spec fn declare_model(
    defs: Seq<DefinitionView>,
    i: nat,
    global: Seq<Seq<EntryView>>,
) -> Result<Seq<Seq<EntryView>>, ErrorView>
    decreases defs.len() - i,
{
    if i >= defs.len() {
        Ok(global)
    } else if resolve(global, defs[i as int].name).0 is Some {
        Err(defined_twice(defs[i as int].name))
    } else if next_index(global) > 255 {
        Err(internal("Too many functions"@))
    } else {
        declare_model(
            defs,
            i + 1,
            define(
                global,
                defs[i as int].name,
                function_symbol(defs[i as int], next_index(global) as u8),
            ),
        )
    }
}

/// The scope of a function's body after the arguments from the `i`th on were
/// defined in order.
pub open spec fn arguments_model(
    args: Seq<(Seq<char>, Seq<Seq<char>>)>,
    i: nat,
    s: Seq<Seq<EntryView>>,
) -> Result<Seq<Seq<EntryView>>, ErrorView>
    decreases args.len() - i,
{
    if i >= args.len() {
        Ok(s)
    } else if next_index(s) > 255 {
        Err(internal("Too many variables"@))
    } else {
        arguments_model(
            args,
            i + 1,
            define(s, args[i as int].0, variable(args[i as int].1, next_index(s) as u8)),
        )
    }
}

/// The second pass for one definition: the function is begun, its arguments
/// are defined in a fresh scope, its body is compiled and held against the
/// declared return types, and the function is finished.
#[verifier::opaque]
pub open spec fn function_model(
    def: DefinitionView,
    global: Seq<Seq<EntryView>>,
    b: BuilderView,
) -> Result<
    BuilderView,
    ErrorView,
> {
    match arguments_model(def.args, 0, global.push(Seq::empty())) {
        Err(e) => Err(e),
        Ok(local) => match body_model(
            def.exprs,
            local,
            b.begin(def.name, def.args.len() as usize).returning(def.return_type),
        ) {
            Err(e) => Err(e),
            Ok(v) => if !subset_of(v.types, def.return_type) {
                Err(bad_return(def.name, def.return_type, v.types))
            } else {
                Ok(v.builder.finish())
            },
        },
    }
}

/// The second pass: the builder after the definitions from the `i`th on were
/// compiled in order.
pub open spec fn functions_model(
    defs: Seq<DefinitionView>,
    i: nat,
    global: Seq<Seq<EntryView>>,
    b: BuilderView,
) -> Result<BuilderView, ErrorView>
    decreases defs.len() - i,
{
    if i >= defs.len() {
        Ok(b)
    } else {
        match function_model(defs[i as int], global, b) {
            Err(e) => Err(e),
            Ok(after) => functions_model(defs, i + 1, global, after),
        }
    }
}

/// The module that a program compiles to, or the error that stops the
/// compiler.
pub open spec fn compile_model(defs: Seq<DefinitionView>, name: Seq<char>) -> Result<
    ModuleView,
    ErrorView,
> {
    match declare_model(defs, 0, seq![Seq::<EntryView>::empty()]) {
        Err(e) => Err(e),
        Ok(global) => match functions_model(
            defs,
            0,
            global,
            BuilderView { module: ModuleView::empty(name), current: None },
        ) {
            Err(e) => Err(e),
            Ok(b) => Ok(b.module),
        },
    }
}

fn defined_twice_error(name: &String) -> (e: GearsError)
    ensures
        e@ == defined_twice(name@),
{
    let mut m = name.clone();
    append_str(&mut m, " is defined twice");
    GearsError::ParseError { location: Span::new(0, 0), message: m }
}

fn bad_return_error(name: &String, declared: &Types, found: &Types) -> (e: GearsError)
    ensures
        e@ == bad_return(name@, declared.deep_view(), found.deep_view()),
{
    let mut m = String::new();
    append_str(&mut m, "Function ");
    append_str(&mut m, name.as_str());
    append_str(&mut m, " returns ");
    let found_text = types_to_text(found);
    append_str(&mut m, found_text.as_str());
    append_str(&mut m, " but declares ");
    let declared_text = types_to_text(declared);
    append_str(&mut m, declared_text.as_str());
    assert(m@ =~= "Function "@ + name@ + " returns "@ + types_text(found.deep_view())
        + " but declares "@ + types_text(declared.deep_view()));
    GearsError::TypeError(m)
}

/// The names and type sets of the declared arguments.
fn argument_types(args: &Vec<ArgAst>) -> (r: Vec<(String, Types)>)
    ensures
        r.deep_view() == args_view(args@),
{
    let mut r: Vec<(String, Types)> = Vec::new();
    let mut i: usize = 0;
    while i < args.len()
        invariant
            i <= args.len(),
            r.len() == i,
            forall|j: int| 0 <= j < i ==> r@[j].deep_view() == args_view(args@)[j],
        decreases args.len() - i,
    {
        proof {
            args@[i as int].lemma_view();
        }
        let entry = (args[i].name().clone(), compile_types(args[i].arg_types()));
        r.push(entry);
        i += 1;
    }
    assert(r.deep_view() =~= args_view(args@));
    r
}

/// The first pass: declares every function in the global scope.
fn declare_functions(ast: &Vec<Box<ModStmtAst>>, symbol_table: &mut SymbolTable) -> (r: Result<
    (),
    GearsError,
>)
    ensures
        match declare_model(program_view(ast@), 0, old(symbol_table)@) {
            Ok(s) => r is Ok && final(symbol_table)@ == s,
            Err(e) => r matches Err(err) && err@ == e,
        },
{
    let mut i: usize = 0;
    while i < ast.len()
        invariant
            i <= ast.len(),
            declare_model(program_view(ast@), 0, old(symbol_table)@) == declare_model(
                program_view(ast@),
                i as nat,
                symbol_table@,
            ),
        decreases ast.len() - i,
    {
        match &*ast[i] {
            ModStmtAst::FunctionDef { name, args, return_type, .. } => {
                let (found, _) = symbol_table.resolve(name);
                if found.is_some() {
                    return Err(defined_twice_error(name));
                }
                if symbol_table.get_next_index().is_none() {
                    return Err(internal_error("Too many functions"));
                }
                symbol_table.def_fn(name.clone(), argument_types(args), compile_types(return_type));
            },
        }
        i += 1;
    }
    Ok(())
}

/// Defines the arguments of a function in the scope of its body.
fn define_arguments(args: &Vec<ArgAst>, scope: &mut SymbolTable) -> (r: Result<(), GearsError>)
    ensures
        match arguments_model(args_view(args@), 0, old(scope)@) {
            Ok(s) => r is Ok && final(scope)@ == s,
            Err(e) => r matches Err(err) && err@ == e,
        },
{
    let mut i: usize = 0;
    while i < args.len()
        invariant
            i <= args.len(),
            arguments_model(args_view(args@), 0, old(scope)@) == arguments_model(
                args_view(args@),
                i as nat,
                scope@,
            ),
        decreases args.len() - i,
    {
        proof {
            args@[i as int].lemma_view();
        }
        if scope.get_next_index().is_none() {
            return Err(internal_error("Too many variables"));
        }
        scope.def_variable(args[i].name().clone(), compile_types(args[i].arg_types()));
        i += 1;
    }
    Ok(())
}

/// The second pass for one definition.
fn compile_function(
    def: &ModStmtAst,
    symbol_table: &SymbolTable,
    builder: &mut ModuleBuilder,
) -> (r:
    Result<(), GearsError>)
    ensures
        emitted(r, final(builder)@, function_model(def@, symbol_table@, old(builder)@)),
{
    proof {
        reveal(function_model);
    }
    match def {
        ModStmtAst::FunctionDef { name, exprs, args, return_type } => {
            builder.start_function(name.clone(), args.len());
            builder.declare_return(compile_types(return_type));
            let mut local_scope = symbol_table.push();
            match define_arguments(args, &mut local_scope) {
                Err(e) => {
                    return Err(e);
                },
                Ok(_) => {},
            }
            let found = match visit_body(exprs, &mut local_scope, builder) {
                Ok(t) => t,
                Err(e) => {
                    return Err(e);
                },
            };
            let declared = compile_types(return_type);
            if !types_subset(&found, &declared) {
                return Err(bad_return_error(name, &declared, &found));
            }
            builder.finish_function();
            Ok(())
        },
    }
}

/// Compiles a parsed program to a module called `name`. A well-typed
/// program compiles unless its code runs into a limit of the bytecode format;
/// any other error is the first fault of the program.
pub fn compile_ast(ast: Vec<Box<ModStmtAst>>, name: &str) -> (r: Result<Module, GearsError>)
    ensures
        match compile_model(program_view(ast@), name@) {
            Ok(m) => r matches Ok(module) && module@ == m,
            Err(e) => r matches Err(err) && err@ == e,
        },
        r matches Ok(module) ==> compiled(module@, program_view(ast@)),
        r is Ok && joined(program_view(ast@)) ==> all_stacks_in_order(r->Ok_0@.functions, false),
        r is Ok && balanced(program_view(ast@)) ==> all_stacks_in_order(r->Ok_0@.functions, true),
        r matches Err(e) ==> limit_error(e@) || program_typed(program_view(ast@)) == Err::<
            (),
            ErrorView,
        >(e@),
{
    proof {
        lemma_well_typed_compiles(program_view(ast@), name@);
        if compile_model(program_view(ast@), name@) is Ok {
            lemma_constants_pooled_once(program_view(ast@), name@);
            lemma_compiled_code_in_order(program_view(ast@), name@);
            lemma_program_args_counted(ast@);
            lemma_compiled_slots_in_order(program_view(ast@), name@);
            if joined(program_view(ast@)) {
                lemma_compiled_joins_agree(program_view(ast@), name@);
            }
            if balanced(program_view(ast@)) {
                lemma_compiled_stacks_in_order(program_view(ast@), name@);
            }
        }
    }
    compile_program(ast, name)
}

/// Runs the two passes of the compiler over a parsed program.
fn compile_program(ast: Vec<Box<ModStmtAst>>, name: &str) -> (r: Result<Module, GearsError>)
    ensures
        match compile_model(program_view(ast@), name@) {
            Ok(m) => r matches Ok(module) && module@ == m,
            Err(e) => r matches Err(err) && err@ == e,
        },
{
    let mut module_builder = ModuleBuilder::new(String::from_str(name));
    let mut symbol_table = SymbolTable::new_global();
    match declare_functions(&ast, &mut symbol_table) {
        Err(e) => {
            return Err(e);
        },
        Ok(_) => {},
    }
    let ghost start = module_builder@;
    let mut i: usize = 0;
    while i < ast.len()
        invariant
            i <= ast.len(),
            declare_model(program_view(ast@), 0, seq![Seq::<EntryView>::empty()]) == Ok::<
                Seq<Seq<EntryView>>,
                ErrorView,
            >(symbol_table@),
            start == (BuilderView { module: ModuleView::empty(name@), current: None }),
            functions_model(program_view(ast@), 0, symbol_table@, start) == functions_model(
                program_view(ast@),
                i as nat,
                symbol_table@,
                module_builder@,
            ),
        decreases ast.len() - i,
    {
        match compile_function(&*ast[i], &symbol_table, &mut module_builder) {
            Err(e) => {
                return Err(e);
            },
            Ok(_) => {},
        }
        i += 1;
    }
    Ok(module_builder.build())
}

/// What holds of every module that a program compiles to: the program is
/// well-typed; the pool holds no value twice and holds every constant written
/// in the program; each function ends with `RETURN` and jumps only to opcodes
/// inside it; and in each function every read of a slot comes after the slot
/// was set, by an argument or by a store, on every way through the code.
pub open spec fn compiled(m: ModuleView, defs: Seq<DefinitionView>) -> bool {
    &&& well_typed(defs)
    &&& no_duplicates(m.consts)
    &&& forall|c: Value| #[trigger] written_in_program(c, defs) ==> m.consts.contains(c)
    &&& all_sound(m.functions)
    &&& all_slots_in_order(m.functions)
}

/// The module that a source text compiles to, or the error that stops the
/// lexer, the parser or the compiler.
pub open spec fn compile_text(text: Seq<char>, name: Seq<char>) -> Result<ModuleView, ErrorView> {
    match parse_model(lex_model(text)) {
        Err(e) => Err(parse_failure(e)),
        Ok(defs) => compile_model(defs, name),
    }
}

/// Compiles a source text to a module called `name`.
pub fn compile_str(string: &str, name: &str) -> (r: Result<Module, GearsError>)
    ensures
        match compile_text(string@, name@) {
            Ok(m) => r matches Ok(module) && module@ == m,
            Err(e) => r matches Err(err) && err@ == e,
        },
        r matches Ok(module) ==> compiled(module@, parse_model(lex_model(string@))->Ok_0),
        r is Ok && joined(parse_model(lex_model(string@))->Ok_0) ==> all_stacks_in_order(
            r->Ok_0@.functions,
            false,
        ),
        r is Ok && balanced(parse_model(lex_model(string@))->Ok_0) ==> all_stacks_in_order(
            r->Ok_0@.functions,
            true,
        ),
{
    match parse_tokens(lex(string)) {
        Err(e) => Err(GearsError::from(e)),
        Ok(ast) => compile_ast(ast, name),
    }
}

} // verus!
