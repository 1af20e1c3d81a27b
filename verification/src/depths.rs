use vstd::prelude::*;
use crate::ast::{BlockView, DefinitionView, ExprView, StmtView};
use crate::code::{
    boundary, jumps_inside, lemma_empty_well_formed, lemma_end_is_boundary, lemma_finish,
    lemma_levelled_empty, lemma_levelled_end, lemma_levelled_jump, lemma_levelled_jump_back,
    lemma_levelled_patch, lemma_levelled_plain, lemma_reaches_twice, lemma_whole, levelled, levels,
    next_opcode, pops, pushes, reaches, sound_code,
};
use crate::compiler::{
    arguments_model, bind_model, block_model, body_model, call_model, close_loop, compile_model,
    declare_model, else_model, expr_model, for_head_model, for_model, function_model,
    functions_model, if_model, invoke_model, list_model, load_model, loop_scope, loop_slot, op_code,
    op_model, rebind_model, sequence_model, stmt_model, stmts_model, variable_model, while_model,
    Visit,
};
use crate::jumps::{
    coded, lemma_op_code_plain, lemma_same_itself, lemma_same_longer, lemma_same_twice,
    lemma_step_close, lemma_step_else, lemma_step_jump, lemma_step_load, lemma_step_patch,
    lemma_step_plain, plain, same_function,
};
use crate::module::{pool_index, BuilderView, FunctionView, ModuleView};
use crate::object::Value;
use crate::opcodes::{
    operand_count, BIN_LESS_THAN, BUILD_LIST, CALL_FUNCTION, INC_ONE, JUMP, JUMP_ABSOLUTE,
    JUMP_IF_FALSE, LOAD_CONST, LOAD_FALSE, LOAD_FAST, LOAD_NONE, LOAD_TRUE, RETURN, STORE_FAST,
};
use crate::symbol::{next_index, resolve, EntryView};
use crate::vm::{step, Frame, Step};

verus! {

/// Whether an instruction that takes a value finds one, where the code
/// before it has left `n` values. This is asked only where `strict`.
pub open spec fn fed(n: int, strict: bool) -> bool {
    strict ==> n >= 1
}

/// By how many values the code of an expression raises the stack, where that
/// is the same on every way through the code. The two blocks of a branch must
/// raise it by the same number, and by one where there is no second block, in
/// whose place one value is loaded. The condition and the body of a `while`
/// loop must together leave one value, which the test takes; the body of a
/// `for` loop must leave none. Where `strict`, each operand of an operation,
/// each element of a list, each argument of a call, each condition and each
/// value that is bound must also leave at least one value, so that no
/// instruction takes what is not there.
pub open spec fn expr_effect(e: ExprView, strict: bool) -> Option<int>
    decreases e, 1nat,
{
    match e {
        ExprView::Integer(_) => Some(1),
        ExprView::Str(_) => Some(1),
        ExprView::Bool(_) => Some(1),
        ExprView::NoneLiteral => Some(1),
        ExprView::Variable(_) => Some(1),
        ExprView::List(items) => match sequence_effect(items, 0, strict) {
            Some(n) => Some(n - items.len() + 1),
            None => None,
        },
        ExprView::FunctionCall { name, args } => match sequence_effect(args, 0, strict) {
            Some(n) => Some(n - args.len() + 1),
            None => None,
        },
        ExprView::Op(left, _, right) => match (
            expr_effect(*left, strict),
            expr_effect(*right, strict),
        ) {
            (Some(l), Some(r)) => if fed(l, strict) && fed(r, strict) {
                Some(l + r - 1)
            } else {
                None
            },
            _ => None,
        },
        ExprView::If { cond_expr, exprs, else_exprs } => match (
            expr_effect(*cond_expr, strict),
            block_effect(exprs, strict),
        ) {
            (Some(c), Some(first)) => if !fed(c, strict) {
                None
            } else {
                match else_exprs {
                    Some(other) => if block_effect(other, strict) == Some(first) {
                        Some(c - 1 + first)
                    } else {
                        None
                    },
                    None => if first == 1 {
                        Some(c)
                    } else {
                        None
                    },
                }
            },
            _ => None,
        },
        ExprView::While { cond_expr, exprs } => match (
            expr_effect(*cond_expr, strict),
            block_effect(exprs, strict),
        ) {
            (Some(c), Some(body)) => if fed(c, strict) && c + body == 1 {
                Some(c - 1)
            } else {
                None
            },
            _ => None,
        },
        ExprView::For { name, start, end, exprs } => if block_effect(exprs, strict) == Some(0int) {
            Some(0)
        } else {
            None
        },
    }
}

/// By how many values the expressions of the sequence from the `i`th on
/// raise the stack together.
pub open spec fn sequence_effect(items: Seq<ExprView>, i: nat, strict: bool) -> Option<int>
    decreases items, items.len() - i,
{
    if i >= items.len() {
        Some(0)
    } else {
        match (expr_effect(items[i as int], strict), sequence_effect(items, i + 1, strict)) {
            (Some(first), Some(rest)) => if fed(first, strict) {
                Some(first + rest)
            } else {
                None
            },
            _ => None,
        }
    }
}

/// By how many values the code of a statement raises the stack. A binding or
/// an assignment takes one of the values that its expression leaves.
pub open spec fn stmt_effect(st: StmtView, strict: bool) -> Option<int>
    decreases st, 0nat,
{
    match st {
        StmtView::Expr(e) => expr_effect(e, strict),
        StmtView::Assignment { expr, .. } => match expr_effect(expr, strict) {
            Some(n) => if fed(n, strict) {
                Some(n - 1)
            } else {
                None
            },
            None => None,
        },
    }
}

/// By how many values the statements of a list from the `i`th on raise the
/// stack.
pub open spec fn stmts_effect(list: Seq<StmtView>, i: nat, strict: bool) -> Option<int>
    decreases list, list.len() - i,
{
    if i >= list.len() {
        Some(0)
    } else {
        match stmt_effect(list[i as int], strict) {
            None => None,
            Some(first) => match stmts_effect(list, i + 1, strict) {
                None => None,
                Some(rest) => Some(first + rest),
            },
        }
    }
}

/// By how many values the statements of a block raise the stack.
pub open spec fn block_effect(block: BlockView, strict: bool) -> Option<int>
    decreases block, 2nat,
{
    match stmts_effect(block.stmts, 0, strict) {
        None => None,
        Some(before) => match block.tail {
            None => Some(before),
            Some(last) => match stmt_effect(*last, strict) {
                None => None,
                Some(after) => Some(before + after),
            },
        },
    }
}

/// The body of every definition raises the stack by one number on every way
/// through its code; where `strict`, it also leaves the value that the
/// function returns.
pub open spec fn fitting(defs: Seq<DefinitionView>, strict: bool) -> bool {
    forall|k: int|
        0 <= k < defs.len() ==> block_effect((#[trigger] defs[k]).exprs, strict) is Some && fed(
            block_effect(defs[k].exprs, strict)->Some_0,
            strict,
        )
}

/// A program is joined when, wherever two ways through the code of a
/// definition meet, both have raised the stack by the same number.
pub open spec fn joined(defs: Seq<DefinitionView>) -> bool {
    fitting(defs, false)
}

/// A program is balanced when it is joined and no instruction of its code
/// takes a value that the code before it has not left.
pub open spec fn balanced(defs: Seq<DefinitionView>) -> bool {
    fitting(defs, true)
}

/// Where `strict`, no code takes more off the stack than it puts there.
pub proof fn lemma_expr_effect_positive(e: ExprView, strict: bool)
    requires
        expr_effect(e, strict) is Some,
    ensures
        strict ==> expr_effect(e, strict)->Some_0 >= 0,
    decreases e, 1nat,
{
    match e {
        ExprView::List(items) => {
            lemma_sequence_effect_positive(items, 0, strict);
        },
        ExprView::FunctionCall { name, args } => {
            lemma_sequence_effect_positive(args, 0, strict);
        },
        ExprView::If { cond_expr, exprs, else_exprs } => {
            lemma_block_effect_positive(exprs, strict);
        },
        _ => {},
    }
}

/// Where `strict`, the expressions of a sequence leave at least one value
/// each.
pub proof fn lemma_sequence_effect_positive(items: Seq<ExprView>, i: nat, strict: bool)
    requires
        sequence_effect(items, i, strict) is Some,
    ensures
        strict ==> sequence_effect(items, i, strict)->Some_0 >= items.len() - i,
        i >= items.len() ==> sequence_effect(items, i, strict) == Some(0int),
    decreases items, items.len() - i,
{
    if i < items.len() {
        lemma_sequence_effect_positive(items, i + 1, strict);
    }
}

/// Where `strict`, statements in a row never leave the stack lower than they
/// found it.
pub proof fn lemma_stmts_effect_positive(list: Seq<StmtView>, i: nat, strict: bool)
    requires
        stmts_effect(list, i, strict) is Some,
    ensures
        strict ==> stmts_effect(list, i, strict)->Some_0 >= 0,
    decreases list, list.len() - i,
{
    if i < list.len() {
        lemma_stmt_effect_positive(list[i as int], strict);
        lemma_stmts_effect_positive(list, i + 1, strict);
    }
}

/// Where `strict`, a statement never leaves the stack lower than it found it.
pub proof fn lemma_stmt_effect_positive(st: StmtView, strict: bool)
    requires
        stmt_effect(st, strict) is Some,
    ensures
        strict ==> stmt_effect(st, strict)->Some_0 >= 0,
    decreases st, 0nat,
{
    match st {
        StmtView::Expr(e) => {
            lemma_expr_effect_positive(e, strict);
        },
        _ => {},
    }
}

/// Where `strict`, a block never leaves the stack lower than it found it.
pub proof fn lemma_block_effect_positive(block: BlockView, strict: bool)
    requires
        block_effect(block, strict) is Some,
    ensures
        strict ==> block_effect(block, strict)->Some_0 >= 0,
    decreases block, 2nat,
{
    lemma_stmts_effect_positive(block.stmts, 0, strict);
    match block.tail {
        Some(last) => {
            lemma_stmt_effect_positive(*last, strict);
        },
        None => {},
    }
}

/// An expression that fits strictly fits, with the same effect.
pub proof fn lemma_expr_loosened(e: ExprView)
    requires
        expr_effect(e, true) is Some,
    ensures
        expr_effect(e, false) == expr_effect(e, true),
    decreases e, 1nat,
{
    match e {
        ExprView::List(items) => {
            lemma_sequence_loosened(items, 0);
        },
        ExprView::FunctionCall { name, args } => {
            lemma_sequence_loosened(args, 0);
        },
        ExprView::Op(left, _, right) => {
            lemma_expr_loosened(*left);
            lemma_expr_loosened(*right);
        },
        ExprView::If { cond_expr, exprs, else_exprs } => {
            lemma_expr_loosened(*cond_expr);
            lemma_block_loosened(exprs);
            match else_exprs {
                Some(other) => {
                    lemma_block_loosened(other);
                },
                None => {},
            }
        },
        ExprView::While { cond_expr, exprs } => {
            lemma_expr_loosened(*cond_expr);
            lemma_block_loosened(exprs);
        },
        ExprView::For { name, start, end, exprs } => {
            lemma_block_loosened(exprs);
        },
        _ => {},
    }
}

/// A sequence of expressions that fits strictly fits, with the same effect.
pub proof fn lemma_sequence_loosened(items: Seq<ExprView>, i: nat)
    requires
        sequence_effect(items, i, true) is Some,
    ensures
        sequence_effect(items, i, false) == sequence_effect(items, i, true),
    decreases items, items.len() - i,
{
    if i < items.len() {
        lemma_expr_loosened(items[i as int]);
        lemma_sequence_loosened(items, i + 1);
    }
}

/// A statement that fits strictly fits, with the same effect.
pub proof fn lemma_stmt_loosened(st: StmtView)
    requires
        stmt_effect(st, true) is Some,
    ensures
        stmt_effect(st, false) == stmt_effect(st, true),
    decreases st, 0nat,
{
    match st {
        StmtView::Expr(e) => {
            lemma_expr_loosened(e);
        },
        StmtView::Assignment { expr, .. } => {
            lemma_expr_loosened(expr);
        },
    }
}

/// Statements in a row that fit strictly fit, with the same effect.
pub proof fn lemma_stmts_loosened(list: Seq<StmtView>, i: nat)
    requires
        stmts_effect(list, i, true) is Some,
    ensures
        stmts_effect(list, i, false) == stmts_effect(list, i, true),
    decreases list, list.len() - i,
{
    if i < list.len() {
        lemma_stmt_loosened(list[i as int]);
        lemma_stmts_loosened(list, i + 1);
    }
}

/// A block that fits strictly fits, with the same effect.
pub proof fn lemma_block_loosened(block: BlockView)
    requires
        block_effect(block, true) is Some,
    ensures
        block_effect(block, false) == block_effect(block, true),
    decreases block, 2nat,
{
    lemma_stmts_loosened(block.stmts, 0);
    match block.tail {
        Some(last) => {
            lemma_stmt_loosened(*last);
        },
        None => {},
    }
}

/// The builder's code is in order and carries depths that fit it.
pub open spec fn measured(
    b: BuilderView,
    at: Map<int, int>,
    owed: Map<int, int>,
    strict: bool,
) -> bool {
    coded(b, owed.dom()) && levelled(b.code(), at, owed, strict)
}

/// The depths `after` are the depths `before` up to the place `n`.
pub open spec fn stays(before: Map<int, int>, after: Map<int, int>, n: int) -> bool {
    forall|k: int|
        k <= n && #[trigger] before.contains_key(k) ==> after.contains_key(k) && after[k]
            == before[k]
}

/// What a step of the compiler does to the depths: the code stays in order
/// with depths that fit, the depths up to the step's start stay, and at the
/// end of the code the stack is deeper by `k` than at the start.
pub open spec fn raised(
    b: BuilderView,
    out: BuilderView,
    at: Map<int, int>,
    then: Map<int, int>,
    owed: Map<int, int>,
    k: int,
    strict: bool,
) -> bool {
    &&& measured(out, then, owed, strict)
    &&& same_function(b, out)
    &&& stays(at, then, b.code().len() as int)
    &&& at.contains_key(b.code().len() as int)
    &&& then.contains_key(out.code().len() as int)
    &&& then[out.code().len() as int] == at[b.code().len() as int] + k
}

proof fn lemma_stays_twice(
    first: Map<int, int>,
    second: Map<int, int>,
    third: Map<int, int>,
    n: int,
    m: int,
)
    requires
        stays(first, second, n),
        stays(second, third, m),
        n <= m,
    ensures
        stays(first, third, n),
{
    assert forall|k: int| k <= n && #[trigger] first.contains_key(k) implies third.contains_key(k)
        && third[k] == first[k] by {
        assert(second.contains_key(k) && second[k] == first[k]);
    }
}

proof fn lemma_raised_twice(
    b: BuilderView,
    mid: BuilderView,
    out: BuilderView,
    at: Map<int, int>,
    then: Map<int, int>,
    last: Map<int, int>,
    owed: Map<int, int>,
    first: int,
    second: int,
    strict: bool,
)
    requires
        raised(b, mid, at, then, owed, first, strict),
        raised(mid, out, then, last, owed, second, strict),
    ensures
        raised(b, out, at, last, owed, first + second, strict),
{
    lemma_same_twice(b, mid, out);
    lemma_same_longer(b, mid);
    lemma_stays_twice(at, then, last, b.code().len() as int, mid.code().len() as int);
}

/// The depths after an instruction that is no jump was appended.
pub open spec fn depth_after(b: BuilderView, at: Map<int, int>, instr: Seq<u8>) -> Map<int, int> {
    at.insert(
        b.code().len() as int + instr.len() as int,
        at[b.code().len() as int] - pops(instr, 0) + pushes(instr, 0),
    )
}

proof fn lemma_level_plain(
    b: BuilderView,
    at: Map<int, int>,
    owed: Map<int, int>,
    instr: Seq<u8>,
    strict: bool,
)
    requires
        measured(b, at, owed, strict),
        plain(instr),
        strict ==> at[b.code().len() as int] >= pops(instr, 0),
    ensures
        raised(
            b,
            b.emit(instr),
            at,
            depth_after(b, at, instr),
            owed,
            pushes(instr, 0) - pops(instr, 0),
            strict,
        ),
{
    lemma_step_plain(b, owed.dom(), instr);
    lemma_levelled_plain(b.code(), at, owed, instr, strict);
    lemma_levelled_end(b.code(), at, owed, strict);
    assert((b.code() + instr).len() == b.code().len() + instr.len());
}

proof fn lemma_load_depth(
    value: Value,
    types: Seq<Seq<char>>,
    s: Seq<Seq<EntryView>>,
    b: BuilderView,
    at: Map<int, int>,
    owed: Map<int, int>,
    strict: bool,
) -> (then: Map<int, int>)
    requires
        measured(b, at, owed, strict),
        strict ==> at[b.code().len() as int] >= 0,
        load_model(value, types, s, b) is Ok,
    ensures
        raised(b, load_model(value, types, s, b)->Ok_0.builder, at, then, owed, 1, strict),
{
    reveal(load_model);
    let interned = b.intern(value);
    let instr = seq![LOAD_CONST, pool_index(b.module.consts, value) as u8];
    assert(interned.code() == b.code());
    lemma_step_load(value, types, s, b, owed.dom());
    lemma_levelled_plain(b.code(), at, owed, instr, strict);
    lemma_levelled_end(b.code(), at, owed, strict);
    assert((b.code() + instr).len() == b.code().len() + instr.len());
    depth_after(b, at, instr)
}

/// Compiling an expression that has an effect raises the depth by it.
pub proof fn lemma_expr_depth(
    e: ExprView,
    s: Seq<Seq<EntryView>>,
    b: BuilderView,
    at: Map<int, int>,
    owed: Map<int, int>,
    strict: bool,
) -> (then: Map<int, int>)
    requires
        measured(b, at, owed, strict),
        strict ==> at[b.code().len() as int] >= 0,
        expr_model(e, s, b) is Ok,
        expr_effect(e, strict) is Some,
    ensures
        raised(
            b,
            expr_model(e, s, b)->Ok_0.builder,
            at,
            then,
            owed,
            expr_effect(e, strict)->Some_0,
            strict,
        ),
    decreases e, 1nat,
{
    match e {
        ExprView::Integer(n) => lemma_load_depth(
            Value::Int(n),
            seq!["int"@],
            s,
            b,
            at,
            owed,
            strict,
        ),
        ExprView::Str(t) => lemma_load_depth(Value::Str(t), seq!["str"@], s, b, at, owed, strict),
        ExprView::Bool(v) => {
            let instr = seq![if v {
                LOAD_TRUE
            } else {
                LOAD_FALSE
            }];
            lemma_level_plain(b, at, owed, instr, strict);
            depth_after(b, at, instr)
        },
        ExprView::NoneLiteral => {
            lemma_level_plain(b, at, owed, seq![LOAD_NONE], strict);
            depth_after(b, at, seq![LOAD_NONE])
        },
        ExprView::Variable(name) => {
            reveal(variable_model);
            let symbol = resolve(s, name).0->Some_0;
            let instr = seq![LOAD_FAST, symbol.index];
            lemma_level_plain(b, at, owed, instr, strict);
            depth_after(b, at, instr)
        },
        ExprView::List(_) => lemma_list_depth(e, s, b, at, owed, strict),
        ExprView::FunctionCall { .. } => lemma_invoke_depth(e, s, b, at, owed, strict),
        ExprView::Op(_, _, _) => lemma_op_depth(e, s, b, at, owed, strict),
        ExprView::If { .. } => lemma_if_depth(e, s, b, at, owed, strict),
        ExprView::While { .. } => lemma_while_depth(e, s, b, at, owed, strict),
        ExprView::For { .. } => lemma_for_depth(e, s, b, at, owed, strict),
    }
}

/// Compiling the expressions of a sequence from the `i`th on raises the
/// depth by their effect.
pub proof fn lemma_sequence_depth(
    items: Seq<ExprView>,
    i: nat,
    s: Seq<Seq<EntryView>>,
    b: BuilderView,
    at: Map<int, int>,
    owed: Map<int, int>,
    strict: bool,
) -> (then: Map<int, int>)
    requires
        i <= items.len(),
        measured(b, at, owed, strict),
        strict ==> at[b.code().len() as int] >= 0,
        sequence_model(items, i, s, b) is Ok,
        sequence_effect(items, i, strict) is Some,
    ensures
        raised(
            b,
            sequence_model(items, i, s, b)->Ok_0,
            at,
            then,
            owed,
            sequence_effect(items, i, strict)->Some_0,
            strict,
        ),
    decreases items, items.len() - i,
{
    if i < items.len() {
        let mid = lemma_expr_depth(items[i as int], s, b, at, owed, strict);
        let next = expr_model(items[i as int], s, b)->Ok_0.builder;
        let then = lemma_sequence_depth(items, i + 1, s, next, mid, owed, strict);
        lemma_raised_twice(
            b,
            next,
            sequence_model(items, i, s, b)->Ok_0,
            at,
            mid,
            then,
            owed,
            expr_effect(items[i as int], strict)->Some_0,
            sequence_effect(items, i + 1, strict)->Some_0,
            strict,
        );
        then
    } else {
        lemma_same_itself(b);
        lemma_levelled_end(b.code(), at, owed, strict);
        at
    }
}

proof fn lemma_list_depth(
    e: ExprView,
    s: Seq<Seq<EntryView>>,
    b: BuilderView,
    at: Map<int, int>,
    owed: Map<int, int>,
    strict: bool,
) -> (then: Map<int, int>)
    requires
        e is List,
        measured(b, at, owed, strict),
        strict ==> at[b.code().len() as int] >= 0,
        list_model(e, s, b) is Ok,
        expr_effect(e, strict) is Some,
    ensures
        raised(
            b,
            list_model(e, s, b)->Ok_0.builder,
            at,
            then,
            owed,
            expr_effect(e, strict)->Some_0,
            strict,
        ),
    decreases e, 0nat,
{
    match e {
        ExprView::List(items) => {
            let mid = lemma_sequence_depth(items, 0, s, b, at, owed, strict);
            lemma_sequence_effect_positive(items, 0, strict);
            let filled = sequence_model(items, 0, s, b)->Ok_0;
            let instr = seq![BUILD_LIST, items.len() as u8];
            lemma_level_plain(filled, mid, owed, instr, strict);
            let then = depth_after(filled, mid, instr);
            lemma_raised_twice(
                b,
                filled,
                filled.emit(instr),
                at,
                mid,
                then,
                owed,
                sequence_effect(items, 0, strict)->Some_0,
                1 - items.len(),
                strict,
            );
            then
        },
        _ => at,
    }
}

proof fn lemma_invoke_depth(
    e: ExprView,
    s: Seq<Seq<EntryView>>,
    b: BuilderView,
    at: Map<int, int>,
    owed: Map<int, int>,
    strict: bool,
) -> (then: Map<int, int>)
    requires
        e is FunctionCall,
        measured(b, at, owed, strict),
        strict ==> at[b.code().len() as int] >= 0,
        invoke_model(e, s, b) is Ok,
        expr_effect(e, strict) is Some,
    ensures
        raised(
            b,
            invoke_model(e, s, b)->Ok_0.builder,
            at,
            then,
            owed,
            expr_effect(e, strict)->Some_0,
            strict,
        ),
    decreases e, 0nat,
{
    match e {
        ExprView::FunctionCall { name, args } => {
            let mid = lemma_sequence_depth(args, 0, s, b, at, owed, strict);
            lemma_sequence_effect_positive(args, 0, strict);
            let filled = sequence_model(args, 0, s, b)->Ok_0;
            reveal(call_model);
            let index = resolve(s, name).0->Some_0.index;
            let instr = seq![CALL_FUNCTION, index, args.len() as u8];
            lemma_level_plain(filled, mid, owed, instr, strict);
            let then = depth_after(filled, mid, instr);
            lemma_raised_twice(
                b,
                filled,
                filled.emit(instr),
                at,
                mid,
                then,
                owed,
                sequence_effect(args, 0, strict)->Some_0,
                1 - args.len(),
                strict,
            );
            then
        },
        _ => at,
    }
}

proof fn lemma_op_depth(
    e: ExprView,
    s: Seq<Seq<EntryView>>,
    b: BuilderView,
    at: Map<int, int>,
    owed: Map<int, int>,
    strict: bool,
) -> (then: Map<int, int>)
    requires
        e is Op,
        measured(b, at, owed, strict),
        strict ==> at[b.code().len() as int] >= 0,
        op_model(e, s, b) is Ok,
        expr_effect(e, strict) is Some,
    ensures
        raised(
            b,
            op_model(e, s, b)->Ok_0.builder,
            at,
            then,
            owed,
            expr_effect(e, strict)->Some_0,
            strict,
        ),
    decreases e, 0nat,
{
    match e {
        ExprView::Op(left, op, right) => {
            let first = lemma_expr_depth(*left, s, b, at, owed, strict);
            let l = expr_model(*left, s, b)->Ok_0.builder;
            let second = lemma_expr_depth(*right, s, l, first, owed, strict);
            let r = expr_model(*right, s, l)->Ok_0.builder;
            lemma_op_code_plain(op);
            let instr = seq![op_code(op)];
            let raise_l = expr_effect(*left, strict)->Some_0;
            let raise_r = expr_effect(*right, strict)->Some_0;
            lemma_raised_twice(b, l, r, at, first, second, owed, raise_l, raise_r, strict);
            lemma_level_plain(r, second, owed, instr, strict);
            let then = depth_after(r, second, instr);
            lemma_raised_twice(
                b,
                r,
                r.emit(instr),
                at,
                second,
                then,
                owed,
                raise_l + raise_r,
                -1,
                strict,
            );
            then
        },
        _ => at,
    }
}

/// The conditional jump of a branch or a loop takes the value of the
/// condition; the depth that it leaves is owed to the place where it lands.
proof fn lemma_level_test(b: BuilderView, at: Map<int, int>, owed: Map<int, int>, strict: bool)
    requires
        measured(b, at, owed, strict),
        strict ==> at[b.code().len() as int] >= 1,
    ensures
        measured(
            b.start_jump_if_false(),
            at.insert(b.code().len() as int + 2, at[b.code().len() as int] - 1),
            owed.insert(b.code().len() as int + 1, at[b.code().len() as int] - 1),
            strict,
        ),
        same_function(b, b.start_jump_if_false()),
        b.start_jump_if_false().last_index() == b.code().len() + 1,
        b.start_jump_if_false().code().len() == b.code().len() + 2,
        !owed.contains_key(b.code().len() as int + 1),
        at.contains_key(b.code().len() as int),
{
    lemma_step_jump(b, owed.dom());
    lemma_levelled_jump(b.code(), at, owed, JUMP_IF_FALSE, at[b.code().len() as int] - 1, strict);
    lemma_levelled_end(b.code(), at, owed, strict);
    assert(owed.insert(b.code().len() as int + 1, at[b.code().len() as int] - 1).dom()
        =~= owed.dom().insert(b.code().len() as int + 1));
    assert(b.start_jump_if_false().code() =~= b.code() + seq![JUMP_IF_FALSE, 0u8]);
}

/// The jump over the second block of a branch: the conditional jump at
/// `exit` lands past it, where the depth is the depth `due` that it left.
proof fn lemma_level_else(
    base: BuilderView,
    a: BuilderView,
    at: Map<int, int>,
    rest: Map<int, int>,
    exit: int,
    due: int,
    strict: bool,
)
    requires
        measured(a, at, rest.insert(exit, due), strict),
        !rest.contains_key(exit),
        a.can_patch_after(exit, 2),
        same_function(base, a),
        base.code().len() <= exit,
        strict ==> at[a.code().len() as int] >= 0,
    ensures
        measured(
            a.start_else(exit),
            at.insert(a.code().len() as int + 2, due),
            rest.insert(a.code().len() as int + 1, at[a.code().len() as int]),
            strict,
        ),
        same_function(base, a.start_else(exit)),
        a.start_else(exit).code().len() == a.code().len() + 2,
        a.emit(seq![JUMP, 0u8]).last_index() == a.code().len() + 1,
        !rest.contains_key(a.code().len() as int + 1),
        at.contains_key(a.code().len() as int),
{
    let owed = rest.insert(exit, due);
    let next = a.code().len() as int + 1;
    let jumped = a.emit(seq![JUMP, 0u8]);
    assert(owed.dom() =~= rest.dom().insert(exit));
    crate::code::lemma_pending_inside(a.code(), owed.dom(), exit);
    lemma_step_else(base, a, rest.dom(), exit);
    lemma_levelled_jump(a.code(), at, owed, JUMP, due, strict);
    lemma_levelled_end(a.code(), at, owed, strict);
    let notes = at.insert(a.code().len() as int + 2, due);
    let more = owed.insert(next, at[a.code().len() as int]);
    let left = rest.insert(next, at[a.code().len() as int]);
    assert(pops(seq![JUMP, 0u8], 0) == 0);
    assert(more =~= left.insert(exit, due));
    assert(jumped.code() =~= a.code() + seq![JUMP, 0u8]);
    crate::code::lemma_emit_jump(a.code(), owed.dom(), JUMP);
    assert(owed.dom().insert(next) =~= left.dom().insert(exit));
    lemma_levelled_patch(jumped.code(), notes, left, exit, due, strict);
    assert(left.dom() =~= rest.dom().insert(next));
}

/// Setting the distance of the jump over the second block of a branch.
proof fn lemma_level_join(
    base: BuilderView,
    o: BuilderView,
    at: Map<int, int>,
    rest: Map<int, int>,
    j: int,
    due: int,
    strict: bool,
)
    requires
        measured(o, at, rest.insert(j, due), strict),
        !rest.contains_key(j),
        o.can_patch(j),
        same_function(base, o),
        base.code().len() <= j,
        at[o.code().len() as int] == due,
    ensures
        measured(o.patch(j), at, rest, strict),
        same_function(base, o.patch(j)),
        o.patch(j).code().len() == o.code().len(),
{
    let owed = rest.insert(j, due);
    assert(owed.dom() =~= rest.dom().insert(j));
    lemma_step_patch(base, o, rest.dom(), j);
    lemma_levelled_patch(o.code(), at, rest, j, due, strict);
}

proof fn lemma_if_depth(
    e: ExprView,
    s: Seq<Seq<EntryView>>,
    b: BuilderView,
    at: Map<int, int>,
    owed: Map<int, int>,
    strict: bool,
) -> (then: Map<int, int>)
    requires
        e is If,
        measured(b, at, owed, strict),
        strict ==> at[b.code().len() as int] >= 0,
        if_model(e, s, b) is Ok,
        expr_effect(e, strict) is Some,
    ensures
        raised(
            b,
            if_model(e, s, b)->Ok_0.builder,
            at,
            then,
            owed,
            expr_effect(e, strict)->Some_0,
            strict,
        ),
    decreases e, 0nat,
{
    match e {
        ExprView::If { cond_expr, exprs, else_exprs } => {
            let k = expr_effect(e, strict)->Some_0;
            let d = at[b.code().len() as int] + expr_effect(*cond_expr, strict)->Some_0 - 1;
            let joint = at[b.code().len() as int] + k;
            lemma_block_effect_positive(exprs, strict);
            let at_c = lemma_expr_depth(*cond_expr, s, b, at, owed, strict);
            let c = expr_model(*cond_expr, s, b)->Ok_0.builder;
            let n_c = c.code().len() as int;
            let b1 = c.start_jump_if_false();
            let j1 = b1.last_index();
            lemma_level_test(c, at_c, owed, strict);
            let at_1 = at_c.insert(n_c + 2, d);
            let owed_1 = owed.insert(j1, d);
            let at_a = lemma_block_depth(exprs, s, b1, at_1, owed_1, strict);
            let first = block_model(exprs, s, b1)->Ok_0;
            let a = first.builder;
            let n_a = a.code().len() as int;
            lemma_same_twice(c, b1, a);
            lemma_same_longer(c, b1);
            let j2 = n_a + 1;
            lemma_level_else(c, a, at_a, owed, j1, d, strict);
            let b2 = a.start_else(j1);
            let at_j = at_a.insert(n_a + 2, d);
            let owed_2 = owed.insert(j2, joint);
            let second = match else_exprs {
                Some(other) => block_model(other, s, b2),
                None => Ok(
                    Visit { types: seq!["none"@], builder: b2.emit(seq![LOAD_NONE]), scope: s },
                ),
            };
            assert(if_model(e, s, b) == else_model(first, j1, second, s));
            assert(second is Ok) by {
                reveal(else_model);
            }
            let o = second->Ok_0.builder;
            let at_o = match else_exprs {
                Some(other) => lemma_block_depth(other, s, b2, at_j, owed_2, strict),
                None => {
                    lemma_level_plain(b2, at_j, owed_2, seq![LOAD_NONE], strict);
                    depth_after(b2, at_j, seq![LOAD_NONE])
                },
            };
            lemma_same_twice(c, b2, o);
            lemma_same_longer(b2, o);
            assert(if_model(e, s, b)->Ok_0.builder == o.patch(j2)) by {
                reveal(else_model);
            }
            assert(o.can_patch(j2)) by {
                reveal(else_model);
            }
            lemma_level_join(c, o, at_o, owed, j2, joint, strict);
            let out = o.patch(j2);
            lemma_same_twice(b, c, out);
            lemma_same_longer(b, c);
            lemma_same_longer(b1, a);
            let n_b = b.code().len() as int;
            assert(stays(at_c, at_1, n_c));
            lemma_stays_twice(at, at_c, at_1, n_b, n_c);
            lemma_stays_twice(at, at_1, at_a, n_b, n_c + 2);
            assert(stays(at_a, at_j, n_a));
            lemma_stays_twice(at, at_a, at_j, n_b, n_a);
            lemma_stays_twice(at, at_j, at_o, n_b, n_a + 2);
            at_o
        },
        _ => at,
    }
}

/// Closing a loop where the depth is the depth at its head: the jump back
/// to `head + 1`, and the conditional jump at `exit` lands past it, where the
/// depth is the depth `due` that it left.
proof fn lemma_level_close(
    base: BuilderView,
    body: Visit,
    head: int,
    exit: int,
    s: Seq<Seq<EntryView>>,
    at: Map<int, int>,
    rest: Map<int, int>,
    due: int,
    strict: bool,
)
    requires
        close_loop(body, head, exit, s) is Ok,
        measured(body.builder, at, rest.insert(exit, due), strict),
        !rest.contains_key(exit),
        same_function(base, body.builder),
        base.code().len() <= exit,
        boundary(body.builder.code(), head + 1),
        0 <= head + 1 <= body.builder.code().len(),
        at.contains_key(head + 1),
        at[head + 1] == at[body.builder.code().len() as int],
        strict ==> at[body.builder.code().len() as int] >= 0,
    ensures
        measured(
            close_loop(body, head, exit, s)->Ok_0.builder,
            at.insert(body.builder.code().len() as int + 2, due),
            rest,
            strict,
        ),
        same_function(base, close_loop(body, head, exit, s)->Ok_0.builder),
        close_loop(body, head, exit, s)->Ok_0.builder.code().len() == body.builder.code().len()
            + 2,
        at.contains_key(body.builder.code().len() as int),
{
    let b = body.builder;
    let owed = rest.insert(exit, due);
    assert(owed.dom() =~= rest.dom().insert(exit));
    lemma_step_close(base, body, head, exit, s, rest.dom());
    reveal(close_loop);
    let back = b.emit(seq![JUMP_ABSOLUTE, (head + 1) as u8]);
    lemma_levelled_jump_back(b.code(), at, owed, head + 1, due, strict);
    lemma_levelled_end(b.code(), at, owed, strict);
    crate::code::lemma_emit_jump_back(b.code(), owed.dom(), head + 1);
    assert(back.code() =~= b.code() + seq![JUMP_ABSOLUTE, (head + 1) as u8]);
    lemma_levelled_patch(
        back.code(),
        at.insert(b.code().len() as int + 2, due),
        rest,
        exit,
        due,
        strict,
    );
}

proof fn lemma_while_depth(
    e: ExprView,
    s: Seq<Seq<EntryView>>,
    b: BuilderView,
    at: Map<int, int>,
    owed: Map<int, int>,
    strict: bool,
) -> (then: Map<int, int>)
    requires
        e is While,
        measured(b, at, owed, strict),
        strict ==> at[b.code().len() as int] >= 0,
        while_model(e, s, b) is Ok,
        expr_effect(e, strict) is Some,
    ensures
        raised(
            b,
            while_model(e, s, b)->Ok_0.builder,
            at,
            then,
            owed,
            expr_effect(e, strict)->Some_0,
            strict,
        ),
    decreases e, 0nat,
{
    match e {
        ExprView::While { cond_expr, exprs } => {
            let n_b = b.code().len() as int;
            let d = at[n_b] + expr_effect(*cond_expr, strict)->Some_0 - 1;
            lemma_end_is_boundary(b.code(), owed.dom());
            let at_c = lemma_expr_depth(*cond_expr, s, b, at, owed, strict);
            let c = expr_model(*cond_expr, s, b)->Ok_0.builder;
            let n_c = c.code().len() as int;
            let b1 = c.start_jump_if_false();
            let j = b1.last_index();
            lemma_level_test(c, at_c, owed, strict);
            let at_1 = at_c.insert(n_c + 2, d);
            let owed_1 = owed.insert(j, d);
            let at_a = lemma_block_depth(exprs, s, b1, at_1, owed_1, strict);
            let body = block_model(exprs, s, b1)->Ok_0;
            let a = body.builder;
            let n_a = a.code().len() as int;
            lemma_same_twice(c, b1, a);
            lemma_same_twice(b, c, a);
            lemma_same_longer(b, c);
            lemma_same_longer(c, b1);
            lemma_same_longer(b1, a);
            crate::jumps::lemma_same_boundary(b, a, n_b);
            assert(stays(at_c, at_1, n_c));
            lemma_stays_twice(at, at_c, at_1, n_b, n_c);
            lemma_stays_twice(at, at_1, at_a, n_b, n_c + 2);
            assert(at_a.contains_key(n_b) && at_a[n_b] == at[n_b]);
            lemma_level_close(b, body, b.last_index(), j, s, at_a, owed, d, strict);
            let then = at_a.insert(n_a + 2, d);
            assert(stays(at_a, then, n_a));
            lemma_stays_twice(at, at_a, then, n_b, n_a);
            then
        },
        _ => at,
    }
}

/// The head of a counting loop: the depth after the store of the start and
/// after the conditional jump is the depth before the loop.
proof fn lemma_for_head_depth(
    start: i64,
    end: i64,
    s: Seq<Seq<EntryView>>,
    b: BuilderView,
    at: Map<int, int>,
    owed: Map<int, int>,
    strict: bool,
) -> (then: Map<int, int>)
    requires
        measured(b, at, owed, strict),
        strict ==> at[b.code().len() as int] >= 0,
        for_head_model(start, end, s, b) is Ok,
    ensures
        ({
            let stored = for_head_model(start, end, s, b)->Ok_0.0;
            let tested = for_head_model(start, end, s, b)->Ok_0.1;
            let d = at[b.code().len() as int];
            &&& same_function(b, stored)
            &&& same_function(stored, tested)
            &&& boundary(stored.code(), stored.code().len() as int)
            &&& stored.last_index() == stored.code().len() - 1
            &&& b.code().len() < stored.code().len()
            &&& stored.code().len() + 2 <= tested.code().len()
            &&& tested.last_index() == tested.code().len() - 1
            &&& !owed.contains_key(tested.last_index())
            &&& measured(tested, then, owed.insert(tested.last_index(), d), strict)
            &&& stays(at, then, b.code().len() as int)
            &&& at.contains_key(b.code().len() as int)
            &&& then.contains_key(stored.code().len() as int)
            &&& then[stored.code().len() as int] == d
            &&& then.contains_key(tested.code().len() as int)
            &&& then[tested.code().len() as int] == d
        }),
{
    reveal(for_head_model);
    let slot = loop_slot(s);
    let d = at[b.code().len() as int];
    let at_1 = lemma_load_depth(Value::Int(start), seq!["int"@], s, b, at, owed, strict);
    let first = load_model(Value::Int(start), seq!["int"@], s, b)->Ok_0.builder;
    let store = seq![STORE_FAST, slot];
    lemma_level_plain(first, at_1, owed, store, strict);
    let stored_b = first.emit(store);
    let at_2 = depth_after(first, at_1, store);
    lemma_same_twice(b, first, stored_b);
    lemma_same_longer(b, first);
    lemma_same_longer(first, stored_b);
    assert(stored_b.code() =~= first.code() + store);
    lemma_end_is_boundary(stored_b.code(), owed.dom());
    let load = seq![LOAD_FAST, slot];
    lemma_level_plain(stored_b, at_2, owed, load, strict);
    let loaded = stored_b.emit(load);
    let at_3 = depth_after(stored_b, at_2, load);
    assert(loaded.code() =~= stored_b.code() + load);
    let at_4 = lemma_load_depth(Value::Int(end), seq!["int"@], s, loaded, at_3, owed, strict);
    let last = load_model(Value::Int(end), seq!["int"@], s, loaded)->Ok_0.builder;
    let less = seq![BIN_LESS_THAN];
    lemma_level_plain(last, at_4, owed, less, strict);
    let compared = last.emit(less);
    let at_5 = depth_after(last, at_4, less);
    assert(compared.code() =~= last.code() + less);
    lemma_level_test(compared, at_5, owed, strict);
    let tested = compared.start_jump_if_false();
    lemma_same_twice(stored_b, loaded, last);
    lemma_same_twice(stored_b, last, compared);
    lemma_same_twice(stored_b, compared, tested);
    lemma_same_longer(stored_b, loaded);
    lemma_same_longer(loaded, last);
    lemma_same_longer(last, compared);
    at_5.insert(compared.code().len() as int + 2, at_5[compared.code().len() as int] - 1)
}

proof fn lemma_for_depth(
    e: ExprView,
    s: Seq<Seq<EntryView>>,
    b: BuilderView,
    at: Map<int, int>,
    owed: Map<int, int>,
    strict: bool,
) -> (then: Map<int, int>)
    requires
        e is For,
        measured(b, at, owed, strict),
        strict ==> at[b.code().len() as int] >= 0,
        for_model(e, s, b) is Ok,
        expr_effect(e, strict) is Some,
    ensures
        raised(b, for_model(e, s, b)->Ok_0.builder, at, then, owed, 0, strict),
    decreases e, 0nat,
{
    match e {
        ExprView::For { name, start, end, exprs } => {
            let slot = loop_slot(s);
            let d = at[b.code().len() as int];
            let at_h = lemma_for_head_depth(start, end, s, b, at, owed, strict);
            let stored_b = for_head_model(start, end, s, b)->Ok_0.0;
            let tested = for_head_model(start, end, s, b)->Ok_0.1;
            let n_s = stored_b.code().len() as int;
            let j = tested.last_index();
            let owed_1 = owed.insert(j, d);
            let at_a = lemma_block_depth(exprs, loop_scope(name, s), tested, at_h, owed_1, strict);
            let body = block_model(exprs, loop_scope(name, s), tested)->Ok_0;
            let a = body.builder;
            let load = seq![LOAD_FAST, slot];
            lemma_level_plain(a, at_a, owed_1, load, strict);
            let b1 = a.emit(load);
            let at_1 = depth_after(a, at_a, load);
            lemma_level_plain(b1, at_1, owed_1, seq![INC_ONE], strict);
            let b2 = b1.emit(seq![INC_ONE]);
            let at_2 = depth_after(b1, at_1, seq![INC_ONE]);
            lemma_level_plain(b2, at_2, owed_1, seq![STORE_FAST, slot], strict);
            let b3 = b2.emit(seq![STORE_FAST, slot]);
            let at_3 = depth_after(b2, at_2, seq![STORE_FAST, slot]);
            let all = seq![LOAD_FAST, slot, INC_ONE, STORE_FAST, slot];
            assert(a.code() + all =~= a.code() + load + seq![INC_ONE] + seq![STORE_FAST, slot]);
            assert(a.emit(all) == b3);
            let closing = Visit { types: body.types, builder: b3, scope: s };
            lemma_same_twice(tested, a, b1);
            lemma_same_twice(tested, b1, b2);
            lemma_same_twice(tested, b2, b3);
            lemma_same_twice(stored_b, tested, b3);
            lemma_same_longer(tested, a);
            lemma_same_longer(a, b1);
            lemma_same_longer(b1, b2);
            lemma_same_longer(b2, b3);
            crate::jumps::lemma_same_boundary(stored_b, b3, n_s);
            assert(at_3[n_s] == d);
            assert(at_3[b3.code().len() as int] == d);
            lemma_level_close(
                stored_b,
                closing,
                stored_b.last_index(),
                j,
                s,
                at_3,
                owed,
                d,
                strict,
            );
            let out = for_model(e, s, b)->Ok_0.builder;
            lemma_same_twice(b, stored_b, out);
            at_3.insert(b3.code().len() as int + 2, d)
        },
        _ => at,
    }
}

/// Compiling a statement that has an effect raises the depth by it.
pub proof fn lemma_stmt_depth(
    st: StmtView,
    s: Seq<Seq<EntryView>>,
    b: BuilderView,
    at: Map<int, int>,
    owed: Map<int, int>,
    strict: bool,
) -> (then: Map<int, int>)
    requires
        measured(b, at, owed, strict),
        strict ==> at[b.code().len() as int] >= 0,
        stmt_model(st, s, b) is Ok,
        stmt_effect(st, strict) is Some,
    ensures
        raised(
            b,
            stmt_model(st, s, b)->Ok_0.builder,
            at,
            then,
            owed,
            stmt_effect(st, strict)->Some_0,
            strict,
        ),
    decreases st, 0nat,
{
    match st {
        StmtView::Expr(e) => lemma_expr_depth(e, s, b, at, owed, strict),
        StmtView::Assignment { new, name, expr, types } => {
            let mid = lemma_expr_depth(expr, s, b, at, owed, strict);
            let value = expr_model(expr, s, b)->Ok_0;
            let out = stmt_model(st, s, b)->Ok_0;
            if new {
                reveal(bind_model);
                let instr = seq![STORE_FAST, next_index(s) as u8];
                lemma_level_plain(value.builder, mid, owed, instr, strict);
                let then = depth_after(value.builder, mid, instr);
                lemma_raised_twice(
                    b,
                    value.builder,
                    out.builder,
                    at,
                    mid,
                    then,
                    owed,
                    expr_effect(expr, strict)->Some_0,
                    -1,
                    strict,
                );
                then
            } else {
                reveal(rebind_model);
                let index = resolve(s, name).0->Some_0.index;
                let instr = seq![STORE_FAST, index];
                lemma_level_plain(value.builder, mid, owed, instr, strict);
                let then = depth_after(value.builder, mid, instr);
                lemma_raised_twice(
                    b,
                    value.builder,
                    out.builder,
                    at,
                    mid,
                    then,
                    owed,
                    expr_effect(expr, strict)->Some_0,
                    -1,
                    strict,
                );
                then
            }
        },
    }
}

/// Compiling the statements of a list from the `i`th on, which have an
/// effect, raises the depth by it.
pub proof fn lemma_stmts_depth(
    list: Seq<StmtView>,
    i: nat,
    before: Visit,
    at: Map<int, int>,
    owed: Map<int, int>,
    strict: bool,
) -> (then: Map<int, int>)
    requires
        measured(before.builder, at, owed, strict),
        strict ==> at[before.builder.code().len() as int] >= 0,
        stmts_model(list, i, before) is Ok,
        stmts_effect(list, i, strict) is Some,
    ensures
        raised(
            before.builder,
            stmts_model(list, i, before)->Ok_0.builder,
            at,
            then,
            owed,
            stmts_effect(list, i, strict)->Some_0,
            strict,
        ),
    decreases list, list.len() - i,
{
    if i < list.len() {
        lemma_stmt_effect_positive(list[i as int], strict);
        let mid = lemma_stmt_depth(list[i as int], before.scope, before.builder, at, owed, strict);
        let next = stmt_model(list[i as int], before.scope, before.builder)->Ok_0;
        let then = lemma_stmts_depth(list, i + 1, next, mid, owed, strict);
        lemma_raised_twice(
            before.builder,
            next.builder,
            stmts_model(list, i, before)->Ok_0.builder,
            at,
            mid,
            then,
            owed,
            stmt_effect(list[i as int], strict)->Some_0,
            stmts_effect(list, i + 1, strict)->Some_0,
            strict,
        );
        then
    } else {
        lemma_same_itself(before.builder);
        lemma_levelled_end(before.builder.code(), at, owed, strict);
        at
    }
}

/// Compiling the statements of a body that has an effect raises the depth by
/// it.
pub proof fn lemma_body_depth(
    block: BlockView,
    s: Seq<Seq<EntryView>>,
    b: BuilderView,
    at: Map<int, int>,
    owed: Map<int, int>,
    strict: bool,
) -> (then: Map<int, int>)
    requires
        measured(b, at, owed, strict),
        strict ==> at[b.code().len() as int] >= 0,
        body_model(block, s, b) is Ok,
        block_effect(block, strict) is Some,
    ensures
        raised(
            b,
            body_model(block, s, b)->Ok_0.builder,
            at,
            then,
            owed,
            block_effect(block, strict)->Some_0,
            strict,
        ),
    decreases block, 1nat,
{
    let start = Visit { types: seq!["none"@], builder: b, scope: s };
    lemma_stmts_effect_positive(block.stmts, 0, strict);
    let mid = lemma_stmts_depth(block.stmts, 0, start, at, owed, strict);
    let before = stmts_model(block.stmts, 0, start)->Ok_0;
    match block.tail {
        Some(last) => {
            let then = lemma_stmt_depth(*last, before.scope, before.builder, mid, owed, strict);
            lemma_raised_twice(
                b,
                before.builder,
                body_model(block, s, b)->Ok_0.builder,
                at,
                mid,
                then,
                owed,
                stmts_effect(block.stmts, 0, strict)->Some_0,
                stmt_effect(*last, strict)->Some_0,
                strict,
            );
            then
        },
        None => mid,
    }
}

/// Compiling a block that has an effect raises the depth by it.
pub proof fn lemma_block_depth(
    block: BlockView,
    s: Seq<Seq<EntryView>>,
    b: BuilderView,
    at: Map<int, int>,
    owed: Map<int, int>,
    strict: bool,
) -> (then: Map<int, int>)
    requires
        measured(b, at, owed, strict),
        strict ==> at[b.code().len() as int] >= 0,
        block_model(block, s, b) is Ok,
        block_effect(block, strict) is Some,
    ensures
        raised(
            b,
            block_model(block, s, b)->Ok_0.builder,
            at,
            then,
            owed,
            block_effect(block, strict)->Some_0,
            strict,
        ),
    decreases block, 2nat,
{
    lemma_body_depth(block, s.push(Seq::empty()), b, at, owed, strict)
}

/// The depths `at` fit the finished code of a function.
pub open spec fn level(code: Seq<u8>, at: Map<int, int>, strict: bool) -> bool {
    forall|p: int|
        0 <= p < code.len() && #[trigger] boundary(code, p) ==> levels(
            code,
            p,
            at,
            Map::<int, int>::empty(),
            strict,
        )
}

/// The stack of a function is in order: there are depths that fit its code,
/// counted from the stack with which the function starts. Then the stack has
/// one depth at each place of the code, whatever way the machine came there;
/// where `strict`, it also holds at each instruction what the instruction
/// takes.
pub open spec fn stack_in_order(f: FunctionView, strict: bool) -> bool {
    exists|at: Map<int, int>| #[trigger]
        level(f.opcodes, at, strict) && at.contains_key(0) && at[0] == 0
}

/// Every function of the table has its stack in order.
pub open spec fn all_stacks_in_order(functions: Seq<FunctionView>, strict: bool) -> bool {
    forall|k: int| 0 <= k < functions.len() ==> stack_in_order(#[trigger] functions[k], strict)
}

/// Compiling a definition whose body fits adds to the table a function with
/// its stack in order.
pub proof fn lemma_function_depth(
    def: DefinitionView,
    global: Seq<Seq<EntryView>>,
    b: BuilderView,
    strict: bool,
)
    requires
        block_effect(def.exprs, strict) is Some,
        fed(block_effect(def.exprs, strict)->Some_0, strict),
        all_stacks_in_order(b.module.functions, strict),
        function_model(def, global, b) is Ok,
    ensures
        all_stacks_in_order(function_model(def, global, b)->Ok_0.module.functions, strict),
{
    reveal(function_model);
    reveal(same_function);
    let local = arguments_model(def.args, 0, global.push(Seq::empty()))->Ok_0;
    let begun = b.begin(def.name, def.args.len() as usize).returning(def.return_type);
    let none = Map::<int, int>::empty();
    let at0 = map![0int => 0int];
    lemma_empty_well_formed();
    lemma_levelled_empty(0, strict);
    assert(begun.code() =~= Seq::<u8>::empty());
    assert(none.dom() =~= Set::<int>::empty());
    let then = lemma_body_depth(def.exprs, local, begun, at0, none, strict);
    let v = body_model(def.exprs, local, begun)->Ok_0.builder;
    lemma_finish(v.code());
    let out = function_model(def, global, b)->Ok_0;
    assert(out == v.finish());
    let code = v.code().push(RETURN);
    let instr = seq![RETURN];
    assert(code =~= v.code() + instr);
    lemma_levelled_plain(v.code(), then, none, instr, strict);
    let at = then.insert(
        code.len() as int,
        then[v.code().len() as int] - pops(instr, 0) + pushes(instr, 0),
    );
    assert(level(code, at, strict)) by {
        reveal(levelled);
    }
    assert(at[0] == 0);
    let added = out.module.functions.last();
    assert(added.opcodes == code);
    assert(stack_in_order(added, strict));
    assert forall|k: int| 0 <= k < out.module.functions.len() implies stack_in_order(
        #[trigger] out.module.functions[k],
        strict,
    ) by {
        if k < b.module.functions.len() {
            assert(out.module.functions[k] == b.module.functions[k]);
        }
    }
}

/// Compiling the definitions of a fitting program from the `i`th on adds
/// functions with their stacks in order.
pub proof fn lemma_functions_depth(
    defs: Seq<DefinitionView>,
    i: nat,
    global: Seq<Seq<EntryView>>,
    b: BuilderView,
    strict: bool,
)
    requires
        fitting(defs, strict),
        all_stacks_in_order(b.module.functions, strict),
        functions_model(defs, i, global, b) is Ok,
    ensures
        all_stacks_in_order(functions_model(defs, i, global, b)->Ok_0.module.functions, strict),
    decreases defs.len() - i,
{
    if i < defs.len() {
        lemma_function_depth(defs[i as int], global, b, strict);
        lemma_functions_depth(
            defs,
            i + 1,
            global,
            function_model(defs[i as int], global, b)->Ok_0,
            strict,
        );
    }
}

/// In every function of a module compiled from a joined program, at each
/// place of the code the stack has one depth, whatever way the machine came
/// there: the ways that meet at the target of a jump bring stacks of the same
/// depth.
pub proof fn lemma_compiled_joins_agree(defs: Seq<DefinitionView>, name: Seq<char>)
    requires
        joined(defs),
        compile_model(defs, name) is Ok,
    ensures
        all_stacks_in_order(compile_model(defs, name)->Ok_0.functions, false),
{
    let global = declare_model(defs, 0, seq![Seq::<EntryView>::empty()])->Ok_0;
    let start = BuilderView { module: ModuleView::empty(name), current: None };
    lemma_functions_depth(defs, 0, global, start, false);
}

/// In every function of a module compiled from a balanced program the stack
/// is in order: at each place of the code the stack has one depth, whatever
/// way the machine came there; and no instruction finds less on the stack
/// than it takes.
pub proof fn lemma_compiled_stacks_in_order(defs: Seq<DefinitionView>, name: Seq<char>)
    requires
        balanced(defs),
        compile_model(defs, name) is Ok,
    ensures
        all_stacks_in_order(compile_model(defs, name)->Ok_0.functions, true),
{
    let global = declare_model(defs, 0, seq![Seq::<EntryView>::empty()])->Ok_0;
    let start = BuilderView { module: ModuleView::empty(name), current: None };
    lemma_functions_depth(defs, 0, global, start, true);
}

/// A balanced program is joined.
pub proof fn lemma_balanced_is_joined(defs: Seq<DefinitionView>)
    requires
        balanced(defs),
    ensures
        joined(defs),
{
    assert forall|k: int| 0 <= k < defs.len() implies block_effect(
        (#[trigger] defs[k]).exprs,
        false,
    ) is Some by {
        lemma_block_loosened(defs[k].exprs);
    }
}

/// The machine stands at an opcode of the code, and its stack has the depth
/// noted there.
pub open spec fn steady(code: Seq<u8>, at: Map<int, int>, f: Frame) -> bool {
    &&& 0 <= f.ip < code.len()
    &&& boundary(code, f.ip)
    &&& at.contains_key(f.ip)
    &&& f.stack.len() == at[f.ip]
}

/// A step of a machine that is steady, in a finished function with its stack
/// in order: the machine is steady again after the step, and after a call
/// returns; and where `strict`, the instruction finds on the stack what it
/// takes.
pub proof fn lemma_steady_step(
    m: ModuleView,
    code: Seq<u8>,
    at: Map<int, int>,
    f: Frame,
    strict: bool,
)
    requires
        sound_code(code),
        level(code, at, strict),
        steady(code, at, f),
    ensures
        strict ==> f.stack.len() >= pops(code, f.ip),
        step(m, code, f) matches Step::Next(g) ==> steady(code, at, g),
        step(m, code, f) is Call ==> forall|v: Value|
            steady(code, at, #[trigger] step(m, code, f)->back.push(v)),
{
    let p = f.ip;
    let none = Map::<int, int>::empty();
    assert(levels(code, p, at, none, strict));
    assert(jumps_inside(code, p));
    lemma_whole(code, p);
    let next = next_opcode(code, p);
    assert(reaches(code, p, next)) by {
        assert(reaches(code, next, next));
    }
    lemma_reaches_twice(code, 0, p, next);
    if code[p] == RETURN {
    } else if next == code.len() {
        if operand_count(code[p]) >= 1 {
            crate::code::lemma_not_inside(code, p, code.len() - 1);
        }
    } else if operand_count(code[p]) == 0 {
        lemma_steady_plain(m, code, at, f, strict);
    } else if code[p] == CALL_FUNCTION {
        lemma_steady_call(m, code, at, f, strict);
    } else {
        lemma_steady_operand(m, code, at, f, strict);
    }
}

proof fn lemma_steady_call(m: ModuleView, code: Seq<u8>, at: Map<int, int>, f: Frame, strict: bool)
    requires
        sound_code(code),
        level(code, at, strict),
        steady(code, at, f),
        code[f.ip] == CALL_FUNCTION,
        boundary(code, f.ip + 3),
        f.ip + 3 < code.len(),
    ensures
        !(step(m, code, f) is Next),
        step(m, code, f) is Call ==> forall|v: Value|
            steady(code, at, #[trigger] step(m, code, f)->back.push(v)),
{
    let none = Map::<int, int>::empty();
    assert(levels(code, f.ip, at, none, strict));
}

proof fn lemma_steady_plain(m: ModuleView, code: Seq<u8>, at: Map<int, int>, f: Frame, strict: bool)
    requires
        sound_code(code),
        level(code, at, strict),
        steady(code, at, f),
        operand_count(code[f.ip]) == 0,
        code[f.ip] != RETURN,
        boundary(code, f.ip + 1),
        f.ip + 1 < code.len(),
    ensures
        step(m, code, f) matches Step::Next(g) ==> steady(code, at, g),
        !(step(m, code, f) is Call),
{
    let none = Map::<int, int>::empty();
    assert(levels(code, f.ip, at, none, strict));
}

proof fn lemma_steady_operand(
    m: ModuleView,
    code: Seq<u8>,
    at: Map<int, int>,
    f: Frame,
    strict: bool,
)
    requires
        sound_code(code),
        level(code, at, strict),
        steady(code, at, f),
        operand_count(code[f.ip]) == 1,
        boundary(code, f.ip + 2),
        f.ip + 2 < code.len(),
    ensures
        step(m, code, f) matches Step::Next(g) ==> steady(code, at, g),
        !(step(m, code, f) is Call),
{
    let none = Map::<int, int>::empty();
    let p = f.ip;
    assert(levels(code, p, at, none, strict));
    assert(jumps_inside(code, p));
}

} // verus!
