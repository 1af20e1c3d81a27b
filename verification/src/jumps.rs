use vstd::prelude::*;
use crate::ast::{BlockView, DefinitionView, ExprView, StmtView};
use crate::code::{
    boundary, is_jump, is_prefix, lemma_emit_jump, lemma_emit_jump_back, lemma_emit_plain,
    lemma_empty_well_formed, lemma_end_is_boundary, lemma_finish, lemma_patch, lemma_pending_inside,
    lemma_prefix_boundary, sound_code, well_formed,
};
use crate::compiler::{
    arguments_model, bind_model, block_model, body_model, call_model, close_loop, compile_model,
    declare_model, else_model, expr_model, for_head_model, for_model, function_model,
    functions_model, if_model, invoke_model, list_model, load_model, loop_scope, loop_slot, op_code,
    op_model, rebind_model, sequence_model, stmt_model, stmts_model, variable_model, while_model,
    Visit,
};
use crate::ast::BinOpAst;
use crate::errors::ErrorView;
use crate::module::{pool_index, BuilderView, FunctionView, ModuleView};
use crate::object::Value;
use crate::opcodes::{
    operand_count, BIN_LESS_THAN, BUILD_LIST, CALL_FUNCTION, INC_ONE, JUMP, JUMP_ABSOLUTE,
    JUMP_IF_FALSE, LOAD_CONST, LOAD_FALSE, LOAD_FAST, LOAD_NONE, LOAD_TRUE, RETURN, STORE_FAST,
};
use crate::symbol::EntryView;

verus! {

/// The builder `out` works on the function that `b` works on, next to the
/// same finished functions, and its code begins with the code of `b`.
#[verifier::opaque]
pub open spec fn same_function(b: BuilderView, out: BuilderView) -> bool {
    &&& b.current is Some
    &&& out.current is Some
    &&& out.current->0.name == b.current->0.name
    &&& out.current->0.num_args == b.current->0.num_args
    &&& out.current->0.return_types == b.current->0.return_types
    &&& out.module.functions == b.module.functions
    &&& out.module.name == b.module.name
    &&& is_prefix(b.code(), out.code())
}

/// The builder works on a function whose code is in order, with the
/// distances at `pending` still to be set.
pub open spec fn coded(b: BuilderView, pending: Set<int>) -> bool {
    b.current is Some && well_formed(b.code(), pending)
}

/// A builder with a function under construction continues itself.
pub proof fn lemma_same_itself(b: BuilderView)
    requires
        b.current is Some,
    ensures
        same_function(b, b),
{
    reveal(same_function);
}

/// A continuation of a continuation is a continuation.
pub proof fn lemma_same_twice(a: BuilderView, b: BuilderView, c: BuilderView)
    requires
        same_function(a, b),
        same_function(b, c),
    ensures
        same_function(a, c),
{
    reveal(same_function);
}

/// Appending bytes continues the function.
pub proof fn lemma_same_emit(b: BuilderView, x: BuilderView, bytes: Seq<u8>)
    requires
        same_function(b, x),
    ensures
        same_function(b, x.emit(bytes)),
{
    reveal(same_function);
}

/// Interning a constant continues the function.
pub proof fn lemma_same_intern(b: BuilderView, x: BuilderView, value: Value)
    requires
        same_function(b, x),
    ensures
        same_function(b, x.intern(value)),
{
    reveal(same_function);
}

/// Setting a distance behind the earlier code continues the function.
pub proof fn lemma_same_patch(b: BuilderView, x: BuilderView, j: int)
    requires
        same_function(b, x),
        b.code().len() <= j < x.code().len(),
    ensures
        same_function(b, x.patch(j)),
{
    reveal(same_function);
}

/// Where an instruction begins in the earlier code, one begins in the
/// continuation.
pub proof fn lemma_same_boundary(b: BuilderView, x: BuilderView, p: int)
    requires
        same_function(b, x),
        boundary(b.code(), p),
        p <= b.code().len(),
    ensures
        boundary(x.code(), p),
        b.code().len() <= x.code().len(),
{
    reveal(same_function);
    lemma_prefix_boundary(b.code(), x.code(), p);
}

/// A continuation is at least as long as what it continues.
pub proof fn lemma_same_longer(b: BuilderView, x: BuilderView)
    requires
        same_function(b, x),
    ensures
        b.code().len() <= x.code().len(),
        b.current is Some,
        x.current is Some,
{
    reveal(same_function);
}

/// An instruction that is neither a jump nor `RETURN`.
pub open spec fn plain(instr: Seq<u8>) -> bool {
    &&& instr.len() == 1 + operand_count(instr[0])
    &&& !is_jump(instr[0])
    &&& instr[0] != JUMP_ABSOLUTE
    &&& instr[0] != RETURN
}

/// Appending an instruction that is neither a jump nor `RETURN` keeps the code
/// in order.
pub proof fn lemma_step_plain(b: BuilderView, pending: Set<int>, instr: Seq<u8>)
    requires
        coded(b, pending),
        plain(instr),
    ensures
        coded(b.emit(instr), pending),
        same_function(b, b.emit(instr)),
{
    lemma_emit_plain(b.code(), pending, instr);
    lemma_same_itself(b);
    lemma_same_emit(b, b, instr);
}

/// Loading a constant keeps the code in order.
pub proof fn lemma_step_load(
    value: Value,
    types: Seq<Seq<char>>,
    s: Seq<Seq<EntryView>>,
    b: BuilderView,
    pending: Set<int>,
)
    requires
        coded(b, pending),
        load_model(value, types, s, b) is Ok,
    ensures
        coded(load_model(value, types, s, b)->Ok_0.builder, pending),
        same_function(b, load_model(value, types, s, b)->Ok_0.builder),
{
    reveal(load_model);
    let interned = b.intern(value);
    let instr = seq![LOAD_CONST, pool_index(b.module.consts, value) as u8];
    assert(interned.code() == b.code());
    lemma_step_plain(interned, pending, instr);
    lemma_same_itself(b);
    lemma_same_intern(b, b, value);
    lemma_same_twice(b, interned, interned.emit(instr));
}

/// Appending a conditional jump keeps the code in order, with the new distance
/// still to be set.
pub proof fn lemma_step_jump(b: BuilderView, pending: Set<int>)
    requires
        coded(b, pending),
    ensures
        coded(b.start_jump_if_false(), pending.insert(b.start_jump_if_false().last_index())),
        same_function(b, b.start_jump_if_false()),
        b.start_jump_if_false().last_index() == b.code().len() + 1,
        !pending.contains(b.start_jump_if_false().last_index()),
{
    lemma_emit_jump(b.code(), pending, JUMP_IF_FALSE);
    lemma_same_itself(b);
    lemma_same_emit(b, b, seq![JUMP_IF_FALSE, 0u8]);
    if pending.contains(b.code().len() as int + 1) {
        lemma_pending_inside(b.code(), pending, b.code().len() as int + 1);
    }
}

/// The jump over the second block is emitted, and the conditional jump at
/// `exit` lands just past it.
pub proof fn lemma_step_else(base: BuilderView, a: BuilderView, rest: Set<int>, exit: int)
    requires
        coded(a, rest.insert(exit)),
        !rest.contains(exit),
        a.can_patch_after(exit, 2),
        same_function(base, a),
        base.code().len() <= exit,
    ensures
        coded(a.start_else(exit), rest.insert(a.emit(seq![JUMP, 0u8]).last_index())),
        same_function(base, a.start_else(exit)),
        a.emit(seq![JUMP, 0u8]).last_index() == a.code().len() + 1,
        !rest.contains(a.emit(seq![JUMP, 0u8]).last_index()),
{
    let pending = rest.insert(exit);
    let jumped = a.emit(seq![JUMP, 0u8]);
    let next = a.code().len() as int + 1;
    lemma_emit_jump(a.code(), pending, JUMP);
    if pending.contains(next) {
        lemma_pending_inside(a.code(), pending, next);
    }
    assert(pending.insert(next) =~= rest.insert(next).insert(exit));
    lemma_patch(jumped.code(), rest.insert(next), exit);
    lemma_same_emit(base, a, seq![JUMP, 0u8]);
    lemma_same_patch(base, jumped, exit);
}

/// Setting a distance that was still to be set keeps the code in order, with
/// that distance settled.
pub proof fn lemma_step_patch(base: BuilderView, o: BuilderView, rest: Set<int>, j: int)
    requires
        coded(o, rest.insert(j)),
        !rest.contains(j),
        o.can_patch(j),
        same_function(base, o),
        base.code().len() <= j,
    ensures
        coded(o.patch(j), rest),
        same_function(base, o.patch(j)),
{
    lemma_patch(o.code(), rest, j);
    lemma_same_patch(base, o, j);
}

/// Closing a loop: the jump back to the opcode after `head` is emitted, and
/// the conditional jump at `exit` lands just past it.
pub proof fn lemma_step_close(
    base: BuilderView,
    body: Visit,
    head: int,
    exit: int,
    s: Seq<Seq<EntryView>>,
    rest: Set<int>,
)
    requires
        close_loop(body, head, exit, s) is Ok,
        coded(body.builder, rest.insert(exit)),
        !rest.contains(exit),
        same_function(base, body.builder),
        base.code().len() <= exit,
        boundary(body.builder.code(), head + 1),
        0 <= head + 1 <= body.builder.code().len(),
    ensures
        coded(close_loop(body, head, exit, s)->Ok_0.builder, rest),
        same_function(base, close_loop(body, head, exit, s)->Ok_0.builder),
{
    reveal(close_loop);
    let b = body.builder;
    let pending = rest.insert(exit);
    let back = b.emit(seq![JUMP_ABSOLUTE, (head + 1) as u8]);
    lemma_emit_jump_back(b.code(), pending, head + 1);
    lemma_patch(back.code(), rest, exit);
    lemma_same_emit(base, b, seq![JUMP_ABSOLUTE, (head + 1) as u8]);
    lemma_same_patch(base, back, exit);
}

/// An operator's instruction is neither a jump nor `RETURN`.
pub proof fn lemma_op_code_plain(op: BinOpAst)
    ensures
        plain(seq![op_code(op)]),
{
}

/// Compiling an expression keeps the code in order and adds to its end.
pub proof fn lemma_expr_code(e: ExprView, s: Seq<Seq<EntryView>>, b: BuilderView, pending: Set<int>)
    requires
        coded(b, pending),
        expr_model(e, s, b) is Ok,
    ensures
        coded(expr_model(e, s, b)->Ok_0.builder, pending),
        same_function(b, expr_model(e, s, b)->Ok_0.builder),
    decreases e, 1nat,
{
    match e {
        ExprView::Integer(n) => {
            lemma_step_load(Value::Int(n), seq!["int"@], s, b, pending);
        },
        ExprView::Str(t) => {
            lemma_step_load(Value::Str(t), seq!["str"@], s, b, pending);
        },
        ExprView::Bool(v) => {
            lemma_step_plain(b, pending, seq![if v {
                LOAD_TRUE
            } else {
                LOAD_FALSE
            }]);
        },
        ExprView::NoneLiteral => {
            lemma_step_plain(b, pending, seq![LOAD_NONE]);
        },
        ExprView::Variable(name) => {
            reveal(variable_model);
            let index = crate::symbol::resolve(s, name).0->Some_0.index;
            lemma_step_plain(b, pending, seq![LOAD_FAST, index]);
        },
        ExprView::List(_) => {
            lemma_list_code(e, s, b, pending);
        },
        ExprView::FunctionCall { .. } => {
            lemma_invoke_code(e, s, b, pending);
        },
        ExprView::Op(_, _, _) => {
            lemma_op_code(e, s, b, pending);
        },
        ExprView::If { .. } => {
            lemma_if_code(e, s, b, pending);
        },
        ExprView::While { .. } => {
            lemma_while_code(e, s, b, pending);
        },
        ExprView::For { .. } => {
            lemma_for_code(e, s, b, pending);
        },
    }
}

proof fn lemma_list_code(e: ExprView, s: Seq<Seq<EntryView>>, b: BuilderView, pending: Set<int>)
    requires
        coded(b, pending),
        e is List,
        list_model(e, s, b) is Ok,
    ensures
        coded(list_model(e, s, b)->Ok_0.builder, pending),
        same_function(b, list_model(e, s, b)->Ok_0.builder),
    decreases e, 0nat,
{
    match e {
        ExprView::List(items) => {
            lemma_sequence_code(items, 0, s, b, pending);
            let after = sequence_model(items, 0, s, b)->Ok_0;
            let instr = seq![BUILD_LIST, items.len() as u8];
            lemma_step_plain(after, pending, instr);
            lemma_same_twice(b, after, after.emit(instr));
        },
        _ => {},
    }
}

proof fn lemma_invoke_code(e: ExprView, s: Seq<Seq<EntryView>>, b: BuilderView, pending: Set<int>)
    requires
        coded(b, pending),
        e is FunctionCall,
        invoke_model(e, s, b) is Ok,
    ensures
        coded(invoke_model(e, s, b)->Ok_0.builder, pending),
        same_function(b, invoke_model(e, s, b)->Ok_0.builder),
    decreases e, 0nat,
{
    match e {
        ExprView::FunctionCall { name, args } => {
            lemma_sequence_code(args, 0, s, b, pending);
            let after = sequence_model(args, 0, s, b)->Ok_0;
            reveal(call_model);
            let index = crate::symbol::resolve(s, name).0->Some_0.index;
            let instr = seq![CALL_FUNCTION, index, args.len() as u8];
            lemma_step_plain(after, pending, instr);
            lemma_same_twice(b, after, after.emit(instr));
        },
        _ => {},
    }
}

proof fn lemma_op_code(e: ExprView, s: Seq<Seq<EntryView>>, b: BuilderView, pending: Set<int>)
    requires
        coded(b, pending),
        e is Op,
        op_model(e, s, b) is Ok,
    ensures
        coded(op_model(e, s, b)->Ok_0.builder, pending),
        same_function(b, op_model(e, s, b)->Ok_0.builder),
    decreases e, 0nat,
{
    match e {
        ExprView::Op(left, op, right) => {
            lemma_expr_code(*left, s, b, pending);
            let l = expr_model(*left, s, b)->Ok_0.builder;
            lemma_expr_code(*right, s, l, pending);
            let r = expr_model(*right, s, l)->Ok_0.builder;
            lemma_op_code_plain(op);
            lemma_step_plain(r, pending, seq![op_code(op)]);
            lemma_same_twice(b, l, r);
            lemma_same_twice(b, r, r.emit(seq![op_code(op)]));
        },
        _ => {},
    }
}

proof fn lemma_else_code(
    base: BuilderView,
    first: Visit,
    exit: int,
    second: Result<Visit, ErrorView>,
    s: Seq<Seq<EntryView>>,
    rest: Set<int>,
)
    requires
        else_model(first, exit, second, s) is Ok,
        second is Ok,
        coded(second->Ok_0.builder, rest.insert(first.builder.emit(seq![JUMP, 0u8]).last_index())),
        !rest.contains(first.builder.emit(seq![JUMP, 0u8]).last_index()),
        same_function(base, second->Ok_0.builder),
        base.code().len() <= first.builder.emit(seq![JUMP, 0u8]).last_index(),
    ensures
        coded(else_model(first, exit, second, s)->Ok_0.builder, rest),
        same_function(base, else_model(first, exit, second, s)->Ok_0.builder),
{
    reveal(else_model);
    lemma_step_patch(
        base,
        second->Ok_0.builder,
        rest,
        first.builder.emit(seq![JUMP, 0u8]).last_index(),
    );
}

proof fn lemma_if_code(e: ExprView, s: Seq<Seq<EntryView>>, b: BuilderView, pending: Set<int>)
    requires
        coded(b, pending),
        e is If,
        if_model(e, s, b) is Ok,
    ensures
        coded(if_model(e, s, b)->Ok_0.builder, pending),
        same_function(b, if_model(e, s, b)->Ok_0.builder),
    decreases e, 0nat,
{
    match e {
        ExprView::If { cond_expr, exprs, else_exprs } => {
            lemma_expr_code(*cond_expr, s, b, pending);
            let c = expr_model(*cond_expr, s, b)->Ok_0.builder;
            let b1 = c.start_jump_if_false();
            let j1 = b1.last_index();
            lemma_step_jump(c, pending);
            lemma_block_code(exprs, s, b1, pending.insert(j1));
            let first = block_model(exprs, s, b1)->Ok_0;
            let a = first.builder;
            lemma_same_twice(c, b1, a);
            lemma_step_else(c, a, pending, j1);
            let b2 = a.start_else(j1);
            let j2 = a.emit(seq![JUMP, 0u8]).last_index();
            let second = match else_exprs {
                Some(other) => block_model(other, s, b2),
                None => Ok(
                    Visit { types: seq!["none"@], builder: b2.emit(seq![LOAD_NONE]), scope: s },
                ),
            };
            assert(if_model(e, s, b) == else_model(first, j1, second, s));
            assert(second is Ok) by {
                reveal(else_model);
            }
            match else_exprs {
                Some(other) => {
                    lemma_block_code(other, s, b2, pending.insert(j2));
                },
                None => {
                    lemma_step_plain(b2, pending.insert(j2), seq![LOAD_NONE]);
                },
            }
            let o = second->Ok_0.builder;
            lemma_same_twice(c, b2, o);
            lemma_same_longer(c, a);
            lemma_else_code(c, first, j1, second, s, pending);
            lemma_same_twice(b, c, if_model(e, s, b)->Ok_0.builder);
        },
        _ => {},
    }
}

proof fn lemma_while_code(e: ExprView, s: Seq<Seq<EntryView>>, b: BuilderView, pending: Set<int>)
    requires
        coded(b, pending),
        e is While,
        while_model(e, s, b) is Ok,
    ensures
        coded(while_model(e, s, b)->Ok_0.builder, pending),
        same_function(b, while_model(e, s, b)->Ok_0.builder),
    decreases e, 0nat,
{
    match e {
        ExprView::While { cond_expr, exprs } => {
            lemma_end_is_boundary(b.code(), pending);
            lemma_expr_code(*cond_expr, s, b, pending);
            let c = expr_model(*cond_expr, s, b)->Ok_0.builder;
            let b1 = c.start_jump_if_false();
            let j = b1.last_index();
            lemma_step_jump(c, pending);
            lemma_block_code(exprs, s, b1, pending.insert(j));
            let body = block_model(exprs, s, b1)->Ok_0;
            lemma_same_twice(c, b1, body.builder);
            lemma_same_twice(b, c, body.builder);
            lemma_same_boundary(b, body.builder, b.code().len() as int);
            lemma_same_longer(b, c);
            lemma_step_close(b, body, b.last_index(), j, s, pending);
        },
        _ => {},
    }
}

/// The head of a counting loop keeps the code in order; the place after the
/// store of the start is an opcode, and the distance of the jump out is still
/// to be set.
proof fn lemma_for_head_code(
    start: i64,
    end: i64,
    s: Seq<Seq<EntryView>>,
    b: BuilderView,
    pending: Set<int>,
)
    requires
        coded(b, pending),
        for_head_model(start, end, s, b) is Ok,
    ensures
        ({
            let stored = for_head_model(start, end, s, b)->Ok_0.0;
            let tested = for_head_model(start, end, s, b)->Ok_0.1;
            &&& same_function(b, stored)
            &&& same_function(stored, tested)
            &&& boundary(stored.code(), stored.code().len() as int)
            &&& stored.last_index() == stored.code().len() - 1
            &&& coded(tested, pending.insert(tested.last_index()))
            &&& !pending.contains(tested.last_index())
            &&& stored.code().len() <= tested.last_index()
        }),
{
    reveal(for_head_model);
    let slot = loop_slot(s);
    lemma_step_load(Value::Int(start), seq!["int"@], s, b, pending);
    let first = load_model(Value::Int(start), seq!["int"@], s, b)->Ok_0.builder;
    let stored = first.emit(seq![STORE_FAST, slot]);
    lemma_step_plain(first, pending, seq![STORE_FAST, slot]);
    lemma_same_twice(b, first, stored);
    lemma_end_is_boundary(stored.code(), pending);
    let loaded = stored.emit(seq![LOAD_FAST, slot]);
    lemma_step_plain(stored, pending, seq![LOAD_FAST, slot]);
    lemma_step_load(Value::Int(end), seq!["int"@], s, loaded, pending);
    let last = load_model(Value::Int(end), seq!["int"@], s, loaded)->Ok_0.builder;
    let compared = last.emit(seq![BIN_LESS_THAN]);
    lemma_step_plain(last, pending, seq![BIN_LESS_THAN]);
    lemma_step_jump(compared, pending);
    let tested = compared.start_jump_if_false();
    lemma_same_twice(stored, loaded, last);
    lemma_same_twice(stored, last, compared);
    lemma_same_twice(stored, compared, tested);
    lemma_same_longer(stored, compared);
    lemma_same_longer(b, stored);
}

proof fn lemma_for_code(e: ExprView, s: Seq<Seq<EntryView>>, b: BuilderView, pending: Set<int>)
    requires
        coded(b, pending),
        e is For,
        for_model(e, s, b) is Ok,
    ensures
        coded(for_model(e, s, b)->Ok_0.builder, pending),
        same_function(b, for_model(e, s, b)->Ok_0.builder),
    decreases e, 0nat,
{
    match e {
        ExprView::For { name, start, end, exprs } => {
            let slot = loop_slot(s);
            lemma_for_head_code(start, end, s, b, pending);
            let stored = for_head_model(start, end, s, b)->Ok_0.0;
            let tested = for_head_model(start, end, s, b)->Ok_0.1;
            let j = tested.last_index();
            let more = pending.insert(j);
            lemma_block_code(exprs, loop_scope(name, s), tested, more);
            let body = block_model(exprs, loop_scope(name, s), tested)->Ok_0;
            let b1 = body.builder.emit(seq![LOAD_FAST, slot]);
            let b2 = b1.emit(seq![INC_ONE]);
            let b3 = b2.emit(seq![STORE_FAST, slot]);
            lemma_step_plain(body.builder, more, seq![LOAD_FAST, slot]);
            lemma_step_plain(b1, more, seq![INC_ONE]);
            lemma_step_plain(b2, more, seq![STORE_FAST, slot]);
            let all = seq![LOAD_FAST, slot, INC_ONE, STORE_FAST, slot];
            assert(body.builder.code() + all =~= body.builder.code() + seq![LOAD_FAST, slot]
                + seq![INC_ONE] + seq![STORE_FAST, slot]);
            assert(body.builder.emit(all) == b3);
            let closing = Visit { types: body.types, builder: b3, scope: s };
            lemma_same_twice(tested, body.builder, b1);
            lemma_same_twice(tested, b1, b2);
            lemma_same_twice(tested, b2, b3);
            lemma_same_twice(stored, tested, b3);
            lemma_same_boundary(stored, b3, stored.code().len() as int);
            lemma_step_close(stored, closing, stored.last_index(), j, s, pending);
            lemma_same_twice(b, stored, for_model(e, s, b)->Ok_0.builder);
        },
        _ => {},
    }
}

/// Compiling the expressions of a sequence from the `i`th on keeps the code
/// in order and adds to its end.
pub proof fn lemma_sequence_code(
    items: Seq<ExprView>,
    i: nat,
    s: Seq<Seq<EntryView>>,
    b: BuilderView,
    pending: Set<int>,
)
    requires
        coded(b, pending),
        sequence_model(items, i, s, b) is Ok,
    ensures
        coded(sequence_model(items, i, s, b)->Ok_0, pending),
        same_function(b, sequence_model(items, i, s, b)->Ok_0),
    decreases items, items.len() - i,
{
    if i < items.len() {
        lemma_expr_code(items[i as int], s, b, pending);
        let next = expr_model(items[i as int], s, b)->Ok_0.builder;
        lemma_sequence_code(items, i + 1, s, next, pending);
        lemma_same_twice(b, next, sequence_model(items, i, s, b)->Ok_0);
    } else {
        lemma_same_itself(b);
    }
}

proof fn lemma_bind_code(
    name: Seq<char>,
    declared: Seq<Seq<char>>,
    value: Visit,
    s: Seq<Seq<EntryView>>,
    pending: Set<int>,
)
    requires
        coded(value.builder, pending),
        bind_model(name, declared, value, s) is Ok,
    ensures
        coded(bind_model(name, declared, value, s)->Ok_0.builder, pending),
        same_function(value.builder, bind_model(name, declared, value, s)->Ok_0.builder),
{
    reveal(bind_model);
    lemma_step_plain(
        value.builder,
        pending,
        seq![STORE_FAST, crate::symbol::next_index(s) as u8],
    );
}

proof fn lemma_rebind_code(name: Seq<char>, value: Visit, s: Seq<Seq<EntryView>>, pending: Set<int>)
    requires
        coded(value.builder, pending),
        rebind_model(name, value, s) is Ok,
    ensures
        coded(rebind_model(name, value, s)->Ok_0.builder, pending),
        same_function(value.builder, rebind_model(name, value, s)->Ok_0.builder),
{
    reveal(rebind_model);
    let index = crate::symbol::resolve(s, name).0->Some_0.index;
    lemma_step_plain(value.builder, pending, seq![STORE_FAST, index]);
}

/// Compiling a statement keeps the code in order and adds to its end.
pub proof fn lemma_stmt_code(
    st: StmtView,
    s: Seq<Seq<EntryView>>,
    b: BuilderView,
    pending: Set<int>,
)
    requires
        coded(b, pending),
        stmt_model(st, s, b) is Ok,
    ensures
        coded(stmt_model(st, s, b)->Ok_0.builder, pending),
        same_function(b, stmt_model(st, s, b)->Ok_0.builder),
    decreases st, 0nat,
{
    match st {
        StmtView::Expr(e) => {
            lemma_expr_code(e, s, b, pending);
        },
        StmtView::Assignment { new, name, expr, types } => {
            lemma_expr_code(expr, s, b, pending);
            let value = expr_model(expr, s, b)->Ok_0;
            if new {
                lemma_bind_code(name, types->Some_0, value, s, pending);
            } else {
                lemma_rebind_code(name, value, s, pending);
            }
            lemma_same_twice(b, value.builder, stmt_model(st, s, b)->Ok_0.builder);
        },
    }
}

/// Compiling the statements of a list from the `i`th on keeps the code in
/// order and adds to its end.
pub proof fn lemma_stmts_code(list: Seq<StmtView>, i: nat, before: Visit, pending: Set<int>)
    requires
        coded(before.builder, pending),
        stmts_model(list, i, before) is Ok,
    ensures
        coded(stmts_model(list, i, before)->Ok_0.builder, pending),
        same_function(before.builder, stmts_model(list, i, before)->Ok_0.builder),
    decreases list, list.len() - i,
{
    if i < list.len() {
        lemma_stmt_code(list[i as int], before.scope, before.builder, pending);
        let next = stmt_model(list[i as int], before.scope, before.builder)->Ok_0;
        lemma_stmts_code(list, i + 1, next, pending);
        lemma_same_twice(before.builder, next.builder, stmts_model(list, i, before)->Ok_0.builder);
    } else {
        lemma_same_itself(before.builder);
    }
}

/// Compiling the statements of a body keeps the code in order and adds to
/// its end.
pub proof fn lemma_body_code(
    block: BlockView,
    s: Seq<Seq<EntryView>>,
    b: BuilderView,
    pending: Set<int>,
)
    requires
        coded(b, pending),
        body_model(block, s, b) is Ok,
    ensures
        coded(body_model(block, s, b)->Ok_0.builder, pending),
        same_function(b, body_model(block, s, b)->Ok_0.builder),
    decreases block, 1nat,
{
    let start = Visit { types: seq!["none"@], builder: b, scope: s };
    lemma_stmts_code(block.stmts, 0, start, pending);
    let before = stmts_model(block.stmts, 0, start)->Ok_0;
    match block.tail {
        Some(last) => {
            lemma_stmt_code(*last, before.scope, before.builder, pending);
            lemma_same_twice(b, before.builder, body_model(block, s, b)->Ok_0.builder);
        },
        None => {},
    }
}

/// Compiling a block keeps the code in order and adds to its end.
pub proof fn lemma_block_code(
    block: BlockView,
    s: Seq<Seq<EntryView>>,
    b: BuilderView,
    pending: Set<int>,
)
    requires
        coded(b, pending),
        block_model(block, s, b) is Ok,
    ensures
        coded(block_model(block, s, b)->Ok_0.builder, pending),
        same_function(b, block_model(block, s, b)->Ok_0.builder),
    decreases block, 2nat,
{
    lemma_body_code(block, s.push(Seq::empty()), b, pending);
}

/// Every function of the table is a finished function in order.
pub open spec fn all_sound(functions: Seq<FunctionView>) -> bool {
    forall|k: int| 0 <= k < functions.len() ==> sound_code((#[trigger] functions[k]).opcodes)
}

/// Compiling a definition adds one function in order to the table.
pub proof fn lemma_function_code(def: DefinitionView, global: Seq<Seq<EntryView>>, b: BuilderView)
    requires
        all_sound(b.module.functions),
        function_model(def, global, b) is Ok,
    ensures
        all_sound(function_model(def, global, b)->Ok_0.module.functions),
{
    reveal(function_model);
    reveal(same_function);
    let local = arguments_model(def.args, 0, global.push(Seq::empty()))->Ok_0;
    let begun = b.begin(def.name, def.args.len() as usize).returning(def.return_type);
    lemma_empty_well_formed();
    lemma_body_code(def.exprs, local, begun, Set::<int>::empty());
    let v = body_model(def.exprs, local, begun)->Ok_0.builder;
    lemma_finish(v.code());
    let out = function_model(def, global, b)->Ok_0;
    assert(out == v.finish());
    assert forall|k: int| 0 <= k < out.module.functions.len() implies sound_code(
        (#[trigger] out.module.functions[k]).opcodes,
    ) by {
        if k < b.module.functions.len() {
            assert(out.module.functions[k] == b.module.functions[k]);
        }
    }
}

/// Compiling the definitions of a program from the `i`th on adds functions
/// in order to the table.
pub proof fn lemma_functions_code(
    defs: Seq<DefinitionView>,
    i: nat,
    global: Seq<Seq<EntryView>>,
    b: BuilderView,
)
    requires
        all_sound(b.module.functions),
        functions_model(defs, i, global, b) is Ok,
    ensures
        all_sound(functions_model(defs, i, global, b)->Ok_0.module.functions),
    decreases defs.len() - i,
{
    if i < defs.len() {
        lemma_function_code(defs[i as int], global, b);
        lemma_functions_code(defs, i + 1, global, function_model(defs[i as int], global, b)->Ok_0);
    }
}

/// In every function of a compiled module the code ends with a `RETURN`
/// instruction, and every jump lands on an opcode inside the function: never
/// on an operand, and never outside the code.
pub proof fn lemma_compiled_code_in_order(defs: Seq<DefinitionView>, name: Seq<char>)
    requires
        compile_model(defs, name) is Ok,
    ensures
        all_sound(compile_model(defs, name)->Ok_0.functions),
{
    let global = declare_model(defs, 0, seq![Seq::<EntryView>::empty()])->Ok_0;
    let start = BuilderView { module: ModuleView::empty(name), current: None };
    lemma_functions_code(defs, 0, global, start);
}

} // verus!
