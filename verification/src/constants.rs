use vstd::prelude::*;
use crate::ast::{BlockView, DefinitionView, ExprView, StmtView};
use crate::compiler::{
    arguments_model, bind_model, block_model, body_model, close_loop, compile_model, declare_model,
    else_model, expr_model, for_head_model, for_model, function_model, functions_model, if_model,
    invoke_model, list_model, load_model, loop_scope, loop_slot, op_model, rebind_model,
    sequence_model, stmt_model, stmts_model, variable_model, while_model, call_model, Visit,
};
use crate::errors::ErrorView;
use crate::opcodes::{INC_ONE, LOAD_FAST, LOAD_NONE, STORE_FAST};
use crate::module::{
    lemma_intern_keeps_pool, no_duplicates, pool_index, pool_with, BuilderView, ModuleView,
};
use crate::object::Value;
use crate::symbol::EntryView;

verus! {

/// The constant `c` is written in the expression `e`: as an integer or text
/// literal, or as a bound of a `for` loop.
pub open spec fn written_in_expr(c: Value, e: ExprView) -> bool
    decreases e,
{
    match e {
        ExprView::Integer(n) => c == Value::Int(n),
        ExprView::Str(t) => c == Value::Str(t),
        ExprView::Bool(_) => false,
        ExprView::NoneLiteral => false,
        ExprView::Variable(_) => false,
        ExprView::List(items) => exists|i: int|
            0 <= i < items.len() && written_in_expr(c, #[trigger] items[i]),
        ExprView::FunctionCall { name, args } => exists|i: int|
            0 <= i < args.len() && written_in_expr(c, #[trigger] args[i]),
        ExprView::Op(left, _, right) => written_in_expr(c, *left) || written_in_expr(c, *right),
        ExprView::If { cond_expr, exprs, else_exprs } => written_in_expr(c, *cond_expr)
            || written_in_block(c, exprs) || match else_exprs {
            Some(other) => written_in_block(c, other),
            None => false,
        },
        ExprView::While { cond_expr, exprs } => written_in_expr(c, *cond_expr) || written_in_block(
            c,
            exprs,
        ),
        ExprView::For { name, start, end, exprs } => c == Value::Int(start) || c == Value::Int(end)
            || written_in_block(c, exprs),
    }
}

/// The constant `c` is written in the statement `st`.
pub open spec fn written_in_stmt(c: Value, st: StmtView) -> bool
    decreases st,
{
    match st {
        StmtView::Expr(e) => written_in_expr(c, e),
        StmtView::Assignment { expr, .. } => written_in_expr(c, expr),
    }
}

/// The constant `c` is written in a statement of the block.
pub open spec fn written_in_block(c: Value, block: BlockView) -> bool
    decreases block,
{
    (exists|i: int| 0 <= i < block.stmts.len() && written_in_stmt(c, #[trigger] block.stmts[i]))
        || match block.tail {
        Some(last) => written_in_stmt(c, *last),
        None => false,
    }
}

/// The constant `c` is written in the body of a definition of the program.
pub open spec fn written_in_program(c: Value, defs: Seq<DefinitionView>) -> bool {
    exists|i: int| 0 <= i < defs.len() && written_in_block(c, (#[trigger] defs[i]).exprs)
}

/// The pool `after` is the pool `before` with values added at its end.
pub open spec fn pool_grew(before: Seq<Value>, after: Seq<Value>) -> bool {
    before.len() <= after.len() && forall|i: int| 0 <= i < before.len() ==> after[i] == before[i]
}

/// What compiling does to the pool: it only grows, and if it held no value
/// twice it still holds none twice.
#[verifier::opaque]
pub open spec fn pool_kept(before: Seq<Value>, after: Seq<Value>) -> bool {
    pool_grew(before, after) && (no_duplicates(before) ==> no_duplicates(after))
}

/// A pool is kept by itself.
pub proof fn lemma_kept_same(pool: Seq<Value>)
    ensures
        pool_kept(pool, pool),
{
    reveal(pool_kept);
}

/// Keeping a pool twice keeps it.
pub proof fn lemma_kept_twice(first: Seq<Value>, second: Seq<Value>, third: Seq<Value>)
    requires
        pool_kept(first, second),
        pool_kept(second, third),
    ensures
        pool_kept(first, third),
{
    reveal(pool_kept);
}

/// What a pool holds, every pool that keeps it holds too.
pub proof fn lemma_kept_contains(before: Seq<Value>, after: Seq<Value>, c: Value)
    requires
        pool_kept(before, after),
        before.contains(c),
    ensures
        after.contains(c),
{
    reveal(pool_kept);
    let i = choose|i: int| 0 <= i < before.len() && before[i] == c;
    assert(after[i] == c);
}

/// Loading a constant keeps the pool, which then holds the constant.
pub proof fn lemma_load_pool(
    value: Value,
    types: Seq<Seq<char>>,
    s: Seq<Seq<EntryView>>,
    b: BuilderView,
)
    requires
        load_model(value, types, s, b) is Ok,
    ensures
        pool_kept(b.module.consts, load_model(value, types, s, b)->Ok_0.builder.module.consts),
        load_model(value, types, s, b)->Ok_0.builder.module.consts.contains(value),
{
    reveal(load_model);
    reveal(pool_kept);
    crate::seqs::lemma_first_index_is_first(b.module.consts, value);
    if no_duplicates(b.module.consts) {
        lemma_intern_keeps_pool(b.module.consts, value);
    }
    let after = pool_with(b.module.consts, value);
    assert(after[pool_index(b.module.consts, value)] == value);
}

/// Compiling an expression only adds to the pool, keeps it free of
/// duplicates, and leaves in it every constant written in the expression.
pub proof fn lemma_expr_pool(e: ExprView, s: Seq<Seq<EntryView>>, b: BuilderView)
    requires
        expr_model(e, s, b) is Ok,
    ensures
        pool_kept(b.module.consts, expr_model(e, s, b)->Ok_0.builder.module.consts),
        forall|c: Value|
            #[trigger] written_in_expr(c, e) ==> expr_model(
                e,
                s,
                b,
            )->Ok_0.builder.module.consts.contains(c),
    decreases e, 1nat,
{
    match e {
        ExprView::Integer(n) => {
            lemma_load_pool(Value::Int(n), seq!["int"@], s, b);
        },
        ExprView::Str(t) => {
            lemma_load_pool(Value::Str(t), seq!["str"@], s, b);
        },
        ExprView::Bool(_) => {
            lemma_kept_same(b.module.consts);
        },
        ExprView::NoneLiteral => {
            lemma_kept_same(b.module.consts);
        },
        ExprView::Variable(_) => {
            reveal(variable_model);
            lemma_kept_same(b.module.consts);
        },
        ExprView::List(_) => {
            lemma_list_pool(e, s, b);
        },
        ExprView::FunctionCall { .. } => {
            lemma_invoke_pool(e, s, b);
        },
        ExprView::Op(_, _, _) => {
            lemma_op_pool(e, s, b);
        },
        ExprView::If { .. } => {
            lemma_if_pool(e, s, b);
        },
        ExprView::While { .. } => {
            lemma_while_pool(e, s, b);
        },
        ExprView::For { .. } => {
            lemma_for_pool(e, s, b);
        },
    }
}

proof fn lemma_list_pool(e: ExprView, s: Seq<Seq<EntryView>>, b: BuilderView)
    requires
        e is List,
        list_model(e, s, b) is Ok,
    ensures
        pool_kept(b.module.consts, list_model(e, s, b)->Ok_0.builder.module.consts),
        forall|c: Value|
            #[trigger] written_in_expr(c, e) ==> list_model(
                e,
                s,
                b,
            )->Ok_0.builder.module.consts.contains(c),
    decreases e, 0nat,
{
    match e {
        ExprView::List(items) => {
            lemma_sequence_pool(items, 0, s, b);
            let after = sequence_model(items, 0, s, b)->Ok_0;
            let out = list_model(e, s, b)->Ok_0.builder;
            assert(out.module == after.module);
            assert forall|c: Value| written_in_expr(c, e) implies out.module.consts.contains(c) by {
                let i = choose|i: int| 0 <= i < items.len() && written_in_expr(
                    c,
                    #[trigger] items[i],
                );
                assert(written_in_expr(c, items[i]));
            }
        },
        _ => {},
    }
}

proof fn lemma_invoke_pool(e: ExprView, s: Seq<Seq<EntryView>>, b: BuilderView)
    requires
        e is FunctionCall,
        invoke_model(e, s, b) is Ok,
    ensures
        pool_kept(b.module.consts, invoke_model(e, s, b)->Ok_0.builder.module.consts),
        forall|c: Value|
            #[trigger] written_in_expr(c, e) ==> invoke_model(
                e,
                s,
                b,
            )->Ok_0.builder.module.consts.contains(c),
    decreases e, 0nat,
{
    match e {
        ExprView::FunctionCall { name, args } => {
            lemma_sequence_pool(args, 0, s, b);
            let after = sequence_model(args, 0, s, b)->Ok_0;
            let out = invoke_model(e, s, b)->Ok_0.builder;
            assert(out.module == after.module) by {
                reveal(call_model);
            }
            assert forall|c: Value| written_in_expr(c, e) implies out.module.consts.contains(c) by {
                let i = choose|i: int| 0 <= i < args.len() && written_in_expr(
                    c,
                    #[trigger] args[i],
                );
                assert(written_in_expr(c, args[i]));
            }
        },
        _ => {},
    }
}

proof fn lemma_op_pool(e: ExprView, s: Seq<Seq<EntryView>>, b: BuilderView)
    requires
        e is Op,
        op_model(e, s, b) is Ok,
    ensures
        pool_kept(b.module.consts, op_model(e, s, b)->Ok_0.builder.module.consts),
        forall|c: Value|
            #[trigger] written_in_expr(c, e) ==> op_model(
                e,
                s,
                b,
            )->Ok_0.builder.module.consts.contains(c),
    decreases e, 0nat,
{
    match e {
        ExprView::Op(left, _, right) => {
            let out = op_model(e, s, b)->Ok_0.builder;
            lemma_expr_pool(*left, s, b);
            let l = expr_model(*left, s, b)->Ok_0.builder;
            lemma_expr_pool(*right, s, l);
            let r = expr_model(*right, s, l)->Ok_0.builder;
            assert(out.module == r.module);
            lemma_kept_twice(b.module.consts, l.module.consts, r.module.consts);
            assert forall|c: Value| written_in_expr(c, e) implies written_in_expr(c, *left)
                || written_in_expr(c, *right) by {}
            assert forall|c: Value| written_in_expr(c, *left) implies r.module.consts.contains(
                c,
            ) by {
                lemma_kept_contains(l.module.consts, r.module.consts, c);
            }
        },
        _ => {},
    }
}

/// The second half of a branch keeps what the first half left in the pool.
proof fn lemma_else_pool(
    first: Visit,
    exit: int,
    second: Result<Visit, ErrorView>,
    s: Seq<Seq<EntryView>>,
)
    requires
        else_model(first, exit, second, s) is Ok,
    ensures
        second is Ok,
        else_model(first, exit, second, s)->Ok_0.builder.module == second->Ok_0.builder.module,
{
    reveal(else_model);
}

proof fn lemma_if_pool(e: ExprView, s: Seq<Seq<EntryView>>, b: BuilderView)
    requires
        e is If,
        if_model(e, s, b) is Ok,
    ensures
        pool_kept(b.module.consts, if_model(e, s, b)->Ok_0.builder.module.consts),
        forall|c: Value|
            #[trigger] written_in_expr(c, e) ==> if_model(
                e,
                s,
                b,
            )->Ok_0.builder.module.consts.contains(c),
    decreases e, 0nat,
{
    match e {
        ExprView::If { cond_expr, exprs, else_exprs } => {
            let out = if_model(e, s, b)->Ok_0.builder;
            lemma_expr_pool(*cond_expr, s, b);
            let c0 = expr_model(*cond_expr, s, b)->Ok_0.builder;
            let b1 = c0.start_jump_if_false();
            assert(b1.module == c0.module);
            lemma_block_pool(exprs, s, b1);
            let first = block_model(exprs, s, b1)->Ok_0;
            let a = first.builder;
            let b2 = a.start_else(b1.last_index());
            assert(b2.module == a.module);
            let second = match else_exprs {
                Some(other) => block_model(other, s, b2),
                None => Ok(
                    Visit { types: seq!["none"@], builder: b2.emit(seq![LOAD_NONE]), scope: s },
                ),
            };
            assert(if_model(e, s, b) == else_model(first, b1.last_index(), second, s));
            lemma_else_pool(first, b1.last_index(), second, s);
            let o = second->Ok_0.builder;
            assert(out.module == o.module);
            match else_exprs {
                Some(other) => {
                    lemma_block_pool(other, s, b2);
                },
                None => {
                    lemma_kept_same(a.module.consts);
                },
            }
            lemma_kept_twice(b.module.consts, c0.module.consts, a.module.consts);
            lemma_kept_twice(b.module.consts, a.module.consts, o.module.consts);
            assert forall|c: Value| written_in_expr(c, e) implies written_in_expr(c, *cond_expr)
                || written_in_block(c, exprs) || (else_exprs is Some && written_in_block(
                c,
                else_exprs->Some_0,
            )) by {}
            assert forall|c: Value| written_in_expr(c, *cond_expr) implies o.module.consts.contains(
                c,
            ) by {
                lemma_kept_contains(c0.module.consts, a.module.consts, c);
                lemma_kept_contains(a.module.consts, o.module.consts, c);
            }
            assert forall|c: Value| written_in_block(c, exprs) implies o.module.consts.contains(
                c,
            ) by {
                lemma_kept_contains(a.module.consts, o.module.consts, c);
            }
        },
        _ => {},
    }
}

/// Closing a loop leaves the pool as the body left it.
proof fn lemma_close_pool(body: Visit, head: int, exit: int, s: Seq<Seq<EntryView>>)
    requires
        close_loop(body, head, exit, s) is Ok,
    ensures
        close_loop(body, head, exit, s)->Ok_0.builder.module == body.builder.module,
{
    reveal(close_loop);
}

proof fn lemma_while_pool(e: ExprView, s: Seq<Seq<EntryView>>, b: BuilderView)
    requires
        e is While,
        while_model(e, s, b) is Ok,
    ensures
        pool_kept(b.module.consts, while_model(e, s, b)->Ok_0.builder.module.consts),
        forall|c: Value|
            #[trigger] written_in_expr(c, e) ==> while_model(
                e,
                s,
                b,
            )->Ok_0.builder.module.consts.contains(c),
    decreases e, 0nat,
{
    match e {
        ExprView::While { cond_expr, exprs } => {
            let out = while_model(e, s, b)->Ok_0.builder;
            lemma_expr_pool(*cond_expr, s, b);
            let c0 = expr_model(*cond_expr, s, b)->Ok_0.builder;
            let b1 = c0.start_jump_if_false();
            assert(b1.module == c0.module);
            lemma_block_pool(exprs, s, b1);
            let body = block_model(exprs, s, b1)->Ok_0;
            lemma_close_pool(body, b.last_index(), b1.last_index(), s);
            assert(out.module == body.builder.module);
            lemma_kept_twice(b.module.consts, c0.module.consts, body.builder.module.consts);
            assert forall|c: Value| written_in_expr(c, e) implies written_in_expr(c, *cond_expr)
                || written_in_block(c, exprs) by {}
            assert forall|c: Value| written_in_expr(
                c,
                *cond_expr,
            ) implies out.module.consts.contains(
                c,
            ) by {
                lemma_kept_contains(c0.module.consts, out.module.consts, c);
            }
        },
        _ => {},
    }
}

proof fn lemma_for_head_pool(start: i64, end: i64, s: Seq<Seq<EntryView>>, b: BuilderView)
    requires
        for_head_model(start, end, s, b) is Ok,
    ensures
        pool_kept(b.module.consts, for_head_model(start, end, s, b)->Ok_0.1.module.consts),
        for_head_model(start, end, s, b)->Ok_0.1.module.consts.contains(Value::Int(start)),
        for_head_model(start, end, s, b)->Ok_0.1.module.consts.contains(Value::Int(end)),
{
    reveal(for_head_model);
    lemma_load_pool(Value::Int(start), seq!["int"@], s, b);
    let first = load_model(Value::Int(start), seq!["int"@], s, b)->Ok_0.builder;
    let b2 = first.emit(seq![STORE_FAST, loop_slot(s)]).emit(seq![LOAD_FAST, loop_slot(s)]);
    assert(b2.module == first.module);
    lemma_load_pool(Value::Int(end), seq!["int"@], s, b2);
    let last = load_model(Value::Int(end), seq!["int"@], s, b2)->Ok_0.builder;
    assert(for_head_model(start, end, s, b)->Ok_0.1.module == last.module);
    lemma_kept_twice(b.module.consts, first.module.consts, last.module.consts);
    lemma_kept_contains(first.module.consts, last.module.consts, Value::Int(start));
}

proof fn lemma_for_pool(e: ExprView, s: Seq<Seq<EntryView>>, b: BuilderView)
    requires
        e is For,
        for_model(e, s, b) is Ok,
    ensures
        pool_kept(b.module.consts, for_model(e, s, b)->Ok_0.builder.module.consts),
        forall|c: Value|
            #[trigger] written_in_expr(c, e) ==> for_model(
                e,
                s,
                b,
            )->Ok_0.builder.module.consts.contains(c),
    decreases e, 0nat,
{
    match e {
        ExprView::For { name, start, end, exprs } => {
            let out = for_model(e, s, b)->Ok_0.builder;
            lemma_for_head_pool(start, end, s, b);
            let stored = for_head_model(start, end, s, b)->Ok_0.0;
            let tested = for_head_model(start, end, s, b)->Ok_0.1;
            lemma_block_pool(exprs, loop_scope(name, s), tested);
            let body = block_model(exprs, loop_scope(name, s), tested)->Ok_0;
            let closing = Visit {
                types: body.types,
                builder: body.builder.emit(
                    seq![LOAD_FAST, loop_slot(s), INC_ONE, STORE_FAST, loop_slot(s)],
                ),
                scope: s,
            };
            lemma_close_pool(closing, stored.last_index(), tested.last_index(), s);
            assert(out.module == body.builder.module);
            lemma_kept_twice(b.module.consts, tested.module.consts, body.builder.module.consts);
            assert forall|c: Value| written_in_expr(c, e) implies c == Value::Int(start) || c
                == Value::Int(end) || written_in_block(c, exprs) by {}
            lemma_kept_contains(tested.module.consts, out.module.consts, Value::Int(start));
            lemma_kept_contains(tested.module.consts, out.module.consts, Value::Int(end));
        },
        _ => {},
    }
}

/// Compiling the expressions of a sequence from the `i`th on only adds to the
/// pool, keeps it free of duplicates, and leaves in it every constant written
/// in one of them.
pub proof fn lemma_sequence_pool(
    items: Seq<ExprView>,
    i: nat,
    s: Seq<Seq<EntryView>>,
    b: BuilderView,
)
    requires
        sequence_model(items, i, s, b) is Ok,
    ensures
        pool_kept(b.module.consts, sequence_model(items, i, s, b)->Ok_0.module.consts),
        forall|c: Value, j: int|
            i <= j < items.len() && #[trigger] written_in_expr(c, items[j]) ==> sequence_model(
                items,
                i,
                s,
                b,
            )->Ok_0.module.consts.contains(c),
    decreases items, items.len() - i,
{
    if i < items.len() {
        let out = sequence_model(items, i, s, b)->Ok_0;
        lemma_expr_pool(items[i as int], s, b);
        let next = expr_model(items[i as int], s, b)->Ok_0.builder;
        lemma_sequence_pool(items, i + 1, s, next);
        lemma_kept_twice(b.module.consts, next.module.consts, out.module.consts);
        assert forall|c: Value, j: int|
            i <= j < items.len() && written_in_expr(c, items[j]) implies out.module.consts.contains(
            c,
        ) by {
            if j == i {
                lemma_kept_contains(next.module.consts, out.module.consts, c);
            }
        }
    } else {
        lemma_kept_same(b.module.consts);
    }
}

/// A binding leaves the pool as the value's expression left it.
proof fn lemma_bind_pool(
    name: Seq<char>,
    declared: Seq<Seq<char>>,
    value: Visit,
    s: Seq<Seq<EntryView>>,
)
    requires
        bind_model(name, declared, value, s) is Ok,
    ensures
        bind_model(name, declared, value, s)->Ok_0.builder.module == value.builder.module,
{
    reveal(bind_model);
}

/// An assignment leaves the pool as the value's expression left it.
proof fn lemma_rebind_pool(name: Seq<char>, value: Visit, s: Seq<Seq<EntryView>>)
    requires
        rebind_model(name, value, s) is Ok,
    ensures
        rebind_model(name, value, s)->Ok_0.builder.module == value.builder.module,
{
    reveal(rebind_model);
}

/// Compiling a statement only adds to the pool, keeps it free of duplicates,
/// and leaves in it every constant written in the statement.
pub proof fn lemma_stmt_pool(st: StmtView, s: Seq<Seq<EntryView>>, b: BuilderView)
    requires
        stmt_model(st, s, b) is Ok,
    ensures
        pool_kept(b.module.consts, stmt_model(st, s, b)->Ok_0.builder.module.consts),
        forall|c: Value|
            #[trigger] written_in_stmt(c, st) ==> stmt_model(
                st,
                s,
                b,
            )->Ok_0.builder.module.consts.contains(c),
    decreases st, 0nat,
{
    match st {
        StmtView::Expr(e) => {
            lemma_expr_pool(e, s, b);
            assert forall|c: Value| written_in_stmt(c, st) implies written_in_expr(c, e) by {}
        },
        StmtView::Assignment { new, name, expr, types } => {
            lemma_expr_pool(expr, s, b);
            let value = expr_model(expr, s, b)->Ok_0;
            let out = stmt_model(st, s, b)->Ok_0.builder;
            if new {
                lemma_bind_pool(name, types->Some_0, value, s);
            } else {
                lemma_rebind_pool(name, value, s);
            }
            assert(out.module == value.builder.module);
            assert forall|c: Value| written_in_stmt(c, st) implies written_in_expr(c, expr) by {}
            assert forall|c: Value| written_in_expr(c, expr) implies out.module.consts.contains(
                c,
            ) by {}
        },
    }
}

/// Compiling the statements of a list from the `i`th on only adds to the
/// pool, keeps it free of duplicates, and leaves in it every constant written
/// in one of them.
pub proof fn lemma_stmts_pool(list: Seq<StmtView>, i: nat, before: Visit)
    requires
        stmts_model(list, i, before) is Ok,
    ensures
        pool_kept(
            before.builder.module.consts,
            stmts_model(list, i, before)->Ok_0.builder.module.consts,
        ),
        forall|c: Value, j: int|
            i <= j < list.len() && #[trigger] written_in_stmt(c, list[j]) ==> stmts_model(
                list,
                i,
                before,
            )->Ok_0.builder.module.consts.contains(c),
    decreases list, list.len() - i,
{
    if i < list.len() {
        let out = stmts_model(list, i, before)->Ok_0.builder;
        lemma_stmt_pool(list[i as int], before.scope, before.builder);
        let next = stmt_model(list[i as int], before.scope, before.builder)->Ok_0;
        lemma_stmts_pool(list, i + 1, next);
        lemma_kept_twice(
            before.builder.module.consts,
            next.builder.module.consts,
            out.module.consts,
        );
        assert forall|c: Value, j: int|
            i <= j < list.len() && written_in_stmt(c, list[j]) implies out.module.consts.contains(
            c,
        ) by {
            if j == i {
                lemma_kept_contains(next.builder.module.consts, out.module.consts, c);
            }
        }
    } else {
        lemma_kept_same(before.builder.module.consts);
    }
}

/// Compiling the statements of a body only adds to the pool, keeps it free
/// of duplicates, and leaves in it every constant written in the body.
pub proof fn lemma_body_pool(block: BlockView, s: Seq<Seq<EntryView>>, b: BuilderView)
    requires
        body_model(block, s, b) is Ok,
    ensures
        pool_kept(b.module.consts, body_model(block, s, b)->Ok_0.builder.module.consts),
        forall|c: Value|
            #[trigger] written_in_block(c, block) ==> body_model(
                block,
                s,
                b,
            )->Ok_0.builder.module.consts.contains(
                c,
            ),
    decreases block, 1nat,
{
    let out = body_model(block, s, b)->Ok_0.builder;
    let start = Visit { types: seq!["none"@], builder: b, scope: s };
    lemma_stmts_pool(block.stmts, 0, start);
    let before = stmts_model(block.stmts, 0, start)->Ok_0;
    match block.tail {
        Some(last) => {
            lemma_stmt_pool(*last, before.scope, before.builder);
        },
        None => {
            lemma_kept_same(before.builder.module.consts);
        },
    }
    lemma_kept_twice(b.module.consts, before.builder.module.consts, out.module.consts);
    assert forall|c: Value| written_in_block(c, block) implies (exists|i: int|
        0 <= i < block.stmts.len() && written_in_stmt(c, #[trigger] block.stmts[i])) || (block.tail
        is Some && written_in_stmt(c, *block.tail->Some_0)) by {}
    assert forall|c: Value, i: int|
        0 <= i < block.stmts.len() && #[trigger] written_in_stmt(
            c,
            block.stmts[i],
        ) implies out.module.consts.contains(c) by {
        assert(before.builder.module.consts.contains(c));
        lemma_kept_contains(before.builder.module.consts, out.module.consts, c);
    }
}

/// Compiling a block only adds to the pool, keeps it free of duplicates, and
/// leaves in it every constant written in the block.
pub proof fn lemma_block_pool(block: BlockView, s: Seq<Seq<EntryView>>, b: BuilderView)
    requires
        block_model(block, s, b) is Ok,
    ensures
        pool_kept(b.module.consts, block_model(block, s, b)->Ok_0.builder.module.consts),
        forall|c: Value|
            #[trigger] written_in_block(c, block) ==> block_model(
                block,
                s,
                b,
            )->Ok_0.builder.module.consts.contains(c),
    decreases block, 2nat,
{
    lemma_body_pool(block, s.push(Seq::empty()), b);
}

/// Compiling the definitions of a program from the `i`th on only adds to the
/// pool, keeps it free of duplicates, and leaves in it every constant written
/// in one of their bodies.
pub proof fn lemma_functions_pool(
    defs: Seq<DefinitionView>,
    i: nat,
    global: Seq<Seq<EntryView>>,
    b: BuilderView,
)
    requires
        functions_model(defs, i, global, b) is Ok,
    ensures
        pool_kept(b.module.consts, functions_model(defs, i, global, b)->Ok_0.module.consts),
        forall|c: Value, j: int|
            i <= j < defs.len() && #[trigger] written_in_block(
                c,
                defs[j].exprs,
            ) ==> functions_model(
                defs,
                i,
                global,
                b,
            )->Ok_0.module.consts.contains(c),
    decreases defs.len() - i,
{
    if i < defs.len() {
        reveal(function_model);
        let out = functions_model(defs, i, global, b)->Ok_0;
        let def = defs[i as int];
        let local = arguments_model(def.args, 0, global.push(Seq::empty()))->Ok_0;
        let begun = b.begin(def.name, def.args.len() as usize).returning(def.return_type);
        lemma_body_pool(def.exprs, local, begun);
        let next = function_model(def, global, b)->Ok_0;
        assert(
            next.module.consts == body_model(def.exprs, local, begun)->Ok_0.builder.module.consts
        );
        lemma_functions_pool(defs, i + 1, global, next);
        lemma_kept_twice(b.module.consts, next.module.consts, out.module.consts);
        assert forall|c: Value, j: int|
            i <= j < defs.len() && written_in_block(
                c,
                defs[j].exprs,
            ) implies out.module.consts.contains(
            c,
        ) by {
            if j == i {
                lemma_kept_contains(next.module.consts, out.module.consts, c);
            }
        }
    } else {
        lemma_kept_same(b.module.consts);
    }
}

/// The pool of a compiled module holds no value twice, and holds every
/// constant that is written in the program. So each constant of the source,
/// however often it is written, has exactly one entry in the pool.
pub proof fn lemma_constants_pooled_once(defs: Seq<DefinitionView>, name: Seq<char>)
    requires
        compile_model(defs, name) is Ok,
    ensures
        no_duplicates(compile_model(defs, name)->Ok_0.consts),
        forall|c: Value|
            #[trigger] written_in_program(c, defs) ==> compile_model(
                defs,
                name,
            )->Ok_0.consts.contains(c),
{
    reveal(pool_kept);
    let global = declare_model(defs, 0, seq![Seq::<EntryView>::empty()])->Ok_0;
    let start = BuilderView { module: ModuleView::empty(name), current: None };
    lemma_functions_pool(defs, 0, global, start);
    let out = compile_model(defs, name)->Ok_0;
    assert forall|c: Value| written_in_program(c, defs) implies out.consts.contains(c) by {
        let j = choose|j: int| 0 <= j < defs.len() && written_in_block(
            c,
            (#[trigger] defs[j]).exprs,
        );
        assert(written_in_block(c, defs[j].exprs));
    }
}

} // verus!
