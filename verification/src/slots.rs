use vstd::prelude::*;
use crate::ast::{BlockView, DefinitionView, ExprView, StmtView};
use crate::code::{
    boundary, flows, jumps_inside, lemma_empty_well_formed, lemma_end_is_boundary, lemma_finish,
    lemma_noted_empty, lemma_noted_end, lemma_noted_jump, lemma_noted_jump_back, lemma_noted_less,
    lemma_noted_patch, lemma_noted_plain, lemma_reaches_twice, lemma_whole, next_opcode, noted,
    reaches, sound_code, stored,
};
use crate::compiler::{
    arguments_model, bind_model, block_model, body_model, call_model, close_loop, compile_model,
    declare_model, else_model, expr_model, function_model, function_symbol, functions_model,
    for_head_model, for_model, if_model, invoke_model, list_model, load_model, loop_scope,
    loop_slot, op_code, op_model, rebind_model, sequence_model, stmt_model, stmts_model, variable,
    variable_model, while_model, Visit,
};
use crate::jumps::{
    coded, lemma_op_code_plain, lemma_same_itself, lemma_same_longer, lemma_same_twice,
    lemma_step_close, lemma_step_else, lemma_step_jump, lemma_step_load, lemma_step_patch,
    lemma_step_plain, plain, same_function,
};
use crate::module::{pool_index, BuilderView, FunctionView, ModuleView};
use crate::opcodes::{operand_count, RETURN};
use crate::vm::{step, Frame, Step};
use crate::object::Value;
use crate::opcodes::{
    BIN_LESS_THAN, BUILD_LIST, CALL_FUNCTION, INC_ONE, JUMP, JUMP_ABSOLUTE, JUMP_IF_FALSE,
    LOAD_CONST, LOAD_FALSE, LOAD_FAST, LOAD_NONE, LOAD_TRUE, STORE_FAST,
};
use crate::seqs::lemma_first_index_is_first;
use crate::symbol::{define, frame_lookup, frame_names, next_index, resolve, EntryView, SymbolView};

verus! {

/// The slots of the variables that a scope knows, in whatever frame.
pub open spec fn known(s: Seq<Seq<EntryView>>) -> Set<u8> {
    Set::new(
        |k: u8|
            exists|i: int, j: int|
                0 <= i < s.len() && 0 <= j < s[i].len() && (#[trigger] s[i][j]).symbol.index == k
                    && s[i][j].symbol.sym_type is Variable,
    )
}

/// The scope `t` differs from the scope `s` in its innermost frame at most.
pub open spec fn outer_kept(s: Seq<Seq<EntryView>>, t: Seq<Seq<EntryView>>) -> bool {
    &&& s.len() >= 1
    &&& t.len() == s.len()
    &&& forall|i: int| 0 <= i < s.len() - 1 ==> t[i] == s[i]
}

/// A variable that a name resolves to has a known slot.
pub proof fn lemma_resolved_known(s: Seq<Seq<EntryView>>, name: Seq<char>)
    requires
        resolve(s, name).0 is Some,
        resolve(s, name).0->Some_0.sym_type is Variable,
    ensures
        known(s).contains(resolve(s, name).0->Some_0.index),
    decreases s.len(),
{
    if s.len() > 0 {
        match frame_lookup(s.last(), name) {
            Some(symbol) => {
                let frame = s.last();
                lemma_first_index_is_first(frame_names(frame), name);
                let j = crate::seqs::first_index(frame_names(frame), name);
                assert(s[s.len() - 1][j].symbol == symbol);
            },
            None => {
                if s.len() > 1 {
                    let rest = s.drop_last();
                    lemma_resolved_known(rest, name);
                    let k = resolve(s, name).0->Some_0.index;
                    let (i, j) = choose|i: int, j: int|
                        0 <= i < rest.len() && 0 <= j < rest[i].len() && (
                            #[trigger] rest[i][j]
                        ).symbol.index
                            == k && rest[i][j].symbol.sym_type is Variable;
                    assert(s[i][j] == rest[i][j]);
                }
            },
        }
    }
}

/// A fresh frame knows no slot.
pub proof fn lemma_pushed_known(s: Seq<Seq<EntryView>>)
    ensures
        known(s.push(Seq::empty())) =~= known(s),
{
    let t = s.push(Seq::<EntryView>::empty());
    assert forall|k: u8| known(t).contains(k) implies known(s).contains(k) by {
        let (i, j) = choose|i: int, j: int|
            0 <= i < t.len() && 0 <= j < t[i].len() && (#[trigger] t[i][j]).symbol.index == k
                && t[i][j].symbol.sym_type is Variable;
        assert(s[i][j] == t[i][j]);
    }
    assert forall|k: u8| known(s).contains(k) implies known(t).contains(k) by {
        let (i, j) = choose|i: int, j: int|
            0 <= i < s.len() && 0 <= j < s[i].len() && (#[trigger] s[i][j]).symbol.index == k
                && s[i][j].symbol.sym_type is Variable;
        assert(t[i][j] == s[i][j]);
    }
}

/// A definition makes known the slot of its symbol at most, and touches the
/// innermost frame only.
pub proof fn lemma_defined_known(s: Seq<Seq<EntryView>>, name: Seq<char>, symbol: SymbolView)
    requires
        s.len() >= 1,
    ensures
        known(define(s, name, symbol)).subset_of(known(s).insert(symbol.index)),
        outer_kept(s, define(s, name, symbol)),
{
    let t = define(s, name, symbol);
    let frame = s.last();
    lemma_first_index_is_first(frame_names(frame), name);
    let at = crate::seqs::first_index(frame_names(frame), name);
    assert forall|k: u8| known(t).contains(k) implies known(s).insert(symbol.index).contains(
        k,
    ) by {
        let (i, j) = choose|i: int, j: int|
            0 <= i < t.len() && 0 <= j < t[i].len() && (#[trigger] t[i][j]).symbol.index == k
                && t[i][j].symbol.sym_type is Variable;
        if i < s.len() - 1 {
            assert(s[i][j] == t[i][j]);
        } else if j != at {
            assert(s[i][j] == t[i][j]);
        }
    }
}

/// The scope of the body of a counting loop knows what the scope around the
/// loop knows, and the slot of the loop's variable.
pub proof fn lemma_loop_known(name: Seq<char>, s: Seq<Seq<EntryView>>)
    ensures
        known(loop_scope(name, s)) =~= known(s).insert(loop_slot(s)),
{
    let slot = loop_slot(s);
    let inner = s.push(Seq::<EntryView>::empty());
    let symbol = variable(seq!["int"@], slot);
    let t = loop_scope(name, s);
    lemma_pushed_known(s);
    lemma_defined_known(inner, name, symbol);
    assert(t[s.len() as int] =~= seq![EntryView { name: name, symbol: symbol }]);
    assert(t[s.len() as int][0].symbol.index == slot);
    assert forall|k: u8| known(s).contains(k) implies known(t).contains(k) by {
        let (i, j) = choose|i: int, j: int|
            0 <= i < s.len() && 0 <= j < s[i].len() && (#[trigger] s[i][j]).symbol.index == k
                && s[i][j].symbol.sym_type is Variable;
        assert(t[i][j] == s[i][j]);
    }
}

/// What the outer frames know, every scope with those outer frames knows.
pub proof fn lemma_outer_known(s: Seq<Seq<EntryView>>, t: Seq<Seq<EntryView>>)
    requires
        outer_kept(s, t),
    ensures
        known(s.drop_last()).subset_of(known(t)),
{
    let rest = s.drop_last();
    assert forall|k: u8| known(rest).contains(k) implies known(t).contains(k) by {
        let (i, j) = choose|i: int, j: int|
            0 <= i < rest.len() && 0 <= j < rest[i].len() && (#[trigger] rest[i][j]).symbol.index
                == k && rest[i][j].symbol.sym_type is Variable;
        assert(t[i][j] == rest[i][j]);
    }
}

/// Keeping the outer scopes twice keeps them.
pub proof fn lemma_outer_twice(
    s: Seq<Seq<EntryView>>,
    t: Seq<Seq<EntryView>>,
    u: Seq<Seq<EntryView>>,
)
    requires
        outer_kept(s, t),
        outer_kept(t, u),
    ensures
        outer_kept(s, u),
{
}

/// The builder's code is in order and carries notes that fit it.
pub open spec fn annotated(b: BuilderView, at: Map<int, Set<u8>>, owed: Map<int, Set<u8>>) -> bool {
    coded(b, owed.dom()) && noted(b.code(), at, owed)
}

/// The notes `after` are the notes `before` below the place `n`, and at `n`
/// they hold no more than `before`.
pub open spec fn kept_below(before: Map<int, Set<u8>>, after: Map<int, Set<u8>>, n: int) -> bool {
    &&& forall|k: int|
        k < n && #[trigger] before.contains_key(k) ==> after.contains_key(k) && after[k]
            == before[k]
    &&& before.contains_key(n)
    &&& after.contains_key(n)
    &&& after[n].subset_of(before[n])
}

/// Keeping the notes below a place, and then below a later place, keeps them
/// below the first.
pub proof fn lemma_kept_below_twice(
    first: Map<int, Set<u8>>,
    second: Map<int, Set<u8>>,
    third: Map<int, Set<u8>>,
    n: int,
    m: int,
)
    requires
        kept_below(first, second, n),
        kept_below(second, third, m),
        n <= m,
    ensures
        kept_below(first, third, n),
{
    assert forall|k: int| k < n && first.contains_key(k) implies third.contains_key(k) && third[k]
        == first[k] by {
        assert(second.contains_key(k) && second[k] == first[k]);
    }
    if n < m {
        assert(third[n] == second[n]);
    }
    assert(third[n].subset_of(first[n])) by {
        assert forall|x: u8| third[n].contains(x) implies first[n].contains(x) by {
            assert(second[n].contains(x));
        }
    }
}

/// What a step of the compiler carries on: the code stays in order with
/// notes that fit, the notes below the step's start stay, and at the end of
/// the code the slots that the scope knows are noted.
pub open spec fn carried(
    b: BuilderView,
    out: BuilderView,
    at: Map<int, Set<u8>>,
    then: Map<int, Set<u8>>,
    owed: Map<int, Set<u8>>,
    s: Seq<Seq<EntryView>>,
) -> bool {
    &&& annotated(out, then, owed)
    &&& same_function(b, out)
    &&& kept_below(at, then, b.code().len() as int)
    &&& known(s).subset_of(then[out.code().len() as int])
}

/// The notes after an instruction that is no jump was appended.
pub open spec fn noted_after(
    b: BuilderView,
    at: Map<int, Set<u8>>,
    instr: Seq<u8>,
) -> Map<int, Set<u8>> {
    at.insert(
        b.code().len() as int + instr.len() as int,
        at[b.code().len() as int].union(stored(instr, 0)),
    )
}

proof fn lemma_note_plain(
    b: BuilderView,
    at: Map<int, Set<u8>>,
    owed: Map<int, Set<u8>>,
    instr: Seq<u8>,
    s: Seq<Seq<EntryView>>,
)
    requires
        annotated(b, at, owed),
        plain(instr),
        instr[0] == LOAD_FAST ==> at[b.code().len() as int].contains(instr[1]),
        known(s).subset_of(at[b.code().len() as int].union(stored(instr, 0))),
    ensures
        carried(b, b.emit(instr), at, noted_after(b, at, instr), owed, s),
{
    lemma_step_plain(b, owed.dom(), instr);
    lemma_noted_plain(b.code(), at, owed, instr);
    lemma_noted_end(b.code(), at, owed);
    assert((b.code() + instr).len() == b.code().len() as int + instr.len());
}

proof fn lemma_load_slots(
    value: Value,
    types: Seq<Seq<char>>,
    s: Seq<Seq<EntryView>>,
    b: BuilderView,
    at: Map<int, Set<u8>>,
    owed: Map<int, Set<u8>>,
    t: Seq<Seq<EntryView>>,
) -> (then: Map<int, Set<u8>>)
    requires
        annotated(b, at, owed),
        known(t).subset_of(at[b.code().len() as int]),
        load_model(value, types, s, b) is Ok,
    ensures
        carried(b, load_model(value, types, s, b)->Ok_0.builder, at, then, owed, t),
        then[load_model(
            value,
            types,
            s,
            b,
        )->Ok_0.builder.code().len() as int] == at[b.code().len() as int],
{
    reveal(load_model);
    let interned = b.intern(value);
    let instr = seq![LOAD_CONST, pool_index(b.module.consts, value) as u8];
    assert(interned.code() == b.code());
    lemma_step_load(value, types, s, b, owed.dom());
    lemma_noted_plain(b.code(), at, owed, instr);
    lemma_noted_end(b.code(), at, owed);
    let then = noted_after(b, at, instr);
    assert((b.code() + instr).len() == b.code().len() as int + instr.len());
    assert(at[b.code().len() as int].union(stored(instr, 0)) =~= at[b.code().len() as int]);
    then
}

/// Compiling an expression carries the notes on.
pub proof fn lemma_expr_slots(
    e: ExprView,
    s: Seq<Seq<EntryView>>,
    b: BuilderView,
    at: Map<int, Set<u8>>,
    owed: Map<int, Set<u8>>,
) -> (then: Map<int, Set<u8>>)
    requires
        annotated(b, at, owed),
        known(s).subset_of(at[b.code().len() as int]),
        expr_model(e, s, b) is Ok,
    ensures
        carried(b, expr_model(e, s, b)->Ok_0.builder, at, then, owed, s),
    decreases e, 1nat,
{
    match e {
        ExprView::Integer(n) => lemma_load_slots(Value::Int(n), seq!["int"@], s, b, at, owed, s),
        ExprView::Str(t) => lemma_load_slots(Value::Str(t), seq!["str"@], s, b, at, owed, s),
        ExprView::Bool(v) => {
            let instr = seq![if v {
                LOAD_TRUE
            } else {
                LOAD_FALSE
            }];
            lemma_note_plain(b, at, owed, instr, s);
            noted_after(b, at, instr)
        },
        ExprView::NoneLiteral => {
            lemma_note_plain(b, at, owed, seq![LOAD_NONE], s);
            noted_after(b, at, seq![LOAD_NONE])
        },
        ExprView::Variable(name) => {
            reveal(variable_model);
            let symbol = resolve(s, name).0->Some_0;
            lemma_resolved_known(s, name);
            let instr = seq![LOAD_FAST, symbol.index];
            lemma_note_plain(b, at, owed, instr, s);
            noted_after(b, at, instr)
        },
        ExprView::List(_) => lemma_list_slots(e, s, b, at, owed),
        ExprView::FunctionCall { .. } => lemma_invoke_slots(e, s, b, at, owed),
        ExprView::Op(_, _, _) => lemma_op_slots(e, s, b, at, owed),
        ExprView::If { .. } => lemma_if_slots(e, s, b, at, owed),
        ExprView::While { .. } => lemma_while_slots(e, s, b, at, owed),
        ExprView::For { .. } => lemma_for_slots(e, s, b, at, owed),
    }
}

/// One step after another carries the notes on.
proof fn lemma_carried_twice(
    b: BuilderView,
    mid: BuilderView,
    out: BuilderView,
    at: Map<int, Set<u8>>,
    then: Map<int, Set<u8>>,
    last: Map<int, Set<u8>>,
    owed: Map<int, Set<u8>>,
    s: Seq<Seq<EntryView>>,
    t: Seq<Seq<EntryView>>,
)
    requires
        carried(b, mid, at, then, owed, s),
        carried(mid, out, then, last, owed, t),
    ensures
        carried(b, out, at, last, owed, t),
{
    lemma_same_twice(b, mid, out);
    lemma_same_longer(b, mid);
    lemma_kept_below_twice(at, then, last, b.code().len() as int, mid.code().len() as int);
}

/// Compiling the expressions of a sequence from the `i`th on carries the
/// notes on.
pub proof fn lemma_sequence_slots(
    items: Seq<ExprView>,
    i: nat,
    s: Seq<Seq<EntryView>>,
    b: BuilderView,
    at: Map<int, Set<u8>>,
    owed: Map<int, Set<u8>>,
) -> (then: Map<int, Set<u8>>)
    requires
        annotated(b, at, owed),
        known(s).subset_of(at[b.code().len() as int]),
        sequence_model(items, i, s, b) is Ok,
    ensures
        carried(b, sequence_model(items, i, s, b)->Ok_0, at, then, owed, s),
    decreases items, items.len() - i,
{
    if i < items.len() {
        let mid = lemma_expr_slots(items[i as int], s, b, at, owed);
        let next = expr_model(items[i as int], s, b)->Ok_0.builder;
        let then = lemma_sequence_slots(items, i + 1, s, next, mid, owed);
        lemma_carried_twice(
            b,
            next,
            sequence_model(items, i, s, b)->Ok_0,
            at,
            mid,
            then,
            owed,
            s,
            s,
        );
        then
    } else {
        lemma_same_itself(b);
        lemma_noted_end(b.code(), at, owed);
        at
    }
}

proof fn lemma_list_slots(
    e: ExprView,
    s: Seq<Seq<EntryView>>,
    b: BuilderView,
    at: Map<int, Set<u8>>,
    owed: Map<int, Set<u8>>,
) -> (then: Map<int, Set<u8>>)
    requires
        e is List,
        annotated(b, at, owed),
        known(s).subset_of(at[b.code().len() as int]),
        list_model(e, s, b) is Ok,
    ensures
        carried(b, list_model(e, s, b)->Ok_0.builder, at, then, owed, s),
    decreases e, 0nat,
{
    match e {
        ExprView::List(items) => {
            let mid = lemma_sequence_slots(items, 0, s, b, at, owed);
            let filled = sequence_model(items, 0, s, b)->Ok_0;
            let instr = seq![BUILD_LIST, items.len() as u8];
            lemma_note_plain(filled, mid, owed, instr, s);
            let then = noted_after(filled, mid, instr);
            lemma_carried_twice(b, filled, filled.emit(instr), at, mid, then, owed, s, s);
            then
        },
        _ => at,
    }
}

proof fn lemma_invoke_slots(
    e: ExprView,
    s: Seq<Seq<EntryView>>,
    b: BuilderView,
    at: Map<int, Set<u8>>,
    owed: Map<int, Set<u8>>,
) -> (then: Map<int, Set<u8>>)
    requires
        e is FunctionCall,
        annotated(b, at, owed),
        known(s).subset_of(at[b.code().len() as int]),
        invoke_model(e, s, b) is Ok,
    ensures
        carried(b, invoke_model(e, s, b)->Ok_0.builder, at, then, owed, s),
    decreases e, 0nat,
{
    match e {
        ExprView::FunctionCall { name, args } => {
            let mid = lemma_sequence_slots(args, 0, s, b, at, owed);
            let filled = sequence_model(args, 0, s, b)->Ok_0;
            reveal(call_model);
            let index = resolve(s, name).0->Some_0.index;
            let instr = seq![CALL_FUNCTION, index, args.len() as u8];
            lemma_note_plain(filled, mid, owed, instr, s);
            let then = noted_after(filled, mid, instr);
            lemma_carried_twice(b, filled, filled.emit(instr), at, mid, then, owed, s, s);
            then
        },
        _ => at,
    }
}

proof fn lemma_op_slots(
    e: ExprView,
    s: Seq<Seq<EntryView>>,
    b: BuilderView,
    at: Map<int, Set<u8>>,
    owed: Map<int, Set<u8>>,
) -> (then: Map<int, Set<u8>>)
    requires
        e is Op,
        annotated(b, at, owed),
        known(s).subset_of(at[b.code().len() as int]),
        op_model(e, s, b) is Ok,
    ensures
        carried(b, op_model(e, s, b)->Ok_0.builder, at, then, owed, s),
    decreases e, 0nat,
{
    match e {
        ExprView::Op(left, op, right) => {
            let first = lemma_expr_slots(*left, s, b, at, owed);
            let l = expr_model(*left, s, b)->Ok_0.builder;
            let second = lemma_expr_slots(*right, s, l, first, owed);
            let r = expr_model(*right, s, l)->Ok_0.builder;
            lemma_op_code_plain(op);
            let instr = seq![op_code(op)];
            lemma_note_plain(r, second, owed, instr, s);
            let then = noted_after(r, second, instr);
            lemma_carried_twice(b, l, r, at, first, second, owed, s, s);
            lemma_carried_twice(b, r, r.emit(instr), at, second, then, owed, s, s);
            then
        },
        _ => at,
    }
}

/// The conditional jump of a branch or a loop: what is noted before it is
/// owed to the place where it lands, and noted after it.
proof fn lemma_note_test(b: BuilderView, at: Map<int, Set<u8>>, owed: Map<int, Set<u8>>)
    requires
        annotated(b, at, owed),
    ensures
        annotated(
            b.start_jump_if_false(),
            at.insert(b.code().len() as int + 2, at[b.code().len() as int]),
            owed.insert(b.code().len() as int + 1, at[b.code().len() as int]),
        ),
        same_function(b, b.start_jump_if_false()),
        b.start_jump_if_false().last_index() == b.code().len() as int + 1,
        b.start_jump_if_false().code().len() == b.code().len() as int + 2,
        !owed.contains_key(b.code().len() as int + 1),
        kept_below(
            at,
            at.insert(b.code().len() as int + 2, at[b.code().len() as int]),
            b.code().len() as int,
        ),
{
    lemma_step_jump(b, owed.dom());
    lemma_noted_jump(b.code(), at, owed, JUMP_IF_FALSE, at[b.code().len() as int]);
    lemma_noted_end(b.code(), at, owed);
    assert(owed.insert(b.code().len() as int + 1, at[b.code().len() as int]).dom() =~= owed.dom().insert(
        b.code().len() as int + 1,
    ));
    assert(b.start_jump_if_false().code() =~= b.code() + seq![JUMP_IF_FALSE, 0u8]);
}

/// The jump over the second block of a branch: the conditional jump at
/// `exit` lands past it, where the slots of `start` are noted.
proof fn lemma_note_else(
    base: BuilderView,
    a: BuilderView,
    at: Map<int, Set<u8>>,
    rest: Map<int, Set<u8>>,
    exit: int,
    due: Set<u8>,
    start: Set<u8>,
)
    requires
        annotated(a, at, rest.insert(exit, due)),
        !rest.contains_key(exit),
        a.can_patch_after(exit, 2),
        same_function(base, a),
        base.code().len() <= exit,
        start.subset_of(due),
    ensures
        annotated(
            a.start_else(exit),
            at.insert(a.code().len() as int + 2, start),
            rest.insert(a.code().len() as int + 1, at[a.code().len() as int]),
        ),
        same_function(base, a.start_else(exit)),
        a.start_else(exit).code().len() == a.code().len() as int + 2,
        a.emit(seq![JUMP, 0u8]).last_index() == a.code().len() as int + 1,
        !rest.contains_key(a.code().len() as int + 1),
        kept_below(at, at.insert(a.code().len() as int + 2, start), a.code().len() as int),
{
    let owed = rest.insert(exit, due);
    let next = a.code().len() as int + 1;
    let jumped = a.emit(seq![JUMP, 0u8]);
    assert(owed.dom() =~= rest.dom().insert(exit));
    crate::code::lemma_pending_inside(a.code(), owed.dom(), exit);
    lemma_step_else(base, a, rest.dom(), exit);
    lemma_noted_jump(a.code(), at, owed, JUMP, start);
    lemma_noted_end(a.code(), at, owed);
    let notes = at.insert(a.code().len() as int + 2, start);
    let more = owed.insert(next, at[a.code().len() as int]);
    let left = rest.insert(next, at[a.code().len() as int]);
    assert(more =~= left.insert(exit, due));
    assert(jumped.code() =~= a.code() + seq![JUMP, 0u8]);
    crate::code::lemma_emit_jump(a.code(), owed.dom(), JUMP);
    assert(owed.dom().insert(next) =~= left.dom().insert(exit));
    lemma_noted_patch(jumped.code(), notes, left, exit, due);
    assert(left.dom() =~= rest.dom().insert(next));
}

/// Setting the distance of the jump over the second block of a branch.
proof fn lemma_note_join(
    base: BuilderView,
    o: BuilderView,
    at: Map<int, Set<u8>>,
    rest: Map<int, Set<u8>>,
    j: int,
    due: Set<u8>,
    end: Set<u8>,
)
    requires
        annotated(o, at, rest.insert(j, due)),
        !rest.contains_key(j),
        o.can_patch(j),
        same_function(base, o),
        base.code().len() <= j,
        end.subset_of(due),
        end.subset_of(at[o.code().len() as int]),
    ensures
        annotated(o.patch(j), at.insert(o.code().len() as int, end), rest),
        same_function(base, o.patch(j)),
        o.patch(j).code().len() == o.code().len(),
        kept_below(at, at.insert(o.code().len() as int, end), o.code().len() as int),
{
    let owed = rest.insert(j, due);
    assert(owed.dom() =~= rest.dom().insert(j));
    lemma_step_patch(base, o, rest.dom(), j);
    lemma_noted_less(o.code(), at, owed, end);
    lemma_noted_end(o.code(), at, owed);
    lemma_noted_patch(o.code(), at.insert(o.code().len() as int, end), rest, j, due);
}

proof fn lemma_if_slots(
    e: ExprView,
    s: Seq<Seq<EntryView>>,
    b: BuilderView,
    at: Map<int, Set<u8>>,
    owed: Map<int, Set<u8>>,
) -> (then: Map<int, Set<u8>>)
    requires
        e is If,
        annotated(b, at, owed),
        known(s).subset_of(at[b.code().len() as int]),
        if_model(e, s, b) is Ok,
    ensures
        carried(b, if_model(e, s, b)->Ok_0.builder, at, then, owed, s),
    decreases e, 0nat,
{
    match e {
        ExprView::If { cond_expr, exprs, else_exprs } => {
            let at_c = lemma_expr_slots(*cond_expr, s, b, at, owed);
            let c = expr_model(*cond_expr, s, b)->Ok_0.builder;
            let n_c = c.code().len() as int;
            let b1 = c.start_jump_if_false();
            let j1 = b1.last_index();
            let due1 = at_c[n_c];
            lemma_note_test(c, at_c, owed);
            let at_1 = at_c.insert(n_c + 2, due1);
            let owed_1 = owed.insert(j1, due1);
            let at_a = lemma_block_slots(exprs, s, b1, at_1, owed_1);
            let first = block_model(exprs, s, b1)->Ok_0;
            let a = first.builder;
            let n_a = a.code().len() as int;
            lemma_same_twice(c, b1, a);
            lemma_same_longer(c, b1);
            let j2 = n_a + 1;
            let due2 = at_a[n_a];
            lemma_note_else(c, a, at_a, owed, j1, due1, known(s));
            let b2 = a.start_else(j1);
            let at_j = at_a.insert(n_a + 2, known(s));
            let owed_2 = owed.insert(j2, due2);
            let second = match else_exprs {
                Some(other) => block_model(other, s, b2),
                None => Ok(
                    Visit { types: seq!["none"@], builder: b2.emit(seq![LOAD_NONE]), scope: s },
                ),
            };
            assert(if_model(e, s, b) == else_model(first, j1, second, s));
            assert(second is Ok) by {
                reveal(else_model);
            }
            let o = second->Ok_0.builder;
            let at_o = match else_exprs {
                Some(other) => lemma_block_slots(other, s, b2, at_j, owed_2),
                None => {
                    lemma_note_plain(b2, at_j, owed_2, seq![LOAD_NONE], s);
                    noted_after(b2, at_j, seq![LOAD_NONE])
                },
            };
            lemma_same_twice(c, b2, o);
            lemma_same_longer(b2, o);
            assert(if_model(e, s, b)->Ok_0.builder == o.patch(j2)) by {
                reveal(else_model);
            }
            assert(o.can_patch(j2)) by {
                reveal(else_model);
            }
            lemma_note_join(c, o, at_o, owed, j2, due2, known(s));
            let then = at_o.insert(o.code().len() as int, known(s));
            let out = o.patch(j2);
            lemma_same_twice(b, c, out);
            lemma_same_longer(b, c);
            lemma_kept_below_twice(at, at_c, at_1, b.code().len() as int, n_c);
            lemma_kept_below_twice(at, at_1, at_a, b.code().len() as int, n_c + 2);
            lemma_kept_below_twice(at, at_a, at_j, b.code().len() as int, n_a);
            lemma_kept_below_twice(at, at_j, at_o, b.code().len() as int, n_a + 2);
            lemma_kept_below_twice(at, at_o, then, b.code().len() as int, o.code().len() as int);
            then
        },
        _ => at,
    }
}

/// Closing a loop: the jump back to `head + 1`, where no more is noted than
/// at the end of the body, and the conditional jump at `exit` lands past it,
/// where the slots of `end` are noted.
proof fn lemma_note_close(
    base: BuilderView,
    body: Visit,
    head: int,
    exit: int,
    s: Seq<Seq<EntryView>>,
    at: Map<int, Set<u8>>,
    rest: Map<int, Set<u8>>,
    due: Set<u8>,
    end: Set<u8>,
)
    requires
        close_loop(body, head, exit, s) is Ok,
        annotated(body.builder, at, rest.insert(exit, due)),
        !rest.contains_key(exit),
        same_function(base, body.builder),
        base.code().len() <= exit,
        boundary(body.builder.code(), head + 1),
        0 <= head + 1 <= body.builder.code().len(),
        at.contains_key(head + 1),
        at[head + 1].subset_of(at[body.builder.code().len() as int]),
        end.subset_of(due),
    ensures
        annotated(
            close_loop(body, head, exit, s)->Ok_0.builder,
            at.insert(body.builder.code().len() as int + 2, end),
            rest,
        ),
        same_function(base, close_loop(body, head, exit, s)->Ok_0.builder),
        close_loop(
            body,
            head,
            exit,
            s,
        )->Ok_0.builder.code().len() == body.builder.code().len() as int
            + 2,
        kept_below(
            at,
            at.insert(body.builder.code().len() as int + 2, end),
            body.builder.code().len() as int,
        ),
{
    let b = body.builder;
    let owed = rest.insert(exit, due);
    assert(owed.dom() =~= rest.dom().insert(exit));
    lemma_step_close(base, body, head, exit, s, rest.dom());
    reveal(close_loop);
    let back = b.emit(seq![JUMP_ABSOLUTE, (head + 1) as u8]);
    lemma_noted_jump_back(b.code(), at, owed, head + 1, end);
    lemma_noted_end(b.code(), at, owed);
    crate::code::lemma_emit_jump_back(b.code(), owed.dom(), head + 1);
    assert(back.code() =~= b.code() + seq![JUMP_ABSOLUTE, (head + 1) as u8]);
    lemma_noted_patch(back.code(), at.insert(b.code().len() as int + 2, end), rest, exit, due);
}

proof fn lemma_while_slots(
    e: ExprView,
    s: Seq<Seq<EntryView>>,
    b: BuilderView,
    at: Map<int, Set<u8>>,
    owed: Map<int, Set<u8>>,
) -> (then: Map<int, Set<u8>>)
    requires
        e is While,
        annotated(b, at, owed),
        known(s).subset_of(at[b.code().len() as int]),
        while_model(e, s, b) is Ok,
    ensures
        carried(b, while_model(e, s, b)->Ok_0.builder, at, then, owed, s),
    decreases e, 0nat,
{
    match e {
        ExprView::While { cond_expr, exprs } => {
            let n_b = b.code().len() as int;
            lemma_end_is_boundary(b.code(), owed.dom());
            lemma_noted_less(b.code(), at, owed, known(s));
            lemma_noted_end(b.code(), at, owed);
            let at_h = at.insert(n_b, known(s));
            let at_c = lemma_expr_slots(*cond_expr, s, b, at_h, owed);
            let c = expr_model(*cond_expr, s, b)->Ok_0.builder;
            let n_c = c.code().len() as int;
            let b1 = c.start_jump_if_false();
            let j = b1.last_index();
            let due = at_c[n_c];
            lemma_note_test(c, at_c, owed);
            let at_1 = at_c.insert(n_c + 2, due);
            let owed_1 = owed.insert(j, due);
            let at_a = lemma_block_slots(exprs, s, b1, at_1, owed_1);
            let body = block_model(exprs, s, b1)->Ok_0;
            let a = body.builder;
            let n_a = a.code().len() as int;
            lemma_same_twice(c, b1, a);
            lemma_same_twice(b, c, a);
            lemma_same_longer(b, c);
            lemma_same_longer(c, b1);
            crate::jumps::lemma_same_boundary(b, a, n_b);
            lemma_kept_below_twice(at_h, at_c, at_1, n_b, n_c);
            lemma_kept_below_twice(at_h, at_1, at_a, n_b, n_c + 2);
            lemma_note_close(b, body, b.last_index(), j, s, at_a, owed, due, known(s));
            let then = at_a.insert(n_a + 2, known(s));
            lemma_kept_below_twice(at_h, at_a, then, n_b, n_a);
            assert(kept_below(at, at_h, n_b));
            lemma_kept_below_twice(at, at_h, then, n_b, n_b);
            then
        },
        _ => at,
    }
}

/// The head of a counting loop carries the notes on; after the store of the
/// start the slot of the loop's variable is noted.
proof fn lemma_for_head_slots(
    start: i64,
    end: i64,
    s: Seq<Seq<EntryView>>,
    b: BuilderView,
    at: Map<int, Set<u8>>,
    owed: Map<int, Set<u8>>,
) -> (notes: (Map<int, Set<u8>>, Set<u8>))
    requires
        annotated(b, at, owed),
        known(s).subset_of(at[b.code().len() as int]),
        for_head_model(start, end, s, b) is Ok,
    ensures
        ({
            let stored = for_head_model(start, end, s, b)->Ok_0.0;
            let tested = for_head_model(start, end, s, b)->Ok_0.1;
            let inside = known(s).insert(loop_slot(s));
            &&& same_function(b, stored)
            &&& same_function(stored, tested)
            &&& boundary(stored.code(), stored.code().len() as int)
            &&& stored.last_index() == stored.code().len() - 1
            &&& b.code().len() < stored.code().len()
            &&& stored.code().len() as int + 2 <= tested.code().len()
            &&& tested.last_index() == tested.code().len() - 1
            &&& !owed.contains_key(tested.last_index())
            &&& annotated(tested, notes.0, owed.insert(tested.last_index(), notes.1))
            &&& kept_below(at, notes.0, b.code().len() as int)
            &&& notes.0.contains_key(stored.code().len() as int)
            &&& notes.0[stored.code().len() as int] == inside
            &&& inside.subset_of(notes.1)
            &&& notes.0[tested.code().len() as int] == notes.1
        }),
{
    reveal(for_head_model);
    let slot = loop_slot(s);
    let inside = known(s).insert(slot);
    let at_1 = lemma_load_slots(Value::Int(start), seq!["int"@], s, b, at, owed, s);
    let first = load_model(Value::Int(start), seq!["int"@], s, b)->Ok_0.builder;
    let store = seq![STORE_FAST, slot];
    lemma_note_plain(first, at_1, owed, store, s);
    let stored_b = first.emit(store);
    let at_2 = noted_after(first, at_1, store);
    lemma_same_twice(b, first, stored_b);
    lemma_same_longer(b, first);
    lemma_same_longer(first, stored_b);
    assert(stored_b.code() =~= first.code() + store);
    let n_s = stored_b.code().len() as int;
    lemma_end_is_boundary(stored_b.code(), owed.dom());
    assert(at_2[n_s] == at_1[first.code().len() as int].union(set![slot])) by {
        assert(stored(store, 0) =~= set![slot]);
    }
    assert(inside.subset_of(at_2[n_s]));
    lemma_noted_less(stored_b.code(), at_2, owed, inside);
    let at_3 = at_2.insert(n_s, inside);
    let load = seq![LOAD_FAST, slot];
    lemma_note_plain(stored_b, at_3, owed, load, s);
    let loaded = stored_b.emit(load);
    let at_4 = noted_after(stored_b, at_3, load);
    assert(at_4[loaded.code().len() as int] =~= inside) by {
        assert(loaded.code() =~= stored_b.code() + load);
        assert(stored(load, 0) =~= Set::<u8>::empty());
    }
    let at_5 = lemma_load_slots(Value::Int(end), seq!["int"@], s, loaded, at_4, owed, s);
    let last = load_model(Value::Int(end), seq!["int"@], s, loaded)->Ok_0.builder;
    let less = seq![BIN_LESS_THAN];
    lemma_note_plain(last, at_5, owed, less, s);
    let compared = last.emit(less);
    let at_6 = noted_after(last, at_5, less);
    assert(compared.code() =~= last.code() + less);
    assert(at_6[compared.code().len() as int] =~= inside) by {
        assert(stored(less, 0) =~= Set::<u8>::empty());
    }
    lemma_note_test(compared, at_6, owed);
    let tested = compared.start_jump_if_false();
    let at_7 = at_6.insert(compared.code().len() as int + 2, at_6[compared.code().len() as int]);
    lemma_same_twice(stored_b, loaded, last);
    lemma_same_twice(stored_b, last, compared);
    lemma_same_twice(stored_b, compared, tested);
    lemma_same_longer(stored_b, loaded);
    lemma_same_longer(loaded, last);
    lemma_same_longer(last, compared);
    lemma_kept_below_twice(at, at_1, at_2, b.code().len() as int, first.code().len() as int);
    lemma_kept_below_twice(at, at_2, at_3, b.code().len() as int, n_s);
    lemma_kept_below_twice(at, at_3, at_4, b.code().len() as int, n_s);
    lemma_kept_below_twice(at, at_4, at_5, b.code().len() as int, loaded.code().len() as int);
    lemma_kept_below_twice(at, at_5, at_6, b.code().len() as int, last.code().len() as int);
    lemma_kept_below_twice(at, at_6, at_7, b.code().len() as int, compared.code().len() as int);
    assert(loaded.code() =~= stored_b.code() + load);
    (at_7, at_6[compared.code().len() as int])
}

proof fn lemma_for_slots(
    e: ExprView,
    s: Seq<Seq<EntryView>>,
    b: BuilderView,
    at: Map<int, Set<u8>>,
    owed: Map<int, Set<u8>>,
) -> (then: Map<int, Set<u8>>)
    requires
        e is For,
        annotated(b, at, owed),
        known(s).subset_of(at[b.code().len() as int]),
        for_model(e, s, b) is Ok,
    ensures
        carried(b, for_model(e, s, b)->Ok_0.builder, at, then, owed, s),
    decreases e, 0nat,
{
    match e {
        ExprView::For { name, start, end, exprs } => {
            let slot = loop_slot(s);
            let inside = known(s).insert(slot);
            let notes = lemma_for_head_slots(start, end, s, b, at, owed);
            let stored_b = for_head_model(start, end, s, b)->Ok_0.0;
            let tested = for_head_model(start, end, s, b)->Ok_0.1;
            let n_s = stored_b.code().len() as int;
            let j = tested.last_index();
            let due = notes.1;
            let owed_1 = owed.insert(j, due);
            let scope = loop_scope(name, s);
            lemma_loop_known(name, s);
            let at_a = lemma_block_slots(exprs, scope, tested, notes.0, owed_1);
            let body = block_model(exprs, scope, tested)->Ok_0;
            let a = body.builder;
            assert(inside.subset_of(at_a[a.code().len() as int])) by {
                lemma_same_longer(tested, a);
            }
            let load = seq![LOAD_FAST, slot];
            lemma_note_plain(a, at_a, owed_1, load, s);
            let b1 = a.emit(load);
            let at_1 = noted_after(a, at_a, load);
            lemma_note_plain(b1, at_1, owed_1, seq![INC_ONE], s);
            let b2 = b1.emit(seq![INC_ONE]);
            let at_2 = noted_after(b1, at_1, seq![INC_ONE]);
            lemma_note_plain(b2, at_2, owed_1, seq![STORE_FAST, slot], s);
            let b3 = b2.emit(seq![STORE_FAST, slot]);
            let at_3 = noted_after(b2, at_2, seq![STORE_FAST, slot]);
            let all = seq![LOAD_FAST, slot, INC_ONE, STORE_FAST, slot];
            assert(a.code() + all =~= a.code() + load + seq![INC_ONE] + seq![STORE_FAST, slot]);
            assert(a.emit(all) == b3);
            let closing = Visit { types: body.types, builder: b3, scope: s };
            lemma_same_twice(tested, a, b1);
            lemma_same_twice(tested, b1, b2);
            lemma_same_twice(tested, b2, b3);
            lemma_same_twice(stored_b, tested, b3);
            lemma_same_longer(tested, a);
            lemma_same_longer(a, b1);
            lemma_same_longer(b1, b2);
            lemma_same_longer(b2, b3);
            crate::jumps::lemma_same_boundary(stored_b, b3, n_s);
            lemma_kept_below_twice(
                notes.0,
                at_a,
                at_1,
                tested.code().len() as int,
                a.code().len() as int,
            );
            lemma_kept_below_twice(
                notes.0,
                at_1,
                at_2,
                tested.code().len() as int,
                b1.code().len() as int,
            );
            lemma_kept_below_twice(
                notes.0,
                at_2,
                at_3,
                tested.code().len() as int,
                b2.code().len() as int,
            );
            assert(at_3[n_s] == inside);
            assert(inside.subset_of(at_3[b3.code().len() as int]));
            lemma_note_close(
                stored_b,
                closing,
                stored_b.last_index(),
                j,
                s,
                at_3,
                owed,
                due,
                known(s),
            );
            let then = at_3.insert(b3.code().len() as int + 2, known(s));
            let out = for_model(e, s, b)->Ok_0.builder;
            lemma_same_twice(b, stored_b, out);
            lemma_kept_below_twice(
                at,
                notes.0,
                at_3,
                b.code().len() as int,
                tested.code().len() as int,
            );
            lemma_kept_below_twice(at, at_3, then, b.code().len() as int, b3.code().len() as int);
            then
        },
        _ => at,
    }
}

/// What a statement carries on: as an expression does, with the scope that
/// the statement leaves, which differs from the scope before it in its
/// innermost frame at most.
pub proof fn lemma_stmt_slots(
    st: StmtView,
    s: Seq<Seq<EntryView>>,
    b: BuilderView,
    at: Map<int, Set<u8>>,
    owed: Map<int, Set<u8>>,
) -> (then: Map<int, Set<u8>>)
    requires
        s.len() >= 1,
        annotated(b, at, owed),
        known(s).subset_of(at[b.code().len() as int]),
        stmt_model(st, s, b) is Ok,
    ensures
        carried(
            b,
            stmt_model(st, s, b)->Ok_0.builder,
            at,
            then,
            owed,
            stmt_model(st, s, b)->Ok_0.scope,
        ),
        outer_kept(s, stmt_model(st, s, b)->Ok_0.scope),
    decreases st, 0nat,
{
    match st {
        StmtView::Expr(e) => {
            crate::typing::lemma_expr_typed(e, s, b);
            lemma_expr_slots(e, s, b, at, owed)
        },
        StmtView::Assignment { new, name, expr, types } => {
            crate::typing::lemma_expr_typed(expr, s, b);
            let mid = lemma_expr_slots(expr, s, b, at, owed);
            let value = expr_model(expr, s, b)->Ok_0;
            let out = stmt_model(st, s, b)->Ok_0;
            if new {
                reveal(bind_model);
                let slot = next_index(s) as u8;
                let instr = seq![STORE_FAST, slot];
                lemma_defined_known(s, name, variable(types->Some_0, slot));
                assert(stored(instr, 0) =~= set![slot]);
                lemma_note_plain(value.builder, mid, owed, instr, out.scope);
                let then = noted_after(value.builder, mid, instr);
                lemma_carried_twice(
                    b,
                    value.builder,
                    out.builder,
                    at,
                    mid,
                    then,
                    owed,
                    s,
                    out.scope,
                );
                then
            } else {
                reveal(rebind_model);
                let index = resolve(s, name).0->Some_0.index;
                let instr = seq![STORE_FAST, index];
                lemma_note_plain(value.builder, mid, owed, instr, s);
                let then = noted_after(value.builder, mid, instr);
                lemma_carried_twice(b, value.builder, out.builder, at, mid, then, owed, s, s);
                then
            }
        },
    }
}

/// Compiling the statements of a list from the `i`th on carries the notes on.
pub proof fn lemma_stmts_slots(
    list: Seq<StmtView>,
    i: nat,
    before: Visit,
    at: Map<int, Set<u8>>,
    owed: Map<int, Set<u8>>,
) -> (then: Map<int, Set<u8>>)
    requires
        before.scope.len() >= 1,
        annotated(before.builder, at, owed),
        known(before.scope).subset_of(at[before.builder.code().len() as int]),
        stmts_model(list, i, before) is Ok,
    ensures
        carried(
            before.builder,
            stmts_model(list, i, before)->Ok_0.builder,
            at,
            then,
            owed,
            stmts_model(list, i, before)->Ok_0.scope,
        ),
        outer_kept(before.scope, stmts_model(list, i, before)->Ok_0.scope),
    decreases list, list.len() - i,
{
    if i < list.len() {
        let mid = lemma_stmt_slots(list[i as int], before.scope, before.builder, at, owed);
        let next = stmt_model(list[i as int], before.scope, before.builder)->Ok_0;
        let then = lemma_stmts_slots(list, i + 1, next, mid, owed);
        let out = stmts_model(list, i, before)->Ok_0;
        lemma_carried_twice(
            before.builder,
            next.builder,
            out.builder,
            at,
            mid,
            then,
            owed,
            next.scope,
            out.scope,
        );
        lemma_outer_twice(before.scope, next.scope, out.scope);
        then
    } else {
        lemma_same_itself(before.builder);
        lemma_noted_end(before.builder.code(), at, owed);
        at
    }
}

/// Compiling the statements of a body carries the notes on.
pub proof fn lemma_body_slots(
    block: BlockView,
    s: Seq<Seq<EntryView>>,
    b: BuilderView,
    at: Map<int, Set<u8>>,
    owed: Map<int, Set<u8>>,
) -> (then: Map<int, Set<u8>>)
    requires
        s.len() >= 1,
        annotated(b, at, owed),
        known(s).subset_of(at[b.code().len() as int]),
        body_model(block, s, b) is Ok,
    ensures
        carried(
            b,
            body_model(block, s, b)->Ok_0.builder,
            at,
            then,
            owed,
            body_model(block, s, b)->Ok_0.scope,
        ),
        outer_kept(s, body_model(block, s, b)->Ok_0.scope),
    decreases block, 1nat,
{
    let start = Visit { types: seq!["none"@], builder: b, scope: s };
    let mid = lemma_stmts_slots(block.stmts, 0, start, at, owed);
    let before = stmts_model(block.stmts, 0, start)->Ok_0;
    match block.tail {
        Some(last) => {
            let then = lemma_stmt_slots(*last, before.scope, before.builder, mid, owed);
            let out = body_model(block, s, b)->Ok_0;
            lemma_carried_twice(
                b,
                before.builder,
                out.builder,
                at,
                mid,
                then,
                owed,
                before.scope,
                out.scope,
            );
            lemma_outer_twice(s, before.scope, out.scope);
            then
        },
        None => mid,
    }
}

/// Compiling a block carries the notes on; what the scope around the block
/// knows is noted at the end.
pub proof fn lemma_block_slots(
    block: BlockView,
    s: Seq<Seq<EntryView>>,
    b: BuilderView,
    at: Map<int, Set<u8>>,
    owed: Map<int, Set<u8>>,
) -> (then: Map<int, Set<u8>>)
    requires
        annotated(b, at, owed),
        known(s).subset_of(at[b.code().len() as int]),
        block_model(block, s, b) is Ok,
    ensures
        carried(b, block_model(block, s, b)->Ok_0.builder, at, then, owed, s),
    decreases block, 2nat,
{
    let inner = s.push(Seq::<EntryView>::empty());
    lemma_pushed_known(s);
    let then = lemma_body_slots(block, inner, b, at, owed);
    let out = body_model(block, inner, b)->Ok_0;
    lemma_outer_known(inner, out.scope);
    assert(inner.drop_last() =~= s);
    then
}

/// The notes `at` fit the finished code of a function: they fit every
/// instruction, with no distance left to set.
pub open spec fn fitted(code: Seq<u8>, at: Map<int, Set<u8>>) -> bool {
    forall|p: int|
        0 <= p < code.len() && #[trigger] boundary(code, p) ==> flows(
            code,
            p,
            at,
            Map::<int, Set<u8>>::empty(),
        )
}

/// The slots of a function are in order: there are notes that fit its code
/// and that, where the function starts, hold only slots of its arguments.
pub open spec fn slots_in_order(f: FunctionView) -> bool {
    exists|at: Map<int, Set<u8>>|
        #[trigger] fitted(f.opcodes, at) && at.contains_key(0) && forall|k: u8|
            at[0].contains(k) ==> k < f.num_args
}

/// Every function of the table has its slots in order.
pub open spec fn all_slots_in_order(functions: Seq<FunctionView>) -> bool {
    forall|k: int| 0 <= k < functions.len() ==> slots_in_order(#[trigger] functions[k])
}

/// A scope whose frames hold functions only knows no slot.
pub open spec fn only_functions(s: Seq<Seq<EntryView>>) -> bool {
    forall|i: int, j: int|
        0 <= i < s.len() && 0 <= j < s[i].len() ==> (#[trigger] s[i][j]).symbol.sym_type is Function
}

/// The first pass declares functions only.
pub proof fn lemma_declared_functions(
    defs: Seq<DefinitionView>,
    i: nat,
    global: Seq<Seq<EntryView>>,
)
    requires
        global.len() == 1,
        only_functions(global),
        declare_model(defs, i, global) is Ok,
    ensures
        only_functions(declare_model(defs, i, global)->Ok_0),
        declare_model(defs, i, global)->Ok_0.len() == 1,
    decreases defs.len() - i,
{
    if i < defs.len() {
        let symbol = function_symbol(defs[i as int], next_index(global) as u8);
        let next = define(global, defs[i as int].name, symbol);
        lemma_first_index_is_first(frame_names(global.last()), defs[i as int].name);
        assert(only_functions(next)) by {
            assert forall|a: int, c: int| 0 <= a < next.len() && 0 <= c < next[a].len() implies (
            #[trigger] next[a][c]).symbol.sym_type is Function by {
                let at = crate::seqs::first_index(frame_names(global.last()), defs[i as int].name);
                if c != at {
                    assert(next[a][c] == global[a][c]);
                }
            }
        }
        lemma_declared_functions(defs, i + 1, next);
    }
}

/// The slots that the scope of a body knows after its arguments were
/// defined are below the number of arguments.
pub proof fn lemma_arguments_known(
    args: Seq<(Seq<char>, Seq<Seq<char>>)>,
    i: nat,
    s: Seq<Seq<EntryView>>,
)
    requires
        s.len() == 2,
        i <= args.len(),
        s.last().len() <= i,
        forall|k: u8| known(s).contains(k) ==> k < i,
        arguments_model(args, i, s) is Ok,
    ensures
        arguments_model(args, i, s)->Ok_0.len() == 2,
        forall|k: u8| known(arguments_model(args, i, s)->Ok_0).contains(k) ==> k < args.len(),
    decreases args.len() - i,
{
    if i < args.len() {
        let slot = next_index(s) as u8;
        let symbol = variable(args[i as int].1, slot);
        let next = define(s, args[i as int].0, symbol);
        lemma_defined_known(s, args[i as int].0, symbol);
        assert(next_index(s) == s.last().len());
        lemma_first_index_is_first(frame_names(s.last()), args[i as int].0);
        assert(next.last().len() <= i + 1);
        lemma_arguments_known(args, i + 1, next);
    }
}

/// Compiling a definition adds to the table a function with its slots in
/// order.
pub proof fn lemma_function_slots(def: DefinitionView, global: Seq<Seq<EntryView>>, b: BuilderView)
    requires
        global.len() == 1,
        only_functions(global),
        def.args.len() <= usize::MAX,
        all_slots_in_order(b.module.functions),
        function_model(def, global, b) is Ok,
    ensures
        all_slots_in_order(function_model(def, global, b)->Ok_0.module.functions),
{
    reveal(function_model);
    reveal(same_function);
    let start = global.push(Seq::<EntryView>::empty());
    lemma_pushed_known(global);
    assert(known(global) =~= Set::<u8>::empty()) by {
        assert forall|k: u8| !known(global).contains(k) by {
            if known(global).contains(k) {
                let (i, j) = choose|i: int, j: int|
                    0 <= i < global.len() && 0 <= j < global[i].len() && (
                        #[trigger] global[i][j]
                    ).symbol.index
                        == k && global[i][j].symbol.sym_type is Variable;
                assert(global[i][j].symbol.sym_type is Function);
            }
        }
    }
    lemma_arguments_known(def.args, 0, start);
    let local = arguments_model(def.args, 0, start)->Ok_0;
    let begun = b.begin(def.name, def.args.len() as usize).returning(def.return_type);
    let none = Map::<int, Set<u8>>::empty();
    let at0 = map![0int => known(local)];
    lemma_empty_well_formed();
    lemma_noted_empty(known(local));
    assert(begun.code() =~= Seq::<u8>::empty());
    assert(none.dom() =~= Set::<int>::empty());
    let then = lemma_body_slots(def.exprs, local, begun, at0, none);
    let v = body_model(def.exprs, local, begun)->Ok_0.builder;
    lemma_finish(v.code());
    let out = function_model(def, global, b)->Ok_0;
    assert(out == v.finish());
    let code = v.code().push(RETURN);
    let instr = seq![RETURN];
    assert(code =~= v.code() + instr);
    lemma_noted_plain(v.code(), then, none, instr);
    let at = then.insert(code.len() as int, then[v.code().len() as int].union(stored(instr, 0)));
    assert(fitted(code, at)) by {
        reveal(noted);
    }
    assert(at[0] == then[0]);
    let added = out.module.functions.last();
    assert(added.opcodes == code);
    assert(added.num_args == def.args.len());
    assert(slots_in_order(added));
    assert forall|k: int| 0 <= k < out.module.functions.len() implies slots_in_order(
        #[trigger] out.module.functions[k],
    ) by {
        if k < b.module.functions.len() {
            assert(out.module.functions[k] == b.module.functions[k]);
        }
    }
}

/// Compiling the definitions of a program from the `i`th on adds functions
/// with their slots in order.
pub proof fn lemma_functions_slots(
    defs: Seq<DefinitionView>,
    i: nat,
    global: Seq<Seq<EntryView>>,
    b: BuilderView,
)
    requires
        global.len() == 1,
        only_functions(global),
        forall|k: int| 0 <= k < defs.len() ==> (#[trigger] defs[k]).args.len() <= usize::MAX,
        all_slots_in_order(b.module.functions),
        functions_model(defs, i, global, b) is Ok,
    ensures
        all_slots_in_order(functions_model(defs, i, global, b)->Ok_0.module.functions),
    decreases defs.len() - i,
{
    if i < defs.len() {
        lemma_function_slots(defs[i as int], global, b);
        lemma_functions_slots(defs, i + 1, global, function_model(defs[i as int], global, b)->Ok_0);
    }
}

/// Every function of a compiled module has its slots in order: there are
/// notes on its code by which every read of a slot comes after the slot was
/// set, by an argument of the call or by a store, on every way through the
/// code.
pub proof fn lemma_compiled_slots_in_order(defs: Seq<DefinitionView>, name: Seq<char>)
    requires
        forall|k: int| 0 <= k < defs.len() ==> (#[trigger] defs[k]).args.len() <= usize::MAX,
        compile_model(defs, name) is Ok,
    ensures
        all_slots_in_order(compile_model(defs, name)->Ok_0.functions),
{
    let first = seq![Seq::<EntryView>::empty()];
    lemma_declared_functions(defs, 0, first);
    let global = declare_model(defs, 0, first)->Ok_0;
    let start = BuilderView { module: ModuleView::empty(name), current: None };
    lemma_functions_slots(defs, 0, global, start);
}

/// The machine stands at an opcode of the code, and every slot noted there
/// is set.
pub open spec fn ready(code: Seq<u8>, at: Map<int, Set<u8>>, f: Frame) -> bool {
    &&& 0 <= f.ip < code.len()
    &&& boundary(code, f.ip)
    &&& at.contains_key(f.ip)
    &&& forall|k: u8| at[f.ip].contains(k) ==> k < f.slots.len() && f.slots[k as int] is Some
}

/// A call of a function with its slots in order starts ready.
pub proof fn lemma_ready_at_entry(f: FunctionView, at: Map<int, Set<u8>>, args: Seq<Value>)
    requires
        sound_code(f.opcodes),
        at.contains_key(0),
        forall|k: u8| at[0].contains(k) ==> k < f.num_args,
        args.len() == f.num_args,
    ensures
        ready(f.opcodes, at, Frame::entry(args)),
{
}

/// A step of a machine that is ready, in a finished function with its slots
/// in order: an instruction that reads a slot finds it set; and the machine
/// is ready again after the step, and after a call returns.
pub proof fn lemma_ready_step(m: ModuleView, code: Seq<u8>, at: Map<int, Set<u8>>, f: Frame)
    requires
        sound_code(code),
        fitted(code, at),
        ready(code, at, f),
    ensures
        code[f.ip] == LOAD_FAST ==> step(m, code, f) is Next,
        step(m, code, f) matches Step::Next(g) ==> ready(code, at, g),
        step(m, code, f) is Call ==> forall|v: Value|
            ready(code, at, #[trigger] step(m, code, f)->back.push(v)),
{
    let p = f.ip;
    let none = Map::<int, Set<u8>>::empty();
    assert(flows(code, p, at, none));
    assert(jumps_inside(code, p));
    lemma_whole(code, p);
    let next = next_opcode(code, p);
    assert(reaches(code, p, next)) by {
        assert(reaches(code, next, next));
    }
    lemma_reaches_twice(code, 0, p, next);
    if code[p] == RETURN {
    } else if next == code.len() {
        if operand_count(code[p]) >= 1 {
            crate::code::lemma_not_inside(code, p, code.len() - 1);
        }
    } else if operand_count(code[p]) == 0 {
        lemma_ready_plain(m, code, at, f);
    } else if code[p] == CALL_FUNCTION {
        lemma_ready_call(m, code, at, f);
    } else {
        lemma_ready_operand(m, code, at, f);
    }
}

proof fn lemma_ready_call(m: ModuleView, code: Seq<u8>, at: Map<int, Set<u8>>, f: Frame)
    requires
        sound_code(code),
        fitted(code, at),
        ready(code, at, f),
        code[f.ip] == CALL_FUNCTION,
        boundary(code, f.ip + 3),
        f.ip + 3 < code.len(),
    ensures
        !(step(m, code, f) is Next),
        step(m, code, f) is Call ==> forall|v: Value|
            ready(code, at, #[trigger] step(m, code, f)->back.push(v)),
{
    let none = Map::<int, Set<u8>>::empty();
    assert(flows(code, f.ip, at, none));
    assert(stored(code, f.ip) =~= Set::<u8>::empty());
}

proof fn lemma_ready_plain(m: ModuleView, code: Seq<u8>, at: Map<int, Set<u8>>, f: Frame)
    requires
        sound_code(code),
        fitted(code, at),
        ready(code, at, f),
        operand_count(code[f.ip]) == 0,
        code[f.ip] != RETURN,
        boundary(code, f.ip + 1),
        f.ip + 1 < code.len(),
    ensures
        step(m, code, f) matches Step::Next(g) ==> ready(code, at, g),
        !(step(m, code, f) is Call),
{
    let none = Map::<int, Set<u8>>::empty();
    assert(flows(code, f.ip, at, none));
    assert(stored(code, f.ip) =~= Set::<u8>::empty());
}

proof fn lemma_ready_operand(m: ModuleView, code: Seq<u8>, at: Map<int, Set<u8>>, f: Frame)
    requires
        sound_code(code),
        fitted(code, at),
        ready(code, at, f),
        operand_count(code[f.ip]) == 1,
        boundary(code, f.ip + 2),
        f.ip + 2 < code.len(),
    ensures
        code[f.ip] == LOAD_FAST ==> step(m, code, f) is Next,
        step(m, code, f) matches Step::Next(g) ==> ready(code, at, g),
        !(step(m, code, f) is Call),
{
    let none = Map::<int, Set<u8>>::empty();
    let p = f.ip;
    assert(flows(code, p, at, none));
    assert(jumps_inside(code, p));
    if code[p] == STORE_FAST {
        assert(stored(code, p) =~= set![code[p + 1]]);
    } else {
        assert(stored(code, p) =~= Set::<u8>::empty());
    }
}

} // verus!
