use vstd::prelude::*;
use crate::ast::{BinOpAst, BlockView, DefinitionView, ExprView, StmtView};
use crate::calls::{
    argument_env, distinct_parameters, lemma_body_is_expression, lemma_callee,
    lemma_function_runs,
};
use crate::code::{is_prefix, lemma_pending_inside};
use crate::compiler::{
    block_model, call_model, compile_model, declare_model, else_model, expr_model,
    invoke_model, if_model, list_model, load_model, op_code,
    op_model, sequence_model, variable_model, Visit,
};
use crate::constants::{
    lemma_block_pool, lemma_expr_pool, lemma_sequence_pool, pool_grew, pool_kept,
};
use crate::errors::ErrorView;
use crate::jumps::{
    coded, lemma_block_code, lemma_expr_code, lemma_same_longer, lemma_same_twice,
    lemma_sequence_code, lemma_step_else, lemma_step_jump, lemma_step_plain, same_function,
};
use crate::module::{pool_index, pool_with, BuilderView, ModuleView};
use crate::object::{
    value_add, value_div, value_equal, value_greater, value_greater_eq, value_less, value_less_eq,
    value_mul, value_nequal, value_sub, Value,
};
use crate::opcodes::{
    BUILD_LIST, CALL_FUNCTION, JUMP, JUMP_IF_FALSE, LOAD_CONST, LOAD_FALSE, LOAD_FAST, LOAD_NONE, LOAD_TRUE,
};
use crate::symbol::{resolve, EntryView};
use crate::vm::{binary_value, run, step, Frame, Step};

verus! {

/// The value operation that a binary operator stands for.
pub open spec fn operation(op: BinOpAst, a: Value, b: Value) -> Result<Value, ErrorView> {
    match op {
        BinOpAst::Add => value_add(a, b),
        BinOpAst::Sub => value_sub(a, b),
        BinOpAst::Mul => value_mul(a, b),
        BinOpAst::Div => value_div(a, b),
        BinOpAst::EqEq => value_equal(a, b),
        BinOpAst::NotEq => value_nequal(a, b),
        BinOpAst::LessThan => value_less(a, b),
        BinOpAst::LessThanEq => value_less_eq(a, b),
        BinOpAst::GreaterThan => value_greater(a, b),
        BinOpAst::GreaterThanEq => value_greater_eq(a, b),
    }
}

/// The names of the definitions of a program, in order.
pub open spec fn names(defs: Seq<DefinitionView>) -> Seq<Seq<char>> {
    Seq::new(defs.len(), |k: int| defs[k].name)
}

/// The value of a pure expression where the variables have the values of
/// `env`, by the rules of the language alone: a literal is its value; a
/// variable has its value of `env`; the operands of an operation, the
/// elements of a list and the arguments of a call are evaluated from the
/// left, and the first failure is the result; a branch evaluates its
/// condition and then the block that the condition chooses, and without a
/// second block it is `none` where the condition fails; a call evaluates the
/// body of the function of that name, where each parameter has the value of
/// its argument.
///
/// There is no value, `None`, for an expression that is not pure (a loop, a
/// block that is more than one expression), for a call with another number
/// of arguments than the function has parameters or of a function with two
/// parameters of one name, and where calls are nested deeper than `depth`.
pub open spec fn eval(
    defs: Seq<DefinitionView>,
    e: ExprView,
    env: Map<Seq<char>, Value>,
    depth: nat,
) -> Option<Result<Value, ErrorView>>
    decreases depth, e, 1nat,
{
    match e {
        ExprView::Integer(n) => Some(Ok(Value::Int(n))),
        ExprView::Str(t) => Some(Ok(Value::Str(t))),
        ExprView::Bool(b) => Some(Ok(Value::Bool(b))),
        ExprView::NoneLiteral => Some(Ok(Value::NoneValue)),
        ExprView::Variable(name) => if env.contains_key(name) {
            Some(Ok(env[name]))
        } else {
            Some(Err(ErrorView::SymbolNotFound(name)))
        },
        ExprView::Op(left, op, right) => match eval(defs, *left, env, depth) {
            None => None,
            Some(Err(x)) => Some(Err(x)),
            Some(Ok(a)) => match eval(defs, *right, env, depth) {
                None => None,
                Some(Err(x)) => Some(Err(x)),
                Some(Ok(b)) => Some(operation(op, a, b)),
            },
        },
        ExprView::List(items) => match eval_all(defs, items, 0, env, depth) {
            None => None,
            Some(Err(x)) => Some(Err(x)),
            Some(Ok(values)) => Some(Ok(Value::List(values))),
        },
        ExprView::If { cond_expr, exprs, else_exprs } => match eval(defs, *cond_expr, env, depth) {
            None => None,
            Some(Err(x)) => Some(Err(x)),
            Some(Ok(c)) => if c.truthy() {
                eval_block(defs, exprs, env, depth)
            } else {
                match else_exprs {
                    Some(other) => eval_block(defs, other, env, depth),
                    None => Some(Ok(Value::NoneValue)),
                }
            },
        },
        ExprView::FunctionCall { name, args } => match eval_all(defs, args, 0, env, depth) {
            None => None,
            Some(Err(x)) => Some(Err(x)),
            Some(Ok(values)) => {
                let k = crate::seqs::first_index(names(defs), name);
                if depth == 0 || k >= defs.len() || values.len() != defs[k].args.len()
                    || !distinct_parameters(defs[k].args) {
                    None
                } else {
                    eval_block(
                        defs,
                        defs[k].exprs,
                        argument_env(defs[k].args, values),
                        (depth - 1) as nat,
                    )
                }
            },
        },
        _ => None,
    }
}

/// The value of a block that is one expression.
pub open spec fn eval_block(
    defs: Seq<DefinitionView>,
    block: BlockView,
    env: Map<Seq<char>, Value>,
    depth: nat,
) -> Option<Result<Value, ErrorView>>
    decreases depth, block, 0nat,
{
    if block.stmts.len() != 0 {
        None
    } else {
        match block.tail {
            Some(last) => match *last {
                StmtView::Expr(e) => eval(defs, e, env, depth),
                _ => None,
            },
            None => None,
        }
    }
}

/// The values of the expressions of a sequence from the `i`th on.
pub open spec fn eval_all(
    defs: Seq<DefinitionView>,
    items: Seq<ExprView>,
    i: nat,
    env: Map<Seq<char>, Value>,
    depth: nat,
) -> Option<Result<Seq<Value>, ErrorView>>
    decreases depth, items, items.len() - i,
{
    if i >= items.len() {
        Some(Ok(Seq::empty()))
    } else {
        match eval(defs, items[i as int], env, depth) {
            None => None,
            Some(Err(x)) => Some(Err(x)),
            Some(Ok(first)) => match eval_all(defs, items, i + 1, env, depth) {
                None => None,
                Some(Err(x)) => Some(Err(x)),
                Some(Ok(rest)) => Some(Ok(seq![first] + rest)),
            },
        }
    }
}

/// Every variable that the scope knows has its value of `env` in its slot.
pub open spec fn bound(
    s: Seq<Seq<EntryView>>,
    slots: Seq<Option<Value>>,
    env: Map<Seq<char>, Value>,
) -> bool {
    forall|name: Seq<char>|
        (#[trigger] resolve(s, name).0 matches Some(symbol) && symbol.sym_type is Variable) ==> {
            &&& env.contains_key(name)
            &&& resolve(s, name).0->Some_0.index < slots.len()
            &&& slots[resolve(s, name).0->Some_0.index as int] == Some(env[name])
        }
}

/// Where the machine stands after an expression was run from `f`: past the
/// code of the expression, with the value on top of the stack.
pub open spec fn after(f: Frame, end: int, value: Value) -> Frame {
    Frame { ip: end, stack: f.stack.push(value), slots: f.slots }
}

/// Whether running for `steps` instructions from `f`, with `fuel` more to
/// spare, does what evaluating does: it comes to `end` with the value on the
/// stack, or it fails as the evaluation fails.
pub open spec fn ran(
    m: ModuleView,
    code: Seq<u8>,
    f: Frame,
    steps: nat,
    fuel: nat,
    end: int,
    value: Result<Value, ErrorView>,
) -> bool {
    match value {
        Ok(v) => run(m, code, f, fuel + steps) == run(m, code, after(f, end, v), fuel),
        Err(e) => run(m, code, f, fuel + steps) == Err::<Value, ErrorView>(e),
    }
}

/// Running for `steps` instructions from `f` does what evaluating does,
/// whenever at least `need` instructions are to spare, which the calls on
/// the way may use.
pub open spec fn runs_as(
    m: ModuleView,
    code: Seq<u8>,
    f: Frame,
    steps: nat,
    need: nat,
    end: int,
    value: Result<Value, ErrorView>,
) -> bool {
    forall|fuel: nat| fuel >= need ==> #[trigger] ran(m, code, f, steps, fuel, end, value)
}

proof fn lemma_next(m: ModuleView, code: Seq<u8>, f: Frame, g: Frame, fuel: nat)
    requires
        step(m, code, f) == Step::Next(g),
    ensures
        run(m, code, f, fuel + 1) == run(m, code, g, fuel),
{
    assert((fuel + 1 - 1) as nat == fuel);
}

proof fn lemma_fail(m: ModuleView, code: Seq<u8>, f: Frame, e: ErrorView, fuel: nat)
    requires
        step(m, code, f) == Step::Fail(e),
    ensures
        run(m, code, f, fuel + 1) == Err::<Value, ErrorView>(e),
{
}

/// The operation of the machine for the opcode of an operator is the
/// operation that the operator stands for.
proof fn lemma_operation(op: BinOpAst, a: Value, b: Value)
    ensures
        binary_value(op_code(op), a, b) == operation(op, a, b),
        crate::vm::is_binary(op_code(op)),
        crate::opcodes::operand_count(op_code(op)) == 0,
{
}


/// The module `m` is what the program compiles to under the name `program`,
/// and the outermost frame of the scope `s` holds the functions that the
/// program declares.
pub open spec fn in_program(
    defs: Seq<DefinitionView>,
    program: Seq<char>,
    m: ModuleView,
    s: Seq<Seq<EntryView>>,
) -> bool {
    &&& compile_model(defs, program) == Ok::<ModuleView, ErrorView>(m)
    &&& declare_model(defs, 0, seq![Seq::<EntryView>::empty()]) is Ok
    &&& s.len() >= 1
    &&& s[0] == declare_model(defs, 0, seq![Seq::<EntryView>::empty()])->Ok_0[0]
}

/// What the code of the whole function and the module it runs in have from
/// the builder: the code holds the builder's code, but for the distances
/// that were still to be set, and the pool begins with the builder's.
pub open spec fn built_into(
    b: BuilderView,
    pending: Set<int>,
    m: ModuleView,
    code: Seq<u8>,
) -> bool {
    &&& b.current is Some
    &&& b.code().len() <= code.len()
    &&& forall|i: int|
        0 <= i < b.code().len() && !pending.contains(i) ==> #[trigger] code[i] == b.code()[i]
    &&& pool_grew(b.module.consts, m.consts)
}

/// What holds of a builder holds of every builder that it continues, where
/// the code of the two differs at most at the place `j`.
proof fn lemma_built_into(
    b: BuilderView,
    out: BuilderView,
    pending: Set<int>,
    j: int,
    m: ModuleView,
    code: Seq<u8>,
)
    requires
        b.current is Some,
        b.code().len() <= out.code().len(),
        forall|i: int| 0 <= i < b.code().len() && i != j ==> out.code()[i] == b.code()[i],
        pool_kept(b.module.consts, out.module.consts),
        built_into(out, pending, m, code) || built_into(out, pending.insert(j), m, code),
    ensures
        built_into(b, pending.insert(j), m, code),
{
    reveal(pool_kept);
    assert forall|i: int|
        0 <= i < b.code().len() && !pending.insert(j).contains(i) implies #[trigger] code[i]
        == b.code()[i] by {
        assert(code[i] == out.code()[i]);
    }
}

/// What holds of a builder holds of every builder that it continues.
proof fn lemma_built_before(
    b: BuilderView,
    out: BuilderView,
    pending: Set<int>,
    m: ModuleView,
    code: Seq<u8>,
)
    requires
        same_function(b, out),
        pool_kept(b.module.consts, out.module.consts),
        built_into(out, pending, m, code),
    ensures
        built_into(b, pending, m, code),
        b.code().len() <= out.code().len(),
{
    reveal(same_function);
    reveal(pool_kept);
    assert forall|i: int| 0 <= i < b.code().len() && !pending.contains(i) implies #[trigger] code[i]
        == b.code()[i] by {
        assert(code[i] == out.code()[i]);
    }
}

/// The bytes that were emitted after the code was in order with `pending`
/// stand in the code of the function.
proof fn lemma_byte(
    b: BuilderView,
    out: BuilderView,
    pending: Set<int>,
    m: ModuleView,
    code: Seq<u8>,
    i: int,
)
    requires
        coded(b, pending),
        built_into(out, pending, m, code),
        b.code().len() <= i < out.code().len(),
    ensures
        code[i] == out.code()[i],
{
    if pending.contains(i) {
        lemma_pending_inside(b.code(), pending, i);
    }
}

proof fn lemma_load_runs(
    value: Value,
    types: Seq<Seq<char>>,
    s: Seq<Seq<EntryView>>,
    b: BuilderView,
    pending: Set<int>,
    m: ModuleView,
    code: Seq<u8>,
    f: Frame,
)
    requires
        coded(b, pending),
        load_model(value, types, s, b) is Ok,
        built_into(load_model(value, types, s, b)->Ok_0.builder, pending, m, code),
        f.ip == b.code().len(),
    ensures
        runs_as(
            m,
            code,
            f,
            1,
            0,
            load_model(value, types, s, b)->Ok_0.builder.code().len() as int,
            Ok(value),
        ),
{
    reveal(load_model);
    let out = load_model(value, types, s, b)->Ok_0.builder;
    let index = pool_index(b.module.consts, value);
    crate::seqs::lemma_first_index_is_first(b.module.consts, value);
    assert(out.code() =~= b.code() + seq![LOAD_CONST, index as u8]);
    lemma_byte(b, out, pending, m, code, f.ip);
    lemma_byte(b, out, pending, m, code, f.ip + 1);
    assert(out.module.consts == pool_with(b.module.consts, value));
    assert(pool_with(b.module.consts, value)[index] == value);
    assert(m.consts[index] == value);
    let g = after(f, out.code().len() as int, value);
    assert(step(m, code, f) == Step::Next(g));
    assert forall|fuel: nat| fuel >= 0 implies #[trigger] ran(
        m,
        code,
        f,
        1,
        fuel,
        out.code().len() as int,
        Ok(value),
    ) by {
        lemma_next(m, code, f, g, fuel);
    }
}

proof fn lemma_push_runs(
    op: u8,
    value: Value,
    b: BuilderView,
    pending: Set<int>,
    m: ModuleView,
    code: Seq<u8>,
    f: Frame,
)
    requires
        coded(b, pending),
        (op == LOAD_TRUE && value == Value::Bool(true)) || (op == LOAD_FALSE && value
            == Value::Bool(false)) || (op == LOAD_NONE && value == Value::NoneValue),
        built_into(b.emit(seq![op]), pending, m, code),
        f.ip == b.code().len(),
    ensures
        runs_as(m, code, f, 1, 0, b.emit(seq![op]).code().len() as int, Ok(value)),
{
    let out = b.emit(seq![op]);
    assert(out.code() =~= b.code() + seq![op]);
    lemma_byte(b, out, pending, m, code, f.ip);
    let g = after(f, out.code().len() as int, value);
    assert(step(m, code, f) == Step::Next(g));
    assert forall|fuel: nat| fuel >= 0 implies #[trigger] ran(
        m,
        code,
        f,
        1,
        fuel,
        out.code().len() as int,
        Ok(value),
    ) by {
        lemma_next(m, code, f, g, fuel);
    }
}

proof fn lemma_variable_runs(
    name: Seq<char>,
    s: Seq<Seq<EntryView>>,
    b: BuilderView,
    pending: Set<int>,
    env: Map<Seq<char>, Value>,
    m: ModuleView,
    code: Seq<u8>,
    f: Frame,
)
    requires
        coded(b, pending),
        variable_model(name, s, b) is Ok,
        built_into(variable_model(name, s, b)->Ok_0.builder, pending, m, code),
        f.ip == b.code().len(),
        bound(s, f.slots, env),
    ensures
        env.contains_key(name),
        runs_as(
            m,
            code,
            f,
            1,
            0,
            variable_model(name, s, b)->Ok_0.builder.code().len() as int,
            Ok(env[name]),
        ),
{
    reveal(variable_model);
    let out = variable_model(name, s, b)->Ok_0.builder;
    let symbol = resolve(s, name).0->Some_0;
    assert(symbol.sym_type is Variable);
    assert(out.code() =~= b.code() + seq![LOAD_FAST, symbol.index]);
    lemma_byte(b, out, pending, m, code, f.ip);
    lemma_byte(b, out, pending, m, code, f.ip + 1);
    let g = after(f, out.code().len() as int, env[name]);
    assert(step(m, code, f) == Step::Next(g));
    assert forall|fuel: nat| fuel >= 0 implies #[trigger] ran(
        m,
        code,
        f,
        1,
        fuel,
        out.code().len() as int,
        Ok(env[name]),
    ) by {
        lemma_next(m, code, f, g, fuel);
    }
}

/// A block of its own keeps what the names of the scope around it stand
/// for.
pub proof fn lemma_bound_inside(
    s: Seq<Seq<EntryView>>,
    slots: Seq<Option<Value>>,
    env: Map<Seq<char>, Value>,
)
    requires
        bound(s, slots, env),
    ensures
        bound(s.push(Seq::empty()), slots, env),
{
    let inner = s.push(Seq::<EntryView>::empty());
    assert(inner.drop_last() =~= s);
    assert forall|name: Seq<char>|
        (
            #[trigger] resolve(inner, name).0 matches Some(symbol) && symbol.sym_type is Variable
        ) implies {
        &&& env.contains_key(name)
        &&& resolve(inner, name).0->Some_0.index < slots.len()
        &&& slots[resolve(inner, name).0->Some_0.index as int] == Some(env[name])
    } by {
        assert(crate::symbol::frame_lookup(inner.last(), name) is None);
        assert(resolve(inner, name).0 == resolve(s, name).0);
    }
}

/// Running the code that a pure expression compiles to does what evaluating
/// the expression does: the machine comes to the end of that code with the
/// value of the expression on top of the stack, or it fails as the
/// evaluation fails. `code` is the code of the function that the expression
/// was compiled into, `m` the module, `f` the state of the machine at the
/// start of the expression's code, and `env` the values of the variables.
/// The result is the number of instructions that the machine runs in that
/// code, and how many more it must be allowed for the calls on the way.
pub proof fn lemma_pure_expression_runs(
    defs: Seq<DefinitionView>,
    program: Seq<char>,
    e: ExprView,
    s: Seq<Seq<EntryView>>,
    b: BuilderView,
    pending: Set<int>,
    env: Map<Seq<char>, Value>,
    m: ModuleView,
    code: Seq<u8>,
    f: Frame,
    depth: nat,
) -> (cost: (nat, nat))
    requires
        eval(defs, e, env, depth) is Some,
        coded(b, pending),
        expr_model(e, s, b) is Ok,
        built_into(expr_model(e, s, b)->Ok_0.builder, pending, m, code),
        f.ip == b.code().len(),
        bound(s, f.slots, env),
        in_program(defs, program, m, s),
    ensures
        runs_as(
            m,
            code,
            f,
            cost.0,
            cost.1,
            expr_model(e, s, b)->Ok_0.builder.code().len() as int,
            eval(defs, e, env, depth)->Some_0,
        ),
    decreases depth, e, 1nat,
{
    match e {
        ExprView::Integer(n) => {
            lemma_load_runs(Value::Int(n), seq!["int"@], s, b, pending, m, code, f);
            (1, 0)
        },
        ExprView::Str(t) => {
            lemma_load_runs(Value::Str(t), seq!["str"@], s, b, pending, m, code, f);
            (1, 0)
        },
        ExprView::Bool(v) => {
            lemma_push_runs(if v {
                LOAD_TRUE
            } else {
                LOAD_FALSE
            }, Value::Bool(v), b, pending, m, code, f);
            (1, 0)
        },
        ExprView::NoneLiteral => {
            lemma_push_runs(LOAD_NONE, Value::NoneValue, b, pending, m, code, f);
            (1, 0)
        },
        ExprView::Variable(name) => {
            lemma_variable_runs(name, s, b, pending, env, m, code, f);
            (1, 0)
        },
        ExprView::Op(_, _, _) => lemma_operation_runs(
            defs,
            program,
            e,
            s,
            b,
            pending,
            env,
            m,
            code,
            f,
            depth,
        ),
        ExprView::List(_) => lemma_list_runs(
            defs,
            program,
            e,
            s,
            b,
            pending,
            env,
            m,
            code,
            f,
            depth,
        ),
        ExprView::If { .. } => lemma_if_runs(
            defs,
            program,
            e,
            s,
            b,
            pending,
            env,
            m,
            code,
            f,
            depth,
        ),
        ExprView::FunctionCall { .. } => lemma_invoke_runs(
            defs,
            program,
            e,
            s,
            b,
            pending,
            env,
            m,
            code,
            f,
            depth,
        ),
        _ => (0, 0),
    }
}

proof fn lemma_operation_runs(
    defs: Seq<DefinitionView>,
    program: Seq<char>,
    e: ExprView,
    s: Seq<Seq<EntryView>>,
    b: BuilderView,
    pending: Set<int>,
    env: Map<Seq<char>, Value>,
    m: ModuleView,
    code: Seq<u8>,
    f: Frame,
    depth: nat,
) -> (cost: (nat, nat))
    requires
        e is Op,
        eval(defs, e, env, depth) is Some,
        coded(b, pending),
        op_model(e, s, b) is Ok,
        built_into(op_model(e, s, b)->Ok_0.builder, pending, m, code),
        f.ip == b.code().len(),
        bound(s, f.slots, env),
        in_program(defs, program, m, s),
    ensures
        runs_as(
            m,
            code,
            f,
            cost.0,
            cost.1,
            op_model(e, s, b)->Ok_0.builder.code().len() as int,
            eval(defs, e, env, depth)->Some_0,
        ),
    decreases depth, e, 0nat,
{
    match e {
        ExprView::Op(left, op, right) => {
            let out = op_model(e, s, b)->Ok_0.builder;
            let l = expr_model(*left, s, b)->Ok_0.builder;
            let r = expr_model(*right, s, l)->Ok_0.builder;
            let end = out.code().len() as int;
            lemma_expr_code(*left, s, b, pending);
            lemma_expr_code(*right, s, l, pending);
            lemma_expr_pool(*left, s, b);
            lemma_expr_pool(*right, s, l);
            assert(out == r.emit(seq![op_code(op)]));
            assert(out.code() =~= r.code() + seq![op_code(op)]);
            assert(built_into(r, pending, m, code));
            lemma_built_before(l, r, pending, m, code);
            let (steps_l, need_l) = lemma_pure_expression_runs(
                defs,
                program,
                *left,
                s,
                b,
                pending,
                env,
                m,
                code,
                f,
                depth,
            );
            match eval(defs, *left, env, depth)->Some_0 {
                Err(x) => {
                    assert forall|fuel: nat| fuel >= need_l implies #[trigger] ran(
                        m,
                        code,
                        f,
                        steps_l,
                        fuel,
                        end,
                        Err(x),
                    ) by {
                        assert(ran(m, code, f, steps_l, fuel, l.code().len() as int, Err(x)));
                    }
                    (steps_l, need_l)
                },
                Ok(a) => {
                    let f1 = after(f, l.code().len() as int, a);
                    let (steps_r, need_r) = lemma_pure_expression_runs(
                        defs,
                        program,
                        *right,
                        s,
                        l,
                        pending,
                        env,
                        m,
                        code,
                        f1,
                        depth,
                    );
                    match eval(defs, *right, env, depth)->Some_0 {
                        Err(x) => {
                            let steps = steps_l + steps_r;
                            let need = need_l + need_r;
                            assert forall|fuel: nat| fuel >= need implies #[trigger] ran(
                                m,
                                code,
                                f,
                                steps,
                                fuel,
                                end,
                                Err(x),
                            ) by {
                                assert(
                                    ran(
                                        m,
                                        code,
                                        f,
                                        steps_l,
                                        fuel + steps_r,
                                        l.code().len() as int,
                                        Ok(a),
                                    )
                                );
                                assert(
                                    ran(m, code, f1, steps_r, fuel, r.code().len() as int, Err(x))
                                );
                                assert(fuel + steps_r + steps_l == fuel + steps);
                            }
                            (steps, need)
                        },
                        Ok(bv) => {
                            let f2 = after(f1, r.code().len() as int, bv);
                            lemma_operation(op, a, bv);
                            lemma_byte(r, out, pending, m, code, f2.ip);
                            assert(f2.peek(0) == bv);
                            assert(f2.peek(1) == a);
                            let steps = steps_l + steps_r + 1;
                            let need = need_l + need_r;
                            let value = operation(op, a, bv);
                            assert forall|fuel: nat| fuel >= need implies #[trigger] ran(
                                m,
                                code,
                                f,
                                steps,
                                fuel,
                                end,
                                value,
                            ) by {
                                assert(ran(
                                    m,
                                    code,
                                    f,
                                    steps_l,
                                    fuel + steps_r + 1,
                                    l.code().len() as int,
                                    Ok(a),
                                ));
                                assert(
                                    ran(
                                        m,
                                        code,
                                        f1,
                                        steps_r,
                                        fuel + 1,
                                        r.code().len() as int,
                                        Ok(bv),
                                    )
                                );
                                assert(fuel + steps_r + 1 + steps_l == fuel + steps);
                                assert(fuel + 1 + steps_r == fuel + steps_r + 1);
                                match value {
                                    Ok(v) => {
                                        let g = after(f, end, v);
                                        let at = Frame { ip: f2.ip + 1, ..f2 };
                                        assert(at.drop(2).push(v).stack =~= g.stack);
                                        assert(step(m, code, f2) == Step::Next(g));
                                        lemma_next(m, code, f2, g, fuel);
                                    },
                                    Err(err) => {
                                        assert(step(m, code, f2) == Step::Fail(err));
                                        lemma_fail(m, code, f2, err, fuel);
                                    },
                                }
                            }
                            (steps, need)
                        },
                    }
                },
            }
        },
        _ => (0, 0),
    }
}

/// Whether running for `steps` instructions from `f`, with `fuel` more to
/// spare, puts the values on the stack in order and comes to `end`, or fails
/// as the evaluation fails.
pub open spec fn ran_all(
    m: ModuleView,
    code: Seq<u8>,
    f: Frame,
    steps: nat,
    fuel: nat,
    end: int,
    values: Result<Seq<Value>, ErrorView>,
) -> bool {
    match values {
        Ok(v) => run(m, code, f, fuel + steps) == run(
            m,
            code,
            Frame { ip: end, stack: f.stack + v, slots: f.slots },
            fuel,
        ),
        Err(e) => run(m, code, f, fuel + steps) == Err::<Value, ErrorView>(e),
    }
}

/// Running the code of the expressions of a sequence from the `i`th on puts
/// their values on the stack in order, or fails as the first of them that
/// fails.
pub proof fn lemma_pure_sequence_runs(
    defs: Seq<DefinitionView>,
    program: Seq<char>,
    items: Seq<ExprView>,
    i: nat,
    s: Seq<Seq<EntryView>>,
    b: BuilderView,
    pending: Set<int>,
    env: Map<Seq<char>, Value>,
    m: ModuleView,
    code: Seq<u8>,
    f: Frame,
    depth: nat,
) -> (cost: (nat, nat))
    requires
        i <= items.len(),
        eval_all(defs, items, i, env, depth) is Some,
        coded(b, pending),
        sequence_model(items, i, s, b) is Ok,
        built_into(sequence_model(items, i, s, b)->Ok_0, pending, m, code),
        f.ip == b.code().len(),
        bound(s, f.slots, env),
        in_program(defs, program, m, s),
    ensures
        eval_all(defs, items, i, env, depth)->Some_0 matches Ok(values) ==> values.len()
            == items.len() - i,
        forall|fuel: nat|
            fuel >= cost.1 ==> #[trigger] ran_all(
                m,
                code,
                f,
                cost.0,
                fuel,
                sequence_model(items, i, s, b)->Ok_0.code().len() as int,
                eval_all(defs, items, i, env, depth)->Some_0,
            ),
    decreases depth, items, items.len() - i,
{
    let out = sequence_model(items, i, s, b)->Ok_0;
    let end = out.code().len() as int;
    if i < items.len() {
        let first = items[i as int];
        let next = expr_model(first, s, b)->Ok_0.builder;
        lemma_expr_code(first, s, b, pending);
        lemma_expr_pool(first, s, b);
        lemma_sequence_code(items, i + 1, s, next, pending);
        lemma_sequence_pool(items, i + 1, s, next);
        lemma_built_before(next, out, pending, m, code);
        let (steps_1, need_1) = lemma_pure_expression_runs(
            defs,
            program,
            first,
            s,
            b,
            pending,
            env,
            m,
            code,
            f,
            depth,
        );
        match eval(defs, first, env, depth)->Some_0 {
            Err(x) => {
                assert forall|fuel: nat| fuel >= need_1 implies #[trigger] ran_all(
                    m,
                    code,
                    f,
                    steps_1,
                    fuel,
                    end,
                    Err(x),
                ) by {
                    assert(ran(m, code, f, steps_1, fuel, next.code().len() as int, Err(x)));
                }
                (steps_1, need_1)
            },
            Ok(v) => {
                let f1 = after(f, next.code().len() as int, v);
                let (steps_2, need_2) = lemma_pure_sequence_runs(
                    defs,
                    program,
                    items,
                    i + 1,
                    s,
                    next,
                    pending,
                    env,
                    m,
                    code,
                    f1,
                    depth,
                );
                assert(sequence_model(items, i + 1, s, next)->Ok_0 == out);
                let steps = steps_1 + steps_2;
                let need = need_1 + need_2;
                let rest = eval_all(defs, items, i + 1, env, depth)->Some_0;
                let all = eval_all(defs, items, i, env, depth)->Some_0;
                assert forall|fuel: nat| fuel >= need implies #[trigger] ran_all(
                    m,
                    code,
                    f,
                    steps,
                    fuel,
                    end,
                    all,
                ) by {
                    assert(
                        ran(m, code, f, steps_1, fuel + steps_2, next.code().len() as int, Ok(v))
                    );
                    assert(ran_all(m, code, f1, steps_2, fuel, end, rest));
                    assert(fuel + steps_2 + steps_1 == fuel + steps);
                    match rest {
                        Err(_) => {},
                        Ok(more) => {
                            assert(f1.stack + more =~= f.stack + (seq![v] + more));
                        },
                    }
                }
                (steps, need)
            },
        }
    } else {
        assert(f.stack + Seq::<Value>::empty() =~= f.stack);
        assert forall|fuel: nat| fuel >= 0 implies #[trigger] ran_all(
            m,
            code,
            f,
            0,
            fuel,
            end,
            Ok(Seq::empty()),
        ) by {
            assert(Frame { ip: end, stack: f.stack + Seq::<Value>::empty(), slots: f.slots } == f);
        }
        (0, 0)
    }
}

proof fn lemma_list_runs(
    defs: Seq<DefinitionView>,
    program: Seq<char>,
    e: ExprView,
    s: Seq<Seq<EntryView>>,
    b: BuilderView,
    pending: Set<int>,
    env: Map<Seq<char>, Value>,
    m: ModuleView,
    code: Seq<u8>,
    f: Frame,
    depth: nat,
) -> (cost: (nat, nat))
    requires
        e is List,
        eval(defs, e, env, depth) is Some,
        coded(b, pending),
        list_model(e, s, b) is Ok,
        built_into(list_model(e, s, b)->Ok_0.builder, pending, m, code),
        f.ip == b.code().len(),
        bound(s, f.slots, env),
        in_program(defs, program, m, s),
    ensures
        runs_as(
            m,
            code,
            f,
            cost.0,
            cost.1,
            list_model(e, s, b)->Ok_0.builder.code().len() as int,
            eval(defs, e, env, depth)->Some_0,
        ),
    decreases depth, e, 0nat,
{
    match e {
        ExprView::List(items) => {
            let out = list_model(e, s, b)->Ok_0.builder;
            let end = out.code().len() as int;
            let filled = sequence_model(items, 0, s, b)->Ok_0;
            let instr = seq![BUILD_LIST, items.len() as u8];
            lemma_sequence_code(items, 0, s, b, pending);
            assert(out == filled.emit(instr));
            lemma_same_longer(b, filled);
            assert(out.code() =~= filled.code() + instr);
            assert(built_into(filled, pending, m, code));
            let (steps_1, need) = lemma_pure_sequence_runs(
                defs,
                program,
                items,
                0,
                s,
                b,
                pending,
                env,
                m,
                code,
                f,
                depth,
            );
            match eval_all(defs, items, 0, env, depth)->Some_0 {
                Err(x) => {
                    assert forall|fuel: nat| fuel >= need implies #[trigger] ran(
                        m,
                        code,
                        f,
                        steps_1,
                        fuel,
                        end,
                        Err(x),
                    ) by {
                        assert(
                            ran_all(m, code, f, steps_1, fuel, filled.code().len() as int, Err(x))
                        );
                    }
                    (steps_1, need)
                },
                Ok(values) => {
                    let f1 = Frame {
                        ip: filled.code().len() as int,
                        stack: f.stack + values,
                        slots: f.slots,
                    };
                    lemma_byte(filled, out, pending, m, code, f1.ip);
                    lemma_byte(filled, out, pending, m, code, f1.ip + 1);
                    let g = after(f, end, Value::List(values));
                    let at = Frame { ip: f1.ip + 2, ..f1 };
                    assert(at.stack.subrange(at.stack.len() - values.len(), at.stack.len() as int)
                        =~= values);
                    assert(at.drop(values.len() as int).push(Value::List(values)).stack
                        =~= g.stack);
                    assert(step(m, code, f1) == Step::Next(g));
                    let steps = steps_1 + 1;
                    assert forall|fuel: nat| fuel >= need implies #[trigger] ran(
                        m,
                        code,
                        f,
                        steps,
                        fuel,
                        end,
                        Ok(Value::List(values)),
                    ) by {
                        assert(ran_all(
                            m,
                            code,
                            f,
                            steps_1,
                            fuel + 1,
                            filled.code().len() as int,
                            Ok(values),
                        ));
                        assert(fuel + 1 + steps_1 == fuel + steps);
                        lemma_next(m, code, f1, g, fuel);
                    }
                    (steps, need)
                },
            }
        },
        _ => (0, 0),
    }
}

proof fn lemma_invoke_runs(
    defs: Seq<DefinitionView>,
    program: Seq<char>,
    e: ExprView,
    s: Seq<Seq<EntryView>>,
    b: BuilderView,
    pending: Set<int>,
    env: Map<Seq<char>, Value>,
    m: ModuleView,
    code: Seq<u8>,
    f: Frame,
    depth: nat,
) -> (cost: (nat, nat))
    requires
        e is FunctionCall,
        eval(defs, e, env, depth) is Some,
        coded(b, pending),
        invoke_model(e, s, b) is Ok,
        built_into(invoke_model(e, s, b)->Ok_0.builder, pending, m, code),
        f.ip == b.code().len(),
        bound(s, f.slots, env),
        in_program(defs, program, m, s),
    ensures
        runs_as(
            m,
            code,
            f,
            cost.0,
            cost.1,
            invoke_model(e, s, b)->Ok_0.builder.code().len() as int,
            eval(defs, e, env, depth)->Some_0,
        ),
    decreases depth, e, 0nat,
{
    match e {
        ExprView::FunctionCall { name, args } => {
            let out = invoke_model(e, s, b)->Ok_0.builder;
            let end = out.code().len() as int;
            let filled = sequence_model(args, 0, s, b)->Ok_0;
            reveal(call_model);
            let symbol = resolve(s, name).0->Some_0;
            let instr = seq![CALL_FUNCTION, symbol.index, args.len() as u8];
            lemma_sequence_code(args, 0, s, b, pending);
            assert(out == filled.emit(instr));
            lemma_same_longer(b, filled);
            assert(out.code() =~= filled.code() + instr);
            assert(built_into(filled, pending, m, code));
            let (steps_1, need_1) = lemma_pure_sequence_runs(
                defs,
                program,
                args,
                0,
                s,
                b,
                pending,
                env,
                m,
                code,
                f,
                depth,
            );
            match eval_all(defs, args, 0, env, depth)->Some_0 {
                Err(x) => {
                    assert forall|fuel: nat| fuel >= need_1 implies #[trigger] ran(
                        m,
                        code,
                        f,
                        steps_1,
                        fuel,
                        end,
                        Err(x),
                    ) by {
                        assert(
                            ran_all(m, code, f, steps_1, fuel, filled.code().len() as int, Err(x))
                        );
                    }
                    (steps_1, need_1)
                },
                Ok(values) => {
                    let k = crate::seqs::first_index(names(defs), name);
                    lemma_callee(defs, s, name);
                    let callee = defs[k];
                    let inner = argument_env(callee.args, values);
                    let value = eval_block(defs, callee.exprs, inner, (depth - 1) as nat)->Some_0;
                    let need_2 = lemma_function_runs(
                        defs,
                        program,
                        k as nat,
                        values,
                        (depth - 1) as nat,
                    );
                    let f1 = Frame {
                        ip: filled.code().len() as int,
                        stack: f.stack + values,
                        slots: f.slots,
                    };
                    lemma_byte(filled, out, pending, m, code, f1.ip);
                    lemma_byte(filled, out, pending, m, code, f1.ip + 1);
                    lemma_byte(filled, out, pending, m, code, f1.ip + 2);
                    let at = Frame { ip: f1.ip + 3, ..f1 };
                    let back = Frame { ip: end, stack: f.stack, slots: f.slots };
                    assert(at.stack.subrange(at.stack.len() - values.len(), at.stack.len() as int)
                        =~= values);
                    assert(at.drop(values.len() as int).stack =~= f.stack);
                    assert(step(m, code, f1) == Step::Call { callee: k, args: values, back: back });
                    let steps = steps_1 + 1;
                    let need = need_1 + need_2;
                    assert forall|fuel: nat| fuel >= need implies #[trigger] ran(
                        m,
                        code,
                        f,
                        steps,
                        fuel,
                        end,
                        value,
                    ) by {
                        assert(ran_all(
                            m,
                            code,
                            f,
                            steps_1,
                            fuel + 1,
                            filled.code().len() as int,
                            Ok(values),
                        ));
                        assert(fuel + 1 + steps_1 == fuel + steps);
                        assert((fuel + 1 - 1) as nat == fuel);
                        assert(run(m, m.functions[k].opcodes, Frame::entry(values), fuel) == value);
                        match value {
                            Ok(v) => {
                                assert(back.push(v) == after(f, end, v));
                            },
                            Err(_) => {},
                        }
                    }
                    (steps, need)
                },
            }
        },
        _ => (0, 0),
    }
}

/// Running the code of a block that is one expression does what evaluating
/// the expression does.
proof fn lemma_block_runs(
    defs: Seq<DefinitionView>,
    program: Seq<char>,
    block: BlockView,
    s: Seq<Seq<EntryView>>,
    b: BuilderView,
    pending: Set<int>,
    env: Map<Seq<char>, Value>,
    m: ModuleView,
    code: Seq<u8>,
    f: Frame,
    depth: nat,
) -> (cost: (nat, nat))
    requires
        eval_block(defs, block, env, depth) is Some,
        coded(b, pending),
        block_model(block, s, b) is Ok,
        built_into(block_model(block, s, b)->Ok_0.builder, pending, m, code),
        f.ip == b.code().len(),
        bound(s, f.slots, env),
        in_program(defs, program, m, s),
    ensures
        runs_as(
            m,
            code,
            f,
            cost.0,
            cost.1,
            block_model(block, s, b)->Ok_0.builder.code().len() as int,
            eval_block(defs, block, env, depth)->Some_0,
        ),
    decreases depth, block, 0nat,
{
    match block.tail {
        Some(last) => match *last {
            StmtView::Expr(e) => {
                let inner = s.push(Seq::<EntryView>::empty());
                lemma_body_is_expression(block, e, inner, b);
                lemma_bound_inside(s, f.slots, env);
                lemma_pure_expression_runs(
                    defs,
                    program,
                    e,
                    inner,
                    b,
                    pending,
                    env,
                    m,
                    code,
                    f,
                    depth,
                )
            },
            _ => (0, 0),
        },
        None => (0, 0),
    }
}

/// Where the code of a branch stands in the code of the function, and what
/// its two jumps hold.
proof fn lemma_if_layout(
    e: ExprView,
    s: Seq<Seq<EntryView>>,
    b: BuilderView,
    pending: Set<int>,
    m: ModuleView,
    code: Seq<u8>,
)
    requires
        e is If,
        coded(b, pending),
        if_model(e, s, b) is Ok,
        built_into(if_model(e, s, b)->Ok_0.builder, pending, m, code),
    ensures
        ({
            let c = expr_model(*e->If_cond_expr, s, b)->Ok_0.builder;
            let b1 = c.start_jump_if_false();
            let j1 = c.code().len() as int + 1;
            let a = block_model(e->If_exprs, s, b1)->Ok_0.builder;
            let b2 = a.start_else(j1);
            let j2 = a.code().len() as int + 1;
            let o = match e->If_else_exprs {
                Some(other) => block_model(other, s, b2)->Ok_0.builder,
                None => b2.emit(seq![LOAD_NONE]),
            };
            let n_c = c.code().len() as int;
            let n_a = a.code().len() as int;
            let n_o = o.code().len() as int;
            &&& expr_model(*e->If_cond_expr, s, b) is Ok
            &&& block_model(e->If_exprs, s, b1) is Ok
            &&& (e->If_else_exprs matches Some(other) ==> block_model(other, s, b2) is Ok)
            &&& if_model(e, s, b)->Ok_0.builder.code().len() == n_o
            &&& b1.code().len() == n_c + 2
            &&& b2.code().len() == n_a + 2
            &&& n_c + 2 <= n_a
            &&& n_a + 2 <= n_o <= code.len()
            &&& coded(c, pending)
            &&& coded(b1, pending.insert(j1))
            &&& coded(b2, pending.insert(j2))
            &&& built_into(c, pending, m, code)
            &&& built_into(a, pending.insert(j1), m, code)
            &&& built_into(o, pending.insert(j2), m, code)
            &&& code[n_c] == JUMP_IF_FALSE
            &&& code[n_c + 1] == (n_a - n_c) as u8
            &&& n_a - n_c <= 255
            &&& code[n_a] == JUMP
            &&& code[n_a + 1] == (n_o - n_a - 2) as u8
            &&& n_o - n_a - 2 <= 255
            &&& (e->If_else_exprs is None ==> n_o == n_a + 3 && code[n_a + 2] == LOAD_NONE)
        }),
{
    match e {
        ExprView::If { cond_expr, exprs, else_exprs } => {
            lemma_expr_code(*cond_expr, s, b, pending);
            lemma_expr_pool(*cond_expr, s, b);
            let c = expr_model(*cond_expr, s, b)->Ok_0.builder;
            let b1 = c.start_jump_if_false();
            let j1 = b1.last_index();
            lemma_step_jump(c, pending);
            lemma_block_code(exprs, s, b1, pending.insert(j1));
            lemma_block_pool(exprs, s, b1);
            let first = block_model(exprs, s, b1)->Ok_0;
            let a = first.builder;
            lemma_same_twice(c, b1, a);
            lemma_step_else(c, a, pending, j1);
            let b2 = a.start_else(j1);
            let j2 = a.emit(seq![JUMP, 0u8]).last_index();
            let second = match else_exprs {
                Some(other) => block_model(other, s, b2),
                None => Ok(
                    Visit { types: seq!["none"@], builder: b2.emit(seq![LOAD_NONE]), scope: s },
                ),
            };
            assert(if_model(e, s, b) == else_model(first, j1, second, s));
            assert(second is Ok) by {
                reveal(else_model);
            }
            match else_exprs {
                Some(other) => {
                    lemma_block_code(other, s, b2, pending.insert(j2));
                    lemma_block_pool(other, s, b2);
                },
                None => {
                    lemma_step_plain(b2, pending.insert(j2), seq![LOAD_NONE]);
                    crate::constants::lemma_kept_same(b2.module.consts);
                },
            }
            let o = second->Ok_0.builder;
            let out = if_model(e, s, b)->Ok_0.builder;
            assert(out == o.patch(j2) && o.can_patch(j2)) by {
                reveal(else_model);
            }
            let n_c = c.code().len() as int;
            let n_a = a.code().len() as int;
            let n_o = o.code().len() as int;
            let jumped = a.emit(seq![JUMP, 0u8]);
            assert(b1.code() =~= c.code() + seq![JUMP_IF_FALSE, 0u8]);
            assert(jumped.code() =~= a.code() + seq![JUMP, 0u8]);
            assert(b2.code() =~= jumped.code().update(j1, (jumped.code().len() - 1 - j1) as u8));
            assert(out.code() =~= o.code().update(j2, (o.code().len() - 1 - j2) as u8));
            lemma_same_longer(c, b1);
            lemma_same_longer(b1, a);
            lemma_same_longer(b2, o);
            assert(is_prefix(b1.code(), a.code()) && is_prefix(b2.code(), o.code())) by {
                reveal(same_function);
            }
            assert(b2.module.consts == a.module.consts);
            assert(b1.module.consts == c.module.consts);
            assert(out.module.consts == o.module.consts);
            // The code of the function holds the last builder's code.
            assert(built_into(o, pending.insert(j2), m, code)) by {
                crate::constants::lemma_kept_same(o.module.consts);
                lemma_built_into(o, out, pending, j2, m, code);
            }
            assert(built_into(a, pending.insert(j1), m, code)) by {
                assert forall|i: int|
                    0 <= i < a.code().len() && !pending.insert(
                        j1,
                    ).contains(i) implies #[trigger] code[i]
                    == a.code()[i] by {
                    assert(code[i] == out.code()[i]);
                    assert(out.code()[i] == o.code()[i]);
                    assert(o.code()[i] == b2.code()[i]);
                    assert(b2.code()[i] == jumped.code()[i]);
                }
                reveal(pool_kept);
            }
            assert(built_into(c, pending, m, code)) by {
                assert forall|i: int|
                    0 <= i < c.code().len() && !pending.contains(i) implies #[trigger] code[i]
                    == c.code()[i] by {
                    assert(code[i] == out.code()[i]);
                    assert(out.code()[i] == o.code()[i]);
                    assert(o.code()[i] == b2.code()[i]);
                    assert(b2.code()[i] == jumped.code()[i]);
                    assert(a.code()[i] == b1.code()[i]);
                }
                reveal(pool_kept);
            }
            // The two jumps.
            lemma_byte(c, out, pending, m, code, n_c);
            lemma_byte(c, out, pending, m, code, n_c + 1);
            lemma_byte(c, out, pending, m, code, n_a);
            lemma_byte(c, out, pending, m, code, n_a + 1);
            assert(o.code()[n_c] == b2.code()[n_c]);
            assert(a.code()[n_c] == b1.code()[n_c]);
            assert(o.code()[n_c + 1] == b2.code()[n_c + 1]);
            assert(o.code()[n_a] == b2.code()[n_a]);
            if else_exprs is None {
                assert(o.code() =~= b2.code() + seq![LOAD_NONE]);
                lemma_byte(c, out, pending, m, code, n_a + 2);
            }
        },
        _ => {},
    }
}

proof fn lemma_if_runs(
    defs: Seq<DefinitionView>,
    program: Seq<char>,
    e: ExprView,
    s: Seq<Seq<EntryView>>,
    b: BuilderView,
    pending: Set<int>,
    env: Map<Seq<char>, Value>,
    m: ModuleView,
    code: Seq<u8>,
    f: Frame,
    depth: nat,
) -> (cost: (nat, nat))
    requires
        e is If,
        eval(defs, e, env, depth) is Some,
        coded(b, pending),
        if_model(e, s, b) is Ok,
        built_into(if_model(e, s, b)->Ok_0.builder, pending, m, code),
        f.ip == b.code().len(),
        bound(s, f.slots, env),
        in_program(defs, program, m, s),
    ensures
        runs_as(
            m,
            code,
            f,
            cost.0,
            cost.1,
            if_model(e, s, b)->Ok_0.builder.code().len() as int,
            eval(defs, e, env, depth)->Some_0,
        ),
    decreases depth, e, 0nat,
{
    match e {
        ExprView::If { cond_expr, exprs, else_exprs } => {
            lemma_if_layout(e, s, b, pending, m, code);
            let c = expr_model(*cond_expr, s, b)->Ok_0.builder;
            let b1 = c.start_jump_if_false();
            let j1 = c.code().len() as int + 1;
            let a = block_model(exprs, s, b1)->Ok_0.builder;
            let b2 = a.start_else(j1);
            let j2 = a.code().len() as int + 1;
            let n_c = c.code().len() as int;
            let n_a = a.code().len() as int;
            let end = if_model(e, s, b)->Ok_0.builder.code().len() as int;
            let (steps_c, need_c) = lemma_pure_expression_runs(
                defs,
                program,
                *cond_expr,
                s,
                b,
                pending,
                env,
                m,
                code,
                f,
                depth,
            );
            match eval(defs, *cond_expr, env, depth)->Some_0 {
                Err(x) => {
                    assert forall|fuel: nat| fuel >= need_c implies #[trigger] ran(
                        m,
                        code,
                        f,
                        steps_c,
                        fuel,
                        end,
                        Err(x),
                    ) by {
                        assert(ran(m, code, f, steps_c, fuel, n_c, Err(x)));
                    }
                    (steps_c, need_c)
                },
                Ok(cv) => {
                    let f1 = after(f, n_c, cv);
                    let read = Frame { ip: n_c + 2, ..f1 };
                    assert(read.peek(0) == cv);
                    assert(read.drop(1).stack =~= f.stack);
                    if cv.truthy() {
                        let f_then = Frame { ip: n_c + 2, stack: f.stack, slots: f.slots };
                        assert(step(m, code, f1) == Step::Next(f_then));
                        let (steps_t, need_t) = lemma_block_runs(
                            defs,
                            program,
                            exprs,
                            s,
                            b1,
                            pending.insert(j1),
                            env,
                            m,
                            code,
                            f_then,
                            depth,
                        );
                        let value = eval_block(defs, exprs, env, depth)->Some_0;
                        match value {
                            Err(x) => {
                                let steps = steps_c + 1 + steps_t;
                                let need = need_c + need_t;
                                assert forall|fuel: nat| fuel >= need implies #[trigger] ran(
                                    m,
                                    code,
                                    f,
                                    steps,
                                    fuel,
                                    end,
                                    value,
                                ) by {
                                    assert(
                                        ran(m, code, f, steps_c, fuel + steps_t + 1, n_c, Ok(cv))
                                    );
                                    lemma_next(m, code, f1, f_then, fuel + steps_t);
                                    assert(ran(m, code, f_then, steps_t, fuel, n_a, value));
                                    assert(fuel + steps_t + 1 + steps_c == fuel + steps);
                                }
                                (steps, need)
                            },
                            Ok(v) => {
                                let f2 = after(f_then, n_a, v);
                                let g = after(f, end, v);
                                assert(crate::vm::jump(code.len(), n_a + 2, code[n_a + 1]) == end);
                                assert(step(m, code, f2) == Step::Next(g));
                                let steps = steps_c + 1 + steps_t + 1;
                                let need = need_c + need_t;
                                assert forall|fuel: nat| fuel >= need implies #[trigger] ran(
                                    m,
                                    code,
                                    f,
                                    steps,
                                    fuel,
                                    end,
                                    value,
                                ) by {
                                    assert(
                                        ran(m, code, f, steps_c, fuel + steps_t + 2, n_c, Ok(cv))
                                    );
                                    lemma_next(m, code, f1, f_then, fuel + steps_t + 1);
                                    assert(ran(m, code, f_then, steps_t, fuel + 1, n_a, value));
                                    lemma_next(m, code, f2, g, fuel);
                                    assert(fuel + steps_t + 2 + steps_c == fuel + steps);
                                    assert(fuel + 1 + steps_t == fuel + steps_t + 1);
                                }
                                (steps, need)
                            },
                        }
                    } else {
                        let f_else = Frame { ip: n_a + 2, stack: f.stack, slots: f.slots };
                        assert(crate::vm::jump(code.len(), n_c + 2, code[n_c + 1]) == n_a + 2);
                        assert(step(m, code, f1) == Step::Next(f_else));
                        match else_exprs {
                            Some(other) => {
                                let (steps_o, need_o) = lemma_block_runs(
                                    defs,
                                    program,
                                    other,
                                    s,
                                    b2,
                                    pending.insert(j2),
                                    env,
                                    m,
                                    code,
                                    f_else,
                                    depth,
                                );
                                let value = eval_block(defs, other, env, depth)->Some_0;
                                let steps = steps_c + 1 + steps_o;
                                let need = need_c + need_o;
                                assert forall|fuel: nat| fuel >= need implies #[trigger] ran(
                                    m,
                                    code,
                                    f,
                                    steps,
                                    fuel,
                                    end,
                                    value,
                                ) by {
                                    assert(
                                        ran(m, code, f, steps_c, fuel + steps_o + 1, n_c, Ok(cv))
                                    );
                                    lemma_next(m, code, f1, f_else, fuel + steps_o);
                                    assert(ran(m, code, f_else, steps_o, fuel, end, value));
                                    assert(fuel + steps_o + 1 + steps_c == fuel + steps);
                                    match value {
                                        Ok(v) => {
                                            assert(after(f_else, end, v) == after(f, end, v));
                                        },
                                        Err(_) => {},
                                    }
                                }
                                (steps, need)
                            },
                            None => {
                                let g = after(f, end, Value::NoneValue);
                                assert(step(m, code, f_else) == Step::Next(g));
                                let steps = steps_c + 2;
                                assert forall|fuel: nat| fuel >= need_c implies #[trigger] ran(
                                    m,
                                    code,
                                    f,
                                    steps,
                                    fuel,
                                    end,
                                    Ok(Value::NoneValue),
                                ) by {
                                    assert(ran(m, code, f, steps_c, fuel + 2, n_c, Ok(cv)));
                                    lemma_next(m, code, f1, f_else, fuel + 1);
                                    lemma_next(m, code, f_else, g, fuel);
                                    assert(fuel + 2 + steps_c == fuel + steps);
                                }
                                (steps, need_c)
                            },
                        }
                    }
                },
            }
        },
        _ => (0, 0),
    }
}

} // verus!
