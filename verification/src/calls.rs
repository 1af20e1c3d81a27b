use vstd::prelude::*;
use crate::ast::{DefinitionView, ExprView, StmtView};
use crate::code::{is_prefix, lemma_empty_well_formed};
use crate::compiler::{
    arguments_model, body_model, compile_model, declare_model, expr_model, function_model,
    function_symbol, functions_model, variable,
};
use crate::constants::{lemma_body_pool, lemma_kept_same, lemma_kept_twice, pool_kept};
use crate::errors::ErrorView;
use crate::evaluation::{
    after, bound, built_into, eval, eval_block, in_program, lemma_pure_expression_runs, names,
    ran,
};
use crate::jumps::{coded, lemma_body_code, same_function};
use crate::module::{find_function, lemma_find_function, BuilderView, FunctionView, ModuleView};
use crate::object::Value;
use crate::opcodes::RETURN;
use crate::seqs::{first_index, lemma_first_index, lemma_first_index_is_first};
use crate::slots::{lemma_declared_functions, only_functions};
use crate::symbol::{
    define, frame_define, frame_lookup, frame_names, next_index, resolve, EntryView, SymbolView,
};
use crate::vm::{call_result, run, step, Frame, Step};

verus! {

/// A name resolves to the symbol that it was just bound to.
pub proof fn lemma_resolve_defined(s: Seq<Seq<EntryView>>, name: Seq<char>, symbol: SymbolView)
    requires
        s.len() >= 1,
    ensures
        resolve(define(s, name, symbol), name).0 == Some(symbol),
{
    let frame = s.last();
    let names = frame_names(frame);
    let i = first_index(names, name);
    lemma_first_index_is_first(names, name);
    let after = frame_define(frame, name, symbol);
    let names_after = frame_names(after);
    assert(forall|j: int| 0 <= j < i ==> names_after[j] == names[j]);
    assert(names_after[i] == name);
    lemma_first_index(names_after, name, i);
    assert(define(s, name, symbol).last() == after);
}

/// Binding a name leaves what every other name resolves to.
pub proof fn lemma_resolve_other(
    s: Seq<Seq<EntryView>>,
    name: Seq<char>,
    symbol: SymbolView,
    other: Seq<char>,
)
    requires
        s.len() >= 1,
        other != name,
    ensures
        resolve(define(s, name, symbol), other) == resolve(s, other),
{
    let frame = s.last();
    let names = frame_names(frame);
    let i = first_index(names, name);
    lemma_first_index_is_first(names, name);
    lemma_first_index_is_first(names, other);
    let at = first_index(names, other);
    let after = frame_define(frame, name, symbol);
    let names_after = frame_names(after);
    assert(forall|j: int| 0 <= j < names.len() && j != i ==> names_after[j] == names[j]);
    if at < names.len() {
        lemma_first_index(names_after, other, at);
        assert(after[at] == frame[at]);
    } else {
        lemma_first_index(names_after, other, names_after.len() as int);
    }
    let t = define(s, name, symbol);
    assert(t.last() == after);
    assert(frame_lookup(after, other) == frame_lookup(frame, other));
    assert(t.drop_last() =~= s.drop_last());
}

/// A name that the global scope knows is the name of no later definition.
pub proof fn lemma_known_name_not_defined(
    defs: Seq<DefinitionView>,
    i: nat,
    global: Seq<Seq<EntryView>>,
    name: Seq<char>,
)
    requires
        global.len() == 1,
        resolve(global, name).0 is Some,
        declare_model(defs, i, global) is Ok,
    ensures
        forall|j: int| i <= j < defs.len() ==> (#[trigger] defs[j]).name != name,
    decreases defs.len() - i,
{
    if i < defs.len() {
        let symbol = function_symbol(defs[i as int], next_index(global) as u8);
        let next = define(global, defs[i as int].name, symbol);
        lemma_resolve_other(global, defs[i as int].name, symbol, name);
        lemma_known_name_not_defined(defs, i + 1, next, name);
    }
}

/// No definition after the `t`th has the name of the `t`th.
pub proof fn lemma_later_names_differ(
    defs: Seq<DefinitionView>,
    i: nat,
    t: nat,
    global: Seq<Seq<EntryView>>,
)
    requires
        global.len() == 1,
        i <= t < defs.len(),
        declare_model(defs, i, global) is Ok,
    ensures
        forall|j: int| t < j < defs.len() ==> (#[trigger] defs[j]).name != defs[t as int].name,
    decreases defs.len() - i,
{
    let symbol = function_symbol(defs[i as int], next_index(global) as u8);
    let next = define(global, defs[i as int].name, symbol);
    if i == t {
        lemma_resolve_defined(global, defs[i as int].name, symbol);
        lemma_known_name_not_defined(defs, t + 1, next, defs[t as int].name);
    } else {
        lemma_later_names_differ(defs, i + 1, t, next);
    }
}

/// The builder before the `t`th definition is compiled.
pub open spec fn builder_before(
    defs: Seq<DefinitionView>,
    t: nat,
    global: Seq<Seq<EntryView>>,
    start: BuilderView,
) -> BuilderView
    decreases t,
{
    if t == 0 {
        start
    } else {
        function_model(
            defs[t - 1],
            global,
            builder_before(defs, (t - 1) as nat, global, start),
        )->Ok_0
    }
}

/// Compiling a program is compiling its first `t` definitions and then the
/// rest.
pub proof fn lemma_compiled_up_to(
    defs: Seq<DefinitionView>,
    t: nat,
    global: Seq<Seq<EntryView>>,
    start: BuilderView,
)
    requires
        t <= defs.len(),
        functions_model(defs, 0, global, start) is Ok,
    ensures
        functions_model(defs, t, global, builder_before(defs, t, global, start))
            == functions_model(defs, 0, global, start),
    decreases t,
{
    if t > 0 {
        lemma_compiled_up_to(defs, (t - 1) as nat, global, start);
    }
}

/// What compiling a definition adds to the table: one function, with the
/// name and the number of arguments of the definition, whose code is the
/// code of the body with `RETURN` at its end.
pub proof fn lemma_function_added(def: DefinitionView, global: Seq<Seq<EntryView>>, b: BuilderView)
    requires
        function_model(def, global, b) is Ok,
    ensures
        ({
            let out = function_model(def, global, b)->Ok_0;
            let local = arguments_model(def.args, 0, global.push(Seq::empty()))->Ok_0;
            let begun = b.begin(def.name, def.args.len() as usize).returning(def.return_type);
            let v = body_model(def.exprs, local, begun)->Ok_0.builder;
            &&& arguments_model(def.args, 0, global.push(Seq::empty())) is Ok
            &&& body_model(def.exprs, local, begun) is Ok
            &&& out.module.functions == b.module.functions.push(
                FunctionView {
                    name: def.name,
                    num_args: def.args.len() as usize,
                    return_types: def.return_type,
                    opcodes: v.code().push(RETURN),
                },
            )
            &&& pool_kept(b.module.consts, out.module.consts)
            &&& out.module.consts == v.module.consts
            &&& out.current is None
        }),
{
    reveal(function_model);
    reveal(same_function);
    let local = arguments_model(def.args, 0, global.push(Seq::empty()))->Ok_0;
    let begun = b.begin(def.name, def.args.len() as usize).returning(def.return_type);
    lemma_empty_well_formed();
    lemma_body_code(def.exprs, local, begun, Set::<int>::empty());
    lemma_body_pool(def.exprs, local, begun);
    let v = body_model(def.exprs, local, begun)->Ok_0.builder;
    crate::code::lemma_finish(v.code());
}

/// The table of the functions that the definitions from the `i`th on add:
/// one for each, in order, after those that the builder has.
pub proof fn lemma_table(
    defs: Seq<DefinitionView>,
    i: nat,
    global: Seq<Seq<EntryView>>,
    b: BuilderView,
)
    requires
        i <= defs.len(),
        functions_model(defs, i, global, b) is Ok,
    ensures
        ({
            let out = functions_model(defs, i, global, b)->Ok_0;
            &&& out.module.functions.len() == b.module.functions.len() + defs.len() - i
            &&& forall|j: int|
                0 <= j < b.module.functions.len() ==> out.module.functions[j]
                    == b.module.functions[j]
            &&& forall|j: int|
                i <= j < defs.len() ==> (#[trigger] out.module.functions[b.module.functions.len()
                    + j - i]).name == defs[j].name
            &&& pool_kept(b.module.consts, out.module.consts)
            &&& (i < defs.len() ==> out.module.functions[b.module.functions.len() as int]
                == function_model(defs[i as int], global, b)->Ok_0.module.functions.last())
        }),
    decreases defs.len() - i,
{
    if i < defs.len() {
        let out = functions_model(defs, i, global, b)->Ok_0;
        lemma_function_added(defs[i as int], global, b);
        let next = function_model(defs[i as int], global, b)->Ok_0;
        lemma_table(defs, i + 1, global, next);
        lemma_kept_twice(b.module.consts, next.module.consts, out.module.consts);
        let n = b.module.functions.len() as int;
        assert forall|j: int| i <= j < defs.len() implies (#[trigger] out.module.functions[n + j
            - i]).name == defs[j].name by {
            if j == i {
                assert(out.module.functions[n] == next.module.functions[n]);
            } else {
                assert(out.module.functions[next.module.functions.len() + j - (i + 1)].name
                    == defs[j].name);
            }
        }
    } else {
        lemma_kept_same(b.module.consts);
    }
}

/// The parameters of a definition have different names.
pub open spec fn distinct_parameters(params: Seq<(Seq<char>, Seq<Seq<char>>)>) -> bool {
    forall|i: int, j: int|
        0 <= i < j < params.len() ==> (#[trigger] params[i]).0 != (#[trigger] params[j]).0
}

/// The values of the parameters of a call: each parameter has the argument
/// at its place.
pub open spec fn argument_env(params: Seq<(Seq<char>, Seq<Seq<char>>)>, args: Seq<Value>) -> Map<
    Seq<char>,
    Value,
> {
    Map::new(
        |name: Seq<char>| exists|i: int| 0 <= i < params.len() && (#[trigger] params[i]).0 == name,
        |name: Seq<char>|
            args[choose|i: int| 0 <= i < params.len() && (#[trigger] params[i]).0 == name],
    )
}

/// The scope that the parameters from the `i`th on are defined in: each
/// earlier parameter is bound to the slot at its place, and nothing else is
/// bound in the frame of the body.
pub open spec fn parameters_bound(
    params: Seq<(Seq<char>, Seq<Seq<char>>)>,
    i: nat,
    s: Seq<Seq<EntryView>>,
) -> bool {
    &&& s.len() == 2
    &&& s[1].len() == i
    &&& forall|j: int|
        0 <= j < i ==> (#[trigger] s[1][j]).name == params[j].0 && s[1][j].symbol == variable(
            params[j].1,
            j as u8,
        )
}

/// After the parameters are defined each is bound to the slot at its place.
pub proof fn lemma_parameters_bound(
    params: Seq<(Seq<char>, Seq<Seq<char>>)>,
    i: nat,
    s: Seq<Seq<EntryView>>,
)
    requires
        distinct_parameters(params),
        i <= params.len(),
        parameters_bound(params, i, s),
        arguments_model(params, i, s) is Ok,
    ensures
        parameters_bound(params, params.len(), arguments_model(params, i, s)->Ok_0),
        arguments_model(params, i, s)->Ok_0[0] == s[0],
    decreases params.len() - i,
{
    if i < params.len() {
        let name = params[i as int].0;
        let symbol = variable(params[i as int].1, next_index(s) as u8);
        let names = frame_names(s[1]);
        assert(s.last() == s[1]);
        assert(next_index(s) == i);
        assert forall|j: int| 0 <= j < names.len() implies names[j] != name by {
            assert(s[1][j].name == params[j].0);
        }
        lemma_first_index(names, name, names.len() as int);
        let next = define(s, name, symbol);
        assert(next[1] =~= s[1].push(EntryView { name: name, symbol: symbol }));
        assert(parameters_bound(params, i + 1, next));
        lemma_parameters_bound(params, i + 1, next);
    }
}

/// In the scope of a body whose parameters have different names, every
/// variable that a name resolves to is a parameter, and has the argument of
/// the call in its slot.
pub proof fn lemma_arguments_in_slots(
    params: Seq<(Seq<char>, Seq<Seq<char>>)>,
    s: Seq<Seq<EntryView>>,
    args: Seq<Value>,
)
    requires
        distinct_parameters(params),
        parameters_bound(params, params.len(), s),
        only_functions(seq![s[0]]),
        args.len() == params.len(),
        params.len() <= 256,
    ensures
        bound(s, Frame::entry(args).slots, argument_env(params, args)),
{
    let env = argument_env(params, args);
    let slots = Frame::entry(args).slots;
    assert forall|name: Seq<char>|
        (
            #[trigger] resolve(s, name).0 matches Some(symbol) && symbol.sym_type is Variable
        ) implies {
        &&& env.contains_key(name)
        &&& resolve(s, name).0->Some_0.index < slots.len()
        &&& slots[resolve(s, name).0->Some_0.index as int] == Some(env[name])
    } by {
        let names = frame_names(s[1]);
        lemma_first_index_is_first(names, name);
        let at = first_index(names, name);
        assert(s.last() == s[1]);
        if at < names.len() {
            assert(s[1][at].name == params[at].0);
            assert(params[at].0 == name);
            let chosen = choose|i: int| 0 <= i < params.len() && (#[trigger] params[i]).0 == name;
            if chosen < at {
                assert(params[chosen].0 != params[at].0);
            }
            if at < chosen {
                assert(params[at].0 != params[chosen].0);
            }
            assert(env[name] == args[at]);
            assert(resolve(s, name).0->Some_0 == s[1][at].symbol);
        } else {
            let rest = s.drop_last();
            assert(rest =~= seq![s[0]]);
            assert(resolve(s, name) == resolve(rest, name));
            lemma_first_index_is_first(frame_names(rest[0]), name);
            let g = first_index(frame_names(rest[0]), name);
            if g < rest[0].len() {
                assert(rest[0][g].symbol.sym_type is Function);
            }
        }
    }
}

/// The first pass leaves the global frame with one entry for each
/// definition, in order: its name, bound to the function at its place.
pub proof fn lemma_declared_in_order(
    defs: Seq<DefinitionView>,
    i: nat,
    global: Seq<Seq<EntryView>>,
)
    requires
        global.len() == 1,
        i <= defs.len(),
        i <= 256,
        global[0].len() == i,
        forall|j: int|
            0 <= j < i ==> (#[trigger] global[0][j]).name == defs[j].name && global[0][j].symbol
                == function_symbol(defs[j], j as u8),
        declare_model(defs, i, global) is Ok,
    ensures
        declare_model(defs, i, global)->Ok_0.len() == 1,
        declare_model(defs, i, global)->Ok_0[0].len() == defs.len(),
        defs.len() <= 256,
        forall|j: int|
            0 <= j < defs.len() ==> (#[trigger] declare_model(defs, i, global)->Ok_0[0][j]).name
                == defs[j].name && declare_model(defs, i, global)->Ok_0[0][j].symbol
                == function_symbol(defs[j], j as u8),
    decreases defs.len() - i,
{
    if i < defs.len() {
        let name = defs[i as int].name;
        let symbol = function_symbol(defs[i as int], next_index(global) as u8);
        assert(global.last() == global[0]);
        assert(next_index(global) == i);
        assert(frame_lookup(global[0], name) is None);
        let next = define(global, name, symbol);
        assert(next[0] =~= global[0].push(EntryView { name: name, symbol: symbol }));
        lemma_declared_in_order(defs, i + 1, next);
    }
}

/// A name that resolves in the outermost frame of a scope is bound there.
pub proof fn lemma_resolved_outermost(s: Seq<Seq<EntryView>>, name: Seq<char>)
    requires
        s.len() >= 1,
        resolve(s, name).0 is Some,
        resolve(s, name).1,
    ensures
        frame_lookup(s[0], name) == resolve(s, name).0,
    decreases s.len(),
{
    if s.len() > 1 {
        if frame_lookup(s.last(), name) is None {
            lemma_resolved_outermost(s.drop_last(), name);
        }
    }
}

/// The function that a call of `name` calls: the definition of that name,
/// whose place in the program is the function's index in the module.
pub proof fn lemma_callee(defs: Seq<DefinitionView>, s: Seq<Seq<EntryView>>, name: Seq<char>)
    requires
        declare_model(defs, 0, seq![Seq::<EntryView>::empty()]) is Ok,
        s.len() >= 1,
        s[0] == declare_model(defs, 0, seq![Seq::<EntryView>::empty()])->Ok_0[0],
        resolve(s, name).0 is Some,
        resolve(s, name).1,
    ensures
        first_index(names(defs), name) < defs.len(),
        defs.len() <= 256,
        resolve(s, name).0->Some_0.index == first_index(names(defs), name),
{
    let first = seq![Seq::<EntryView>::empty()];
    lemma_declared_in_order(defs, 0, first);
    lemma_resolved_outermost(s, name);
    let frame = s[0];
    assert(frame_names(frame) =~= names(defs));
    lemma_first_index_is_first(names(defs), name);
}

/// Running the function that the `t`th definition of a program compiles to,
/// on as many arguments as it has parameters, gives what evaluating its body
/// gives where each parameter has the value of its argument, whenever the
/// machine may run for at least the number of instructions that is the
/// result.
pub proof fn lemma_function_runs(
    defs: Seq<DefinitionView>,
    name: Seq<char>,
    t: nat,
    args: Seq<Value>,
    depth: nat,
) -> (need: nat)
    requires
        compile_model(defs, name) is Ok,
        t < defs.len(),
        distinct_parameters(defs[t as int].args),
        args.len() == defs[t as int].args.len(),
        eval_block(defs, defs[t as int].exprs, argument_env(defs[t as int].args, args), depth)
            is Some,
    ensures
        compile_model(defs, name)->Ok_0.functions.len() == defs.len(),
        find_function(compile_model(defs, name)->Ok_0.functions, defs[t as int].name) == Some(
            t as int,
        ),
        compile_model(defs, name)->Ok_0.functions[t as int].num_args == defs[t as int].args.len(),
        forall|fuel: nat|
            fuel >= need ==> #[trigger] run(
                compile_model(defs, name)->Ok_0,
                compile_model(defs, name)->Ok_0.functions[t as int].opcodes,
                Frame::entry(args),
                fuel,
            ) == eval_block(
                defs,
                defs[t as int].exprs,
                argument_env(defs[t as int].args, args),
                depth,
            )->Some_0,
    decreases depth, defs[t as int].exprs, 3nat,
{
    let def = defs[t as int];
    let m = compile_model(defs, name)->Ok_0;
    let first = seq![Seq::<EntryView>::empty()];
    let global = declare_model(defs, 0, first)->Ok_0;
    let start = BuilderView { module: ModuleView::empty(name), current: None };
    lemma_declared_functions(defs, 0, first);
    lemma_later_names_differ(defs, 0, t, first);
    lemma_compiled_up_to(defs, t, global, start);
    let b = builder_before(defs, t, global, start);
    lemma_table(defs, 0, global, start);
    lemma_table(defs, t, global, b);
    lemma_function_added(def, global, b);
    let next = function_model(def, global, b)->Ok_0;
    let inner = global.push(Seq::<EntryView>::empty());
    let local = arguments_model(def.args, 0, inner)->Ok_0;
    let begun = b.begin(def.name, def.args.len() as usize).returning(def.return_type);
    let out = body_model(def.exprs, local, begun)->Ok_0.builder;
    let code = out.code().push(RETURN);
    assert(start.module.functions.len() == 0);
    assert(m.functions.len() == defs.len());
    assert(m.functions[t as int] == FunctionView {
        name: def.name,
        num_args: def.args.len() as usize,
        return_types: def.return_type,
        opcodes: code,
    }) by {
        lemma_table_same(defs, t, global, start, b);
    }
    // The function is found under its name.
    lemma_find_function(m.functions, def.name);
    assert(find_function(m.functions, def.name) == Some(t as int)) by {
        match find_function(m.functions, def.name) {
            Some(i) => {
                if i < t {
                    assert(m.functions[t as int].name == def.name);
                }
                if i > t {
                    assert(m.functions[0 + i - 0].name == defs[i].name);
                    assert(defs[i].name != defs[t as int].name);
                }
            },
            None => {
                assert(m.functions[t as int].name == def.name);
            },
        }
    }
    // The parameters are in their slots.
    assert(parameters_bound(def.args, 0, inner));
    lemma_parameters_bound(def.args, 0, inner);
    lemma_parameters_small(def.args, 0, inner);
    assert(seq![local[0]] =~= global);
    lemma_arguments_in_slots(def.args, local, args);
    let env = argument_env(def.args, args);
    // The body is the expression.
    let e = match def.exprs.tail {
        Some(last) => match *last {
            StmtView::Expr(e) => e,
            _ => arbitrary(),
        },
        None => arbitrary(),
    };
    lemma_body_is_expression(def.exprs, e, local, begun);
    lemma_empty_well_formed();
    assert(begun.code() =~= Seq::<u8>::empty());
    assert(coded(begun, Set::<int>::empty()));
    assert(built_into(out, Set::<int>::empty(), m, code)) by {
        lemma_table(defs, t + 1, global, next);
        assert(functions_model(defs, t + 1, global, next) == functions_model(defs, t, global, b));
        reveal(pool_kept);
        reveal(same_function);
        lemma_body_code(def.exprs, local, begun, Set::<int>::empty());
        assert(is_prefix(out.code(), code));
    }
    let f = Frame::entry(args);
    assert(in_program(defs, name, m, local));
    let (steps, spare) = lemma_pure_expression_runs(
        defs,
        name,
        e,
        local,
        begun,
        Set::<int>::empty(),
        env,
        m,
        code,
        f,
        depth,
    );
    assert(def.args.len() as usize == def.args.len());
    let value = eval(defs, e, env, depth)->Some_0;
    let need = steps + spare + 1;
    assert forall|fuel: nat| fuel >= need implies #[trigger] run(m, code, f, fuel) == value by {
        let rest = (fuel - steps) as nat;
        assert(ran(m, code, f, steps, rest, out.code().len() as int, value));
        assert(rest + steps == fuel);
        match value {
            Ok(v) => {
                let g = after(f, out.code().len() as int, v);
                assert(code[g.ip] == RETURN);
                assert(step(m, code, g) == Step::Done(v));
                assert(run(m, code, g, rest) == Ok::<Value, ErrorView>(v));
            },
            Err(_) => {},
        }
    }
    need
}

/// A function whose body is a pure expression returns the value of the
/// expression: a host's call of the `t`th function of a compiled program,
/// with as many arguments as it has parameters, gives what evaluating the
/// body gives where each parameter has the value of its argument, whenever
/// the call may run for at least the number of instructions that is the
/// result.
pub proof fn lemma_pure_function_returns(
    defs: Seq<DefinitionView>,
    name: Seq<char>,
    t: nat,
    args: Seq<Value>,
    depth: nat,
) -> (need: nat)
    requires
        compile_model(defs, name) is Ok,
        t < defs.len(),
        distinct_parameters(defs[t as int].args),
        args.len() == defs[t as int].args.len(),
        eval_block(defs, defs[t as int].exprs, argument_env(defs[t as int].args, args), depth)
            is Some,
    ensures
        forall|fuel: nat|
            fuel >= need ==> #[trigger] call_result(
                compile_model(defs, name)->Ok_0,
                defs[t as int].name,
                args,
                fuel,
            ) == eval_block(
                defs,
                defs[t as int].exprs,
                argument_env(defs[t as int].args, args),
                depth,
            )->Some_0,
{
    let need = lemma_function_runs(defs, name, t, args, depth);
    let m = compile_model(defs, name)->Ok_0;
    assert forall|fuel: nat| fuel >= need implies #[trigger] call_result(
        m,
        defs[t as int].name,
        args,
        fuel,
    ) == eval_block(
        defs,
        defs[t as int].exprs,
        argument_env(defs[t as int].args, args),
        depth,
    )->Some_0 by {
        assert(run(m, m.functions[t as int].opcodes, Frame::entry(args), fuel) == eval_block(
            defs,
            defs[t as int].exprs,
            argument_env(defs[t as int].args, args),
            depth,
        )->Some_0);
    }
    need
}

/// The table after the whole program has, at the place of the `t`th
/// definition, the function that compiling it added.
proof fn lemma_table_same(
    defs: Seq<DefinitionView>,
    t: nat,
    global: Seq<Seq<EntryView>>,
    start: BuilderView,
    b: BuilderView,
)
    requires
        t < defs.len(),
        start.module.functions.len() == 0,
        functions_model(defs, 0, global, start) is Ok,
        b == builder_before(defs, t, global, start),
    ensures
        b.module.functions.len() == t,
        function_model(defs[t as int], global, b) is Ok,
        functions_model(defs, 0, global, start)->Ok_0.module.functions[t as int] == function_model(
            defs[t as int],
            global,
            b,
        )->Ok_0.module.functions.last(),
{
    lemma_compiled_up_to(defs, t, global, start);
    lemma_table(defs, t, global, b);
    lemma_before_len(defs, t, global, start);
}

/// The builder before the `t`th definition has `t` functions.
proof fn lemma_before_len(
    defs: Seq<DefinitionView>,
    t: nat,
    global: Seq<Seq<EntryView>>,
    start: BuilderView,
)
    requires
        t <= defs.len(),
        start.module.functions.len() == 0,
        functions_model(defs, 0, global, start) is Ok,
    ensures
        builder_before(defs, t, global, start).module.functions.len() == t,
    decreases t,
{
    if t > 0 {
        lemma_before_len(defs, (t - 1) as nat, global, start);
        lemma_compiled_up_to(defs, (t - 1) as nat, global, start);
        let b = builder_before(defs, (t - 1) as nat, global, start);
        lemma_function_added(defs[t - 1], global, b);
    }
}

/// A scope whose parameters were all defined has at most 256 of them when
/// their names differ.
proof fn lemma_parameters_small(
    params: Seq<(Seq<char>, Seq<Seq<char>>)>,
    i: nat,
    s: Seq<Seq<EntryView>>,
)
    requires
        distinct_parameters(params),
        i <= params.len(),
        i <= 256,
        parameters_bound(params, i, s),
        arguments_model(params, i, s) is Ok,
    ensures
        params.len() <= 256,
    decreases params.len() - i,
{
    if i < params.len() {
        let name = params[i as int].0;
        let symbol = variable(params[i as int].1, next_index(s) as u8);
        let names = frame_names(s[1]);
        assert(s.last() == s[1]);
        assert(next_index(s) == i);
        assert forall|j: int| 0 <= j < names.len() implies names[j] != name by {
            assert(s[1][j].name == params[j].0);
        }
        lemma_first_index(names, name, names.len() as int);
        let next = define(s, name, symbol);
        assert(next[1] =~= s[1].push(EntryView { name: name, symbol: symbol }));
        assert(parameters_bound(params, i + 1, next));
        lemma_parameters_small(params, i + 1, next);
    }
}

/// A body that is one expression compiles as the expression does.
pub proof fn lemma_body_is_expression(
    block: crate::ast::BlockView,
    e: ExprView,
    s: Seq<Seq<EntryView>>,
    b: BuilderView,
)
    requires
        block.stmts.len() == 0,
        block.tail == Some(Box::new(StmtView::Expr(e))),
    ensures
        body_model(block, s, b) == expr_model(e, s, b),
{
    crate::typing::lemma_expr_typed(e, s, b);
}

} // verus!
