use vstd::prelude::*;
use crate::errors::{ErrorView, GearsError};
use crate::object::{GearsObject, Value};
use crate::opcodes::{
    opcode_name, operand_count, operands, print_code, Opcodes, BIN_ADD, BIN_DIV, BIN_EQUAL,
    BIN_GREATER_THAN, BIN_GREATER_THAN_EQUAL, BIN_LESS_THAN, BIN_LESS_THAN_EQUAL, BIN_MUL,
    BIN_NOT_EQUAL, BIN_SUB, BUILD_LIST, CALL_FUNCTION, INC_ONE, JUMP, JUMP_ABSOLUTE, JUMP_IF_FALSE,
    LOAD_CONST, LOAD_FALSE, LOAD_FAST, LOAD_NONE, LOAD_TRUE, RETURN, STORE_FAST,
};
use crate::seqs::{first_index, lemma_first_index, lemma_first_index_is_first};
use crate::symbol::{clone_types, Type, Types};
use crate::text::{append_decimal, append_str, decimal, str_eq, widen};

verus! {

/// A compiled function as contracts see it.
pub struct FunctionView {
    pub name: Seq<char>,
    pub num_args: usize,
    pub return_types: Seq<Seq<char>>,
    pub opcodes: Seq<u8>,
}

/// A module as contracts see it.
pub struct ModuleView {
    pub name: Seq<char>,
    pub functions: Seq<FunctionView>,
    pub consts: Seq<Value>,
}

/// A module under construction as contracts see it: what is finished, and the
/// function that instructions are currently emitted into, if one was begun.
pub struct BuilderView {
    pub module: ModuleView,
    pub current: Option<FunctionView>,
}

/// Where `value` stands in `pool`: the first place that holds it, or the
/// pool's length when no place does.
pub open spec fn pool_index(pool: Seq<Value>, value: Value) -> int {
    first_index(pool, value)
}

/// The pool after `value` was interned: unchanged when it already holds the
/// value, else with the value added at the end.
pub open spec fn pool_with(pool: Seq<Value>, value: Value) -> Seq<Value> {
    if pool_index(pool, value) < pool.len() {
        pool
    } else {
        pool.push(value)
    }
}

/// No value occurs twice in `pool`.
pub open spec fn no_duplicates(pool: Seq<Value>) -> bool {
    forall|i: int, j: int| 0 <= i < j < pool.len() ==> pool[i] != pool[j]
}

/// Interning keeps a pool free of duplicates, and leaves the value in it at
/// the place that `pool_index` names.
pub proof fn lemma_intern_keeps_pool(pool: Seq<Value>, value: Value)
    requires
        no_duplicates(pool),
    ensures
        no_duplicates(pool_with(pool, value)),
        0 <= pool_index(pool, value) < pool_with(pool, value).len(),
        pool_with(pool, value)[pool_index(pool, value)] == value,
        forall|j: int|
            0 <= j < pool_with(pool, value).len() && pool_with(pool, value)[j] == value ==> j
                == pool_index(pool, value),
        forall|j: int| 0 <= j < pool.len() ==> pool_with(pool, value)[j] == pool[j],
{
    lemma_first_index_is_first(pool, value);
}

/// The place of the last instruction of `code`, read from `pos` on, where `pos`
/// is the place of an opcode: each opcode is followed by its operand bytes.
pub open spec fn last_opcode_from(code: Seq<u8>, pos: int) -> Option<int>
    decreases code.len() - pos,
{
    if pos < 0 || pos >= code.len() {
        None
    } else {
        let next = pos + 1 + operand_count(code[pos]);
        if next >= code.len() {
            Some(pos)
        } else {
            last_opcode_from(code, next)
        }
    }
}

/// Whether the last instruction of `code` is `RETURN`.
pub open spec fn ends_with_return(code: Seq<u8>) -> bool {
    last_opcode_from(code, 0) matches Some(p) && code[p] == RETURN
}

/// The latest function called `name` in `functions`, as a place in the table.
pub open spec fn find_function(functions: Seq<FunctionView>, name: Seq<char>) -> Option<int>
    decreases functions.len(),
{
    if functions.len() == 0 {
        None
    } else if functions.last().name == name {
        Some(functions.len() - 1)
    } else {
        find_function(functions.drop_last(), name)
    }
}

/// The place that `find_function` gives is in the table, holds the name, and no
/// later place does; it gives none only when no place holds the name.
pub proof fn lemma_find_function(functions: Seq<FunctionView>, name: Seq<char>)
    ensures
        match find_function(functions, name) {
            Some(i) => 0 <= i < functions.len() && functions[i].name == name && forall|j: int|
                i < j < functions.len() ==> functions[j].name != name,
            None => forall|j: int| 0 <= j < functions.len() ==> functions[j].name != name,
        },
    decreases functions.len(),
{
    if functions.len() != 0 && functions.last().name != name {
        let rest = functions.drop_last();
        lemma_find_function(rest, name);
        assert(forall|j: int| 0 <= j < rest.len() ==> rest[j] == functions[j]);
    }
}

/// The failure for a place in the function table that holds no function.
pub open spec fn index_not_found(index: usize) -> ErrorView {
    ErrorView::FunctionNotFound(decimal(index as nat))
}

impl ModuleView {
    /// The module that `new` makes.
    pub open spec fn empty(name: Seq<char>) -> ModuleView {
        ModuleView { name: name, functions: Seq::empty(), consts: Seq::empty() }
    }

    /// This module with `value` interned.
    pub open spec fn intern(self, value: Value) -> ModuleView {
        ModuleView { consts: pool_with(self.consts, value), ..self }
    }
}

impl BuilderView {
    /// The bytes of the function under construction; none when none was begun.
    pub open spec fn code(self) -> Seq<u8> {
        match self.current {
            Some(f) => f.opcodes,
            None => Seq::empty(),
        }
    }

    /// This builder with the bytes of the function under construction replaced.
    /// Without such a function nothing changes.
    pub open spec fn with_code(self, code: Seq<u8>) -> BuilderView {
        match self.current {
            Some(f) => BuilderView { current: Some(FunctionView { opcodes: code, ..f }), ..self },
            None => self,
        }
    }

    /// This builder with `bytes` added at the end of the function under
    /// construction.
    pub open spec fn emit(self, bytes: Seq<u8>) -> BuilderView {
        self.with_code(self.code() + bytes)
    }

    /// The place of the last byte emitted. Before the first byte of a function
    /// it is -1, so that the place after it is 0; without a function under
    /// construction it is 0.
    pub open spec fn last_index(self) -> int {
        match self.current {
            Some(f) => f.opcodes.len() - 1,
            None => 0,
        }
    }

    /// This builder with the byte at `index` set to the distance from `index`
    /// to the last byte emitted.
    pub open spec fn patch(self, index: int) -> BuilderView {
        self.with_code(self.code().update(index, (self.code().len() - 1 - index) as u8))
    }

    /// Whether, once `extra` more bytes are emitted, the operand at `index` can
    /// be patched: it exists, and the distance from it to the last byte fits in
    /// a byte. Without a function under construction a patch changes nothing
    /// and is always possible.
    pub open spec fn can_patch_after(self, index: int, extra: nat) -> bool {
        self.current is Some ==> 0 <= index < self.code().len() + extra && self.code().len()
            + extra - 1 - index <= 255
    }

    /// Whether the operand at `index` can be patched now.
    pub open spec fn can_patch(self, index: int) -> bool {
        self.can_patch_after(index, 0)
    }

    /// A function is begun. Until its return types are declared it returns
    /// `none`.
    pub open spec fn begin(self, name: Seq<char>, num_args: usize) -> BuilderView {
        BuilderView {
            current: Some(
                FunctionView {
                    name: name,
                    num_args: num_args,
                    return_types: seq!["none"@],
                    opcodes: Seq::empty(),
                },
            ),
            ..self
        }
    }

    /// The function under construction gets its declared return types.
    /// Without such a function nothing changes.
    pub open spec fn returning(self, types: Seq<Seq<char>>) -> BuilderView {
        match self.current {
            Some(f) => BuilderView {
                current: Some(FunctionView { return_types: types, ..f }),
                ..self
            },
            None => self,
        }
    }

    /// The function under construction gets a final `RETURN`, unless its last
    /// instruction is one already, and joins the table.
    pub open spec fn finish(self) -> BuilderView {
        match self.current {
            Some(f) => BuilderView {
                module: ModuleView {
                    functions: self.module.functions.push(
                        FunctionView {
                            opcodes: if ends_with_return(f.opcodes) {
                                f.opcodes
                            } else {
                                f.opcodes.push(RETURN)
                            },
                            ..f
                        },
                    ),
                    ..self.module
                },
                current: None,
            },
            None => self,
        }
    }

    /// The builder with `value` in its module's pool.
    pub open spec fn intern(self, value: Value) -> BuilderView {
        BuilderView { module: self.module.intern(value), ..self }
    }

    /// Interns `value` and emits the instruction that loads it.
    pub open spec fn load_value(self, value: Value) -> BuilderView {
        self.intern(value).emit(seq![LOAD_CONST, pool_index(self.module.consts, value) as u8])
    }

    /// The builder after a conditional jump whose distance is still to be set.
    pub open spec fn start_jump_if_false(self) -> BuilderView {
        self.emit(seq![JUMP_IF_FALSE, 0u8])
    }

    /// Emits the jump over the else branch and makes the conditional jump at
    /// `index` land just past it.
    pub open spec fn start_else(self, index: int) -> BuilderView {
        self.emit(seq![JUMP, 0u8]).patch(index)
    }

    /// The address that a loop whose marker is `loop_index` jumps back to.
    pub open spec fn loop_target(loop_index: int) -> int {
        loop_index + 1
    }

    /// Emits the jump back to the loop's head and makes the conditional jump
    /// at `jump_index` land just past it.
    pub open spec fn end_loop(self, loop_index: int, jump_index: int) -> BuilderView {
        self.emit(seq![JUMP_ABSOLUTE, Self::loop_target(loop_index) as u8]).patch(jump_index)
    }
}

/// The place that a loop marker stands for. The greatest `usize` marks the
/// place before the first byte.
pub open spec fn marker(index: usize) -> int {
    if index == usize::MAX {
        -1
    } else {
        index as int
    }
}

/// A compiled function: its name, how many arguments it takes, the type set
/// that it was declared to return, and its instructions.
#[derive(Debug, Clone)]
pub struct Function {
    name: String,
    num_args: usize,
    return_types: Types,
    opcodes: Opcodes,
}

impl View for Function {
    type V = FunctionView;

    closed spec fn view(&self) -> FunctionView {
        FunctionView {
            name: self.name@,
            num_args: self.num_args,
            return_types: self.return_types.deep_view(),
            opcodes: self.opcodes@,
        }
    }
}

impl Function {
    /// A function without instructions, declared to return `none`.
    pub fn new(name: String, num_args: usize) -> (f: Function)
        ensures
            f@ == (FunctionView {
                name: name@,
                num_args: num_args,
                return_types: seq!["none"@],
                opcodes: Seq::empty(),
            }),
    {
        let mut return_types: Types = Vec::new();
        return_types.push(Type::new_none());
        assert(return_types.deep_view() =~= seq!["none"@]);
        Function {
            name: name,
            opcodes: Opcodes::new(),
            num_args: num_args,
            return_types: return_types,
        }
    }

    /// The type set that the function was declared to return.
    pub fn return_types(&self) -> (types: &Types)
        ensures
            types.deep_view() == self@.return_types,
    {
        &self.return_types
    }

    /// A copy of the function.
    pub fn duplicate(&self) -> (f: Function)
        ensures
            f@ == self@,
    {
        let mut opcodes: Opcodes = Vec::new();
        let mut i: usize = 0;
        while i < self.opcodes.len()
            invariant
                i <= self.opcodes.len(),
                opcodes@ == self.opcodes@.take(i as int),
            decreases self.opcodes.len() - i,
        {
            opcodes.push(self.opcodes[i]);
            assert(self.opcodes@.take(i + 1) =~= self.opcodes@.take(i as int).push(
                self.opcodes@[i as int],
            ));
            i += 1;
        }
        assert(self.opcodes@.take(i as int) =~= self.opcodes@);
        Function {
            name: self.name.clone(),
            num_args: self.num_args,
            return_types: clone_types(&self.return_types),
            opcodes: opcodes,
        }
    }

    /// The function's name.
    pub fn get_name(&self) -> (name: String)
        ensures
            name@ == self@.name,
    {
        self.name.clone()
    }

    /// The function's instructions.
    pub fn get_opcodes(&self) -> (code: &Opcodes)
        ensures
            code@ == self@.opcodes,
    {
        &self.opcodes
    }

    /// How many arguments the function takes.
    pub fn num_args(&self) -> (n: usize)
        ensures
            n == self@.num_args,
    {
        self.num_args
    }
}

/// The views of a table of functions.
pub open spec fn functions_view(functions: Seq<Function>) -> Seq<FunctionView> {
    Seq::new(functions.len(), |i: int| functions[i]@)
}

/// The values of a constant pool.
pub open spec fn consts_view(consts: Seq<GearsObject>) -> Seq<Value> {
    Seq::new(consts.len(), |i: int| consts[i]@)
}

/// A compiled module: a name, a table of functions found by name or by place,
/// and a pool of constants.
#[derive(Debug)]
pub struct Module {
    name: String,
    functions: Vec<Function>,
    consts: Vec<GearsObject>,
}

impl View for Module {
    type V = ModuleView;

    closed spec fn view(&self) -> ModuleView {
        ModuleView {
            name: self.name@,
            functions: functions_view(self.functions@),
            consts: consts_view(self.consts@),
        }
    }
}

impl Clone for Module {
    /// A copy of the module, function by function and constant by constant.
    fn clone(&self) -> (m: Module)
        ensures
            m@ == self@,
    {
        proof {
            use_type_invariant(self);
        }
        let mut functions: Vec<Function> = Vec::new();
        let mut i: usize = 0;
        while i < self.functions.len()
            invariant
                i <= self.functions.len(),
                functions.len() == i,
                forall|j: int| 0 <= j < i ==> functions@[j]@ == self.functions@[j]@,
            decreases self.functions.len() - i,
        {
            functions.push(self.functions[i].duplicate());
            i += 1;
        }
        assert(functions_view(functions@) =~= functions_view(self.functions@));
        let mut consts: Vec<GearsObject> = Vec::new();
        let mut k: usize = 0;
        while k < self.consts.len()
            invariant
                k <= self.consts.len(),
                consts.len() == k,
                forall|j: int| 0 <= j < k ==> consts@[j]@ == self.consts@[j]@,
            decreases self.consts.len() - k,
        {
            consts.push(self.consts[k].duplicate());
            k += 1;
        }
        assert(consts_view(consts@) =~= consts_view(self.consts@));
        Module { name: self.name.clone(), functions: functions, consts: consts }
    }
}

impl Module {
    /// The invariant of every module: its pool holds no value twice.
    #[verifier::type_invariant]
    spec fn pool_in_order(self) -> bool {
        no_duplicates(consts_view(self.consts@))
    }

    fn new(name: String) -> (m: Module)
        ensures
            m@ == ModuleView::empty(name@),
    {
        assert(consts_view(Seq::<GearsObject>::empty()) =~= Seq::<Value>::empty());
        let m = Module { name: name, functions: Vec::new(), consts: Vec::new() };
        assert(m@.functions =~= Seq::empty());
        assert(m@.consts =~= Seq::empty());
        m
    }

    /// Adds a finished function at the end of the table.
    fn add_function(&mut self, function: Function)
        ensures
            final(self)@ == (ModuleView {
                functions: old(self)@.functions.push(function@),
                ..old(self)@
            }),
    {
        proof {
            use_type_invariant(&*self);
        }
        let mut functions: Vec<Function> = Vec::new();
        core::mem::swap(&mut self.functions, &mut functions);
        functions.push(function);
        core::mem::swap(&mut self.functions, &mut functions);
        assert(self@.functions =~= old(self)@.functions.push(function@));
    }

    /// The latest function that was finished under `name`.
    pub fn get_function(&self, name: &str) -> (r: Result<&Function, GearsError>)
        ensures
            match find_function(self@.functions, name@) {
                Some(i) => r matches Ok(f) && f@ == self@.functions[i],
                None => r matches Err(e) && e@ == ErrorView::FunctionNotFound(name@),
            },
    {
        let mut i: usize = self.functions.len();
        assert(self@.functions.take(i as int) =~= self@.functions);
        while i > 0
            invariant
                i <= self.functions.len(),
                find_function(self@.functions, name@) == find_function(
                    self@.functions.take(i as int),
                    name@,
                ),
            decreases i,
        {
            i -= 1;
            let ghost prefix = self@.functions.take(i + 1);
            assert(prefix.last() == self.functions@[i as int]@);
            assert(prefix.drop_last() =~= self@.functions.take(i as int));
            if str_eq(self.functions[i].name.as_str(), name) {
                return Ok(&self.functions[i]);
            }
        }
        let mut m = String::new();
        append_str(&mut m, name);
        Err(GearsError::FunctionNotFound(m))
    }

    /// The function at `index` in the order of definition, or `FunctionNotFound`
    /// with the index as its text.
    pub fn get_function_by_index(&self, index: usize) -> (r: Result<&Function, GearsError>)
        ensures
            index < self@.functions.len() ==> (
                r matches Ok(f) && f@ == self@.functions[index as int]
            ),
            index >= self@.functions.len() ==> (r matches Err(e) && e@ == index_not_found(index)),
    {
        if index < self.functions.len() {
            Ok(&self.functions[index])
        } else {
            let mut m = String::new();
            append_decimal(&mut m, widen(index));
            Err(GearsError::FunctionNotFound(m))
        }
    }

    /// How many constants the pool holds. The pool of a module holds no value
    /// twice.
    pub fn const_count(&self) -> (n: usize)
        ensures
            n == self@.consts.len(),
            no_duplicates(self@.consts),
    {
        proof {
            use_type_invariant(self);
        }
        self.consts.len()
    }

    /// The constant at `index` of the pool. No other place of the pool holds
    /// an equal value.
    pub fn get_const(&self, index: usize) -> (c: &GearsObject)
        requires
            index < self@.consts.len(),
        ensures
            c@ == self@.consts[index as int],
            forall|j: int| 0 <= j < self@.consts.len() && j != index ==> self@.consts[j] != c@,
    {
        proof {
            use_type_invariant(self);
        }
        &self.consts[index]
    }

    /// Interns `value`: gives the place of the equal value that the pool
    /// already holds, or adds the value at the end and gives that place.
    pub fn intern(&mut self, value: GearsObject) -> (index: usize)
        ensures
            index == pool_index(old(self)@.consts, value@),
            final(self)@ == old(self)@.intern(value@),
            no_duplicates(old(self)@.consts),
            no_duplicates(final(self)@.consts),
    {
        proof {
            use_type_invariant(&*self);
            lemma_intern_keeps_pool(self@.consts, value@);
        }
        let mut i: usize = 0;
        while i < self.consts.len()
            invariant
                i <= self.consts.len(),
                forall|j: int| 0 <= j < i ==> self@.consts[j] != value@,
                no_duplicates(self@.consts),
                no_duplicates(pool_with(self@.consts, value@)),
            decreases self.consts.len() - i,
        {
            if self.consts[i]._equal(&value) {
                proof {
                    lemma_first_index(self@.consts, value@, i as int);
                }
                return i;
            }
            i += 1;
        }
        proof {
            lemma_first_index(self@.consts, value@, i as int);
            use_type_invariant(&*self);
            lemma_intern_keeps_pool(self@.consts, value@);
            assert(consts_view(self.consts@.push(value)) =~= self@.consts.push(value@));
        }
        let result = self.consts.len();
        let mut consts: Vec<GearsObject> = Vec::new();
        assert(consts_view(consts@) =~= Seq::<Value>::empty());
        core::mem::swap(&mut self.consts, &mut consts);
        consts.push(value);
        core::mem::swap(&mut self.consts, &mut consts);
        assert(self@.consts =~= old(self)@.consts.push(value@));
        assert(self@.functions =~= old(self)@.functions);
        result
    }

    fn insert_int(&mut self, number: i64) -> (index: usize)
        ensures
            index == pool_index(old(self)@.consts, Value::Int(number)),
            final(self)@ == old(self)@.intern(Value::Int(number)),
    {
        self.intern(GearsObject::Int(number))
    }
}

/// Builds a module function by function, instruction by instruction.
pub struct ModuleBuilder {
    module: Module,
    current_fn: Option<Function>,
}

impl View for ModuleBuilder {
    type V = BuilderView;

    closed spec fn view(&self) -> BuilderView {
        BuilderView {
            module: self.module@,
            current: match self.current_fn {
                Some(f) => Some(f@),
                None => None,
            },
        }
    }
}

impl ModuleBuilder {
    /// A builder for an empty module called `name`.
    pub fn new(name: String) -> (b: ModuleBuilder)
        ensures
            b@ == (BuilderView { module: ModuleView::empty(name@), current: None }),
            no_duplicates(b@.module.consts),
    {
        ModuleBuilder { module: Module::new(name), current_fn: None }
    }

    /// Begins a function. One that was begun and not finished is dropped.
    pub fn start_function(&mut self, name: String, num_args: usize)
        ensures
            final(self)@ == old(self)@.begin(name@, num_args),
    {
        self.current_fn = Some(Function::new(name, num_args));
    }

    /// Declares the return types of the function under construction.
    pub fn declare_return(&mut self, types: Types)
        ensures
            final(self)@ == old(self)@.returning(types.deep_view()),
    {
        match &mut self.current_fn {
            Some(cur_fn) => {
                cur_fn.return_types = types;
            },
            None => {},
        }
    }

    /// Ends the function under construction and adds it to the module; a `RETURN`
    /// is appended unless the code already ends with one.
    pub fn finish_function(&mut self)
        ensures
            final(self)@ == old(self)@.finish(),
    {
        match self.current_fn.take() {
            Some(mut cur_fn) => {
                if !code_ends_with_return(&cur_fn.opcodes) {
                    cur_fn.opcodes.push(RETURN);
                }
                self.module.add_function(cur_fn);
            },
            None => {},
        }
    }

    /// The module that was built. Its pool holds no value twice.
    pub fn build(self) -> (m: Module)
        ensures
            m@ == self@.module,
            no_duplicates(m@.consts),
    {
        proof {
            use_type_invariant(&self.module);
        }
        self.module
    }

    /// How many bytes the function under construction has.
    pub fn code_len(&self) -> (n: usize)
        ensures
            n == self@.code().len(),
    {
        match &self.current_fn {
            Some(cur_fn) => cur_fn.opcodes.len(),
            None => 0,
        }
    }

    fn opcode(&mut self, opcode: u8)
        ensures
            final(self)@ == old(self)@.emit(seq![opcode]),
    {
        match &mut self.current_fn {
            Some(cur_fn) => {
                cur_fn.opcodes.push(opcode);
            },
            None => {},
        }
        assert(old(self)@.current is Some ==> self@.code() =~= old(self)@.code() + seq![opcode]);
    }

    fn opcode2(&mut self, opcode: u8, operand: u8)
        ensures
            final(self)@ == old(self)@.emit(seq![opcode, operand]),
    {
        self.opcode(opcode);
        self.opcode(operand);
        assert(old(self)@.current is Some ==> self@.code() =~= old(self)@.code() + seq![
            opcode,
            operand,
        ]);
    }

    fn set_opcode_at(&mut self, index: usize, opcode: u8)
        requires
            old(self)@.current is Some ==> index < old(self)@.code().len(),
        ensures
            final(self)@ == old(self)@.with_code(old(self)@.code().update(index as int, opcode)),
    {
        match &mut self.current_fn {
            Some(cur_fn) => {
                cur_fn.opcodes[index] = opcode;
            },
            None => {},
        }
    }

    /// The place of the last byte of the function under construction.
    fn last_index(&self) -> (index: usize)
        ensures
            marker(index) == self@.last_index(),
            self@.code().len() > 0 || self@.current is None ==> index == self@.last_index(),
    {
        let index: usize = match self.current_fn.as_ref() {
            Some(cur_fn) => cur_fn.opcodes.len(),
            None => 1,
        };
        index.wrapping_sub(1)
    }

    fn patch(&mut self, index: usize)
        requires
            old(self)@.can_patch(index as int),
        ensures
            final(self)@ == old(self)@.patch(index as int),
    {
        let cur_index = self.last_index();
        if self.current_fn.is_some() {
            let _len = self.code_len();
            let offset: usize = cur_index - index;
            self.set_opcode_at(index, offset as u8);
        }
    }

    /// Whether the operand at `index` can be patched to land at the current end.
    pub fn can_patch(&self, index: usize) -> (b: bool)
        ensures
            b == self@.can_patch(index as int),
    {
        self.can_patch_after(index, 0)
    }

    /// Whether the operand at `index` can be patched to land at the end that
    /// the code has after `extra` more bytes.
    pub fn can_patch_after(&self, index: usize, extra: u8) -> (b: bool)
        ensures
            b == self@.can_patch_after(index as int, extra as nat),
    {
        match &self.current_fn {
            Some(cur_fn) => {
                let total: u128 = cur_fn.opcodes.len() as u128 + extra as u128;
                let at: u128 = index as u128;
                at < total && total - 1 - at <= 255
            },
            None => true,
        }
    }

    /// Interns `value` in the module's pool and gives its place. The pool
    /// held no value twice, and holds none twice afterwards.
    pub fn intern(&mut self, value: GearsObject) -> (index: usize)
        ensures
            index == pool_index(old(self)@.module.consts, value@),
            final(self)@ == old(self)@.intern(value@),
            no_duplicates(old(self)@.module.consts),
            no_duplicates(final(self)@.module.consts),
    {
        self.module.intern(value)
    }

    /// Emits the instruction that loads the constant at `index`.
    pub fn load_const(&mut self, index: u8)
        ensures
            final(self)@ == old(self)@.emit(seq![LOAD_CONST, index]),
    {
        self.opcode2(LOAD_CONST, index);
    }

    /// Appends the load of the integer `number`, interning it.
    pub fn load_int(&mut self, number: i64)
        requires
            pool_index(old(self)@.module.consts, Value::Int(number)) <= 255,
        ensures
            final(self)@ == old(self)@.load_value(Value::Int(number)),
    {
        let index = self.module.insert_int(number);
        self.opcode2(LOAD_CONST, index as u8);
    }

    /// Interns the text and emits the instruction that loads it.
    pub fn load_str(&mut self, text: String)
        requires
            pool_index(old(self)@.module.consts, Value::Str(text@)) <= 255,
        ensures
            final(self)@ == old(self)@.load_value(Value::Str(text@)),
    {
        let index = self.module.intern(GearsObject::Str(text));
        self.opcode2(LOAD_CONST, index as u8);
    }

    /// Appends `BIN_ADD`.
    pub fn op_add(&mut self)
        ensures
            final(self)@ == old(self)@.emit(seq![BIN_ADD]),
    {
        self.opcode(BIN_ADD);
    }

    /// Appends `BIN_SUB`.
    pub fn op_sub(&mut self)
        ensures
            final(self)@ == old(self)@.emit(seq![BIN_SUB]),
    {
        self.opcode(BIN_SUB);
    }

    /// Appends `BIN_MUL`.
    pub fn op_mul(&mut self)
        ensures
            final(self)@ == old(self)@.emit(seq![BIN_MUL]),
    {
        self.opcode(BIN_MUL);
    }

    /// Appends `BIN_DIV`.
    pub fn op_div(&mut self)
        ensures
            final(self)@ == old(self)@.emit(seq![BIN_DIV]),
    {
        self.opcode(BIN_DIV);
    }

    /// Appends `BIN_EQUAL`.
    pub fn op_eqeq(&mut self)
        ensures
            final(self)@ == old(self)@.emit(seq![BIN_EQUAL]),
    {
        self.opcode(BIN_EQUAL);
    }

    /// Appends `BIN_NOT_EQUAL`.
    pub fn op_not_eq(&mut self)
        ensures
            final(self)@ == old(self)@.emit(seq![BIN_NOT_EQUAL]),
    {
        self.opcode(BIN_NOT_EQUAL);
    }

    /// Appends `BIN_LESS_THAN`.
    pub fn op_less(&mut self)
        ensures
            final(self)@ == old(self)@.emit(seq![BIN_LESS_THAN]),
    {
        self.opcode(BIN_LESS_THAN);
    }

    /// Appends `BIN_LESS_THAN_EQUAL`.
    pub fn op_less_eq(&mut self)
        ensures
            final(self)@ == old(self)@.emit(seq![BIN_LESS_THAN_EQUAL]),
    {
        self.opcode(BIN_LESS_THAN_EQUAL);
    }

    /// Appends `BIN_GREATER_THAN`.
    pub fn op_greater(&mut self)
        ensures
            final(self)@ == old(self)@.emit(seq![BIN_GREATER_THAN]),
    {
        self.opcode(BIN_GREATER_THAN);
    }

    /// Appends `BIN_GREATER_THAN_EQUAL`.
    pub fn op_greater_eq(&mut self)
        ensures
            final(self)@ == old(self)@.emit(seq![BIN_GREATER_THAN_EQUAL]),
    {
        self.opcode(BIN_GREATER_THAN_EQUAL);
    }

    /// Appends the store of the top of the stack in the slot `index`.
    pub fn store_fast(&mut self, index: u8)
        ensures
            final(self)@ == old(self)@.emit(seq![STORE_FAST, index]),
    {
        self.opcode2(STORE_FAST, index);
    }

    /// Appends the load of the slot `index`.
    pub fn load_fast(&mut self, index: u8)
        ensures
            final(self)@ == old(self)@.emit(seq![LOAD_FAST, index]),
    {
        self.opcode2(LOAD_FAST, index);
    }

    /// Appends the call of the function at `index` with `arg_count` arguments.
    pub fn call_fn(&mut self, index: u8, arg_count: u8)
        ensures
            final(self)@ == old(self)@.emit(seq![CALL_FUNCTION, index, arg_count]),
    {
        self.opcode(CALL_FUNCTION);
        self.opcode(index);
        self.opcode(arg_count);
        assert(old(self)@.current is Some ==> self@.code() =~= old(self)@.code() + seq![
            CALL_FUNCTION,
            index,
            arg_count,
        ]);
    }

    /// Appends `LOAD_NONE`.
    pub fn load_none(&mut self)
        ensures
            final(self)@ == old(self)@.emit(seq![LOAD_NONE]),
    {
        self.opcode(LOAD_NONE);
    }

    /// Appends `LOAD_TRUE` or `LOAD_FALSE`.
    pub fn load_bool(&mut self, b: &bool)
        ensures
            final(self)@ == old(self)@.emit(
                seq![if *b {
                    LOAD_TRUE
                } else {
                    LOAD_FALSE
                }],
            ),
    {
        if *b {
            self.opcode(LOAD_TRUE);
        } else {
            self.opcode(LOAD_FALSE);
        }
    }

    /// Emits the instruction that adds one to the integer on top of the stack.
    pub fn inc_one(&mut self)
        ensures
            final(self)@ == old(self)@.emit(seq![INC_ONE]),
    {
        self.opcode(INC_ONE);
    }

    /// Emits the instruction that makes a list of the top `count` values.
    pub fn build_list(&mut self, count: u8)
        ensures
            final(self)@ == old(self)@.emit(seq![BUILD_LIST, count]),
    {
        self.opcode2(BUILD_LIST, count);
    }

    /// Emits the instruction that returns the top of the stack.
    pub fn op_return(&mut self)
        ensures
            final(self)@ == old(self)@.emit(seq![RETURN]),
    {
        self.opcode(RETURN);
    }

    /// The marker of a loop's head: the place of the last byte emitted so far.
    pub fn start_loop_check(&mut self) -> (index: usize)
        ensures
            marker(index) == old(self)@.last_index(),
            final(self)@ == old(self)@,
    {
        self.last_index()
    }

    /// Closes a loop: appends the jump back to the loop's test and sets the
    /// distance of the jump that leaves it.
    pub fn end_loop(&mut self, loop_index: usize, jump_index: usize)
        requires
            BuilderView::loop_target(marker(loop_index)) <= 255,
            old(self)@.can_patch_after(jump_index as int, 2),
        ensures
            final(self)@ == old(self)@.end_loop(marker(loop_index), jump_index as int),
    {
        self.opcode2(JUMP_ABSOLUTE, loop_index.wrapping_add(1) as u8);
        self.patch(jump_index);
    }

    /// Emits a conditional jump whose distance is still open, and gives the
    /// place of that distance.
    pub fn start_jump_if_false(&mut self) -> (index: usize)
        ensures
            index == old(self)@.start_jump_if_false().last_index(),
            final(self)@ == old(self)@.start_jump_if_false(),
    {
        self.opcode2(JUMP_IF_FALSE, 0);
        self.last_index()
    }

    /// Ends the first branch of a conditional: appends the jump over the second
    /// branch and sets the distance of the jump into it.
    pub fn start_else(&mut self, index: usize) -> (cur_index: usize)
        requires
            old(self)@.can_patch_after(index as int, 2),
        ensures
            cur_index == old(self)@.emit(seq![JUMP, 0u8]).last_index(),
            final(self)@ == old(self)@.start_else(index as int),
    {
        self.opcode2(JUMP, 0);
        let cur_index = self.last_index();
        self.patch(index);
        cur_index
    }

    /// Sets the distance of the jump at `index` so that it lands at the end of the
    /// code.
    pub fn end_jump(&mut self, index: usize)
        requires
            old(self)@.can_patch(index as int),
        ensures
            final(self)@ == old(self)@.patch(index as int),
    {
        self.patch(index);
    }
}

/// Whether the last instruction of `code` is `RETURN`.
pub fn code_ends_with_return(code: &Opcodes) -> (b: bool)
    ensures
        b == ends_with_return(code@),
{
    let mut pos: usize = 0;
    let mut last: Option<usize> = None;
    while pos < code.len()
        invariant
            pos < code.len() ==> last_opcode_from(code@, 0) == last_opcode_from(code@, pos as int),
            pos >= code.len() ==> (match last {
                Some(p) => last_opcode_from(code@, 0) == Some(p as int) && p < code.len(),
                None => last_opcode_from(code@, 0) is None,
            }),
        decreases code.len() - pos,
    {
        let step = 1 + operands(code[pos]);
        last = Some(pos);
        if code.len() - pos <= step {
            pos = code.len();
        } else {
            pos = pos + step;
        }
    }
    match last {
        Some(p) => code[p] == RETURN,
        None => false,
    }
}

/// The operands of an instruction as a listing shows them: each after a
/// space, in decimal. `n` operands are shown from `from` on, as far as the
/// code reaches.
pub open spec fn operands_text(code: Seq<u8>, from: int, n: nat) -> Seq<char>
    decreases n,
{
    if n == 0 || from < 0 || from >= code.len() {
        Seq::empty()
    } else {
        " "@ + decimal(code[from] as nat) + operands_text(code, from + 1, (n - 1) as nat)
    }
}

/// The line of a listing for the instruction at `pos`: its place, its name and
/// its operands.
pub open spec fn listing_line(code: Seq<u8>, pos: int) -> Seq<char> {
    decimal(pos as nat) + " "@ + opcode_name(code[pos]) + operands_text(
        code,
        pos + 1,
        operand_count(code[pos]),
    ) + "\n"@
}

/// The listing of `code` from the instruction at `pos` on, up to and
/// including the first `RETURN`, or to the end of the code.
pub open spec fn listing(code: Seq<u8>, pos: int) -> Seq<char>
    decreases code.len() - pos,
{
    if pos < 0 || pos >= code.len() {
        Seq::empty()
    } else if code[pos] == RETURN || pos + 1 + operand_count(code[pos]) >= code.len() {
        listing_line(code, pos)
    } else {
        listing_line(code, pos) + listing(code, pos + 1 + operand_count(code[pos]))
    }
}

fn append_operands(text: &mut String, code: &Opcodes, from: usize, n: usize)
    ensures
        final(text)@ == old(text)@ + operands_text(code@, from as int, n as nat),
{
    let mut i: usize = 0;
    let mut at: usize = from;
    while i < n && at < code.len()
        invariant
            i <= n,
            at == from + i,
            old(text)@ + operands_text(code@, from as int, n as nat) == text@ + operands_text(
                code@,
                at as int,
                (n - i) as nat,
            ),
        decreases n - i,
    {
        let ghost before = text@;
        append_str(text, " ");
        append_decimal(text, code[at] as u64);
        assert(text@ + operands_text(code@, at + 1, (n - i - 1) as nat) =~= before + operands_text(
            code@,
            at as int,
            (n - i) as nat,
        ));
        i += 1;
        at += 1;
    }
    assert(text@ + operands_text(code@, at as int, (n - i) as nat) =~= text@);
}

/// Lists the instructions of a function, one to a line, for debugging.
pub fn disassemble(module: &Module, function: &str) -> (r: Result<String, GearsError>)
    ensures
        match find_function(module@.functions, function@) {
            Some(i) => r matches Ok(text) && text@ == listing(module@.functions[i].opcodes, 0),
            None => r matches Err(e) && e@ == ErrorView::FunctionNotFound(function@),
        },
{
    let opcodes = match module.get_function(function) {
        Ok(f) => f.get_opcodes(),
        Err(e) => {
            return Err(e);
        },
    };
    let mut text = String::new();
    let mut ip: usize = 0;
    assert(text@ + listing(opcodes@, 0) =~= listing(opcodes@, 0));
    while ip < opcodes.len()
        invariant
            ip <= opcodes.len(),
            listing(opcodes@, 0) == text@ + listing(opcodes@, ip as int),
            find_function(module@.functions, function@) matches Some(i) && opcodes@
                == module@.functions[i].opcodes,
        decreases opcodes.len() - ip,
    {
        let ghost before = text@;
        let op = opcodes[ip];
        let count = operands(op);
        append_decimal(&mut text, widen(ip));
        append_str(&mut text, " ");
        append_str(&mut text, print_code(op));
        append_operands(&mut text, opcodes, ip + 1, count);
        append_str(&mut text, "\n");
        assert(text@ =~= before + listing_line(opcodes@, ip as int));
        if op == RETURN {
            assert(listing(opcodes@, 0) =~= text@);
            return Ok(text);
        }
        if opcodes.len() - ip <= 1 + count {
            ip = opcodes.len();
        } else {
            ip = ip + 1 + count;
        }
        assert(listing(opcodes@, 0) =~= text@ + listing(opcodes@, ip as int));
    }
    assert(listing(opcodes@, 0) =~= text@);
    Ok(text)
}

} // verus!
