use vstd::prelude::*;
use std::sync::Arc;
use crate::errors::{ErrorView, GearsError, InterOpErrorType};
use crate::module::{find_function, index_not_found, Function, Module, ModuleView};
use crate::object::{
    arc_result_view, false_obj, list_view, none_obj, result_view, share, true_obj, value_add,
    value_div, value_equal, value_greater, value_greater_eq, value_inc, value_less, value_less_eq,
    value_mul, value_nequal, value_sub, ArcGearsObject, ArcGearsResult, GearsObject, GearsResult,
    Value,
};
use crate::opcodes::{
    operand_count, operands, Opcodes, BIN_ADD, BIN_DIV, BIN_EQUAL, BIN_GREATER_THAN,
    BIN_GREATER_THAN_EQUAL, BIN_LESS_THAN, BIN_LESS_THAN_EQUAL, BIN_MUL, BIN_NOT_EQUAL, BIN_SUB,
    CALL_FUNCTION, INC_ONE, JUMP, JUMP_ABSOLUTE, JUMP_IF_FALSE, LOAD_CONST, LOAD_FALSE, LOAD_FAST,
    LOAD_NONE, LOAD_TRUE, RETURN, STORE_FAST,
};
use crate::text::{append_decimal, append_str, decimal, widen};

verus! {

/// How many instructions a host's call may execute, calls within it included,
/// before it is given up.
pub const STEP_LIMIT: u64 = 0xffff_ffff_ffff_ffff;

/// The state of one activation: the place of the next instruction, the operand
/// stack with its top last, and the local slots, of which some may be unset.
pub struct Frame {
    pub ip: int,
    pub stack: Seq<Value>,
    pub slots: Seq<Option<Value>>,
}

/// What one instruction does to an activation.
pub enum Step {
    /// The activation goes on in the given state.
    Next(Frame),
    /// The activation returns the value.
    Done(Value),
    /// The activation fails.
    Fail(ErrorView),
    /// The function at `callee` is to run on `args`; its value is then pushed
    /// on the stack of `back`, where this activation goes on.
    Call { callee: int, args: Seq<Value>, back: Frame },
}

/// An error of the machine itself, with its message.
pub open spec fn machine_error(message: Seq<char>) -> ErrorView {
    ErrorView::InternalCompilerError(message)
}

/// The error of an instruction that finds too few values on the stack.
pub open spec fn empty_stack() -> ErrorView {
    machine_error("Unexpected Empty Stack"@)
}

/// The error of a read behind the end of the code.
pub open spec fn out_of_code() -> ErrorView {
    machine_error("Instruction pointer out of bounds"@)
}

/// The error of a run that has used up its steps.
pub open spec fn step_limit_reached() -> ErrorView {
    machine_error("Step limit reached"@)
}

/// The error of a byte that is no opcode, where one is read.
pub open spec fn unexpected_opcode(op: u8) -> ErrorView {
    machine_error("Unexpected Opcode: "@ + decimal(op as nat))
}

impl Frame {
    /// The state in which a function starts on `args`: slot `i` holds the
    /// `i`th argument, the stack is empty.
    pub open spec fn entry(args: Seq<Value>) -> Frame {
        Frame { ip: 0, stack: Seq::empty(), slots: Seq::new(args.len(), |i: int| Some(args[i])) }
    }

    /// The frame with `value` on top of its stack.
    pub open spec fn push(self, value: Value) -> Frame {
        Frame { stack: self.stack.push(value), ..self }
    }

    /// This state without the top `n` values of its stack.
    pub open spec fn drop(self, n: int) -> Frame {
        Frame { stack: self.stack.take(self.stack.len() - n), ..self }
    }

    /// The value `depth` places below the top of the stack.
    pub open spec fn peek(self, depth: int) -> Value {
        self.stack[self.stack.len() - 1 - depth]
    }
}

/// The slots after `value` was stored in slot `k`: the slot is overwritten
/// where it exists, else created, with the slots below it left unset.
pub open spec fn store(slots: Seq<Option<Value>>, k: int, value: Value) -> Seq<Option<Value>> {
    if k < slots.len() {
        slots.update(k, Some(value))
    } else {
        slots + Seq::new((k - slots.len()) as nat, |i: int| None::<Value>) + seq![Some(value)]
    }
}

/// Where a forward jump of `offset` from `ip` lands. A jump past the end of
/// the code stops at the end, where the next fetch fails.
pub open spec fn jump(code_len: nat, ip: int, offset: u8) -> int {
    if ip + offset > code_len {
        code_len as int
    } else {
        ip + offset
    }
}

/// The value operation behind a binary opcode.
pub open spec fn binary_value(op: u8, a: Value, b: Value) -> Result<Value, ErrorView> {
    if op == BIN_ADD {
        value_add(a, b)
    } else if op == BIN_SUB {
        value_sub(a, b)
    } else if op == BIN_MUL {
        value_mul(a, b)
    } else if op == BIN_DIV {
        value_div(a, b)
    } else if op == BIN_EQUAL {
        value_equal(a, b)
    } else if op == BIN_NOT_EQUAL {
        value_nequal(a, b)
    } else if op == BIN_LESS_THAN {
        value_less(a, b)
    } else if op == BIN_LESS_THAN_EQUAL {
        value_less_eq(a, b)
    } else if op == BIN_GREATER_THAN {
        value_greater(a, b)
    } else {
        value_greater_eq(a, b)
    }
}

/// Whether `op` is one of the binary operations.
pub open spec fn is_binary(op: u8) -> bool {
    BIN_ADD <= op <= BIN_GREATER_THAN_EQUAL
}

/// An instruction without operands; `f` is the state after its opcode was
/// read.
pub open spec fn step_plain(op: u8, f: Frame) -> Step {
    if op == RETURN {
        if f.stack.len() < 1 {
            Step::Fail(empty_stack())
        } else {
            Step::Done(f.peek(0))
        }
    } else if is_binary(op) {
        if f.stack.len() < 2 {
            Step::Fail(empty_stack())
        } else {
            match binary_value(op, f.peek(1), f.peek(0)) {
                Ok(v) => Step::Next(f.drop(2).push(v)),
                Err(e) => Step::Fail(e),
            }
        }
    } else if op == INC_ONE {
        if f.stack.len() < 1 {
            Step::Fail(empty_stack())
        } else {
            match value_inc(f.peek(0)) {
                Ok(v) => Step::Next(f.drop(1).push(v)),
                Err(e) => Step::Fail(e),
            }
        }
    } else if op == LOAD_TRUE {
        Step::Next(f.push(Value::Bool(true)))
    } else if op == LOAD_FALSE {
        Step::Next(f.push(Value::Bool(false)))
    } else if op == LOAD_NONE {
        Step::Next(f.push(Value::NoneValue))
    } else {
        Step::Fail(unexpected_opcode(op))
    }
}

/// An instruction with one operand `x`; `f` is the state after the operand
/// was read.
pub open spec fn step_operand(m: ModuleView, op: u8, x: u8, f: Frame, code_len: nat) -> Step {
    if op == JUMP {
        Step::Next(Frame { ip: jump(code_len, f.ip, x), ..f })
    } else if op == JUMP_ABSOLUTE {
        Step::Next(Frame { ip: x as int, ..f })
    } else if op == JUMP_IF_FALSE {
        if f.stack.len() < 1 {
            Step::Fail(empty_stack())
        } else if f.peek(0).truthy() {
            Step::Next(f.drop(1))
        } else {
            Step::Next(Frame { ip: jump(code_len, f.ip, x), ..f.drop(1) })
        }
    } else if op == LOAD_CONST {
        if x < m.consts.len() {
            Step::Next(f.push(m.consts[x as int]))
        } else {
            Step::Fail(machine_error("LOAD_CONST failed"@))
        }
    } else if op == LOAD_FAST {
        if x < f.slots.len() && f.slots[x as int] is Some {
            Step::Next(f.push(f.slots[x as int]->0))
        } else {
            Step::Fail(machine_error("LOAD_FAST failed"@))
        }
    } else if op == STORE_FAST {
        if f.stack.len() < 1 {
            Step::Fail(empty_stack())
        } else {
            Step::Next(Frame { slots: store(f.slots, x as int, f.peek(0)), ..f.drop(1) })
        }
    } else {
        if f.stack.len() < x {
            Step::Fail(empty_stack())
        } else {
            Step::Next(
                f.drop(x as int).push(
                    Value::List(f.stack.subrange(f.stack.len() - x, f.stack.len() as int)),
                ),
            )
        }
    }
}

/// A call of the function at `index` with the top `argc` values of the stack
/// as arguments, the leftmost deepest; `f` is the state after both operands
/// were read.
pub open spec fn step_call(m: ModuleView, index: u8, argc: u8, f: Frame) -> Step {
    if f.stack.len() < argc {
        Step::Fail(empty_stack())
    } else if index >= m.functions.len() {
        Step::Fail(index_not_found(index as usize))
    } else {
        Step::Call {
            callee: index as int,
            args: f.stack.subrange(f.stack.len() - argc, f.stack.len() as int),
            back: f.drop(argc as int),
        }
    }
}

/// What the instruction at `f.ip` does. The opcode and then each operand is
/// fetched from `code`; a fetch outside the code fails.
pub open spec fn step(m: ModuleView, code: Seq<u8>, f: Frame) -> Step {
    if !(0 <= f.ip < code.len()) {
        Step::Fail(out_of_code())
    } else if operand_count(code[f.ip]) == 0 {
        step_plain(code[f.ip], Frame { ip: f.ip + 1, ..f })
    } else if !(f.ip + 1 < code.len()) {
        Step::Fail(out_of_code())
    } else if code[f.ip] != CALL_FUNCTION {
        step_operand(m, code[f.ip], code[f.ip + 1], Frame { ip: f.ip + 2, ..f }, code.len())
    } else if !(f.ip + 2 < code.len()) {
        Step::Fail(out_of_code())
    } else {
        step_call(m, code[f.ip + 1], code[f.ip + 2], Frame { ip: f.ip + 3, ..f })
    }
}

/// The result of running `code` from the state `f` for at most `fuel`
/// instructions. A call and what follows it each get what is left.
pub open spec fn run(m: ModuleView, code: Seq<u8>, f: Frame, fuel: nat) -> Result<Value, ErrorView>
    decreases fuel,
{
    if fuel == 0 {
        Err(step_limit_reached())
    } else {
        match step(m, code, f) {
            Step::Next(g) => run(m, code, g, (fuel - 1) as nat),
            Step::Done(v) => Ok(v),
            Step::Fail(e) => Err(e),
            Step::Call { callee, args, back } => match run(
                m,
                m.functions[callee].opcodes,
                Frame::entry(args),
                (fuel - 1) as nat,
            ) {
                Err(e) => Err(e),
                Ok(v) => run(m, code, back.push(v), (fuel - 1) as nat),
            },
        }
    }
}

/// The failure of a host's call with too few arguments.
pub open spec fn too_few(name: Seq<char>, expected: usize, received: usize) -> ErrorView {
    ErrorView::InterOpError {
        error: InterOpErrorType::TooFewArgs,
        message: "Function missing args: "@ + name + ", expected: "@ + decimal(expected as nat)
            + ", received: "@ + decimal(received as nat),
    }
}

/// The failure of a host's call with too many arguments.
pub open spec fn too_many(name: Seq<char>, expected: usize, received: usize) -> ErrorView {
    ErrorView::InterOpError {
        error: InterOpErrorType::TooManyArgs,
        message: "Function pass extra args: "@ + name + ", expected: "@ + decimal(
            expected as nat,
        ) + ", received: "@ + decimal(received as nat),
    }
}

/// The result of a host's call of the function `name` on `args`, run for at
/// most `fuel` instructions.
pub open spec fn call_result(m: ModuleView, name: Seq<char>, args: Seq<Value>, fuel: nat) -> Result<
    Value,
    ErrorView,
> {
    match find_function(m.functions, name) {
        None => Err(ErrorView::FunctionNotFound(name)),
        Some(i) => if args.len() < m.functions[i].num_args {
            Err(too_few(name, m.functions[i].num_args, args.len() as usize))
        } else if args.len() > m.functions[i].num_args {
            Err(too_many(name, m.functions[i].num_args, args.len() as usize))
        } else {
            run(m, m.functions[i].opcodes, Frame::entry(args), fuel)
        },
    }
}

/// The values in a sequence of slots.
pub open spec fn slots_view(slots: Seq<Option<ArcGearsObject>>) -> Seq<Option<Value>> {
    Seq::new(
        slots.len(),
        |i: int|
            match slots[i] {
                Some(v) => Some(v@),
                None => None,
            },
    )
}

/// One activation of the machine.
struct Activation {
    ip: usize,
    stack: Vec<ArcGearsObject>,
    slots: Vec<Option<ArcGearsObject>>,
}

impl View for Activation {
    type V = Frame;

    closed spec fn view(&self) -> Frame {
        Frame { ip: self.ip as int, stack: list_view(self.stack@), slots: slots_view(self.slots@) }
    }
}

/// What one instruction did, as the machine's loop sees it.
enum Outcome<'a> {
    Next,
    Done(ArcGearsObject),
    Fail(GearsError),
    Call { function: &'a Function, args: Vec<ArcGearsObject> },
}

/// Whether an instruction came out as its model says.
spec fn stepped(r: Outcome, after: Frame, m: ModuleView, model: Step) -> bool {
    match model {
        Step::Next(g) => r is Next && after == g,
        Step::Done(v) => r matches Outcome::Done(x) && x@ == v,
        Step::Fail(e) => r matches Outcome::Fail(x) && x@ == e,
        Step::Call { callee, args, back } => r matches Outcome::Call { function, args: given }
            && 0 <= callee < m.functions.len() && function@ == m.functions[callee] && list_view(
            given@,
        ) == args && after == back,
    }
}

fn machine_failure(message: &str) -> (e: GearsError)
    ensures
        e@ == machine_error(message@),
{
    GearsError::InternalCompilerError(String::from_str(message))
}

fn unexpected_opcode_error(op: u8) -> (e: GearsError)
    ensures
        e@ == unexpected_opcode(op),
{
    let mut m = String::new();
    append_str(&mut m, "Unexpected Opcode: ");
    append_decimal(&mut m, op as u64);
    GearsError::InternalCompilerError(m)
}

/// Applies the value operation behind a binary opcode.
fn apply_binary(op: u8, a: &GearsObject, b: &GearsObject) -> (r: GearsResult)
    requires
        is_binary(op),
    ensures
        result_view(r) == binary_value(op, a@, b@),
{
    if op == BIN_ADD {
        a.add(b)
    } else if op == BIN_SUB {
        a.sub(b)
    } else if op == BIN_MUL {
        a.mul(b)
    } else if op == BIN_DIV {
        a.div(b)
    } else if op == BIN_EQUAL {
        a.equal(b)
    } else if op == BIN_NOT_EQUAL {
        a.nequal(b)
    } else if op == BIN_LESS_THAN {
        a.less(b)
    } else if op == BIN_LESS_THAN_EQUAL {
        a.less_eq(b)
    } else if op == BIN_GREATER_THAN {
        a.greater(b)
    } else {
        a.greater_eq(b)
    }
}

impl Activation {
    /// The state in which a function starts on `args`.
    fn enter(args: Vec<ArcGearsObject>) -> (a: Activation)
        ensures
            a@ == Frame::entry(list_view(args@)),
    {
        let mut slots: Vec<Option<ArcGearsObject>> = Vec::new();
        let mut i: usize = 0;
        while i < args.len()
            invariant
                i <= args.len(),
                slots.len() == i,
                forall|j: int| 0 <= j < i ==> slots@[j] == Some(args@[j]),
            decreases args.len() - i,
        {
            slots.push(Some(share(&args[i])));
            i += 1;
        }
        let a = Activation { ip: 0, stack: Vec::new(), slots: slots };
        assert(a@.stack =~= Seq::<Value>::empty());
        assert(a@.slots =~= Frame::entry(list_view(args@)).slots);
        a
    }

    fn push(&mut self, value: ArcGearsObject)
        ensures
            final(self)@ == old(self)@.push(value@),
    {
        self.stack.push(value);
        assert(self@.stack =~= old(self)@.stack.push(value@));
    }

    /// Takes the top value off the stack.
    fn pop(&mut self) -> (r: Option<ArcGearsObject>)
        ensures
            old(self)@.stack.len() < 1 ==> r is None && final(self)@ == old(self)@,
            old(self)@.stack.len() >= 1 ==> (r matches Some(v) && v@ == old(self)@.peek(0)
                && final(self)@ == old(self)@.drop(1)),
    {
        let r = self.stack.pop();
        assert(self@.stack =~= old(self)@.drop(if r is Some {
            1int
        } else {
            0int
        }).stack);
        r
    }

    /// Takes the top `n` values off the stack, deepest first.
    fn pop_many(&mut self, n: usize) -> (r: Option<Vec<ArcGearsObject>>)
        ensures
            old(self)@.stack.len() < n ==> r is None && final(self)@ == old(self)@,
            old(self)@.stack.len() >= n ==> (r matches Some(top) && list_view(top@) == old(
                self,
            )@.stack.subrange(old(self)@.stack.len() - n, old(self)@.stack.len() as int)
                && final(self)@ == old(self)@.drop(n as int)),
    {
        if self.stack.len() < n {
            return None;
        }
        let at = self.stack.len() - n;
        let top = self.stack.split_off(at);
        assert(list_view(top@) =~= old(self)@.stack.subrange(
            old(self)@.stack.len() - n,
            old(self)@.stack.len() as int,
        ));
        assert(self@.stack =~= old(self)@.drop(n as int).stack);
        Some(top)
    }

    /// Moves the instruction pointer forward by `offset`, not past `code_len`.
    fn jump(&mut self, code_len: usize, offset: u8)
        requires
            old(self).ip <= code_len,
        ensures
            final(self)@ == (Frame {
                ip: jump(code_len as nat, old(self)@.ip, offset),
                ..old(self)@
            }),
            final(self).ip <= code_len,
    {
        if offset as usize > code_len - self.ip {
            self.ip = code_len;
        } else {
            self.ip = self.ip + offset as usize;
        }
    }

    /// Stores `value` in slot `k`.
    fn store(&mut self, k: usize, value: ArcGearsObject)
        ensures
            final(self)@ == (
                Frame { slots: store(old(self)@.slots, k as int, value@), ..old(self)@ }
            ),
    {
        if k < self.slots.len() {
            self.slots[k] = Some(value);
        } else {
            while self.slots.len() < k
                invariant
                    self.slots.len() <= k,
                    self.ip == old(self).ip,
                    self.stack == old(self).stack,
                    old(self).slots.len() <= self.slots.len(),
                    forall|j: int| 0 <= j < old(self).slots.len() ==> self.slots@[j] == old(
                        self,
                    ).slots@[j],
                    forall|j: int| old(self).slots.len() <= j < self.slots.len() ==> self.slots@[j]
                        is None,
                decreases k - self.slots.len(),
            {
                self.slots.push(None);
            }
            self.slots.push(Some(value));
        }
        assert(self@.slots =~= store(old(self)@.slots, k as int, value@));
    }
}

/// Executes an instruction without operands.
fn step_plain_exec(op: u8, frame: &mut Activation) -> (r: Outcome<'static>)
    requires
        operand_count(op) == 0,
    ensures
        forall|m: ModuleView| #[trigger] stepped(r, final(frame)@, m, step_plain(op, old(frame)@)),
        final(frame).ip == old(frame).ip,
{
    if op == RETURN {
        match frame.pop() {
            Some(v) => Outcome::Done(v),
            None => Outcome::Fail(machine_failure("Unexpected Empty Stack")),
        }
    } else if op >= BIN_ADD && op <= BIN_GREATER_THAN_EQUAL {
        if frame.stack.len() < 2 {
            return Outcome::Fail(machine_failure("Unexpected Empty Stack"));
        }
        let b = match frame.pop() {
            Some(v) => v,
            None => {
                return Outcome::Fail(machine_failure("Unexpected Empty Stack"));
            },
        };
        let a = match frame.pop() {
            Some(v) => v,
            None => {
                return Outcome::Fail(machine_failure("Unexpected Empty Stack"));
            },
        };
        assert(frame@ == old(frame)@.drop(2)) by {
            assert(frame@.stack =~= old(frame)@.drop(2).stack);
        }
        match apply_binary(op, &*a, &*b) {
            Ok(v) => {
                frame.push(Arc::new(v));
                Outcome::Next
            },
            Err(e) => Outcome::Fail(e),
        }
    } else if op == INC_ONE {
        match frame.pop() {
            Some(a) => match a.inc() {
                Ok(v) => {
                    frame.push(Arc::new(v));
                    Outcome::Next
                },
                Err(e) => Outcome::Fail(e),
            },
            None => Outcome::Fail(machine_failure("Unexpected Empty Stack")),
        }
    } else if op == LOAD_TRUE {
        frame.push(true_obj());
        Outcome::Next
    } else if op == LOAD_FALSE {
        frame.push(false_obj());
        Outcome::Next
    } else if op == LOAD_NONE {
        frame.push(none_obj());
        Outcome::Next
    } else {
        Outcome::Fail(unexpected_opcode_error(op))
    }
}

/// Executes an instruction with one operand.
fn step_operand_exec(module: &Module, op: u8, x: u8, frame: &mut Activation, code_len: usize) -> (r:
    Outcome<'static>)
    requires
        operand_count(op) == 1,
        old(frame).ip <= code_len,
    ensures
        stepped(
            r,
            final(frame)@,
            module@,
            step_operand(module@, op, x, old(frame)@, code_len as nat),
        ),
{
    if op == JUMP {
        frame.jump(code_len, x);
        Outcome::Next
    } else if op == JUMP_ABSOLUTE {
        frame.ip = x as usize;
        Outcome::Next
    } else if op == JUMP_IF_FALSE {
        match frame.pop() {
            Some(v) => {
                if !v.as_bool() {
                    frame.jump(code_len, x);
                }
                Outcome::Next
            },
            None => Outcome::Fail(machine_failure("Unexpected Empty Stack")),
        }
    } else if op == LOAD_CONST {
        if (x as usize) < module.const_count() {
            frame.push(Arc::new(module.get_const(x as usize).duplicate()));
            Outcome::Next
        } else {
            Outcome::Fail(machine_failure("LOAD_CONST failed"))
        }
    } else if op == LOAD_FAST {
        if (x as usize) < frame.slots.len() {
            match &frame.slots[x as usize] {
                Some(v) => {
                    let value = share(v);
                    frame.push(value);
                    Outcome::Next
                },
                None => Outcome::Fail(machine_failure("LOAD_FAST failed")),
            }
        } else {
            Outcome::Fail(machine_failure("LOAD_FAST failed"))
        }
    } else if op == STORE_FAST {
        match frame.pop() {
            Some(v) => {
                frame.store(x as usize, v);
                Outcome::Next
            },
            None => Outcome::Fail(machine_failure("Unexpected Empty Stack")),
        }
    } else {
        match frame.pop_many(x as usize) {
            Some(items) => {
                frame.push(Arc::new(GearsObject::List(items)));
                Outcome::Next
            },
            None => Outcome::Fail(machine_failure("Unexpected Empty Stack")),
        }
    }
}

/// Executes a call instruction up to the point where the callee starts.
fn step_call_exec<'a>(module: &'a Module, index: u8, argc: u8, frame: &mut Activation) -> (r:
    Outcome<'a>)
    ensures
        stepped(r, final(frame)@, module@, step_call(module@, index, argc, old(frame)@)),
{
    match frame.pop_many(argc as usize) {
        None => Outcome::Fail(machine_failure("Unexpected Empty Stack")),
        Some(args) => match module.get_function_by_index(index as usize) {
            Err(e) => Outcome::Fail(e),
            Ok(function) => Outcome::Call { function: function, args: args },
        },
    }
}

/// Executes the instruction at the activation's instruction pointer.
fn step_exec<'a>(module: &'a Module, opcodes: &Opcodes, frame: &mut Activation) -> (r: Outcome<'a>)
    ensures
        stepped(r, final(frame)@, module@, step(module@, opcodes@, old(frame)@)),
{
    let len = opcodes.len();
    if frame.ip >= len {
        return Outcome::Fail(machine_failure("Instruction pointer out of bounds"));
    }
    let op = opcodes[frame.ip];
    let count = operands(op);
    if count == 0 {
        frame.ip = frame.ip + 1;
        return step_plain_exec(op, frame);
    }
    if len - frame.ip < 2 {
        return Outcome::Fail(machine_failure("Instruction pointer out of bounds"));
    }
    let x = opcodes[frame.ip + 1];
    if op != CALL_FUNCTION {
        frame.ip = frame.ip + 2;
        return step_operand_exec(module, op, x, frame, len);
    }
    if len - frame.ip < 3 {
        return Outcome::Fail(machine_failure("Instruction pointer out of bounds"));
    }
    let argc = opcodes[frame.ip + 2];
    frame.ip = frame.ip + 3;
    step_call_exec(module, x, argc, frame)
}

/// Runs `function` of `module` on `args` for at most `fuel` instructions.
pub fn execute(function: &Function, module: &Module, args: Vec<ArcGearsObject>, fuel: u64) -> (r:
    ArcGearsResult)
    ensures
        arc_result_view(r) == run(
            module@,
            function@.opcodes,
            Frame::entry(list_view(args@)),
            fuel as nat,
        ),
    decreases fuel,
{
    let opcodes = function.get_opcodes();
    let mut frame = Activation::enter(args);
    let mut remaining = fuel;
    loop
        invariant
            remaining <= fuel,
            opcodes@ == function@.opcodes,
            run(module@, function@.opcodes, Frame::entry(list_view(args@)), fuel as nat) == run(
                module@,
                function@.opcodes,
                frame@,
                remaining as nat,
            ),
        decreases remaining,
    {
        if remaining == 0 {
            return Err(machine_failure("Step limit reached"));
        }
        remaining = remaining - 1;
        match step_exec(module, opcodes, &mut frame) {
            Outcome::Next => {},
            Outcome::Done(v) => {
                return Ok(v);
            },
            Outcome::Fail(e) => {
                return Err(e);
            },
            Outcome::Call { function: callee, args: given } => {
                match execute(callee, module, given, remaining) {
                    Err(e) => {
                        return Err(e);
                    },
                    Ok(v) => {
                        frame.push(v);
                    },
                }
            },
        }
    }
}

fn too_few_error(name: &str, expected: usize, received: usize) -> (e: GearsError)
    ensures
        e@ == too_few(name@, expected, received),
{
    let mut m = String::new();
    append_str(&mut m, "Function missing args: ");
    append_str(&mut m, name);
    append_str(&mut m, ", expected: ");
    append_decimal(&mut m, widen(expected));
    append_str(&mut m, ", received: ");
    append_decimal(&mut m, widen(received));
    assert(m@ =~= "Function missing args: "@ + name@ + ", expected: "@ + decimal(expected as nat)
        + ", received: "@ + decimal(received as nat));
    GearsError::InterOpError { error: InterOpErrorType::TooFewArgs, message: m }
}

fn too_many_error(name: &str, expected: usize, received: usize) -> (e: GearsError)
    ensures
        e@ == too_many(name@, expected, received),
{
    let mut m = String::new();
    append_str(&mut m, "Function pass extra args: ");
    append_str(&mut m, name);
    append_str(&mut m, ", expected: ");
    append_decimal(&mut m, widen(expected));
    append_str(&mut m, ", received: ");
    append_decimal(&mut m, widen(received));
    assert(m@ =~= "Function pass extra args: "@ + name@ + ", expected: "@ + decimal(
        expected as nat,
    ) + ", received: "@ + decimal(received as nat));
    GearsError::InterOpError { error: InterOpErrorType::TooManyArgs, message: m }
}

/// Executes the function `function` of a compiled module on `args`, for at
/// most `steps` instructions.
pub fn execute_bounded(
    module: &Module,
    function: &str,
    args: Vec<ArcGearsObject>,
    steps: u64,
) -> (r:
    ArcGearsResult)
    ensures
        arc_result_view(r) == call_result(module@, function@, list_view(args@), steps as nat),
{
    let mod_fn = match module.get_function(function) {
        Ok(f) => f,
        Err(e) => {
            return Err(e);
        },
    };
    let num_given_args = args.len();
    let num_fn_args = mod_fn.num_args();
    if num_given_args != num_fn_args {
        if num_given_args < num_fn_args {
            return Err(too_few_error(function, num_fn_args, num_given_args));
        } else {
            return Err(too_many_error(function, num_fn_args, num_given_args));
        }
    }
    execute(mod_fn, module, args, steps)
}

/// Executes a function contained in a compiled module.
pub fn execute_function(module: &Module, function: &str, args: Vec<ArcGearsObject>) -> (r:
    ArcGearsResult)
    ensures
        arc_result_view(r) == call_result(
            module@,
            function@,
            list_view(args@),
            STEP_LIMIT as nat,
        ),
{
    execute_bounded(module, function, args, STEP_LIMIT)
}

} // verus!
