use vstd::prelude::*;

verus! {

/// The byte vector that holds one function's instructions.
pub type Opcodes = Vec<u8>;

pub const RETURN: u8 = 0;
pub const CALL_FUNCTION: u8 = 1;
pub const JUMP: u8 = 2;
pub const JUMP_ABSOLUTE: u8 = 3;
pub const JUMP_IF_FALSE: u8 = 4;

pub const BIN_ADD: u8 = 10;
pub const BIN_SUB: u8 = 11;
pub const BIN_MUL: u8 = 12;
pub const BIN_DIV: u8 = 13;
pub const BIN_EQUAL: u8 = 14;
pub const BIN_NOT_EQUAL: u8 = 15;
pub const BIN_LESS_THAN: u8 = 16;
pub const BIN_LESS_THAN_EQUAL: u8 = 17;
pub const BIN_GREATER_THAN: u8 = 18;
pub const BIN_GREATER_THAN_EQUAL: u8 = 19;

pub const LOAD_CONST: u8 = 20;

pub const BUILD_LIST: u8 = 25;

pub const LOAD_FAST: u8 = 30;
pub const STORE_FAST: u8 = 31;
pub const LOAD_TRUE: u8 = 32;
pub const LOAD_FALSE: u8 = 33;
pub const LOAD_NONE: u8 = 34;

pub const INC_ONE: u8 = 40;

/// How many operand bytes follow the opcode `code`; unknown opcodes carry none.
pub open spec fn operand_count(code: u8) -> nat {
    if code == CALL_FUNCTION {
        2
    } else if code == JUMP || code == JUMP_ABSOLUTE || code == JUMP_IF_FALSE || code == LOAD_CONST
        || code == BUILD_LIST || code == LOAD_FAST || code == STORE_FAST {
        1
    } else {
        0
    }
}

/// The number of operand bytes of `code`.
pub fn operands(code: u8) -> (n: usize)
    ensures
        n == operand_count(code),
{
    if code == CALL_FUNCTION {
        2
    } else if code == JUMP || code == JUMP_ABSOLUTE || code == JUMP_IF_FALSE || code == LOAD_CONST
        || code == BUILD_LIST || code == LOAD_FAST || code == STORE_FAST {
        1
    } else {
        0
    }
}

/// The name of an opcode; `UNKNOWN` for a byte that is none.
pub open spec fn opcode_name(code: u8) -> Seq<char> {
    if code == RETURN {
        "RETURN"@
    } else if code == CALL_FUNCTION {
        "CALL_FUNCTION"@
    } else if code == JUMP {
        "JUMP"@
    } else if code == JUMP_ABSOLUTE {
        "JUMP_ABSOLUTE"@
    } else if code == JUMP_IF_FALSE {
        "JUMP_IF_FALSE"@
    } else if code == BIN_ADD {
        "BIN_ADD"@
    } else if code == BIN_SUB {
        "BIN_SUB"@
    } else if code == BIN_MUL {
        "BIN_MUL"@
    } else if code == BIN_DIV {
        "BIN_DIV"@
    } else if code == BIN_EQUAL {
        "BIN_EQUAL"@
    } else if code == BIN_NOT_EQUAL {
        "BIN_NOT_EQUAL"@
    } else if code == BIN_LESS_THAN {
        "BIN_LESS_THAN"@
    } else if code == BIN_LESS_THAN_EQUAL {
        "BIN_LESS_THAN_EQUAL"@
    } else if code == BIN_GREATER_THAN {
        "BIN_GREATER_THAN"@
    } else if code == BIN_GREATER_THAN_EQUAL {
        "BIN_GREATER_THAN_EQUAL"@
    } else if code == LOAD_CONST {
        "LOAD_CONST"@
    } else if code == BUILD_LIST {
        "BUILD_LIST"@
    } else if code == LOAD_FAST {
        "LOAD_FAST"@
    } else if code == STORE_FAST {
        "STORE_FAST"@
    } else if code == LOAD_TRUE {
        "LOAD_TRUE"@
    } else if code == LOAD_FALSE {
        "LOAD_FALSE"@
    } else if code == LOAD_NONE {
        "LOAD_NONE"@
    } else if code == INC_ONE {
        "INC_ONE"@
    } else {
        "UNKNOWN"@
    }
}

/// The name of an opcode, for listings.
pub fn print_code(code: u8) -> (name: &'static str)
    ensures
        name@ == opcode_name(code),
{
    if code == RETURN {
        "RETURN"
    } else if code == CALL_FUNCTION {
        "CALL_FUNCTION"
    } else if code == JUMP {
        "JUMP"
    } else if code == JUMP_ABSOLUTE {
        "JUMP_ABSOLUTE"
    } else if code == JUMP_IF_FALSE {
        "JUMP_IF_FALSE"
    } else if code == BIN_ADD {
        "BIN_ADD"
    } else if code == BIN_SUB {
        "BIN_SUB"
    } else if code == BIN_MUL {
        "BIN_MUL"
    } else if code == BIN_DIV {
        "BIN_DIV"
    } else if code == BIN_EQUAL {
        "BIN_EQUAL"
    } else if code == BIN_NOT_EQUAL {
        "BIN_NOT_EQUAL"
    } else if code == BIN_LESS_THAN {
        "BIN_LESS_THAN"
    } else if code == BIN_LESS_THAN_EQUAL {
        "BIN_LESS_THAN_EQUAL"
    } else if code == BIN_GREATER_THAN {
        "BIN_GREATER_THAN"
    } else if code == BIN_GREATER_THAN_EQUAL {
        "BIN_GREATER_THAN_EQUAL"
    } else if code == LOAD_CONST {
        "LOAD_CONST"
    } else if code == BUILD_LIST {
        "BUILD_LIST"
    } else if code == LOAD_FAST {
        "LOAD_FAST"
    } else if code == STORE_FAST {
        "STORE_FAST"
    } else if code == LOAD_TRUE {
        "LOAD_TRUE"
    } else if code == LOAD_FALSE {
        "LOAD_FALSE"
    } else if code == LOAD_NONE {
        "LOAD_NONE"
    } else if code == INC_ONE {
        "INC_ONE"
    } else {
        "UNKNOWN"
    }
}

} // verus!
