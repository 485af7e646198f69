//! Generates x86-64 assembly (Intel syntax) from the syntax tree.
use vstd::prelude::*;
use rustc_hash::FxHashMap;

use crate::arraybuf::{offset_buf_get, offset_buf_new, offset_buf_push, offset_buf_values};
use crate::lexer::BinOp;
use crate::parser::{
    Arg, ArgV, ExprAst, ExprV, StatementAst, StmtV, TopLevelAst, TopV, args_view, expr_height,
    exprs_height, exprs_view, lemma_exprs_height, lemma_exprs_view, lemma_stmts_view, stmts_view,
    tops_view,
};
use crate::text::{push_signed_decimal, spec_decimal, spec_signed_decimal};
use crate::types::{
    FunctionType, FunctionTypeV, Type, TypeError, TypeV, lemma_types_view_push, spec_get_type,
    type_res, types_view,
};
use crate::vars::{
    Var, VarV, no_vars, var_table, var_table_get, var_table_insert, var_table_new, var_table_remove,
};

verus! {

/// A general-purpose register of x86-64.
#[derive(Debug, Clone, Copy, PartialEq, Eq, Structural)]
pub enum Reg {
    Rax,
    Rbx,
    Rcx,
    Rdx,
    Rbp,
    Rsp,
    Rsi,
    Rdi,
    R8,
    R9,
    R10,
    R11,
    R12,
    R13,
    R14,
    R15,
}

/// The number of registers.
pub const REG_COUNT: usize = 16;

/// The width of an operand.
#[derive(Debug, Clone, Copy, PartialEq, Eq, Structural)]
pub enum AsmType {
    Byte,
    Word,
    Dword,
    Qword,
}

/// A memory operand.
#[derive(Debug, Clone, Copy, PartialEq, Eq, Structural)]
pub enum MemAddr {
    Offset { reg: Reg, off: i32 },
}

/// An operand that can be written.
#[derive(Debug, Clone, Copy, PartialEq, Eq, Structural)]
pub enum WriteVal {
    Reg(Reg),
    Mem(MemAddr),
}

/// Where the value of an expression is.
#[derive(Debug, Clone, Copy, PartialEq, Eq, Structural)]
pub enum Value {
    Reg(Reg),
    Mem(MemAddr),
    Constant(i32),
}

/// Why a program cannot be compiled.
#[derive(Debug, Clone, Copy, PartialEq, Eq, Structural)]
pub enum CodegenError {
    /// The type of an expression cannot be found.
    Type(TypeError),
    /// No register is free.
    OutOfRegisters,
    /// A function name used as a variable.
    NotAVariable,
    /// A number literal above `i32::MAX`.
    NumberTooLarge,
    /// A store to memory of another width than 32 bits.
    UnsupportedMove,
    /// An operator for which no instruction is generated.
    UnsupportedOperator(BinOp),
    /// A call of something else than a function name.
    IndirectCall,
    /// A statement for which no code is generated (`if`).
    UnsupportedStatement,
    /// A function or a call with more than six arguments.
    TooManyArgs,
    /// The variables of a function need more than `i32::MAX` bytes of stack.
    StackOverflow,
}

/// Position of a register in the table of used registers.
pub open spec fn reg_index(r: Reg) -> nat {
    match r {
        Reg::Rax => 0,
        Reg::Rbx => 1,
        Reg::Rcx => 2,
        Reg::Rdx => 3,
        Reg::Rbp => 4,
        Reg::Rsp => 5,
        Reg::Rsi => 6,
        Reg::Rdi => 7,
        Reg::R8 => 8,
        Reg::R9 => 9,
        Reg::R10 => 10,
        Reg::R11 => 11,
        Reg::R12 => 12,
        Reg::R13 => 13,
        Reg::R14 => 14,
        Reg::R15 => 15,
    }
}

/// The register at position `i` of the table of used registers.
pub open spec fn reg_at(i: nat) -> Reg {
    if i == 0 {
        Reg::Rax
    } else if i == 1 {
        Reg::Rbx
    } else if i == 2 {
        Reg::Rcx
    } else if i == 3 {
        Reg::Rdx
    } else if i == 4 {
        Reg::Rbp
    } else if i == 5 {
        Reg::Rsp
    } else if i == 6 {
        Reg::Rsi
    } else if i == 7 {
        Reg::Rdi
    } else if i == 8 {
        Reg::R8
    } else if i == 9 {
        Reg::R9
    } else if i == 10 {
        Reg::R10
    } else if i == 11 {
        Reg::R11
    } else if i == 12 {
        Reg::R12
    } else if i == 13 {
        Reg::R13
    } else if i == 14 {
        Reg::R14
    } else {
        Reg::R15
    }
}

/// The registers that pass the arguments of a call, in order.
pub open spec fn arg_reg(i: nat) -> Reg {
    if i == 0 {
        Reg::Rdi
    } else if i == 1 {
        Reg::Rsi
    } else if i == 2 {
        Reg::Rdx
    } else if i == 3 {
        Reg::Rcx
    } else if i == 4 {
        Reg::R8
    } else {
        Reg::R9
    }
}

/// The name of a register at an operand width.
pub open spec fn reg_name(r: Reg, t: AsmType) -> Seq<char> {
    match r {
        Reg::Rax => match t {
            AsmType::Qword => "rax"@,
            AsmType::Dword => "eax"@,
            AsmType::Word => "ax"@,
            AsmType::Byte => "al"@,
        },
        Reg::Rbx => match t {
            AsmType::Qword => "rbx"@,
            AsmType::Dword => "ebx"@,
            AsmType::Word => "bx"@,
            AsmType::Byte => "bl"@,
        },
        Reg::Rcx => match t {
            AsmType::Qword => "rcx"@,
            AsmType::Dword => "ecx"@,
            AsmType::Word => "cx"@,
            AsmType::Byte => "cl"@,
        },
        Reg::Rdx => match t {
            AsmType::Qword => "rdx"@,
            AsmType::Dword => "edx"@,
            AsmType::Word => "dx"@,
            AsmType::Byte => "dl"@,
        },
        Reg::Rsi => match t {
            AsmType::Qword => "rsi"@,
            AsmType::Dword => "esi"@,
            AsmType::Word => "si"@,
            AsmType::Byte => "sil"@,
        },
        Reg::Rdi => match t {
            AsmType::Qword => "rdi"@,
            AsmType::Dword => "edi"@,
            AsmType::Word => "di"@,
            AsmType::Byte => "dil"@,
        },
        Reg::R8 => match t {
            AsmType::Qword => "r8"@,
            AsmType::Dword => "r8d"@,
            AsmType::Word => "r8w"@,
            AsmType::Byte => "r8b"@,
        },
        Reg::R9 => match t {
            AsmType::Qword => "r9"@,
            AsmType::Dword => "r9d"@,
            AsmType::Word => "r9w"@,
            AsmType::Byte => "r9b"@,
        },
        Reg::R10 => match t {
            AsmType::Qword => "r10"@,
            AsmType::Dword => "r10d"@,
            AsmType::Word => "r10w"@,
            AsmType::Byte => "r10b"@,
        },
        Reg::R11 => match t {
            AsmType::Qword => "r11"@,
            AsmType::Dword => "r11d"@,
            AsmType::Word => "r11w"@,
            AsmType::Byte => "r11b"@,
        },
        Reg::R12 => match t {
            AsmType::Qword => "r12"@,
            AsmType::Dword => "r12d"@,
            AsmType::Word => "r12w"@,
            AsmType::Byte => "r12b"@,
        },
        Reg::R13 => match t {
            AsmType::Qword => "r13"@,
            AsmType::Dword => "r13d"@,
            AsmType::Word => "r13w"@,
            AsmType::Byte => "r13b"@,
        },
        Reg::R14 => match t {
            AsmType::Qword => "r14"@,
            AsmType::Dword => "r14d"@,
            AsmType::Word => "r14w"@,
            AsmType::Byte => "r14b"@,
        },
        Reg::R15 => match t {
            AsmType::Qword => "r15"@,
            AsmType::Dword => "r15d"@,
            AsmType::Word => "r15w"@,
            AsmType::Byte => "r15b"@,
        },
        Reg::Rbp => match t {
            AsmType::Qword => "rbp"@,
            AsmType::Dword => "ebp"@,
            AsmType::Word => "bp"@,
            AsmType::Byte => "bpl"@,
        },
        Reg::Rsp => match t {
            AsmType::Qword => "rsp"@,
            AsmType::Dword => "esp"@,
            AsmType::Word => "sp"@,
            AsmType::Byte => "spl"@,
        },
    }
}

/// The legacy register named by the middle letters of `rax`, `ebx`, `sil`, ...
pub open spec fn legacy_reg(c1: char, c2: char) -> Reg {
    if c1 == 'a' {
        Reg::Rax
    } else if c1 == 'b' && c2 == 'x' {
        Reg::Rbx
    } else if c1 == 'b' {
        Reg::Rbp
    } else if c1 == 'c' {
        Reg::Rcx
    } else if c1 == 'd' && c2 == 'x' {
        Reg::Rdx
    } else if c1 == 'd' {
        Reg::Rdi
    } else if c2 == 'i' {
        Reg::Rsi
    } else {
        Reg::Rsp
    }
}

/// The register `r10` to `r15` by its last digit.
pub open spec fn high_reg(d: char) -> Reg {
    if d == '0' {
        Reg::R10
    } else if d == '1' {
        Reg::R11
    } else if d == '2' {
        Reg::R12
    } else if d == '3' {
        Reg::R13
    } else if d == '4' {
        Reg::R14
    } else {
        Reg::R15
    }
}

/// The width named by the suffix of `r8d`, `r10w`, `r12b`, ...
pub open spec fn width_suffix(c: char) -> AsmType {
    if c == 'd' {
        AsmType::Dword
    } else if c == 'w' {
        AsmType::Word
    } else {
        AsmType::Byte
    }
}

/// Reads a register name back: the register and the width it names.
pub open spec fn decode_reg_name(s: Seq<char>) -> (Reg, AsmType) {
    if s.len() == 2 {
        if s[0] == 'r' {
            (if s[1] == '8' { Reg::R8 } else { Reg::R9 }, AsmType::Qword)
        } else if s[1] == 'x' || s[1] == 'i' || s[1] == 'p' {
            (legacy_reg(s[0], s[1]), AsmType::Word)
        } else {
            (legacy_reg(s[0], 'x'), AsmType::Byte)
        }
    } else if s.len() == 3 {
        if s[0] == 'r' && (s[1] == '8' || s[1] == '9') {
            (if s[1] == '8' { Reg::R8 } else { Reg::R9 }, width_suffix(s[2]))
        } else if s[0] == 'r' && s[1] == '1' {
            (high_reg(s[2]), AsmType::Qword)
        } else if s[0] == 'r' {
            (legacy_reg(s[1], s[2]), AsmType::Qword)
        } else if s[0] == 'e' {
            (legacy_reg(s[1], s[2]), AsmType::Dword)
        } else {
            (legacy_reg(s[0], s[1]), AsmType::Byte)
        }
    } else {
        (high_reg(s[2]), width_suffix(s[3]))
    }
}

proof fn lemma_decode_reg_name(r: Reg, t: AsmType)
    ensures
        decode_reg_name(reg_name(r, t)) == (r, t),
{
    match r {
        Reg::Rax => {
            reveal_strlit("rax");
            reveal_strlit("eax");
            reveal_strlit("ax");
            reveal_strlit("al");
        },
        Reg::Rbx => {
            reveal_strlit("rbx");
            reveal_strlit("ebx");
            reveal_strlit("bx");
            reveal_strlit("bl");
        },
        Reg::Rcx => {
            reveal_strlit("rcx");
            reveal_strlit("ecx");
            reveal_strlit("cx");
            reveal_strlit("cl");
        },
        Reg::Rdx => {
            reveal_strlit("rdx");
            reveal_strlit("edx");
            reveal_strlit("dx");
            reveal_strlit("dl");
        },
        Reg::Rsi => {
            reveal_strlit("rsi");
            reveal_strlit("esi");
            reveal_strlit("si");
            reveal_strlit("sil");
        },
        Reg::Rdi => {
            reveal_strlit("rdi");
            reveal_strlit("edi");
            reveal_strlit("di");
            reveal_strlit("dil");
        },
        Reg::R8 => {
            reveal_strlit("r8");
            reveal_strlit("r8d");
            reveal_strlit("r8w");
            reveal_strlit("r8b");
        },
        Reg::R9 => {
            reveal_strlit("r9");
            reveal_strlit("r9d");
            reveal_strlit("r9w");
            reveal_strlit("r9b");
        },
        Reg::R10 => {
            reveal_strlit("r10");
            reveal_strlit("r10d");
            reveal_strlit("r10w");
            reveal_strlit("r10b");
        },
        Reg::R11 => {
            reveal_strlit("r11");
            reveal_strlit("r11d");
            reveal_strlit("r11w");
            reveal_strlit("r11b");
        },
        Reg::R12 => {
            reveal_strlit("r12");
            reveal_strlit("r12d");
            reveal_strlit("r12w");
            reveal_strlit("r12b");
        },
        Reg::R13 => {
            reveal_strlit("r13");
            reveal_strlit("r13d");
            reveal_strlit("r13w");
            reveal_strlit("r13b");
        },
        Reg::R14 => {
            reveal_strlit("r14");
            reveal_strlit("r14d");
            reveal_strlit("r14w");
            reveal_strlit("r14b");
        },
        Reg::R15 => {
            reveal_strlit("r15");
            reveal_strlit("r15d");
            reveal_strlit("r15w");
            reveal_strlit("r15b");
        },
        Reg::Rbp => {
            reveal_strlit("rbp");
            reveal_strlit("ebp");
            reveal_strlit("bp");
            reveal_strlit("bpl");
        },
        Reg::Rsp => {
            reveal_strlit("rsp");
            reveal_strlit("esp");
            reveal_strlit("sp");
            reveal_strlit("spl");
        },
    }
}

/// How the names of one register at the four widths relate, as x86-64 names them:
/// `r8`..`r15` are `r` and the register's number, with `d`, `w`, `b` appended for
/// the 32-, 16- and 8-bit parts; the other registers have a two-letter 16-bit
/// name, `ax`..`dx` for registers 0 to 3, the 64-bit and 32-bit names put `r` and
/// `e` in front of it, and the low byte is `al`..`dl` for those ending in `x`, and
/// the 16-bit name with `l` appended for the others (`sil`, `dil`, `bpl`, `spl`).
pub proof fn lemma_reg_name_widths(r: Reg)
    ensures
        reg_index(r) >= 8 ==> {
            &&& reg_name(r, AsmType::Qword) == seq!['r'] + spec_decimal(reg_index(r))
            &&& reg_name(r, AsmType::Dword) == reg_name(r, AsmType::Qword) + seq!['d']
            &&& reg_name(r, AsmType::Word) == reg_name(r, AsmType::Qword) + seq!['w']
            &&& reg_name(r, AsmType::Byte) == reg_name(r, AsmType::Qword) + seq!['b']
        },
        reg_index(r) < 8 ==> {
            let w = reg_name(r, AsmType::Word);
            &&& w.len() == 2
            &&& (reg_index(r) < 4 ==> w == seq![(97 + reg_index(r)) as char, 'x'])
            &&& (reg_index(r) == 4 ==> w == seq!['b', 'p'])
            &&& (reg_index(r) == 5 ==> w == seq!['s', 'p'])
            &&& (reg_index(r) == 6 ==> w == seq!['s', 'i'])
            &&& (reg_index(r) == 7 ==> w == seq!['d', 'i'])
            &&& reg_name(r, AsmType::Qword) == seq!['r'] + w
            &&& reg_name(r, AsmType::Dword) == seq!['e'] + w
            &&& reg_name(r, AsmType::Byte) == if w[1] == 'x' {
                seq![w[0], 'l']
            } else {
                w + seq!['l']
            }
        },
{
    reveal_with_fuel(spec_decimal, 2);
    match r {
        Reg::Rax => {
            reveal_strlit("rax");
            reveal_strlit("eax");
            reveal_strlit("ax");
            reveal_strlit("al");
        },
        Reg::Rbx => {
            reveal_strlit("rbx");
            reveal_strlit("ebx");
            reveal_strlit("bx");
            reveal_strlit("bl");
        },
        Reg::Rcx => {
            reveal_strlit("rcx");
            reveal_strlit("ecx");
            reveal_strlit("cx");
            reveal_strlit("cl");
        },
        Reg::Rdx => {
            reveal_strlit("rdx");
            reveal_strlit("edx");
            reveal_strlit("dx");
            reveal_strlit("dl");
        },
        Reg::Rsi => {
            reveal_strlit("rsi");
            reveal_strlit("esi");
            reveal_strlit("si");
            reveal_strlit("sil");
        },
        Reg::Rdi => {
            reveal_strlit("rdi");
            reveal_strlit("edi");
            reveal_strlit("di");
            reveal_strlit("dil");
        },
        Reg::R8 => {
            reveal_strlit("r8");
            reveal_strlit("r8d");
            reveal_strlit("r8w");
            reveal_strlit("r8b");
        },
        Reg::R9 => {
            reveal_strlit("r9");
            reveal_strlit("r9d");
            reveal_strlit("r9w");
            reveal_strlit("r9b");
        },
        Reg::R10 => {
            reveal_strlit("r10");
            reveal_strlit("r10d");
            reveal_strlit("r10w");
            reveal_strlit("r10b");
        },
        Reg::R11 => {
            reveal_strlit("r11");
            reveal_strlit("r11d");
            reveal_strlit("r11w");
            reveal_strlit("r11b");
        },
        Reg::R12 => {
            reveal_strlit("r12");
            reveal_strlit("r12d");
            reveal_strlit("r12w");
            reveal_strlit("r12b");
        },
        Reg::R13 => {
            reveal_strlit("r13");
            reveal_strlit("r13d");
            reveal_strlit("r13w");
            reveal_strlit("r13b");
        },
        Reg::R14 => {
            reveal_strlit("r14");
            reveal_strlit("r14d");
            reveal_strlit("r14w");
            reveal_strlit("r14b");
        },
        Reg::R15 => {
            reveal_strlit("r15");
            reveal_strlit("r15d");
            reveal_strlit("r15w");
            reveal_strlit("r15b");
        },
        Reg::Rbp => {
            reveal_strlit("rbp");
            reveal_strlit("ebp");
            reveal_strlit("bp");
            reveal_strlit("bpl");
        },
        Reg::Rsp => {
            reveal_strlit("rsp");
            reveal_strlit("esp");
            reveal_strlit("sp");
            reveal_strlit("spl");
        },
    }
}

/// The number of bytes of an operand width.
pub open spec fn width_bytes(t: AsmType) -> nat {
    match t {
        AsmType::Byte => 1,
        AsmType::Word => 2,
        AsmType::Dword => 4,
        AsmType::Qword => 8,
    }
}

/// Each type is moved at the width of its size, and the sizes are those of the
/// x86-64 C types: `char` 1 byte, `short` 2, `int` 4, `long` and function
/// pointers 8.
pub proof fn lemma_type_widths(t: TypeV)
    ensures
        width_bytes(asm_type_of(t)) == type_size_of(t),
        t == TypeV::Char ==> type_size_of(t) == 1,
        t == TypeV::Short ==> type_size_of(t) == 2,
        t == TypeV::Int ==> type_size_of(t) == 4,
        t == TypeV::Long || t is Function ==> type_size_of(t) == 8,
{
}

/// A new stack slot lies right below the ones taken before: its offset is the old
/// offset plus its size, so it overlaps none of them; only when that passes
/// `i32::MAX` is the request refused.
pub proof fn lemma_stack_slot(st: CgState, size: u32)
    ensures
        sp_stack_offset(st, size) matches Ok((st2, off)) ==> off == st.stack + size && st2.stack
            == off && st2.used == st.used && st2.vars == st.vars && st2.out == st.out,
        sp_stack_offset(st, size) is Err <==> st.stack + size > i32::MAX,
{
}

/// The x86-64 mnemonics of the arithmetic operators: `+` is `add`, `-` is `sub`,
/// `*` is `imul`, `/` is `idiv`; `==` and `=` have none.
pub proof fn lemma_operator_instructions()
    ensures
        op_instr(BinOp::Plus) == Some("add"@),
        op_instr(BinOp::Minus) == Some("sub"@),
        op_instr(BinOp::Mult) == Some("imul"@),
        op_instr(BinOp::Div) == Some("idiv"@),
        op_instr(BinOp::Cmp) is None,
        op_instr(BinOp::Equal) is None,
{
}

/// Arguments are passed as the System V calling convention says: in `rdi`, `rsi`,
/// `rdx`, `rcx`, `r8`, `r9`, in that order.
pub proof fn lemma_argument_registers()
    ensures
        reg_name(arg_reg(0), AsmType::Qword) == "rdi"@,
        reg_name(arg_reg(1), AsmType::Qword) == "rsi"@,
        reg_name(arg_reg(2), AsmType::Qword) == "rdx"@,
        reg_name(arg_reg(3), AsmType::Qword) == "rcx"@,
        reg_name(arg_reg(4), AsmType::Qword) == "r8"@,
        reg_name(arg_reg(5), AsmType::Qword) == "r9"@,
{
}

/// No two (register, width) pairs share a name: the name of an operand tells the
/// register and the width.
pub proof fn lemma_reg_names_distinct(r1: Reg, t1: AsmType, r2: Reg, t2: AsmType)
    ensures
        reg_name(r1, t1) == reg_name(r2, t2) <==> (r1 == r2 && t1 == t2),
{
    lemma_decode_reg_name(r1, t1);
    lemma_decode_reg_name(r2, t2);
}


/// `[base+offset]` or `[base-offset]`.
pub open spec fn mem_text(m: MemAddr) -> Seq<char> {
    match m {
        MemAddr::Offset { reg, off } => "["@ + reg_name(reg, AsmType::Qword) + seq![
            if off < 0 {
                '-'
            } else {
                '+'
            },
        ] + spec_decimal(
            if off < 0 {
                (-off) as nat
            } else {
                off as nat
            },
        ) + "]"@,
    }
}

/// The text of a written operand.
pub open spec fn write_val_text(w: WriteVal, t: AsmType) -> Seq<char> {
    match w {
        WriteVal::Reg(r) => reg_name(r, t),
        WriteVal::Mem(m) => mem_text(m),
    }
}

/// The text of a read operand.
pub open spec fn value_text(v: Value, t: AsmType) -> Seq<char> {
    match v {
        Value::Constant(n) => spec_signed_decimal(n as int),
        Value::Reg(r) => reg_name(r, t),
        Value::Mem(m) => mem_text(m),
    }
}

/// The line of a two-operand instruction.
pub open spec fn instr_text(instr: Seq<char>, to: WriteVal, from: Value, t: AsmType) -> Seq<char> {
    "\t"@ + instr + " "@ + write_val_text(to, t) + ", "@ + value_text(from, t) + "\n"@
}

/// Whether an operand can be printed (`abs` of its offset exists).
pub open spec fn mem_ok(m: MemAddr) -> bool {
    match m {
        MemAddr::Offset { reg: _, off } => off > i32::MIN,
    }
}

pub open spec fn write_val_ok(w: WriteVal) -> bool {
    match w {
        WriteVal::Mem(m) => mem_ok(m),
        _ => true,
    }
}

pub open spec fn value_ok(v: Value) -> bool {
    match v {
        Value::Mem(m) => mem_ok(m),
        _ => true,
    }
}

/// The operand width of a type.
pub open spec fn asm_type_of(t: TypeV) -> AsmType {
    match t {
        TypeV::Char => AsmType::Byte,
        TypeV::Short => AsmType::Word,
        TypeV::Int => AsmType::Dword,
        TypeV::Long => AsmType::Qword,
        TypeV::Function(_) => AsmType::Qword,
    }
}

/// The size in bytes of a type.
pub open spec fn type_size_of(t: TypeV) -> u32 {
    match t {
        TypeV::Char => 1,
        TypeV::Short => 2,
        TypeV::Int => 4,
        TypeV::Long => 8,
        TypeV::Function(_) => 8,
    }
}

/// The state of the code generator: the assembly written so far, which registers
/// are in use, the variable table, the stack space taken by the current function's
/// variables, and the return type of the current function.
pub struct CgState {
    pub out: Seq<char>,
    pub used: Seq<bool>,
    pub vars: Map<Seq<char>, VarV>,
    pub stack: u32,
    pub ret: TypeV,
}

/// A result of code generation: the new state and a value, or an error.
pub type CgResult<T> = Result<(CgState, T), CodegenError>;

/// What the generator keeps true: one flag per register, and stack offsets that
/// fit in an `i32`.
pub open spec fn cg_wf(st: CgState) -> bool {
    &&& st.used.len() == 16
    &&& st.stack <= i32::MAX
    &&& forall|k: Seq<char>| #[trigger]
        st.vars.contains_key(k) ==> (st.vars[k].stack_offset matches Some(o) ==> o <= i32::MAX)
}

/// The used registers at the start of a function: only `rbp` and `rsp`.
pub open spec fn init_used() -> Seq<bool> {
    Seq::new(16, |i: int| i == 4 || i == 5)
}

/// The first free register at or after position `i`.
pub open spec fn first_free(used: Seq<bool>, i: nat) -> Option<nat>
    decreases 16 - i,
{
    if i >= 16 {
        None
    } else if !used[i as int] {
        Some(i)
    } else {
        first_free(used, i + 1)
    }
}

/// Takes the lowest-numbered free register.
pub open spec fn sp_next_reg(st: CgState) -> Option<(CgState, Reg)> {
    match first_free(st.used, 0) {
        Some(i) => Some((CgState { used: st.used.update(i as int, true), ..st }, reg_at(i))),
        None => None,
    }
}

/// Frees the register that holds `v`, if it is in one.
pub open spec fn sp_unused_value(st: CgState, v: Value) -> CgState {
    match v {
        Value::Reg(r) => CgState { used: st.used.update(reg_index(r) as int, false), ..st },
        _ => st,
    }
}

/// Takes `size` more bytes of stack and gives the new offset.
pub open spec fn sp_stack_offset(st: CgState, size: u32) -> CgResult<u32> {
    if st.stack + size > i32::MAX {
        Err(CodegenError::StackOverflow)
    } else {
        Ok((CgState { stack: (st.stack + size) as u32, ..st }, (st.stack + size) as u32))
    }
}

/// Appends text to the assembly.
pub open spec fn emit_text(st: CgState, text: Seq<char>) -> CgState {
    CgState { out: st.out + text, ..st }
}

/// Appends a two-operand instruction.
pub open spec fn sp_emit_binary(
    st: CgState,
    instr: Seq<char>,
    to: WriteVal,
    from: Value,
    t: AsmType,
) -> CgState {
    emit_text(st, instr_text(instr, to, from, t))
}

/// The operand that `v` is, if it can be written.
pub open spec fn spec_as_write_val(v: Value) -> Option<WriteVal> {
    match v {
        Value::Reg(r) => Some(WriteVal::Reg(r)),
        Value::Mem(m) => Some(WriteVal::Mem(m)),
        Value::Constant(_) => None,
    }
}

pub open spec fn write_val_to_value(w: WriteVal) -> Value {
    match w {
        WriteVal::Reg(r) => Value::Reg(r),
        WriteVal::Mem(m) => Value::Mem(m),
    }
}

/// A move, left out when source and destination are the same operand; a store to
/// memory is only generated for 32-bit values.
pub open spec fn sp_emit_mov(st: CgState, to: WriteVal, from: Value, t: AsmType) -> Result<
    CgState,
    CodegenError,
> {
    if spec_as_write_val(from) == Some(to) {
        Ok(st)
    } else if to is Mem {
        if t == AsmType::Dword {
            Ok(sp_emit_binary(st, "mov dword ptr"@, to, from, t))
        } else {
            Err(CodegenError::UnsupportedMove)
        }
    } else {
        Ok(sp_emit_binary(st, "mov"@, to, from, t))
    }
}

/// A writable operand holding `v`: `v` itself, or a fresh register loaded with the
/// constant.
pub open spec fn sp_into_write_val(st: CgState, v: Value) -> CgResult<WriteVal> {
    match v {
        Value::Reg(r) => Ok((st, WriteVal::Reg(r))),
        Value::Mem(m) => Ok((st, WriteVal::Mem(m))),
        Value::Constant(_) => match sp_next_reg(st) {
            None => Err(CodegenError::OutOfRegisters),
            Some((st1, r)) => match sp_emit_mov(st1, WriteVal::Reg(r), v, AsmType::Qword) {
                Err(e) => Err(e),
                Ok(st2) => Ok((st2, WriteVal::Reg(r))),
            },
        },
    }
}

/// The constant of a number literal, which must fit in an `i32`.
pub open spec fn sp_number(nb: u128) -> Result<Value, CodegenError> {
    if nb <= i32::MAX {
        Ok(Value::Constant(nb as i32))
    } else {
        Err(CodegenError::NumberTooLarge)
    }
}

/// The memory operand of the variable at `off` below the frame pointer.
pub open spec fn frame_slot(off: u32) -> MemAddr {
    MemAddr::Offset { reg: Reg::Rbp, off: (-(off as int)) as i32 }
}

/// Loads a variable into a fresh register.
pub open spec fn sp_var_use(st: CgState, name: Seq<char>) -> CgResult<Value> {
    match sp_next_reg(st) {
        None => Err(CodegenError::OutOfRegisters),
        Some((st1, reg)) => if !st1.vars.contains_key(name) {
            Err(CodegenError::Type(TypeError::UndefinedVariable))
        } else {
            match st1.vars[name].stack_offset {
                None => Err(CodegenError::NotAVariable),
                Some(off) => match sp_emit_mov(
                    st1,
                    WriteVal::Reg(reg),
                    Value::Mem(frame_slot(off)),
                    asm_type_of(st1.vars[name].var_type),
                ) {
                    Err(e) => Err(e),
                    Ok(st2) => Ok((st2, Value::Reg(reg))),
                },
            }
        },
    }
}

/// The mnemonic of an operator, for those that have one.
pub open spec fn op_instr(op: BinOp) -> Option<Seq<char>> {
    match op {
        BinOp::Plus => Some("add"@),
        BinOp::Minus => Some("sub"@),
        BinOp::Mult => Some("imul"@),
        BinOp::Div => Some("idiv"@),
        _ => None,
    }
}

/// A binary operation once both operands are generated: a constant left operand
/// with a register right one are swapped, the result is written to the left
/// operand (in a register when it is a constant), and the right operand's register
/// is freed.
pub open spec fn sp_finish_binop(st: CgState, lv: Value, rv: Value, op: BinOp, ty: TypeV) -> CgResult<
    Value,
> {
    let l = if lv is Constant && rv is Reg {
        rv
    } else {
        lv
    };
    let r = if lv is Constant && rv is Reg {
        lv
    } else {
        rv
    };
    match sp_into_write_val(st, l) {
        Err(e) => Err(e),
        Ok((st1, res)) => match op_instr(op) {
            None => Err(CodegenError::UnsupportedOperator(op)),
            Some(instr) => {
                let st2 = sp_emit_binary(st1, instr, res, r, asm_type_of(ty));
                Ok((sp_unused_value(st2, r), write_val_to_value(res)))
            },
        },
    }
}

/// The first position at or after `i` where `s` holds `v`.
pub open spec fn position_from(s: Seq<Value>, v: Value, i: nat) -> Option<nat>
    decreases s.len() - i,
{
    if i >= s.len() {
        None
    } else if s[i as int] == v {
        Some(i)
    } else {
        position_from(s, v, i + 1)
    }
}

/// Moves the first `n` argument values into the argument registers.
pub open spec fn sp_arg_movs(st: CgState, vals: Seq<Value>, tys: Seq<AsmType>, n: nat) -> Result<
    CgState,
    CodegenError,
>
    decreases n,
{
    if n == 0 {
        Ok(st)
    } else {
        match sp_arg_movs(st, vals, tys, (n - 1) as nat) {
            Err(e) => Err(e),
            Ok(st1) => if n - 1 >= 6 {
                Err(CodegenError::TooManyArgs)
            } else {
                sp_emit_mov(
                    st1,
                    WriteVal::Reg(arg_reg((n - 1) as nat)),
                    vals[n - 1],
                    tys[n - 1],
                )
            },
        }
    }
}

/// Frees the registers of the first `n` values.
pub open spec fn sp_free_values(st: CgState, vals: Seq<Value>, n: nat) -> CgState
    decreases n,
{
    if n == 0 {
        st
    } else {
        sp_unused_value(sp_free_values(st, vals, (n - 1) as nat), vals[n - 1])
    }
}

/// A call once its arguments are generated: an argument left in `rax` is moved to
/// a fresh register, the arguments are moved to the argument registers, the call is
/// emitted, `rax` (the result) is taken and the arguments' registers are freed.
pub open spec fn sp_finish_call(
    st: CgState,
    fun: ExprV,
    vals: Seq<Value>,
    tys: Seq<AsmType>,
    ret_asm: AsmType,
) -> CgResult<Value> {
    let moved: CgResult<Seq<Value>> = match position_from(vals, Value::Reg(Reg::Rax), 0) {
        None => Ok((st, vals)),
        Some(p) => match sp_next_reg(st) {
            None => Err(CodegenError::OutOfRegisters),
            Some((st1, r)) => match sp_emit_mov(
                st1,
                WriteVal::Reg(r),
                Value::Reg(Reg::Rax),
                ret_asm,
            ) {
                Err(e) => Err(e),
                Ok(st2) => Ok((st2, vals.update(p as int, Value::Reg(r)))),
            },
        },
    };
    match moved {
        Err(e) => Err(e),
        Ok((st3, vals3)) => match sp_arg_movs(st3, vals3, tys, vals3.len()) {
            Err(e) => Err(e),
            Ok(st4) => match fun {
                ExprV::VarUse(name) => {
                    let st5 = emit_text(st4, "\tcall "@ + name + "\n"@);
                    let st6 = CgState { used: st5.used.update(0, true), ..st5 };
                    Ok((sp_free_values(st6, vals3, vals3.len()), Value::Reg(Reg::Rax)))
                },
                _ => Err(CodegenError::IndirectCall),
            },
        },
    }
}

/// The operand widths of the types of the arguments, or the first type error.
pub open spec fn sp_arg_types(args: Seq<ExprV>, vars: Map<Seq<char>, VarV>) -> Result<
    Seq<AsmType>,
    TypeError,
>
    decreases args.len(),
{
    if args.len() == 0 {
        Ok(seq![])
    } else {
        match sp_arg_types(args.drop_last(), vars) {
            Err(e) => Err(e),
            Ok(ts) => match spec_get_type(args.last(), vars) {
                Err(e) => Err(e),
                Ok(t) => Ok(ts.push(asm_type_of(t))),
            },
        }
    }
}

/// Generates the code of an expression, and says where its value is.
pub open spec fn sp_cg_expr(st: CgState, e: ExprV) -> CgResult<Value>
    decreases e, 2nat,
{
    match e {
        ExprV::Number(nb) => match sp_number(nb) {
            Ok(v) => Ok((st, v)),
            Err(err) => Err(err),
        },
        ExprV::VarUse(name) => sp_var_use(st, name),
        ExprV::BinOp { .. } => match spec_get_type(e, st.vars) {
            Err(te) => Err(CodegenError::Type(te)),
            Ok(ty) => sp_binop(st, e, ty),
        },
        ExprV::FunctionCall { .. } => sp_call(st, e),
    }
}

/// A binary operation `e` of type `ty`: the left operand, then the right one.
pub open spec fn sp_binop(st: CgState, e: ExprV, ty: TypeV) -> CgResult<Value>
    decreases e, 1nat,
{
    match e {
        ExprV::BinOp { lhs, op, rhs } => match sp_cg_expr(st, *lhs) {
            Err(err) => Err(err),
            Ok((st1, lv)) => match sp_cg_expr(st1, *rhs) {
                Err(err) => Err(err),
                Ok((st2, rv)) => sp_finish_binop(st2, lv, rv, op, ty),
            },
        },
        _ => Err(CodegenError::UnsupportedStatement),
    }
}

/// A call `e`: the return type of the function, the arguments in order, their
/// widths, then the call itself.
pub open spec fn sp_call(st: CgState, e: ExprV) -> CgResult<Value>
    decreases e, 1nat,
{
    match e {
        ExprV::FunctionCall { fun, args } => match spec_get_type(*fun, st.vars) {
            Err(te) => Err(CodegenError::Type(te)),
            Ok(TypeV::Function(f)) => match sp_cg_args(st, args) {
                Err(err) => Err(err),
                Ok((st1, vals)) => match sp_arg_types(args, st1.vars) {
                    Err(te) => Err(CodegenError::Type(te)),
                    Ok(tys) => sp_finish_call(st1, *fun, vals, tys, asm_type_of(f.ret_type)),
                },
            },
            Ok(_) => Err(CodegenError::Type(TypeError::NotAFunction)),
        },
        _ => Err(CodegenError::UnsupportedStatement),
    }
}

/// Generates the arguments of a call, first to last.
pub open spec fn sp_cg_args(st: CgState, args: Seq<ExprV>) -> CgResult<Seq<Value>>
    decreases args, 0nat,
{
    if args.len() == 0 {
        Ok((st, seq![]))
    } else {
        match sp_cg_args(st, args.subrange(0, args.len() - 1)) {
            Err(err) => Err(err),
            Ok((st1, vals)) => match sp_cg_expr(st1, args[args.len() - 1]) {
                Err(err) => Err(err),
                Ok((st2, v)) => Ok((st2, vals.push(v))),
            },
        }
    }
}

/// The end of a function body before `ret`.
pub const FUN_EPILOGUE: &'static str = "\tpop rbp\n";

/// The start of a function body.
pub const FUN_PRELUDE: &'static str = "    push rbp\n    mov rbp, rsp\n";

/// The start of every generated file.
pub const ASM_TEMPLATE: &'static str = "\n    .intel_syntax noprefix\n    .text\n";

/// The most arguments a function can take (one register each).
pub const MAX_ARGS: usize = 6;

/// `return e;`: `e` moved to `rax` at the return type's width, then the epilogue.
pub open spec fn sp_return(st: CgState, e: ExprV) -> Result<CgState, CodegenError> {
    match sp_cg_expr(st, e) {
        Err(err) => Err(err),
        Ok((st1, v)) => match sp_emit_mov(st1, WriteVal::Reg(Reg::Rax), v, asm_type_of(st1.ret)) {
            Err(err) => Err(err),
            Ok(st2) => Ok(emit_text(emit_text(st2, FUN_EPILOGUE@), "\tret\n"@)),
        },
    }
}

/// `type name = val;`: the value, a new stack slot for the variable, the store.
pub open spec fn sp_var_decl(st: CgState, name: Seq<char>, ty: TypeV, val: ExprV) -> Result<
    CgState,
    CodegenError,
> {
    match sp_cg_expr(st, val) {
        Err(err) => Err(err),
        Ok((st1, v)) => match sp_stack_offset(st1, type_size_of(ty)) {
            Err(err) => Err(err),
            Ok((st2, off)) => {
                let st3 = CgState {
                    vars: st2.vars.insert(name, VarV { var_type: ty, stack_offset: Some(off) }),
                    ..st2
                };
                match sp_emit_mov(st3, WriteVal::Mem(frame_slot(off)), v, asm_type_of(ty)) {
                    Err(err) => Err(err),
                    Ok(st4) => Ok(sp_unused_value(st4, v)),
                }
            },
        },
    }
}

/// A statement.
pub open spec fn sp_statement(st: CgState, s: StmtV) -> Result<CgState, CodegenError> {
    match s {
        StmtV::Return(e) => sp_return(st, e),
        StmtV::Var { name, var_type, val } => sp_var_decl(st, name, var_type, val),
        StmtV::Expr(e) => match sp_cg_expr(st, e) {
            Err(err) => Err(err),
            Ok((st1, _)) => Ok(st1),
        },
        StmtV::If { .. } => Err(CodegenError::UnsupportedStatement),
    }
}

/// Statements in order.
pub open spec fn sp_statements(st: CgState, body: Seq<StmtV>) -> Result<CgState, CodegenError>
    decreases body.len(),
{
    if body.len() == 0 {
        Ok(st)
    } else {
        match sp_statements(st, body.drop_last()) {
            Err(err) => Err(err),
            Ok(st1) => sp_statement(st1, body.last()),
        }
    }
}

/// A stack slot for each of the first `n` parameters, in order, entered in the
/// variable table; gives the slots' offsets.
pub open spec fn sp_declare_args(st: CgState, args: Seq<ArgV>, n: nat) -> CgResult<Seq<u32>>
    decreases n,
{
    if n == 0 {
        Ok((st, seq![]))
    } else {
        match sp_declare_args(st, args, (n - 1) as nat) {
            Err(err) => Err(err),
            Ok((st1, offs)) => match sp_stack_offset(st1, type_size_of(args[n - 1].arg_type)) {
                Err(err) => Err(err),
                Ok((st2, off)) => Ok(
                    (
                        CgState {
                            vars: st2.vars.insert(
                                args[n - 1].name,
                                VarV { var_type: args[n - 1].arg_type, stack_offset: Some(off) },
                            ),
                            ..st2
                        },
                        offs.push(off),
                    ),
                ),
            },
        }
    }
}

/// Stores the first `n` argument registers in the parameters' stack slots.
pub open spec fn sp_store_args(st: CgState, args: Seq<ArgV>, offs: Seq<u32>, n: nat) -> Result<
    CgState,
    CodegenError,
>
    decreases n,
{
    if n == 0 {
        Ok(st)
    } else {
        match sp_store_args(st, args, offs, (n - 1) as nat) {
            Err(err) => Err(err),
            Ok(st1) => sp_emit_mov(
                st1,
                WriteVal::Mem(frame_slot(offs[n - 1])),
                Value::Reg(arg_reg((n - 1) as nat)),
                asm_type_of(args[n - 1].arg_type),
            ),
        }
    }
}

/// The table without the first `n` parameters.
pub open spec fn remove_args(vars: Map<Seq<char>, VarV>, args: Seq<ArgV>, n: nat) -> Map<
    Seq<char>,
    VarV,
>
    decreases n,
{
    if n == 0 {
        vars
    } else {
        remove_args(vars, args, (n - 1) as nat).remove(args[n - 1].name)
    }
}

/// The types of the parameters.
pub open spec fn arg_types(args: Seq<ArgV>) -> Seq<TypeV> {
    args.map_values(|a: ArgV| a.arg_type)
}

/// The type of a function.
pub open spec fn function_type_of(ret: TypeV, args: Seq<ArgV>) -> TypeV {
    TypeV::Function(Box::new(FunctionTypeV { ret_type: ret, args_type: arg_types(args) }))
}

/// A function: its label, the prelude, the parameters stored to the stack, the
/// body; then its parameters leave the table, the stack offset starts over, and
/// the function's name enters the table with its type.
pub open spec fn sp_function(
    st: CgState,
    name: Seq<char>,
    body: Seq<StmtV>,
    ret: TypeV,
    args: Seq<ArgV>,
) -> Result<CgState, CodegenError> {
    if args.len() > 6 {
        Err(CodegenError::TooManyArgs)
    } else {
        let st1 = CgState {
            out: st.out + "\t.globl\t"@ + name + "\n"@ + name + ":\n"@ + FUN_PRELUDE@,
            used: init_used(),
            ret,
            ..st
        };
        match sp_declare_args(st1, args, args.len()) {
            Err(err) => Err(err),
            Ok((st2, offs)) => match sp_store_args(st2, args, offs, args.len()) {
                Err(err) => Err(err),
                Ok(st3) => match sp_statements(st3, body) {
                    Err(err) => Err(err),
                    Ok(st4) => Ok(
                        CgState {
                            vars: remove_args(st4.vars, args, args.len()).insert(
                                name,
                                VarV { var_type: function_type_of(ret, args), stack_offset: None },
                            ),
                            stack: 0,
                            ..st4
                        },
                    ),
                },
            },
        }
    }
}

/// A top-level declaration.
#[verifier::opaque]
pub open spec fn sp_toplevel(st: CgState, t: TopV) -> Result<CgState, CodegenError> {
    match t {
        TopV::Function { name, args, body, return_type } => sp_function(
            st,
            name,
            body,
            return_type,
            args,
        ),
    }
}

/// Top-level declarations in order.
pub open spec fn sp_toplevels(st: CgState, tops: Seq<TopV>) -> Result<CgState, CodegenError>
    decreases tops.len(),
{
    if tops.len() == 0 {
        Ok(st)
    } else {
        match sp_toplevels(st, tops.drop_last()) {
            Err(err) => Err(err),
            Ok(st1) => sp_toplevel(st1, tops.last()),
        }
    }
}

/// `rbp` and `rsp`, which hold the stack frame, are marked used.
pub open spec fn frame_reserved(st: CgState) -> bool {
    st.used.len() == 16 && st.used[4] && st.used[5]
}

/// A value an expression can leave: a constant, or a register other than `rbp`
/// and `rsp`.
pub open spec fn expr_value_ok(v: Value) -> bool {
    match v {
        Value::Constant(_) => true,
        Value::Reg(r) => r != Reg::Rbp && r != Reg::Rsp,
        Value::Mem(_) => false,
    }
}

proof fn lemma_first_free(used: Seq<bool>, i: nat)
    requires
        used.len() == 16,
    ensures
        first_free(used, i) matches Some(j) ==> i <= j < 16 && !used[j as int],
    decreases 16 - i,
{
    if i < 16 && used[i as int] {
        lemma_first_free(used, i + 1);
    }
}

/// Freeing the register that was just handed out gives back the state from before:
/// taking a register and releasing it changes nothing.
pub proof fn lemma_next_reg_then_free(st: CgState)
    requires
        st.used.len() == 16,
    ensures
        sp_next_reg(st) matches Some((st1, r)) ==> sp_unused_value(st1, Value::Reg(r)) == st,
{
    lemma_first_free(st.used, 0);
    if let Some(i) = first_free(st.used, 0) {
        assert(reg_index(reg_at(i)) == i);
        assert(st.used.update(i as int, true).update(i as int, false) =~= st.used);
    }
}

/// A register handed out is never `rbp` or `rsp` while those are marked used.
proof fn lemma_next_reg_frame(st: CgState)
    requires
        frame_reserved(st),
    ensures
        sp_next_reg(st) matches Some((st1, r)) ==> frame_reserved(st1) && r != Reg::Rbp && r
            != Reg::Rsp,
{
    lemma_first_free(st.used, 0);
}

proof fn lemma_emit_mov_used(st: CgState, to: WriteVal, from: Value, t: AsmType)
    ensures
        sp_emit_mov(st, to, from, t) matches Ok(st2) ==> st2.used == st.used,
{
}

proof fn lemma_into_write_val_frame(st: CgState, v: Value)
    requires
        frame_reserved(st),
        expr_value_ok(v),
    ensures
        sp_into_write_val(st, v) matches Ok((st2, w)) ==> frame_reserved(st2) && expr_value_ok(
            write_val_to_value(w),
        ),
{
    lemma_next_reg_frame(st);
    if let Some((st1, r)) = sp_next_reg(st) {
        lemma_emit_mov_used(st1, WriteVal::Reg(r), v, AsmType::Qword);
    }
}

proof fn lemma_arg_movs_used(st: CgState, vals: Seq<Value>, tys: Seq<AsmType>, n: nat)
    ensures
        sp_arg_movs(st, vals, tys, n) matches Ok(st2) ==> st2.used == st.used,
    decreases n,
{
    if n > 0 {
        lemma_arg_movs_used(st, vals, tys, (n - 1) as nat);
        if let Ok(st1) = sp_arg_movs(st, vals, tys, (n - 1) as nat) {
            if n - 1 < 6 {
                lemma_emit_mov_used(st1, WriteVal::Reg(arg_reg((n - 1) as nat)), vals[n - 1], tys[n - 1]);
            }
        }
    }
}

proof fn lemma_free_values_frame(st: CgState, vals: Seq<Value>, n: nat)
    requires
        frame_reserved(st),
        n <= vals.len(),
        forall|j: int| 0 <= j < vals.len() ==> expr_value_ok(#[trigger] vals[j]),
    ensures
        frame_reserved(sp_free_values(st, vals, n)),
    decreases n,
{
    if n > 0 {
        lemma_free_values_frame(st, vals, (n - 1) as nat);
        assert(expr_value_ok(vals[n - 1]));
    }
}

proof fn lemma_finish_call_frame(
    st: CgState,
    fun: ExprV,
    vals: Seq<Value>,
    tys: Seq<AsmType>,
    ret_asm: AsmType,
)
    requires
        frame_reserved(st),
        forall|j: int| 0 <= j < vals.len() ==> expr_value_ok(#[trigger] vals[j]),
    ensures
        sp_finish_call(st, fun, vals, tys, ret_asm) matches Ok((st2, v)) ==> frame_reserved(st2)
            && expr_value_ok(v),
{
    lemma_next_reg_frame(st);
    lemma_position_from(vals, Value::Reg(Reg::Rax), 0);
    let moved: CgResult<Seq<Value>> = match position_from(vals, Value::Reg(Reg::Rax), 0) {
        None => Ok((st, vals)),
        Some(p) => match sp_next_reg(st) {
            None => Err(CodegenError::OutOfRegisters),
            Some((st1, r)) => match sp_emit_mov(
                st1,
                WriteVal::Reg(r),
                Value::Reg(Reg::Rax),
                ret_asm,
            ) {
                Err(e) => Err(e),
                Ok(st2) => Ok((st2, vals.update(p as int, Value::Reg(r)))),
            },
        },
    };
    if let Some(p) = position_from(vals, Value::Reg(Reg::Rax), 0) {
        if let Some((st1, r)) = sp_next_reg(st) {
            lemma_emit_mov_used(st1, WriteVal::Reg(r), Value::Reg(Reg::Rax), ret_asm);
        }
    }
    if let Ok((st3, vals3)) = moved {
        assert forall|j: int| 0 <= j < vals3.len() implies expr_value_ok(#[trigger] vals3[j]) by {
            if let Some(p) = position_from(vals, Value::Reg(Reg::Rax), 0) {
                if j != p {
                    assert(vals3[j] == vals[j]);
                }
            } else {
                assert(vals3[j] == vals[j]);
            }
        }
        lemma_arg_movs_used(st3, vals3, tys, vals3.len());
        if let Ok(st4) = sp_arg_movs(st3, vals3, tys, vals3.len()) {
            if let ExprV::VarUse(name) = fun {
                let st5 = emit_text(st4, "\tcall "@ + name + "\n"@);
                let st6 = CgState { used: st5.used.update(0, true), ..st5 };
                lemma_free_values_frame(st6, vals3, vals3.len());
            }
        }
    }
}

proof fn lemma_position_from(s: Seq<Value>, v: Value, i: nat)
    ensures
        position_from(s, v, i) matches Some(p) ==> i <= p < s.len() && s[p as int] == v,
    decreases s.len() - i,
{
    if i < s.len() && s[i as int] != v {
        lemma_position_from(s, v, i + 1);
    }
}

proof fn lemma_cg_args_frame(st: CgState, args: Seq<ExprV>)
    requires
        frame_reserved(st),
    ensures
        sp_cg_args(st, args) matches Ok((st2, vals)) ==> frame_reserved(st2) && forall|j: int|
            0 <= j < vals.len() ==> expr_value_ok(#[trigger] vals[j]),
    decreases args, 0nat,
{
    if args.len() > 0 {
        let init = args.subrange(0, args.len() - 1);
        lemma_cg_args_frame(st, init);
        if let Ok((st1, vals)) = sp_cg_args(st, init) {
            lemma_expr_frame(st1, args[args.len() - 1]);
        }
    }
}

proof fn lemma_binop_frame(st: CgState, e: ExprV, ty: TypeV)
    requires
        frame_reserved(st),
    ensures
        sp_binop(st, e, ty) matches Ok((st2, v)) ==> frame_reserved(st2) && expr_value_ok(v),
    decreases e, 1nat,
{
    if let ExprV::BinOp { lhs, op, rhs } = e {
        lemma_expr_frame(st, *lhs);
        if let Ok((st1, lv)) = sp_cg_expr(st, *lhs) {
            lemma_expr_frame(st1, *rhs);
            if let Ok((st2, rv)) = sp_cg_expr(st1, *rhs) {
                let l = if lv is Constant && rv is Reg {
                    rv
                } else {
                    lv
                };
                lemma_into_write_val_frame(st2, l);
            }
        }
    }
}

proof fn lemma_call_frame(st: CgState, e: ExprV)
    requires
        frame_reserved(st),
    ensures
        sp_call(st, e) matches Ok((st2, v)) ==> frame_reserved(st2) && expr_value_ok(v),
    decreases e, 1nat,
{
    if let ExprV::FunctionCall { fun, args } = e {
        lemma_cg_args_frame(st, args);
        if let Ok(TypeV::Function(f)) = spec_get_type(*fun, st.vars) {
            if let Ok((st1, vals)) = sp_cg_args(st, args) {
                if let Ok(tys) = sp_arg_types(args, st1.vars) {
                    lemma_finish_call_frame(st1, *fun, vals, tys, asm_type_of(f.ret_type));
                }
            }
        }
    }
}

/// Generating an expression keeps `rbp` and `rsp` reserved, and never leaves the
/// expression's value in either of them (nor in memory).
pub proof fn lemma_expr_frame(st: CgState, e: ExprV)
    requires
        frame_reserved(st),
    ensures
        sp_cg_expr(st, e) matches Ok((st2, v)) ==> frame_reserved(st2) && expr_value_ok(v),
    decreases e, 2nat,
{
    match e {
        ExprV::VarUse(name) => {
            lemma_next_reg_frame(st);
            if let Some((st1, reg)) = sp_next_reg(st) {
                if st1.vars.contains_key(name) {
                    if let Some(off) = st1.vars[name].stack_offset {
                        lemma_emit_mov_used(
                            st1,
                            WriteVal::Reg(reg),
                            Value::Mem(frame_slot(off)),
                            asm_type_of(st1.vars[name].var_type),
                        );
                    }
                }
            }
        },
        ExprV::BinOp { .. } => {
            if let Ok(ty) = spec_get_type(e, st.vars) {
                lemma_binop_frame(st, e, ty);
            }
        },
        ExprV::FunctionCall { .. } => {
            lemma_call_frame(st, e);
        },
        _ => {},
    }
}

/// Whether an expression contains no call.
pub open spec fn call_free(e: ExprV) -> bool
    decreases e,
{
    match e {
        ExprV::BinOp { lhs, op: _, rhs } => call_free(*lhs) && call_free(*rhs),
        ExprV::FunctionCall { .. } => false,
        _ => true,
    }
}

/// Every register marked used in `a` is marked used in `b`.
pub open spec fn regs_kept(a: Seq<bool>, b: Seq<bool>) -> bool {
    forall|i: int| 0 <= i < 16 && #[trigger] a[i] ==> b[i]
}

proof fn lemma_regs_kept_trans(a: Seq<bool>, b: Seq<bool>, c: Seq<bool>)
    requires
        regs_kept(a, b),
        regs_kept(b, c),
    ensures
        regs_kept(a, c),
{
    assert forall|i: int| 0 <= i < 16 && #[trigger] a[i] implies c[i] by {
        assert(b[i]);
    }
}

proof fn lemma_reg_at_index(i: nat)
    requires
        i < 16,
    ensures
        reg_index(reg_at(i)) == i,
{
}

/// Taking a register marks a register that was free, and only it.
proof fn lemma_next_reg_fresh(st: CgState)
    requires
        st.used.len() == 16,
    ensures
        sp_next_reg(st) matches Some((st1, r)) ==> {
            &&& reg_index(r) < 16
            &&& !st.used[reg_index(r) as int]
            &&& st1.used == st.used.update(reg_index(r) as int, true)
            &&& st1.vars == st.vars
        },
{
    lemma_first_free(st.used, 0);
    if let Some(i) = first_free(st.used, 0) {
        lemma_reg_at_index(i);
    }
}

/// For an expression without calls, the register that holds its value is one that
/// was free before and is marked used after, and every register used before stays
/// used: a binary operation frees its right operand's register, never its result's.
pub proof fn lemma_result_register_kept(st: CgState, e: ExprV)
    requires
        st.used.len() == 16,
        call_free(e),
    ensures
        sp_cg_expr(st, e) matches Ok((st2, v)) ==> {
            &&& st2.used.len() == 16
            &&& regs_kept(st.used, st2.used)
            &&& (v matches Value::Reg(r) ==> st2.used[reg_index(r) as int] && !st.used[reg_index(r) as int])
            &&& !(v is Mem)
        },
    decreases e,
{
    match e {
        ExprV::Number(_) => {},
        ExprV::VarUse(name) => {
            lemma_next_reg_fresh(st);
            if let Some((st1, reg)) = sp_next_reg(st) {
                if st1.vars.contains_key(name) {
                    if let Some(off) = st1.vars[name].stack_offset {
                        lemma_emit_mov_used(
                            st1,
                            WriteVal::Reg(reg),
                            Value::Mem(frame_slot(off)),
                            asm_type_of(st1.vars[name].var_type),
                        );
                    }
                }
            }
        },
        ExprV::BinOp { lhs, op, rhs } => {
            if let Ok(ty) = spec_get_type(e, st.vars) {
                lemma_result_register_kept(st, *lhs);
                if let Ok((st1, lv)) = sp_cg_expr(st, *lhs) {
                    lemma_result_register_kept(st1, *rhs);
                    if let Ok((st2, rv)) = sp_cg_expr(st1, *rhs) {
                        lemma_regs_kept_trans(st.used, st1.used, st2.used);
                        lemma_finish_binop_kept(st, st1, st2, lv, rv, op, ty);
                    }
                }
            }
        },
        ExprV::FunctionCall { .. } => {},
    }
}

proof fn lemma_finish_binop_kept(
    st: CgState,
    st1: CgState,
    st2: CgState,
    lv: Value,
    rv: Value,
    op: BinOp,
    ty: TypeV,
)
    requires
        st.used.len() == 16,
        st1.used.len() == 16,
        st2.used.len() == 16,
        regs_kept(st.used, st1.used),
        regs_kept(st1.used, st2.used),
        lv matches Value::Reg(r) ==> st1.used[reg_index(r) as int] && !st.used[reg_index(r) as int],
        rv matches Value::Reg(r) ==> st2.used[reg_index(r) as int] && !st1.used[reg_index(r) as int],
        !(lv is Mem),
        !(rv is Mem),
    ensures
        sp_finish_binop(st2, lv, rv, op, ty) matches Ok((st3, v)) ==> {
            &&& st3.used.len() == 16
            &&& regs_kept(st.used, st3.used)
            &&& (v matches Value::Reg(r) ==> st3.used[reg_index(r) as int] && !st.used[reg_index(r) as int])
            &&& !(v is Mem)
        },
{
    lemma_regs_kept_trans(st.used, st1.used, st2.used);
    if lv is Constant && rv is Reg {
        let r2 = rv->Reg_0;
        assert(!st.used[reg_index(r2) as int]);
    } else if let Value::Reg(r1) = lv {
        assert(st2.used[reg_index(r1) as int]);
        if let Value::Reg(r2) = rv {
            assert(reg_index(r1) != reg_index(r2));
            assert(r1 != r2);
            let u = st2.used.update(reg_index(r2) as int, false);
            assert forall|i: int| 0 <= i < 16 && #[trigger] st.used[i] implies u[i] by {
                assert(st1.used[i]);
                assert(st2.used[i]);
            }
        }
    } else {
        lemma_next_reg_fresh(st2);
        if let Some((st3, r)) = sp_next_reg(st2) {
            lemma_emit_mov_used(st3, WriteVal::Reg(r), lv, AsmType::Qword);
            assert(!st.used[reg_index(r) as int]);
            assert forall|i: int| 0 <= i < 16 && #[trigger] st.used[i] implies st3.used[i] by {
                assert(st2.used[i]);
            }
        }
    }
}

proof fn lemma_statement_frame(st: CgState, s: StmtV)
    requires
        frame_reserved(st),
    ensures
        sp_statement(st, s) matches Ok(st2) ==> frame_reserved(st2),
{
    match s {
        StmtV::Return(e) => {
            lemma_expr_frame(st, e);
            if let Ok((st1, v)) = sp_cg_expr(st, e) {
                lemma_emit_mov_used(st1, WriteVal::Reg(Reg::Rax), v, asm_type_of(st1.ret));
            }
        },
        StmtV::Var { name, var_type, val } => {
            lemma_expr_frame(st, val);
            if let Ok((st1, v)) = sp_cg_expr(st, val) {
                if let Ok((st2, off)) = sp_stack_offset(st1, type_size_of(var_type)) {
                    let st3 = CgState {
                        vars: st2.vars.insert(
                            name,
                            VarV { var_type: var_type, stack_offset: Some(off) },
                        ),
                        ..st2
                    };
                    lemma_emit_mov_used(st3, WriteVal::Mem(frame_slot(off)), v, asm_type_of(var_type));
                }
            }
        },
        StmtV::Expr(e) => {
            lemma_expr_frame(st, e);
        },
        _ => {},
    }
}

proof fn lemma_statements_frame(st: CgState, body: Seq<StmtV>)
    requires
        frame_reserved(st),
    ensures
        sp_statements(st, body) matches Ok(st2) ==> frame_reserved(st2),
    decreases body.len(),
{
    if body.len() > 0 {
        lemma_statements_frame(st, body.drop_last());
        if let Ok(st1) = sp_statements(st, body.drop_last()) {
            lemma_statement_frame(st1, body.last());
        }
    }
}

proof fn lemma_declare_args_used(st: CgState, args: Seq<ArgV>, n: nat)
    ensures
        sp_declare_args(st, args, n) matches Ok((st2, _)) ==> st2.used == st.used,
    decreases n,
{
    if n > 0 {
        lemma_declare_args_used(st, args, (n - 1) as nat);
    }
}

proof fn lemma_store_args_used(st: CgState, args: Seq<ArgV>, offs: Seq<u32>, n: nat)
    ensures
        sp_store_args(st, args, offs, n) matches Ok(st2) ==> st2.used == st.used,
    decreases n,
{
    if n > 0 {
        lemma_store_args_used(st, args, offs, (n - 1) as nat);
        if let Ok(st1) = sp_store_args(st, args, offs, (n - 1) as nat) {
            lemma_emit_mov_used(
                st1,
                WriteVal::Mem(frame_slot(offs[n - 1])),
                Value::Reg(arg_reg((n - 1) as nat)),
                asm_type_of(args[n - 1].arg_type),
            );
        }
    }
}

proof fn lemma_toplevel_frame(st: CgState, t: TopV)
    ensures
        sp_toplevel(st, t) matches Ok(st2) ==> frame_reserved(st2),
{
    reveal(sp_toplevel);
    let TopV::Function { name, args, body, return_type } = t;
    if args.len() <= 6 {
        let st1 = CgState {
            out: st.out + "\t.globl\t"@ + name + "\n"@ + name + ":\n"@ + FUN_PRELUDE@,
            used: init_used(),
            ret: return_type,
            ..st
        };
        lemma_declare_args_used(st1, args, args.len());
        if let Ok((st2, offs)) = sp_declare_args(st1, args, args.len()) {
            lemma_store_args_used(st2, args, offs, args.len());
            if let Ok(st3) = sp_store_args(st2, args, offs, args.len()) {
                lemma_statements_frame(st3, body);
            }
        }
    }
}

/// `rbp` and `rsp` stay reserved through a whole program: whatever the generator
/// has done, both are marked used, so no register it hands out is one of them.
pub proof fn lemma_frame_registers_reserved(prog: Seq<TopV>)
    ensures
        sp_toplevels(initial_state(), prog) matches Ok(st) ==> frame_reserved(st),
    decreases prog.len(),
{
    if prog.len() == 0 {
        assert(frame_reserved(initial_state()));
    } else {
        lemma_frame_registers_reserved(prog.drop_last());
        if let Ok(st1) = sp_toplevels(initial_state(), prog.drop_last()) {
            lemma_toplevel_frame(st1, prog.last());
        }
    }
}

/// Once a function is compiled, a call of its name has the function's return type.
pub proof fn lemma_compiled_function_callable(
    st: CgState,
    name: Seq<char>,
    body: Seq<StmtV>,
    ret: TypeV,
    args: Seq<ArgV>,
    call_args: Seq<ExprV>,
)
    ensures
        sp_function(st, name, body, ret, args) matches Ok(st2) ==> spec_get_type(
            ExprV::FunctionCall { fun: Box::new(ExprV::VarUse(name)), args: call_args },
            st2.vars,
        ) == Ok::<TypeV, TypeError>(ret),
{
    if args.len() <= 6 {
        let st1 = CgState {
            out: st.out + "\t.globl\t"@ + name + "\n"@ + name + ":\n"@ + FUN_PRELUDE@,
            used: init_used(),
            ret,
            ..st
        };
        if let Ok((st2, offs)) = sp_declare_args(st1, args, args.len()) {
            if let Ok(st3) = sp_store_args(st2, args, offs, args.len()) {
                if let Ok(st4) = sp_statements(st3, body) {
                    let vars = remove_args(st4.vars, args, args.len()).insert(
                        name,
                        VarV { var_type: function_type_of(ret, args), stack_offset: None },
                    );
                    assert(vars.contains_key(name));
                    assert(vars[name].var_type == function_type_of(ret, args));
                    assert(spec_get_type(ExprV::VarUse(name), vars) == Ok::<TypeV, TypeError>(
                        function_type_of(ret, args),
                    ));
                }
            }
        }
    }
}

/// The state before the first declaration.
pub open spec fn initial_state() -> CgState {
    CgState { out: ASM_TEMPLATE@, used: init_used(), vars: no_vars(), stack: 0, ret: TypeV::Int }
}

/// The assembly of a whole program, or why it cannot be compiled.
pub open spec fn spec_codegen(prog: Seq<TopV>) -> Result<Seq<char>, CodegenError> {
    match sp_toplevels(initial_state(), prog) {
        Err(err) => Err(err),
        Ok(st) => Ok(st.out),
    }
}

impl Reg {
    /// The name of this register at an operand width.
    pub fn to_addressing_str(self, reg_type: AsmType) -> (r: &'static str)
        ensures
            r@ == reg_name(self, reg_type),
    {
        match self {
            Reg::Rax => match reg_type {
                AsmType::Qword => "rax",
                AsmType::Dword => "eax",
                AsmType::Word => "ax",
                AsmType::Byte => "al",
            },
            Reg::Rbx => match reg_type {
                AsmType::Qword => "rbx",
                AsmType::Dword => "ebx",
                AsmType::Word => "bx",
                AsmType::Byte => "bl",
            },
            Reg::Rcx => match reg_type {
                AsmType::Qword => "rcx",
                AsmType::Dword => "ecx",
                AsmType::Word => "cx",
                AsmType::Byte => "cl",
            },
            Reg::Rdx => match reg_type {
                AsmType::Qword => "rdx",
                AsmType::Dword => "edx",
                AsmType::Word => "dx",
                AsmType::Byte => "dl",
            },
            Reg::Rsi => match reg_type {
                AsmType::Qword => "rsi",
                AsmType::Dword => "esi",
                AsmType::Word => "si",
                AsmType::Byte => "sil",
            },
            Reg::Rdi => match reg_type {
                AsmType::Qword => "rdi",
                AsmType::Dword => "edi",
                AsmType::Word => "di",
                AsmType::Byte => "dil",
            },
            Reg::R8 => match reg_type {
                AsmType::Qword => "r8",
                AsmType::Dword => "r8d",
                AsmType::Word => "r8w",
                AsmType::Byte => "r8b",
            },
            Reg::R9 => match reg_type {
                AsmType::Qword => "r9",
                AsmType::Dword => "r9d",
                AsmType::Word => "r9w",
                AsmType::Byte => "r9b",
            },
            Reg::R10 => match reg_type {
                AsmType::Qword => "r10",
                AsmType::Dword => "r10d",
                AsmType::Word => "r10w",
                AsmType::Byte => "r10b",
            },
            Reg::R11 => match reg_type {
                AsmType::Qword => "r11",
                AsmType::Dword => "r11d",
                AsmType::Word => "r11w",
                AsmType::Byte => "r11b",
            },
            Reg::R12 => match reg_type {
                AsmType::Qword => "r12",
                AsmType::Dword => "r12d",
                AsmType::Word => "r12w",
                AsmType::Byte => "r12b",
            },
            Reg::R13 => match reg_type {
                AsmType::Qword => "r13",
                AsmType::Dword => "r13d",
                AsmType::Word => "r13w",
                AsmType::Byte => "r13b",
            },
            Reg::R14 => match reg_type {
                AsmType::Qword => "r14",
                AsmType::Dword => "r14d",
                AsmType::Word => "r14w",
                AsmType::Byte => "r14b",
            },
            Reg::R15 => match reg_type {
                AsmType::Qword => "r15",
                AsmType::Dword => "r15d",
                AsmType::Word => "r15w",
                AsmType::Byte => "r15b",
            },
            Reg::Rbp => match reg_type {
                AsmType::Qword => "rbp",
                AsmType::Dword => "ebp",
                AsmType::Word => "bp",
                AsmType::Byte => "bpl",
            },
            Reg::Rsp => match reg_type {
                AsmType::Qword => "rsp",
                AsmType::Dword => "esp",
                AsmType::Word => "sp",
                AsmType::Byte => "spl",
            },
        }
    }

    /// The position of this register in the table of used registers.
    pub fn index(self) -> (r: usize)
        ensures
            r == reg_index(self),
    {
        match self {
            Reg::Rax => 0,
            Reg::Rbx => 1,
            Reg::Rcx => 2,
            Reg::Rdx => 3,
            Reg::Rbp => 4,
            Reg::Rsp => 5,
            Reg::Rsi => 6,
            Reg::Rdi => 7,
            Reg::R8 => 8,
            Reg::R9 => 9,
            Reg::R10 => 10,
            Reg::R11 => 11,
            Reg::R12 => 12,
            Reg::R13 => 13,
            Reg::R14 => 14,
            Reg::R15 => 15,
        }
    }
}

/// The register at position `i` of the table of used registers.
fn reg_from_index(i: usize) -> (r: Reg)
    requires
        i < 16,
    ensures
        r == reg_at(i as nat),
        reg_index(r) == i,
{
    if i == 0 {
        Reg::Rax
    } else if i == 1 {
        Reg::Rbx
    } else if i == 2 {
        Reg::Rcx
    } else if i == 3 {
        Reg::Rdx
    } else if i == 4 {
        Reg::Rbp
    } else if i == 5 {
        Reg::Rsp
    } else if i == 6 {
        Reg::Rsi
    } else if i == 7 {
        Reg::Rdi
    } else if i == 8 {
        Reg::R8
    } else if i == 9 {
        Reg::R9
    } else if i == 10 {
        Reg::R10
    } else if i == 11 {
        Reg::R11
    } else if i == 12 {
        Reg::R12
    } else if i == 13 {
        Reg::R13
    } else if i == 14 {
        Reg::R14
    } else {
        Reg::R15
    }
}

/// The register of the `i`-th argument of a call.
fn arg_reg_exec(i: usize) -> (r: Reg)
    requires
        i < 6,
    ensures
        r == arg_reg(i as nat),
{
    if i == 0 {
        Reg::Rdi
    } else if i == 1 {
        Reg::Rsi
    } else if i == 2 {
        Reg::Rdx
    } else if i == 3 {
        Reg::Rcx
    } else if i == 4 {
        Reg::R8
    } else {
        Reg::R9
    }
}

/// The used registers at the start of a function: only `rbp` and `rsp`.
pub fn init_used_regs() -> (r: [bool; 16])
    ensures
        r@ == init_used(),
{
    let mut used_regs = [false; 16];
    used_regs[4] = true;
    used_regs[5] = true;
    assert(used_regs@ =~= init_used());
    used_regs
}

impl MemAddr {
    /// Appends the text of this operand to `s`.
    pub fn to_addressing_str(self, s: &mut String)
        requires
            mem_ok(self),
        ensures
            final(s)@ == old(s)@ + mem_text(self),
    {
        match self {
            MemAddr::Offset { reg, off } => {
                let sign = if off < 0 {
                    '-'
                } else {
                    '+'
                };
                let magnitude: u64 = if off < 0 {
                    (-(off as i64)) as u64
                } else {
                    off as u64
                };
                s.append("[");
                s.append(reg.to_addressing_str(AsmType::Qword));
                crate::text::push_char(s, sign);
                crate::text::push_decimal(s, magnitude);
                s.append("]");
                assert(s@ =~= old(s)@ + mem_text(self));
            },
        }
    }
}

impl WriteVal {
    /// Puts the text of this operand in `s`.
    pub fn to_addressing_str(self, s: &mut String, reg_type: AsmType)
        requires
            write_val_ok(self),
        ensures
            final(s)@ == write_val_text(self, reg_type),
    {
        *s = String::new();
        match self {
            WriteVal::Reg(reg) => {
                s.append(reg.to_addressing_str(reg_type));
                assert(s@ =~= write_val_text(self, reg_type));
            },
            WriteVal::Mem(mem_addr) => {
                mem_addr.to_addressing_str(s);
                assert(s@ =~= write_val_text(self, reg_type));
            },
        }
    }
}

impl Value {
    /// Puts the text of this operand in `s`.
    pub fn to_addressing_str(self, s: &mut String, reg_type: AsmType)
        requires
            value_ok(self),
        ensures
            final(s)@ == value_text(self, reg_type),
    {
        *s = String::new();
        match self {
            Value::Constant(nb) => {
                push_signed_decimal(s, nb as i64);
                assert(s@ =~= value_text(self, reg_type));
            },
            Value::Reg(reg) => WriteVal::Reg(reg).to_addressing_str(s, reg_type),
            Value::Mem(mem) => WriteVal::Mem(mem).to_addressing_str(s, reg_type),
        }
    }

    /// The value held by a written operand.
    pub fn from_write_val(write_val: WriteVal) -> (r: Value)
        ensures
            r == write_val_to_value(write_val),
    {
        match write_val {
            WriteVal::Reg(reg) => Value::Reg(reg),
            WriteVal::Mem(mem_addr) => Value::Mem(mem_addr),
        }
    }

    /// This value as a written operand, if it is one.
    pub fn as_write_val(self) -> (r: Option<WriteVal>)
        ensures
            r == spec_as_write_val(self),
    {
        let write_val = match self {
            Value::Reg(reg) => WriteVal::Reg(reg),
            Value::Mem(mem) => WriteVal::Mem(mem),
            Value::Constant(_) => {
                return None;
            },
        };
        Some(write_val)
    }
}

impl From<WriteVal> for Value {
    /// The value held by a written operand.
    fn from(value: WriteVal) -> (r: Value) {
        Value::from_write_val(value)
    }
}

impl vstd::std_specs::convert::FromSpecImpl<WriteVal> for Value {
    open spec fn obeys_from_spec() -> bool {
        true
    }

    open spec fn from_spec(value: WriteVal) -> Value {
        write_val_to_value(value)
    }
}

/// The state of code generation.
pub struct CodegenContext {
    pub asm_out: String,
    pub value_buf: String,
    pub used_regs: [bool; 16],
    pub vars: FxHashMap<String, Var>,
    pub current_stack_offset: u32,
    pub current_fun_return_type: Type,
}

impl View for CodegenContext {
    type V = CgState;

    open spec fn view(&self) -> CgState {
        CgState {
            out: self.asm_out@,
            used: self.used_regs@,
            vars: var_table(self.vars),
            stack: self.current_stack_offset,
            ret: self.current_fun_return_type@,
        }
    }
}

/// Whether an exec result `r` with final state `st` is what the spec result `s` says.
pub open spec fn cg_ok<T>(s: CgResult<T>, r: Result<T, CodegenError>, st: CgState) -> bool {
    match r {
        Ok(v) => s matches Ok((st2, v2)) && st2 == st && v2 == v,
        Err(e) => s matches Err(e2) && e2 == e,
    }
}

/// The same for a step that gives no value.
pub open spec fn cg_ok_unit(s: Result<CgState, CodegenError>, r: Result<(), CodegenError>, st: CgState) -> bool {
    match r {
        Ok(_) => s matches Ok(st2) && st2 == st,
        Err(e) => s matches Err(e2) && e2 == e,
    }
}

impl CodegenContext {
    /// The state before the first declaration.
    pub fn new() -> (r: CodegenContext)
        ensures
            r@ == initial_state(),
            cg_wf(r@),
    {
        let mut asm_out = String::new();
        asm_out.append(ASM_TEMPLATE);
        CodegenContext {
            asm_out,
            value_buf: String::new(),
            used_regs: init_used_regs(),
            vars: var_table_new(),
            current_stack_offset: 0,
            current_fun_return_type: Type::Int,
        }
    }

    /// Takes the lowest-numbered free register.
    pub fn next_reg(&mut self) -> (r: Option<Reg>)
        requires
            old(self)@.used.len() == 16,
        ensures
            match sp_next_reg(old(self)@) {
                Some((st, reg)) => r == Some(reg) && final(self)@ == st,
                None => r is None && final(self)@ == old(self)@,
            },
            r is None ==> *final(self) == *old(self),
            final(self).asm_out == old(self).asm_out,
            final(self).value_buf == old(self).value_buf,
            final(self).vars == old(self).vars,
            final(self).current_stack_offset == old(self).current_stack_offset,
            final(self).current_fun_return_type == old(self).current_fun_return_type,
    {
        let mut i: usize = 0;
        while i < REG_COUNT
            invariant
                i <= 16,
                self@ == old(self)@,
                *self == *old(self),
                self@.used.len() == 16,
                first_free(self@.used, 0) == first_free(self@.used, i as nat),
            decreases 16 - i,
        {
            if !self.used_regs[i] {
                self.used_regs[i] = true;
                let reg = reg_from_index(i);
                proof {
                    if let Some((st, _)) = sp_next_reg(old(self)@) {
                        assert(self@.used =~= st.used);
                    }
                }
                return Some(reg);
            }
            i = i + 1;
        }
        None
    }

    /// Frees the register that holds `val`, if it is in one.
    pub fn unused_value(&mut self, val: Value)
        requires
            old(self)@.used.len() == 16,
        ensures
            final(self)@ == sp_unused_value(old(self)@, val),
            final(self).value_buf == old(self).value_buf,
    {
        let reg = match val {
            Value::Reg(reg) => reg,
            _ => {
                return ;
            },
        };
        let reg_idx = reg.index();
        self.used_regs[reg_idx] = false;
    }

    /// Takes `size` more bytes of stack and gives the new offset.
    pub fn get_var_stack_offset(&mut self, size: u32) -> (r: Result<u32, CodegenError>)
        requires
            old(self)@.stack <= i32::MAX,
        ensures
            cg_ok(sp_stack_offset(old(self)@, size), r, final(self)@),
            final(self).value_buf == old(self).value_buf,
    {
        if size > 0x7fff_ffffu32 || self.current_stack_offset > 0x7fff_ffffu32 - size {
            return Err(CodegenError::StackOverflow);
        }
        self.current_stack_offset += size;
        Ok(self.current_stack_offset)
    }

    /// The next function's variables start at the frame pointer again.
    pub fn reset_stack_offset(&mut self)
        ensures
            final(self)@ == (CgState { stack: 0, ..old(self)@ }),
            final(self).value_buf == old(self).value_buf,
    {
        self.current_stack_offset = 0;
    }
}

/// Appends a two-operand instruction, formatting each operand in the scratch buffer.
pub fn emit_binary_instr(
    codegen_context: &mut CodegenContext,
    instruction: &str,
    to: WriteVal,
    from: Value,
    reg_type: AsmType,
)
    requires
        write_val_ok(to),
        value_ok(from),
    ensures
        final(codegen_context)@ == sp_emit_binary(old(codegen_context)@, instruction@, to, from, reg_type),
{
    to.to_addressing_str(&mut codegen_context.value_buf, reg_type);
    codegen_context.asm_out.append("\t");
    codegen_context.asm_out.append(instruction);
    codegen_context.asm_out.append(" ");
    codegen_context.asm_out.append(codegen_context.value_buf.as_str());
    codegen_context.asm_out.append(", ");
    from.to_addressing_str(&mut codegen_context.value_buf, reg_type);
    codegen_context.asm_out.append(codegen_context.value_buf.as_str());
    codegen_context.asm_out.append("\n");
    assert(codegen_context.asm_out@ =~= old(codegen_context).asm_out@ + instr_text(
        instruction@,
        to,
        from,
        reg_type,
    ));
}

/// Appends a move, unless source and destination are the same operand.
pub fn emit_mov(codegen_context: &mut CodegenContext, to: WriteVal, from: Value, reg_type: AsmType) -> (r: Result<
    (),
    CodegenError,
>)
    requires
        spec_as_write_val(from) != Some(to) ==> write_val_ok(to) && value_ok(from),
    ensures
        cg_ok_unit(sp_emit_mov(old(codegen_context)@, to, from, reg_type), r, final(codegen_context)@),
        spec_as_write_val(from) == Some(to) ==> *final(codegen_context) == *old(codegen_context),
{
    if let Some(write_val) = from.as_write_val() {
        if write_val == to {
            return Ok(());
        }
    }
    let mut instruction = "mov";
    match to {
        WriteVal::Mem(_) => {
            match reg_type {
                AsmType::Dword => {
                    instruction = "mov dword ptr";
                },
                _ => {
                    return Err(CodegenError::UnsupportedMove);
                },
            }
        },
        _ => {},
    }
    emit_binary_instr(codegen_context, instruction, to, from, reg_type);
    Ok(())
}

impl Value {
    /// A written operand holding this value: itself, or a fresh register loaded
    /// with the constant.
    pub fn into_write_val(self, codegen_context: &mut CodegenContext) -> (r: Result<
        WriteVal,
        CodegenError,
    >)
        requires
            cg_wf(old(codegen_context)@),
            value_ok(self),
        ensures
            cg_ok(sp_into_write_val(old(codegen_context)@, self), r, final(codegen_context)@),
            r matches Ok(w) ==> write_val_ok(w) && cg_wf(final(codegen_context)@),
    {
        match self {
            Value::Reg(reg) => Ok(WriteVal::Reg(reg)),
            Value::Mem(mem) => Ok(WriteVal::Mem(mem)),
            Value::Constant(_) => {
                let reg = match codegen_context.next_reg() {
                    Some(reg) => reg,
                    None => {
                        return Err(CodegenError::OutOfRegisters);
                    },
                };
                let write_val = WriteVal::Reg(reg);
                match emit_mov(codegen_context, write_val, self, AsmType::Qword) {
                    Ok(()) => {},
                    Err(e) => {
                        return Err(e);
                    },
                }
                Ok(write_val)
            },
        }
    }
}

/// The constant of a number literal, which must fit in an `i32`.
pub fn codegen_number(nb: u128) -> (r: Result<Value, CodegenError>)
    ensures
        r == sp_number(nb),
{
    if nb <= 0x7fff_ffffu128 {
        Ok(Value::Constant(nb as i32))
    } else {
        Err(CodegenError::NumberTooLarge)
    }
}

/// The size in bytes of a type.
pub fn type_size(var_type: &Type) -> (r: u32)
    ensures
        r == type_size_of(var_type@),
{
    match var_type {
        Type::Char => 1,
        Type::Short => 2,
        Type::Int => 4,
        Type::Long | Type::Function(_) => 8,
    }
}

/// The operand width of a type.
pub fn asm_type_from_type(t: &Type) -> (r: AsmType)
    ensures
        r == asm_type_of(t@),
{
    match t {
        Type::Char => AsmType::Byte,
        Type::Short => AsmType::Word,
        Type::Int => AsmType::Dword,
        Type::Long | Type::Function(_) => AsmType::Qword,
    }
}

/// Loads a variable into a fresh register.
pub fn codegen_var_use(codegen_context: &mut CodegenContext, var_name: &str) -> (r: Result<
    Value,
    CodegenError,
>)
    requires
        cg_wf(old(codegen_context)@),
    ensures
        cg_ok(sp_var_use(old(codegen_context)@, var_name@), r, final(codegen_context)@),
        r matches Ok(v) ==> value_ok(v) && cg_wf(final(codegen_context)@),
{
    let reg = match codegen_context.next_reg() {
        Some(reg) => reg,
        None => {
            return Err(CodegenError::OutOfRegisters);
        },
    };
    let (stack_offset, mov_type) = match var_table_get(&codegen_context.vars, var_name) {
        Some(var) => match var.stack_offset {
            Some(stack_offset) => (stack_offset, asm_type_from_type(&var.var_type)),
            None => {
                return Err(CodegenError::NotAVariable);
            },
        },
        None => {
            return Err(CodegenError::Type(TypeError::UndefinedVariable));
        },
    };
    let off: i32 = -(stack_offset as i32);
    let mem = MemAddr::Offset { reg: Reg::Rbp, off };
    assert(mem == frame_slot(stack_offset));
    match emit_mov(codegen_context, WriteVal::Reg(reg), Value::Mem(mem), mov_type) {
        Ok(()) => {},
        Err(e) => {
            return Err(e);
        },
    }
    Ok(Value::Reg(reg))
}

/// The larger of two depths.
pub open spec fn max_height(a: nat, b: nat) -> nat {
    if a >= b {
        a
    } else {
        b
    }
}

/// A binary operation: both operands, then the instruction.
pub fn codegen_binop(
    codegen_context: &mut CodegenContext,
    lhs: &ExprAst,
    op: BinOp,
    rhs: &ExprAst,
    expr_type: &Type,
) -> (r: Result<Value, CodegenError>)
    requires
        cg_wf(old(codegen_context)@),
    ensures
        cg_ok(
            sp_binop(
                old(codegen_context)@,
                ExprV::BinOp { lhs: Box::new(lhs@), op, rhs: Box::new(rhs@) },
                expr_type@,
            ),
            r,
            final(codegen_context)@,
        ),
        r matches Ok(v) ==> value_ok(v) && cg_wf(final(codegen_context)@),
    decreases 1 + max_height(expr_height(lhs@), expr_height(rhs@)), 1nat,
{
    let mut lhs_val = match codegen_expr(codegen_context, lhs) {
        Ok(v) => v,
        Err(e) => {
            return Err(e);
        },
    };
    let mut rhs_val = match codegen_expr(codegen_context, rhs) {
        Ok(v) => v,
        Err(e) => {
            return Err(e);
        },
    };
    match (lhs_val, rhs_val) {
        (Value::Constant(_), Value::Reg(_)) => {
            core::mem::swap(&mut lhs_val, &mut rhs_val);
        },
        _ => {},
    }
    let res_write_val = match lhs_val.into_write_val(codegen_context) {
        Ok(w) => w,
        Err(e) => {
            return Err(e);
        },
    };
    let instruction = match op {
        BinOp::Plus => "add",
        BinOp::Minus => "sub",
        BinOp::Mult => "imul",
        BinOp::Div => "idiv",
        _ => {
            return Err(CodegenError::UnsupportedOperator(op));
        },
    };
    let reg_type = asm_type_from_type(expr_type);
    emit_binary_instr(codegen_context, instruction, res_write_val, rhs_val, reg_type);
    codegen_context.unused_value(rhs_val);
    Ok(Value::from(res_write_val))
}

/// The first position of `v` in `vals`.
fn position(vals: &Vec<Value>, v: Value) -> (r: Option<usize>)
    ensures
        match r {
            Some(p) => position_from(vals@, v, 0) == Some(p as nat) && p < vals@.len(),
            None => position_from(vals@, v, 0) is None,
        },
{
    let mut i: usize = 0;
    while i < vals.len()
        invariant
            i <= vals@.len(),
            position_from(vals@, v, 0) == position_from(vals@, v, i as nat),
        decreases vals@.len() - i,
    {
        if vals[i] == v {
            return Some(i);
        }
        i = i + 1;
    }
    None
}

proof fn lemma_cg_args_step(st: CgState, args: Seq<ExprV>, i: int)
    requires
        0 <= i < args.len(),
    ensures
        sp_cg_args(st, args.take(i + 1)) == (match sp_cg_args(st, args.take(i)) {
            Err(err) => Err(err),
            Ok((st1, vals)) => match sp_cg_expr(st1, args[i]) {
                Err(err) => Err(err),
                Ok((st2, v)) => Ok((st2, vals.push(v))),
            },
        }),
{
    let t = args.take(i + 1);
    assert(t.subrange(0, t.len() - 1) =~= args.take(i));
    assert(t[t.len() - 1] == args[i]);
}

proof fn lemma_arg_types_step(args: Seq<ExprV>, vars: Map<Seq<char>, VarV>, i: int)
    requires
        0 <= i < args.len(),
    ensures
        sp_arg_types(args.take(i + 1), vars) == (match sp_arg_types(args.take(i), vars) {
            Err(e) => Err(e),
            Ok(ts) => match spec_get_type(args[i], vars) {
                Err(e) => Err(e),
                Ok(t) => Ok(ts.push(asm_type_of(t))),
            },
        }),
{
    let t = args.take(i + 1);
    assert(t.drop_last() =~= args.take(i));
}

proof fn lemma_cg_args_len(st: CgState, args: Seq<ExprV>)
    ensures
        sp_cg_args(st, args) matches Ok((_, vals)) ==> vals.len() == args.len(),
    decreases args.len(),
{
    if args.len() > 0 {
        lemma_cg_args_len(st, args.subrange(0, args.len() - 1));
    }
}

proof fn lemma_cg_args_prefix_err(st: CgState, args: Seq<ExprV>, k: int)
    requires
        0 <= k <= args.len(),
        sp_cg_args(st, args.take(k)) is Err,
    ensures
        sp_cg_args(st, args) == sp_cg_args(st, args.take(k)),
    decreases args.len() - k,
{
    if k < args.len() {
        lemma_cg_args_step(st, args, k);
        lemma_cg_args_prefix_err(st, args, k + 1);
    } else {
        assert(args.take(k) =~= args);
    }
}

proof fn lemma_arg_types_prefix_err(args: Seq<ExprV>, vars: Map<Seq<char>, VarV>, k: int)
    requires
        0 <= k <= args.len(),
        sp_arg_types(args.take(k), vars) is Err,
    ensures
        sp_arg_types(args, vars) == sp_arg_types(args.take(k), vars),
    decreases args.len() - k,
{
    if k < args.len() {
        lemma_arg_types_step(args, vars, k);
        lemma_arg_types_prefix_err(args, vars, k + 1);
    } else {
        assert(args.take(k) =~= args);
    }
}

proof fn lemma_arg_movs_prefix_err(st: CgState, vals: Seq<Value>, tys: Seq<AsmType>, k: nat, n: nat)
    requires
        k <= n,
        sp_arg_movs(st, vals, tys, k) is Err,
    ensures
        sp_arg_movs(st, vals, tys, n) == sp_arg_movs(st, vals, tys, k),
    decreases n - k,
{
    if k < n {
        lemma_arg_movs_prefix_err(st, vals, tys, k, (n - 1) as nat);
    }
}

proof fn lemma_arg_types_len(args: Seq<ExprV>, vars: Map<Seq<char>, VarV>)
    ensures
        sp_arg_types(args, vars) matches Ok(ts) ==> ts.len() == args.len(),
    decreases args.len(),
{
    if args.len() > 0 {
        lemma_arg_types_len(args.drop_last(), vars);
    }
}

/// A call: the function's return type, the arguments, their widths, the moves to
/// the argument registers, and the `call`.
#[verifier::rlimit(40)]
#[verifier::loop_isolation(false)]
pub fn codegen_function_call(
    codegen_context: &mut CodegenContext,
    fun: &ExprAst,
    args: &Vec<ExprAst>,
) -> (r: Result<Value, CodegenError>)
    requires
        cg_wf(old(codegen_context)@),
    ensures
        cg_ok(
            sp_call(old(codegen_context)@, ExprV::FunctionCall { fun: Box::new(fun@), args: exprs_view(args@) }),
            r,
            final(codegen_context)@,
        ),
        r matches Ok(v) ==> value_ok(v) && cg_wf(final(codegen_context)@),
    decreases 1 + max_height(expr_height(fun@), exprs_height(exprs_view(args@))), 1nat,
{
    let ghost st0 = codegen_context@;
    let ghost avs = exprs_view(args@);
    proof {
        lemma_exprs_view(args@);
    }
    let ret_type = match fun.get_type(&codegen_context.vars) {
        Err(te) => {
            return Err(CodegenError::Type(te));
        },
        Ok(t) => match t.into_function_type() {
            Some(f) => f.ret_type,
            None => {
                return Err(CodegenError::Type(TypeError::NotAFunction));
            },
        },
    };
    let asm_ret_type = asm_type_from_type(&ret_type);
    let mut args_values: Vec<Value> = Vec::new();
    let mut i: usize = 0;
    proof {
        assert(avs.take(0) =~= Seq::<ExprV>::empty());
    }
    while i < args.len()
        invariant
            i <= args@.len(),
            avs == exprs_view(args@),
            avs.len() == args@.len(),
            forall|j: int| 0 <= j < args@.len() ==> #[trigger] avs[j] == args@[j]@,
            sp_cg_args(st0, avs.take(i as int)) == Ok::<(CgState, Seq<Value>), CodegenError>((codegen_context@, args_values@)),
            cg_wf(codegen_context@),
            forall|j: int| 0 <= j < args_values@.len() ==> value_ok(#[trigger] args_values@[j]),
            st0 == old(codegen_context)@,
        decreases args@.len() - i,
    {
        proof {
            lemma_cg_args_step(st0, avs, i as int);
            lemma_exprs_height(avs, i as int);
        }
        let v = match codegen_expr(codegen_context, &args[i]) {
            Ok(v) => v,
            Err(e) => {
                proof {
                    lemma_cg_args_prefix_err(st0, avs, i + 1);
                }
                return Err(e);
            },
        };
        args_values.push(v);
        i = i + 1;
    }
    assert(avs.take(args@.len() as int) =~= avs);
    let ghost st1 = codegen_context@;
    let ghost vals1 = args_values@;
    proof {
        lemma_cg_args_len(st0, avs);
        lemma_arg_types_len(avs, st1.vars);
    }
    let mut args_asm_types: Vec<AsmType> = Vec::new();
    let mut k: usize = 0;
    while k < args.len()
        invariant
            k <= args@.len(),
            avs == exprs_view(args@),
            avs.len() == args@.len(),
            forall|j: int| 0 <= j < args@.len() ==> #[trigger] avs[j] == args@[j]@,
            sp_arg_types(avs.take(k as int), codegen_context@.vars) == Ok::<Seq<AsmType>, TypeError>(args_asm_types@),
            codegen_context@ == st1,
        decreases args@.len() - k,
    {
        proof {
            lemma_arg_types_step(avs, codegen_context@.vars, k as int);
        }
        let t = match args[k].get_type(&codegen_context.vars) {
            Ok(t) => t,
            Err(te) => {
                proof {
                    lemma_arg_types_prefix_err(avs, st1.vars, k + 1);
                }
                return Err(CodegenError::Type(te));
            },
        };
        args_asm_types.push(asm_type_from_type(&t));
        k = k + 1;
    }
    let ghost tys = args_asm_types@;
    finish_function_call(codegen_context, fun, args_values, &args_asm_types, asm_ret_type)
}

/// A call once its arguments are generated and their widths known.
#[verifier::rlimit(40)]
#[verifier::loop_isolation(false)]
fn finish_function_call(
    codegen_context: &mut CodegenContext,
    fun: &ExprAst,
    args_values: Vec<Value>,
    args_asm_types: &Vec<AsmType>,
    asm_ret_type: AsmType,
) -> (r: Result<Value, CodegenError>)
    requires
        cg_wf(old(codegen_context)@),
        args_values@.len() == args_asm_types@.len(),
        forall|j: int| 0 <= j < args_values@.len() ==> value_ok(#[trigger] args_values@[j]),
    ensures
        cg_ok(
            sp_finish_call(old(codegen_context)@, fun@, args_values@, args_asm_types@, asm_ret_type),
            r,
            final(codegen_context)@,
        ),
        r matches Ok(v) ==> value_ok(v) && cg_wf(final(codegen_context)@),
{
    let ghost st1 = codegen_context@;
    let ghost vals1 = args_values@;
    let ghost tys = args_asm_types@;
    let mut args_values = args_values;
    let n = if args_values.len() < MAX_ARGS {
        args_values.len()
    } else {
        MAX_ARGS
    };
    let mut reg_idx: usize = 0;
    while reg_idx < n
        invariant
            reg_idx <= n,
            n <= 6,
            codegen_context@ == st1,
            args_values@ == vals1,
        decreases n - reg_idx,
    {
        let reg = arg_reg_exec(reg_idx);
        if let Some(_pos) = position(&args_values, Value::Reg(reg)) {
            if reg == arg_reg_exec(reg_idx) {
                reg_idx = reg_idx + 1;
                continue ;
            }
        }
        reg_idx = reg_idx + 1;
    }
    match position(&args_values, Value::Reg(Reg::Rax)) {
        Some(pos) => {
            let replacement_reg = match codegen_context.next_reg() {
                Some(reg) => reg,
                None => {
                    return Err(CodegenError::OutOfRegisters);
                },
            };
            match emit_mov(
                codegen_context,
                WriteVal::Reg(replacement_reg),
                Value::Reg(Reg::Rax),
                asm_ret_type,
            ) {
                Ok(()) => {},
                Err(e) => {
                    return Err(e);
                },
            }
            args_values.set(pos, Value::Reg(replacement_reg));
        },
        None => {},
    }
    let ghost st3 = codegen_context@;
    let ghost vals3 = args_values@;
    let mut arg_idx: usize = 0;
    while arg_idx < args_values.len()
        invariant
            arg_idx <= vals3.len(),
            args_values@ == vals3,
            vals3.len() == tys.len(),
            args_asm_types@ == tys,
            forall|j: int| 0 <= j < vals3.len() ==> value_ok(#[trigger] vals3[j]),
            sp_arg_movs(st3, vals3, tys, arg_idx as nat) == Ok::<CgState, CodegenError>(codegen_context@),
            cg_wf(codegen_context@),
        decreases vals3.len() - arg_idx,
    {
        if arg_idx >= MAX_ARGS {
            proof {
                lemma_arg_movs_prefix_err(st3, vals3, tys, (arg_idx + 1) as nat, vals3.len());
            }
            return Err(CodegenError::TooManyArgs);
        }
        let arg = args_values[arg_idx];
        match emit_mov(
            codegen_context,
            WriteVal::Reg(arg_reg_exec(arg_idx)),
            arg,
            args_asm_types[arg_idx],
        ) {
            Ok(()) => {},
            Err(e) => {
                proof {
                    lemma_arg_movs_prefix_err(st3, vals3, tys, (arg_idx + 1) as nat, vals3.len());
                }
                return Err(e);
            },
        }
        arg_idx = arg_idx + 1;
    }
    let ghost st4 = codegen_context@;
    assert(sp_arg_movs(st3, vals3, tys, vals3.len()) == Ok::<CgState, CodegenError>(st4));
    match fun {
        ExprAst::VarUse(fun_name) => {
            codegen_context.asm_out.append("\tcall ");
            codegen_context.asm_out.append(fun_name.as_str());
            codegen_context.asm_out.append("\n");
            assert(codegen_context@.out =~= st4.out + ("\tcall "@ + fun_name@ + "\n"@));
        },
        _ => {
            return Err(CodegenError::IndirectCall);
        },
    }
    let ghost st5 = codegen_context@;
    codegen_context.used_regs[0] = true;
    let ghost st6 = codegen_context@;
    assert(st6 == CgState { used: st5.used.update(0, true), ..st5 });
    let mut j: usize = 0;
    while j < args_values.len()
        invariant
            j <= vals3.len(),
            args_values@ == vals3,
            sp_free_values(st6, vals3, j as nat) == codegen_context@,
            cg_wf(codegen_context@),
        decreases vals3.len() - j,
    {
        codegen_context.unused_value(args_values[j]);
        j = j + 1;
    }
    assert(sp_finish_call(st1, fun@, vals1, tys, asm_ret_type) == Ok::<(CgState, Value), CodegenError>((codegen_context@, Value::Reg(Reg::Rax))));
    Ok(Value::Reg(Reg::Rax))
}

/// Generates the code of an expression, and says where its value is.
pub fn codegen_expr(codegen_context: &mut CodegenContext, ast: &ExprAst) -> (r: Result<
    Value,
    CodegenError,
>)
    requires
        cg_wf(old(codegen_context)@),
    ensures
        cg_ok(sp_cg_expr(old(codegen_context)@, ast@), r, final(codegen_context)@),
        r matches Ok(v) ==> value_ok(v) && cg_wf(final(codegen_context)@),
        ast is Number ==> *final(codegen_context) == *old(codegen_context),
    decreases expr_height(ast@), 2nat,
{
    match ast {
        ExprAst::Number(nb) => codegen_number(*nb),
        ExprAst::VarUse(var_name) => codegen_var_use(codegen_context, var_name.as_str()),
        ExprAst::BinOp { lhs, op, rhs } => {
            let expr_type = match ast.get_type(&codegen_context.vars) {
                Ok(t) => t,
                Err(te) => {
                    return Err(CodegenError::Type(te));
                },
            };
            codegen_binop(codegen_context, lhs, *op, rhs, &expr_type)
        },
        ExprAst::FunctionCall { fun, args } => codegen_function_call(codegen_context, fun, args),
    }
}

/// `return val;`.
pub fn codegen_return(codegen_context: &mut CodegenContext, val: &ExprAst) -> (r: Result<
    (),
    CodegenError,
>)
    requires
        cg_wf(old(codegen_context)@),
    ensures
        cg_ok_unit(sp_return(old(codegen_context)@, val@), r, final(codegen_context)@),
        r is Ok ==> cg_wf(final(codegen_context)@),
{
    let val = match codegen_expr(codegen_context, val) {
        Ok(v) => v,
        Err(e) => {
            return Err(e);
        },
    };
    let mov_type = asm_type_from_type(&codegen_context.current_fun_return_type);
    match emit_mov(codegen_context, WriteVal::Reg(Reg::Rax), val, mov_type) {
        Ok(()) => {},
        Err(e) => {
            return Err(e);
        },
    }
    let ghost st2 = codegen_context@;
    codegen_context.asm_out.append(FUN_EPILOGUE);
    codegen_context.asm_out.append("\tret\n");
    assert(codegen_context@ == emit_text(emit_text(st2, FUN_EPILOGUE@), "\tret\n"@));
    Ok(())
}

/// The characters of `s` as a new string.
fn copy_str(s: &str) -> (r: String)
    ensures
        r@ == s@,
{
    let mut r = String::new();
    r.append(s);
    assert(r@ =~= s@);
    r
}

/// `type name = val;`.
pub fn codegen_var_decl(
    codegen_context: &mut CodegenContext,
    name: &str,
    var_type: &Type,
    val: &ExprAst,
) -> (r: Result<(), CodegenError>)
    requires
        cg_wf(old(codegen_context)@),
    ensures
        cg_ok_unit(sp_var_decl(old(codegen_context)@, name@, var_type@, val@), r, final(codegen_context)@),
        r is Ok ==> cg_wf(final(codegen_context)@),
{
    let val = match codegen_expr(codegen_context, val) {
        Ok(v) => v,
        Err(e) => {
            return Err(e);
        },
    };
    let type_size = type_size(var_type);
    let stack_offset = match codegen_context.get_var_stack_offset(type_size) {
        Ok(o) => o,
        Err(e) => {
            return Err(e);
        },
    };
    var_table_insert(
        &mut codegen_context.vars,
        copy_str(name),
        Var { var_type: var_type.duplicate(), stack_offset: Some(stack_offset) },
    );
    let off: i32 = -(stack_offset as i32);
    let mem = MemAddr::Offset { reg: Reg::Rbp, off };
    assert(mem == frame_slot(stack_offset));
    let var_mem = WriteVal::Mem(mem);
    let mov_type = asm_type_from_type(var_type);
    match emit_mov(codegen_context, var_mem, val, mov_type) {
        Ok(()) => {},
        Err(e) => {
            return Err(e);
        },
    }
    codegen_context.unused_value(val);
    Ok(())
}

/// A statement.
pub fn codegen_statement(codegen_context: &mut CodegenContext, ast: &StatementAst) -> (r: Result<
    (),
    CodegenError,
>)
    requires
        cg_wf(old(codegen_context)@),
    ensures
        cg_ok_unit(sp_statement(old(codegen_context)@, ast@), r, final(codegen_context)@),
        r is Ok ==> cg_wf(final(codegen_context)@),
{
    match ast {
        StatementAst::Return(val) => codegen_return(codegen_context, val),
        StatementAst::Var { name, var_type, val } => codegen_var_decl(
            codegen_context,
            name.as_str(),
            var_type,
            val,
        ),
        StatementAst::Expr(e) => match codegen_expr(codegen_context, e) {
            Ok(_) => Ok(()),
            Err(e) => Err(e),
        },
        StatementAst::If { .. } => Err(CodegenError::UnsupportedStatement),
    }
}

proof fn lemma_statements_step(st: CgState, body: Seq<StmtV>, i: int)
    requires
        0 <= i < body.len(),
    ensures
        sp_statements(st, body.take(i + 1)) == (match sp_statements(st, body.take(i)) {
            Err(err) => Err(err),
            Ok(st1) => sp_statement(st1, body[i]),
        }),
{
    let t = body.take(i + 1);
    assert(t.drop_last() =~= body.take(i));
}

proof fn lemma_statements_prefix_err(st: CgState, body: Seq<StmtV>, k: int)
    requires
        0 <= k <= body.len(),
        sp_statements(st, body.take(k)) is Err,
    ensures
        sp_statements(st, body) == sp_statements(st, body.take(k)),
    decreases body.len() - k,
{
    if k < body.len() {
        lemma_statements_step(st, body, k);
        lemma_statements_prefix_err(st, body, k + 1);
    } else {
        assert(body.take(k) =~= body);
    }
}

proof fn lemma_declare_args_prefix_err(st: CgState, args: Seq<ArgV>, k: nat, n: nat)
    requires
        k <= n,
        sp_declare_args(st, args, k) is Err,
    ensures
        sp_declare_args(st, args, n) == sp_declare_args(st, args, k),
    decreases n - k,
{
    if k < n {
        lemma_declare_args_prefix_err(st, args, k, (n - 1) as nat);
    }
}

proof fn lemma_store_args_prefix_err(st: CgState, args: Seq<ArgV>, offs: Seq<u32>, k: nat, n: nat)
    requires
        k <= n,
        sp_store_args(st, args, offs, k) is Err,
    ensures
        sp_store_args(st, args, offs, n) == sp_store_args(st, args, offs, k),
    decreases n - k,
{
    if k < n {
        lemma_store_args_prefix_err(st, args, offs, k, (n - 1) as nat);
    }
}

/// The offsets given by `sp_declare_args` fit in an `i32`, and the state stays well formed.
proof fn lemma_declare_args_wf(st: CgState, args: Seq<ArgV>, n: nat)
    requires
        cg_wf(st),
    ensures
        sp_declare_args(st, args, n) matches Ok((st2, offs)) ==> cg_wf(st2) && offs.len() == n
            && forall|j: int| 0 <= j < n ==> #[trigger] offs[j] <= i32::MAX,
    decreases n,
{
    if n > 0 {
        lemma_declare_args_wf(st, args, (n - 1) as nat);
    }
}

/// Removing parameters keeps the other entries as they were.
proof fn lemma_remove_args_sub(vars: Map<Seq<char>, VarV>, args: Seq<ArgV>, n: nat, k: Seq<char>)
    ensures
        remove_args(vars, args, n).contains_key(k) ==> vars.contains_key(k) && remove_args(
            vars,
            args,
            n,
        )[k] == vars[k],
    decreases n,
{
    if n > 0 {
        lemma_remove_args_sub(vars, args, (n - 1) as nat, k);
    }
}

/// A stack slot and a table entry for each parameter.
#[verifier::loop_isolation(false)]
fn codegen_declare_args(codegen_context: &mut CodegenContext, args: &Vec<Arg>) -> (r: Result<
    arrayvec::ArrayVec<u32, 6>,
    CodegenError,
>)
    requires
        cg_wf(old(codegen_context)@),
        args@.len() <= 6,
    ensures
        match r {
            Ok(offsets) => sp_declare_args(old(codegen_context)@, args_view(args@), args@.len() as nat)
                == Ok::<(CgState, Seq<u32>), CodegenError>((final(codegen_context)@, offset_buf_values(offsets))),
            Err(e) => sp_declare_args(old(codegen_context)@, args_view(args@), args@.len() as nat) matches Err(e2) && e2 == e,
        },
        r is Ok ==> cg_wf(final(codegen_context)@),
{
    let ghost st1 = codegen_context@;
    let ghost avs = args_view(args@);
    let mut stack_offsets = offset_buf_new();
    let mut i: usize = 0;
    while i < args.len()
        invariant
            i <= args@.len(),
            sp_declare_args(st1, avs, i as nat) == Ok::<(CgState, Seq<u32>), CodegenError>((codegen_context@, offset_buf_values(stack_offsets))),
            cg_wf(codegen_context@),
        decreases args@.len() - i,
    {
        proof {
            lemma_declare_args_wf(st1, avs, i as nat);
        }
        let var_size = type_size(&args[i].arg_type);
        let stack_offset = match codegen_context.get_var_stack_offset(var_size) {
            Ok(o) => o,
            Err(e) => {
                proof {
                    lemma_declare_args_prefix_err(st1, avs, (i + 1) as nat, avs.len());
                }
                return Err(e);
            },
        };
        offset_buf_push(&mut stack_offsets, stack_offset);
        var_table_insert(
            &mut codegen_context.vars,
            args[i].name.clone(),
            Var { var_type: args[i].arg_type.duplicate(), stack_offset: Some(stack_offset) },
        );
        i = i + 1;
    }
    Ok(stack_offsets)
}

/// Stores each argument register in its parameter's stack slot.
#[verifier::loop_isolation(false)]
fn codegen_store_args(
    codegen_context: &mut CodegenContext,
    args: &Vec<Arg>,
    stack_offsets: &arrayvec::ArrayVec<u32, 6>,
) -> (r: Result<(), CodegenError>)
    requires
        cg_wf(old(codegen_context)@),
        args@.len() <= 6,
        offset_buf_values(*stack_offsets).len() == args@.len(),
        forall|j: int|
            0 <= j < args@.len() ==> #[trigger] offset_buf_values(*stack_offsets)[j] <= i32::MAX,
    ensures
        cg_ok_unit(
            sp_store_args(old(codegen_context)@, args_view(args@), offset_buf_values(*stack_offsets), args@.len() as nat),
            r,
            final(codegen_context)@,
        ),
        r is Ok ==> cg_wf(final(codegen_context)@),
{
    let ghost st2 = codegen_context@;
    let ghost avs = args_view(args@);
    let ghost offs = offset_buf_values(*stack_offsets);
    let mut arg_idx: usize = 0;
    while arg_idx < args.len()
        invariant
            arg_idx <= args@.len(),
            sp_store_args(st2, avs, offs, arg_idx as nat) == Ok::<CgState, CodegenError>(codegen_context@),
            cg_wf(codegen_context@),
        decreases args@.len() - arg_idx,
    {
        let reg_arg = arg_reg_exec(arg_idx);
        let reg_stack_offset = offset_buf_get(stack_offsets, arg_idx);
        let mem_addr = MemAddr::Offset { reg: Reg::Rbp, off: -(reg_stack_offset as i32) };
        assert(mem_addr == frame_slot(offs[arg_idx as int]));
        let mov_type = asm_type_from_type(&args[arg_idx].arg_type);
        match emit_mov(codegen_context, WriteVal::Mem(mem_addr), Value::Reg(reg_arg), mov_type) {
            Ok(()) => {},
            Err(e) => {
                proof {
                    lemma_store_args_prefix_err(st2, avs, offs, (arg_idx + 1) as nat, avs.len());
                }
                return Err(e);
            },
        }
        arg_idx = arg_idx + 1;
    }
    Ok(())
}

/// The statements of a function body, in order.
#[verifier::rlimit(40)]
fn codegen_body(codegen_context: &mut CodegenContext, body: &Vec<StatementAst>) -> (r: Result<
    (),
    CodegenError,
>)
    requires
        cg_wf(old(codegen_context)@),
    ensures
        cg_ok_unit(sp_statements(old(codegen_context)@, stmts_view(body@)), r, final(codegen_context)@),
        r is Ok ==> cg_wf(final(codegen_context)@),
{
    let ghost st3 = codegen_context@;
    let ghost bvs = stmts_view(body@);
    let mut k: usize = 0;
    proof {
        assert(bvs.take(0) =~= Seq::<StmtV>::empty());
        lemma_stmts_view(body@);
    }
    while k < body.len()
        invariant
            k <= body@.len(),
            bvs == stmts_view(body@),
            bvs.len() == body@.len(),
            forall|j: int| 0 <= j < body@.len() ==> #[trigger] bvs[j] == body@[j]@,
            st3 == old(codegen_context)@,
            sp_statements(st3, bvs.take(k as int)) == Ok::<CgState, CodegenError>(codegen_context@),
            cg_wf(codegen_context@),
        decreases body@.len() - k,
    {
        proof {
            lemma_statements_step(st3, bvs, k as int);
        }
        match codegen_statement(codegen_context, &body[k]) {
            Ok(()) => {},
            Err(e) => {
                proof {
                    lemma_statements_prefix_err(st3, bvs, k + 1);
                }
                return Err(e);
            },
        }
        k = k + 1;
    }
    assert(bvs.take(body@.len() as int) =~= bvs);
    Ok(())
}

/// Takes the parameters out of the table.
#[verifier::loop_isolation(false)]
fn remove_arg_vars(codegen_context: &mut CodegenContext, args: &Vec<Arg>)
    requires
        cg_wf(old(codegen_context)@),
    ensures
        final(codegen_context)@ == (CgState {
            vars: remove_args(old(codegen_context)@.vars, args_view(args@), args@.len() as nat),
            ..old(codegen_context)@
        }),
        cg_wf(final(codegen_context)@),
{
    let ghost st4 = codegen_context@;
    let ghost avs = args_view(args@);
    let mut j: usize = 0;
    while j < args.len()
        invariant
            j <= args@.len(),
            codegen_context@ == (CgState { vars: remove_args(st4.vars, avs, j as nat), ..st4 }),
        decreases args@.len() - j,
    {
        var_table_remove(&mut codegen_context.vars, args[j].name.as_str());
        j = j + 1;
    }
    assert forall|k: Seq<char>| #[trigger] codegen_context@.vars.contains_key(k) implies (
    codegen_context@.vars[k].stack_offset matches Some(o) ==> o <= i32::MAX) by {
        lemma_remove_args_sub(st4.vars, avs, avs.len(), k);
    }
}

/// The type of a function with these parameters and return type.
fn function_type(return_type: &Type, args: &Vec<Arg>) -> (r: Type)
    ensures
        r@ == function_type_of(return_type@, args_view(args@)),
{
    let ghost avs = args_view(args@);
    let mut args_type: Vec<Type> = Vec::new();
    let mut m: usize = 0;
    while m < args.len()
        invariant
            m <= args@.len(),
            avs == args_view(args@),
            types_view(args_type@) == arg_types(avs).take(m as int),
        decreases args@.len() - m,
    {
        let t = args[m].arg_type.duplicate();
        proof {
            lemma_types_view_push(args_type@, t);
            assert(arg_types(avs).take(m as int).push(t@) =~= arg_types(avs).take(m + 1));
        }
        args_type.push(t);
        m = m + 1;
    }
    assert(arg_types(avs).take(args@.len() as int) =~= arg_types(avs));
    Type::Function(Box::new(FunctionType { ret_type: return_type.duplicate(), args_type }))
}

/// A function definition.
pub fn codegen_function(
    codegen_context: &mut CodegenContext,
    name: &str,
    body: &Vec<StatementAst>,
    return_type: &Type,
    args: &Vec<Arg>,
) -> (r: Result<(), CodegenError>)
    requires
        cg_wf(old(codegen_context)@),
    ensures
        cg_ok_unit(
            sp_function(old(codegen_context)@, name@, stmts_view(body@), return_type@, args_view(args@)),
            r,
            final(codegen_context)@,
        ),
        r is Ok ==> cg_wf(final(codegen_context)@),
        args@.len() > 6 ==> r == Err::<(), CodegenError>(CodegenError::TooManyArgs)
            && *final(codegen_context) == *old(codegen_context),
{
    let ghost st0 = codegen_context@;
    if args.len() > MAX_ARGS {
        return Err(CodegenError::TooManyArgs);
    }
    codegen_context.current_fun_return_type = return_type.duplicate();
    codegen_context.asm_out.append("\t.globl\t");
    codegen_context.asm_out.append(name);
    codegen_context.asm_out.append("\n");
    codegen_context.asm_out.append(name);
    codegen_context.asm_out.append(":\n");
    codegen_context.asm_out.append(FUN_PRELUDE);
    codegen_context.used_regs = init_used_regs();
    assert(codegen_context@.out =~= st0.out + "\t.globl\t"@ + name@ + "\n"@ + name@ + ":\n"@
        + FUN_PRELUDE@);
    let stack_offsets = match codegen_declare_args(codegen_context, args) {
        Ok(o) => o,
        Err(e) => {
            return Err(e);
        },
    };
    proof {
        let st1 = CgState {
            out: st0.out + "\t.globl\t"@ + name@ + "\n"@ + name@ + ":\n"@ + FUN_PRELUDE@,
            used: init_used(),
            ret: return_type@,
            ..st0
        };
        lemma_declare_args_wf(st1, args_view(args@), args@.len() as nat);
    }
    match codegen_store_args(codegen_context, args, &stack_offsets) {
        Ok(()) => {},
        Err(e) => {
            return Err(e);
        },
    }
    match codegen_body(codegen_context, body) {
        Ok(()) => {},
        Err(e) => {
            return Err(e);
        },
    }
    remove_arg_vars(codegen_context, args);
    codegen_context.reset_stack_offset();
    let fun_type = function_type(return_type, args);
    var_table_insert(
        &mut codegen_context.vars,
        copy_str(name),
        Var { var_type: fun_type, stack_offset: None },
    );
    Ok(())
}

/// A top-level declaration.
pub fn codegen_toplevel(codegen_context: &mut CodegenContext, top_level_ast: &TopLevelAst) -> (r: Result<
    (),
    CodegenError,
>)
    requires
        cg_wf(old(codegen_context)@),
    ensures
        cg_ok_unit(sp_toplevel(old(codegen_context)@, top_level_ast@), r, final(codegen_context)@),
        r is Ok ==> cg_wf(final(codegen_context)@),
{
    proof {
        reveal(sp_toplevel);
    }
    match top_level_ast {
        TopLevelAst::Function { name, body, return_type, args } => codegen_function(
            codegen_context,
            name.as_str(),
            body,
            return_type,
            args,
        ),
    }
}

proof fn lemma_toplevels_step(st: CgState, tops: Seq<TopV>, i: int)
    requires
        0 <= i < tops.len(),
    ensures
        sp_toplevels(st, tops.take(i + 1)) == (match sp_toplevels(st, tops.take(i)) {
            Err(err) => Err(err),
            Ok(st1) => sp_toplevel(st1, tops[i]),
        }),
{
    let t = tops.take(i + 1);
    assert(t.drop_last() =~= tops.take(i));
}

proof fn lemma_toplevels_prefix_err(st: CgState, tops: Seq<TopV>, k: int)
    requires
        0 <= k <= tops.len(),
        sp_toplevels(st, tops.take(k)) is Err,
    ensures
        sp_toplevels(st, tops) == sp_toplevels(st, tops.take(k)),
    decreases tops.len() - k,
{
    if k < tops.len() {
        lemma_toplevels_step(st, tops, k);
        lemma_toplevels_prefix_err(st, tops, k + 1);
    } else {
        assert(tops.take(k) =~= tops);
    }
}

/// Compiles a program to assembly text.
#[verifier::spinoff_prover]
pub fn codegen(ast: Vec<TopLevelAst>) -> (r: Result<String, CodegenError>)
    ensures
        match r {
            Ok(s) => spec_codegen(tops_view(ast@)) == Ok::<Seq<char>, CodegenError>(s@),
            Err(e) => spec_codegen(tops_view(ast@)) == Err::<Seq<char>, CodegenError>(e),
        },
{
    let ghost tvs = tops_view(ast@);
    let mut codegen_context = CodegenContext::new();
    let mut i: usize = 0;
    assert(tvs.take(0) =~= Seq::<TopV>::empty());
    while i < ast.len()
        invariant
            i <= ast@.len(),
            tvs == tops_view(ast@),
            sp_toplevels(initial_state(), tvs.take(i as int)) == Ok::<CgState, CodegenError>(
                codegen_context@,
            ),
            cg_wf(codegen_context@),
        decreases ast@.len() - i,
    {
        proof {
            lemma_toplevels_step(initial_state(), tvs, i as int);
        }
        let res = codegen_toplevel(&mut codegen_context, &ast[i]);
        if let Err(e) = res {
            proof {
                lemma_toplevels_prefix_err(initial_state(), tvs, i + 1);
            }
            return Err(e);
        }
        i = i + 1;
    }
    assert(tvs.take(ast@.len() as int) =~= tvs);
    Ok(codegen_context.asm_out)
}

} // verus!
