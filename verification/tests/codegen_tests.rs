use ccomp::codegen::{
    asm_type_from_type, codegen, codegen_number, emit_mov, type_size, AsmType, CodegenContext, CodegenError, MemAddr,
    Reg, Value, WriteVal, ASM_TEMPLATE, FUN_PRELUDE,
};
use ccomp::lexer::{lex, BinOp};
use ccomp::parser::{parse, ExprAst, StatementAst, TopLevelAst};
use ccomp::text::{push_decimal, push_signed_decimal};
use ccomp::types::{FunctionType, Type, TypeError};

fn compile(src: &str) -> Result<String, CodegenError> {
    codegen(parse(lex(src).unwrap()).unwrap())
}

fn header(name: &str) -> String {
    format!("\t.globl\t{}\n{}:\n{}", name, name, FUN_PRELUDE)
}

const EPILOGUE: &str = "\tpop rbp\n\tret\n";

#[test]
fn codegen_return_sum() {
    let out = compile("int main() { return 1 + 2; }").unwrap();
    let expected = "\n    .intel_syntax noprefix\n    .text\n\t.globl\tmain\nmain:\n    push rbp\n    mov rbp, rsp\n\tmov rax, 1\n\tadd eax, 2\n\tpop rbp\n\tret\n";
    assert_eq!(out, expected);
}

#[test]
fn codegen_empty_program_is_the_template() {
    assert_eq!(codegen(vec![]).unwrap(), ASM_TEMPLATE);
    assert_eq!(ASM_TEMPLATE, "\n    .intel_syntax noprefix\n    .text\n");
}

#[test]
fn codegen_function_without_statements() {
    let out = compile("int main() { }").unwrap();
    assert_eq!(out, format!("{}{}", ASM_TEMPLATE, header("main")));
}

#[test]
fn codegen_args_vars_and_call() {
    let out = compile("int add(int a, int b) { return a + b; } int main() { int x = add(1, 2); return x; }").unwrap();
    let expected = format!(
        "{}{}{}{}{}{}",
        ASM_TEMPLATE,
        header("add"),
        "\tmov dword ptr [rbp-4], edi\n\tmov dword ptr [rbp-8], esi\n\tmov eax, [rbp-4]\n\tmov ebx, [rbp-8]\n\tadd eax, ebx\n",
        EPILOGUE,
        header("main"),
        "\tmov dil, 1\n\tmov sil, 2\n\tcall add\n\tmov dword ptr [rbp-4], eax\n\tmov eax, [rbp-4]\n\tpop rbp\n\tret\n",
    );
    assert_eq!(out, expected);
}

#[test]
fn codegen_constant_on_the_left_is_swapped() {
    let out = compile("int main() { int a = 5; return 2 - a; }").unwrap();
    let expected = format!(
        "{}{}{}",
        ASM_TEMPLATE,
        header("main"),
        "\tmov dword ptr [rbp-4], 5\n\tmov eax, [rbp-4]\n\tsub eax, 2\n\tpop rbp\n\tret\n",
    );
    assert_eq!(out, expected);
}

#[test]
fn codegen_long_return() {
    let out = compile("long main() { return 7; }").unwrap();
    assert_eq!(out, format!("{}{}\tmov rax, 7\n{}", ASM_TEMPLATE, header("main"), EPILOGUE));
}

#[test]
fn codegen_mult_and_div() {
    let out = compile("int main() { return 6 * 7 / 3; }").unwrap();
    assert_eq!(
        out,
        format!("{}{}\tmov rax, 6\n\timul eax, 7\n\tidiv eax, 3\n{}", ASM_TEMPLATE, header("main"), EPILOGUE)
    );
}

#[test]
fn codegen_call_result_as_argument() {
    let out = compile("int f(int a) { return a; } int main() { return f(f(1)); }").unwrap();
    let expected = format!(
        "{}{}{}{}{}{}",
        ASM_TEMPLATE,
        header("f"),
        "\tmov dword ptr [rbp-4], edi\n\tmov eax, [rbp-4]\n",
        EPILOGUE,
        header("main"),
        "\tmov dil, 1\n\tcall f\n\tmov ebx, eax\n\tmov edi, ebx\n\tcall f\n\tpop rbp\n\tret\n",
    );
    assert_eq!(out, expected);
}

#[test]
fn codegen_six_arguments() {
    let out = compile(
        "int h(int a, int b, int c, int d, int e, int f) { return 0; } int main() { int x = 1; return h(x, x, x, x, x, x); }",
    )
    .unwrap();
    let expected = format!(
        "{}{}{}{}{}{}",
        ASM_TEMPLATE,
        header("h"),
        "\tmov dword ptr [rbp-4], edi\n\tmov dword ptr [rbp-8], esi\n\tmov dword ptr [rbp-12], edx\n\tmov dword ptr [rbp-16], ecx\n\tmov dword ptr [rbp-20], r8d\n\tmov dword ptr [rbp-24], r9d\n\tmov eax, 0\n",
        EPILOGUE,
        header("main"),
        [
            "\tmov dword ptr [rbp-4], 1\n",
            "\tmov eax, [rbp-4]\n\tmov ebx, [rbp-4]\n\tmov ecx, [rbp-4]\n\tmov edx, [rbp-4]\n\tmov esi, [rbp-4]\n\tmov edi, [rbp-4]\n",
            "\tmov r8d, eax\n",
            "\tmov edi, r8d\n\tmov esi, ebx\n\tmov edx, ecx\n\tmov ecx, edx\n\tmov r8d, esi\n\tmov r9d, edi\n",
            "\tcall h\n\tpop rbp\n\tret\n",
        ]
        .concat(),
    );
    assert_eq!(out, expected);
}

#[test]
fn codegen_called_function_must_be_compiled_first() {
    assert!(compile("int f() { return 1; } int main() { return f(); }").is_ok());
    assert_eq!(
        compile("int main() { return f(); } int f() { return 1; }").unwrap_err(),
        CodegenError::Type(TypeError::UndefinedVariable)
    );
}

#[test]
fn codegen_undefined_variable() {
    assert_eq!(compile("int main() { return y; }").unwrap_err(), CodegenError::Type(TypeError::UndefinedVariable));
}

#[test]
fn codegen_arguments_are_gone_after_their_function() {
    assert_eq!(
        compile("int f(int a) { return a; } int main() { return a; }").unwrap_err(),
        CodegenError::Type(TypeError::UndefinedVariable)
    );
}

#[test]
fn codegen_not_a_function() {
    assert_eq!(
        compile("int main() { int x = 1; return x(); }").unwrap_err(),
        CodegenError::Type(TypeError::NotAFunction)
    );
}

#[test]
fn codegen_literal_too_big() {
    let big = ExprAst::BinOp { lhs: Box::new(ExprAst::Number(1)), op: BinOp::Plus, rhs: Box::new(ExprAst::Number(1u128 << 70)) };
    let prog = vec![TopLevelAst::Function {
        name: "main".to_string(),
        args: vec![],
        body: vec![StatementAst::Return(big)],
        return_type: Type::Int,
    }];
    assert_eq!(codegen(prog).unwrap_err(), CodegenError::Type(TypeError::LiteralTooBig));
}

#[test]
fn codegen_not_a_variable() {
    assert_eq!(
        compile("int f() { return 1; } int main() { return f; }").unwrap_err(),
        CodegenError::NotAVariable
    );
}

#[test]
fn codegen_number_too_large() {
    assert_eq!(compile("int main() { return 2147483648; }").unwrap_err(), CodegenError::NumberTooLarge);
    assert!(compile("int main() { return 2147483647; }").is_ok());
}

#[test]
fn codegen_unsupported_move() {
    assert_eq!(compile("char f(char a) { return a; }").unwrap_err(), CodegenError::UnsupportedMove);
    assert_eq!(compile("int main() { long x = 1; return 0; }").unwrap_err(), CodegenError::UnsupportedMove);
}

#[test]
fn codegen_unsupported_operator() {
    assert_eq!(
        compile("int main() { return 1 == 2; }").unwrap_err(),
        CodegenError::UnsupportedOperator(BinOp::Cmp)
    );
    assert_eq!(
        compile("int main() { int x = 1; x = 2; }").unwrap_err(),
        CodegenError::UnsupportedOperator(BinOp::Equal)
    );
}

#[test]
fn codegen_indirect_call() {
    let callee = ExprAst::BinOp {
        lhs: Box::new(ExprAst::VarUse("f".to_string())),
        op: BinOp::Plus,
        rhs: Box::new(ExprAst::Number(1)),
    };
    let call = ExprAst::FunctionCall { fun: Box::new(callee), args: vec![] };
    let prog = vec![
        TopLevelAst::Function {
            name: "f".to_string(),
            args: vec![],
            body: vec![StatementAst::Return(ExprAst::Number(1))],
            return_type: Type::Int,
        },
        TopLevelAst::Function {
            name: "main".to_string(),
            args: vec![],
            body: vec![StatementAst::Expr(call)],
            return_type: Type::Int,
        },
    ];
    assert_eq!(codegen(prog).unwrap_err(), CodegenError::IndirectCall);
}

#[test]
fn codegen_unsupported_statement() {
    assert_eq!(
        compile("int main() { if (1) { return 1; } }").unwrap_err(),
        CodegenError::UnsupportedStatement
    );
}

#[test]
fn codegen_too_many_args() {
    assert_eq!(
        compile("int g(int a, int b, int c, int d, int e, int f, int h) { return 0; }").unwrap_err(),
        CodegenError::TooManyArgs
    );
    assert_eq!(
        compile("int g() { return 0; } int main() { return g(1, 2, 3, 4, 5, 6, 7); }").unwrap_err(),
        CodegenError::TooManyArgs
    );
}

#[test]
fn codegen_out_of_registers() {
    let src = "int f(int a, int b, int c, int d, int e, int g) { return a; } \
               int main() { int v = 1; return f(v, v, v, v, v, f(v, v, v, v, v, f(v, v, v, v, v, v))); }";
    assert_eq!(compile(src).unwrap_err(), CodegenError::OutOfRegisters);
}

#[test]
fn stack_offsets_grow_and_overflow() {
    let mut ctx = CodegenContext::new();
    assert_eq!(ctx.get_var_stack_offset(4), Ok(4));
    assert_eq!(ctx.get_var_stack_offset(8), Ok(12));
    ctx.reset_stack_offset();
    assert_eq!(ctx.current_stack_offset, 0);
    ctx.current_stack_offset = 0x7fff_fffe;
    assert_eq!(ctx.get_var_stack_offset(4), Err(CodegenError::StackOverflow));
    assert_eq!(ctx.get_var_stack_offset(1), Ok(0x7fff_ffff));
}

#[test]
fn registers_are_handed_out_in_order_and_never_the_frame_ones() {
    let mut ctx = CodegenContext::new();
    let mut got = Vec::new();
    while let Some(r) = ctx.next_reg() {
        assert!(r != Reg::Rbp && r != Reg::Rsp);
        got.push(r);
    }
    assert_eq!(
        got,
        vec![
            Reg::Rax,
            Reg::Rbx,
            Reg::Rcx,
            Reg::Rdx,
            Reg::Rsi,
            Reg::Rdi,
            Reg::R8,
            Reg::R9,
            Reg::R10,
            Reg::R11,
            Reg::R12,
            Reg::R13,
            Reg::R14,
            Reg::R15,
        ]
    );
    ctx.unused_value(Value::Reg(Reg::Rcx));
    ctx.unused_value(Value::Constant(3));
    assert_eq!(ctx.next_reg(), Some(Reg::Rcx));
    assert_eq!(ctx.next_reg(), None);
}

#[test]
fn register_names() {
    assert_eq!(Reg::Rax.to_addressing_str(AsmType::Qword), "rax");
    assert_eq!(Reg::Rax.to_addressing_str(AsmType::Byte), "al");
    assert_eq!(Reg::Rsi.to_addressing_str(AsmType::Byte), "sil");
    assert_eq!(Reg::R9.to_addressing_str(AsmType::Word), "r9w");
    assert_eq!(Reg::R15.to_addressing_str(AsmType::Dword), "r15d");
    assert_eq!(Reg::Rbp.to_addressing_str(AsmType::Byte), "bpl");
    assert_eq!(Reg::Rsp.to_addressing_str(AsmType::Word), "sp");
    assert_eq!(Reg::Rdi.index(), 7);
    assert_eq!(Reg::R15.index(), 15);
}

#[test]
fn operand_texts() {
    let mut s = String::from("x");
    MemAddr::Offset { reg: Reg::Rbp, off: -12 }.to_addressing_str(&mut s);
    assert_eq!(s, "x[rbp-12]");
    let mut s = String::new();
    MemAddr::Offset { reg: Reg::Rsp, off: 8 }.to_addressing_str(&mut s);
    assert_eq!(s, "[rsp+8]");
    let mut s = String::from("old");
    Value::Constant(-42).to_addressing_str(&mut s, AsmType::Dword);
    assert_eq!(s, "-42");
    WriteVal::Reg(Reg::Rdx).to_addressing_str(&mut s, AsmType::Word);
    assert_eq!(s, "dx");
    Value::Mem(MemAddr::Offset { reg: Reg::Rbp, off: 0 }).to_addressing_str(&mut s, AsmType::Byte);
    assert_eq!(s, "[rbp+0]");
}

#[test]
fn value_conversions() {
    let m = MemAddr::Offset { reg: Reg::Rbp, off: -4 };
    assert_eq!(Value::from_write_val(WriteVal::Mem(m)), Value::Mem(m));
    assert_eq!(Value::from(WriteVal::Reg(Reg::R11)), Value::Reg(Reg::R11));
    let v: Value = WriteVal::Mem(m).into();
    assert_eq!(v, Value::Mem(m));
    assert_eq!(Value::Reg(Reg::R8).as_write_val(), Some(WriteVal::Reg(Reg::R8)));
    assert_eq!(Value::Constant(1).as_write_val(), None);
    let mut ctx = CodegenContext::new();
    let before = ctx.asm_out.clone();
    assert_eq!(Value::Constant(9).into_write_val(&mut ctx), Ok(WriteVal::Reg(Reg::Rax)));
    assert_eq!(ctx.asm_out, format!("{}\tmov rax, 9\n", before));
    assert_eq!(Value::Reg(Reg::R8).into_write_val(&mut ctx), Ok(WriteVal::Reg(Reg::R8)));
}

#[test]
fn moves() {
    let mut ctx = CodegenContext::new();
    ctx.asm_out = String::new();
    assert_eq!(emit_mov(&mut ctx, WriteVal::Reg(Reg::Rax), Value::Reg(Reg::Rax), AsmType::Dword), Ok(()));
    assert_eq!(ctx.asm_out, "");
    let slot = MemAddr::Offset { reg: Reg::Rbp, off: -8 };
    assert_eq!(emit_mov(&mut ctx, WriteVal::Mem(slot), Value::Reg(Reg::Rbx), AsmType::Dword), Ok(()));
    assert_eq!(ctx.asm_out, "\tmov dword ptr [rbp-8], ebx\n");
    assert_eq!(
        emit_mov(&mut ctx, WriteVal::Mem(slot), Value::Reg(Reg::Rbx), AsmType::Qword),
        Err(CodegenError::UnsupportedMove)
    );
    assert_eq!(emit_mov(&mut ctx, WriteVal::Reg(Reg::Rcx), Value::Mem(slot), AsmType::Word), Ok(()));
    assert_eq!(ctx.asm_out, "\tmov dword ptr [rbp-8], ebx\n\tmov cx, [rbp-8]\n");
}

#[test]
fn numbers_and_sizes() {
    assert_eq!(codegen_number(0), Ok(Value::Constant(0)));
    assert_eq!(codegen_number(2147483647), Ok(Value::Constant(2147483647)));
    assert_eq!(codegen_number(2147483648), Err(CodegenError::NumberTooLarge));
    assert_eq!(type_size(&Type::Char), 1);
    assert_eq!(type_size(&Type::Short), 2);
    assert_eq!(type_size(&Type::Int), 4);
    assert_eq!(type_size(&Type::Long), 8);
    let f = Type::Function(Box::new(FunctionType { ret_type: Type::Int, args_type: vec![] }));
    assert_eq!(type_size(&f), 8);
    assert_eq!(asm_type_from_type(&Type::Char), AsmType::Byte);
    assert_eq!(asm_type_from_type(&Type::Short), AsmType::Word);
    assert_eq!(asm_type_from_type(&Type::Int), AsmType::Dword);
    assert_eq!(asm_type_from_type(&f), AsmType::Qword);
}

#[test]
fn decimal_text() {
    let mut s = String::from("n=");
    push_decimal(&mut s, 0);
    assert_eq!(s, "n=0");
    push_decimal(&mut s, 18446744073709551615);
    assert_eq!(s, "n=018446744073709551615");
    let mut t = String::new();
    push_signed_decimal(&mut t, -9223372036854775808);
    assert_eq!(t, "-9223372036854775808");
    let mut t = String::new();
    push_signed_decimal(&mut t, 305);
    assert_eq!(t, "305");
}

#[test]
fn codegen_of_a_prefix_is_a_prefix() {
    let first = "int f(int a) { return a * 3; }";
    let second = "int main() { int y = f(2); return y + 1; }";
    let out1 = compile(first).unwrap();
    let out = compile(&format!("{} {}", first, second)).unwrap();
    assert!(out.starts_with(&out1));
    assert!(out.starts_with(ASM_TEMPLATE));
    assert!(out1.len() < out.len());
}

#[test]
fn taking_and_freeing_a_register_changes_nothing() {
    let mut ctx = CodegenContext::new();
    ctx.next_reg();
    ctx.next_reg();
    let before = ctx.used_regs;
    let r = ctx.next_reg().unwrap();
    assert_eq!(r, Reg::Rcx);
    ctx.unused_value(Value::Reg(r));
    assert_eq!(ctx.used_regs, before);
}

#[test]
fn register_names_are_all_distinct() {
    let regs = [
        Reg::Rax, Reg::Rbx, Reg::Rcx, Reg::Rdx, Reg::Rbp, Reg::Rsp, Reg::Rsi, Reg::Rdi,
        Reg::R8, Reg::R9, Reg::R10, Reg::R11, Reg::R12, Reg::R13, Reg::R14, Reg::R15,
    ];
    let widths = [AsmType::Byte, AsmType::Word, AsmType::Dword, AsmType::Qword];
    let mut names: Vec<&str> = Vec::new();
    for r in regs.iter() {
        for t in widths.iter() {
            names.push(r.to_addressing_str(*t));
        }
    }
    for i in 0..names.len() {
        for j in 0..names.len() {
            assert_eq!(names[i] == names[j], i == j, "{} vs {}", names[i], names[j]);
        }
    }
}

#[test]
fn self_move_and_literal_leave_the_context_alone() {
    let mut ctx = CodegenContext::new();
    ctx.value_buf = String::from("scratch");
    assert_eq!(emit_mov(&mut ctx, WriteVal::Reg(Reg::Rbx), Value::Reg(Reg::Rbx), AsmType::Qword), Ok(()));
    assert_eq!(ctx.asm_out, ASM_TEMPLATE);
    assert_eq!(ctx.value_buf, "scratch");
    assert_eq!(ccomp::codegen::codegen_expr(&mut ctx, &ExprAst::Number(12)), Ok(Value::Constant(12)));
    assert_eq!(ctx.asm_out, ASM_TEMPLATE);
    assert_eq!(ctx.value_buf, "scratch");
    assert_eq!(ctx.used_regs, ccomp::codegen::init_used_regs());
}
