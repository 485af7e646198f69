//! Code generation only ever appends to the assembly text: what was written for
//! earlier declarations stays as it was.
use vstd::prelude::*;

use crate::codegen::{
    ASM_TEMPLATE, AsmType, CgResult, CgState, CodegenError, FUN_EPILOGUE, FUN_PRELUDE, Reg, Value,
    WriteVal, arg_reg, asm_type_of, emit_text, frame_slot, initial_state, init_used, op_instr,
    sp_arg_movs, sp_arg_types, sp_binop, sp_call, sp_cg_args, sp_cg_expr, sp_declare_args,
    sp_emit_mov, sp_finish_binop, sp_finish_call, sp_free_values, sp_function, sp_into_write_val, sp_next_reg,
    sp_stack_offset, sp_statement, sp_statements, sp_store_args, sp_toplevel, sp_toplevels,
    sp_unused_value, sp_var_use, spec_codegen, type_size_of,
};
use crate::parser::{ArgV, ExprV, StmtV, TopV};
use crate::types::{TypeV, spec_get_type};
use crate::vars::VarV;

verus! {

/// The assembly of `st2` begins with that of `st`.
#[verifier::opaque]
pub open spec fn out_grows(st: CgState, st2: CgState) -> bool {
    st.out.is_prefix_of(st2.out)
}

proof fn lemma_grows_refl(st: CgState)
    ensures
        out_grows(st, st),
{
    reveal(out_grows);
    assert(st.out =~= st.out.subrange(0, st.out.len() as int));
}

proof fn lemma_grows_same(st: CgState, st2: CgState)
    requires
        st2.out == st.out,
    ensures
        out_grows(st, st2),
{
    lemma_grows_refl(st);
    reveal(out_grows);
}

proof fn lemma_prefix_trans(a: Seq<char>, b: Seq<char>, c: Seq<char>)
    requires
        a.is_prefix_of(b),
        b.is_prefix_of(c),
    ensures
        a.is_prefix_of(c),
{
    assert forall|i: int| 0 <= i < a.len() implies a[i] == c.subrange(0, a.len() as int)[i] by {
        assert(a[i] == b.subrange(0, a.len() as int)[i]);
        assert(b[i] == c.subrange(0, b.len() as int)[i]);
    }
    assert(a =~= c.subrange(0, a.len() as int));
}

proof fn lemma_grows_trans(a: CgState, b: CgState, c: CgState)
    requires
        out_grows(a, b),
        out_grows(b, c),
    ensures
        out_grows(a, c),
{
    reveal(out_grows);
    lemma_prefix_trans(a.out, b.out, c.out);
}

proof fn lemma_grows_emit(st: CgState, t: Seq<char>)
    ensures
        out_grows(st, emit_text(st, t)),
{
    reveal(out_grows);
    assert((st.out + t).subrange(0, st.out.len() as int) =~= st.out);
}

proof fn lemma_emit_mov_grows(st: CgState, to: WriteVal, from: Value, t: AsmType)
    ensures
        sp_emit_mov(st, to, from, t) matches Ok(st2) ==> out_grows(st, st2),
{
    lemma_grows_refl(st);
    lemma_grows_emit(st, crate::codegen::instr_text("mov dword ptr"@, to, from, t));
    lemma_grows_emit(st, crate::codegen::instr_text("mov"@, to, from, t));
}

proof fn lemma_into_write_val_grows(st: CgState, v: Value)
    ensures
        sp_into_write_val(st, v) matches Ok((st2, _)) ==> out_grows(st, st2),
{
    lemma_grows_refl(st);
    if let Some((st1, r)) = sp_next_reg(st) {
        lemma_grows_same(st, st1);
        lemma_emit_mov_grows(st1, WriteVal::Reg(r), v, AsmType::Qword);
        if let Ok(st2) = sp_emit_mov(st1, WriteVal::Reg(r), v, AsmType::Qword) {
            lemma_grows_trans(st, st1, st2);
        }
    }
}

proof fn lemma_var_use_grows(st: CgState, name: Seq<char>)
    ensures
        sp_var_use(st, name) matches Ok((st2, _)) ==> out_grows(st, st2),
{
    if let Some((st1, reg)) = sp_next_reg(st) {
        lemma_grows_same(st, st1);
        if st1.vars.contains_key(name) {
            if let Some(off) = st1.vars[name].stack_offset {
                let t = asm_type_of(st1.vars[name].var_type);
                lemma_emit_mov_grows(st1, WriteVal::Reg(reg), Value::Mem(frame_slot(off)), t);
                if let Ok(st2) = sp_emit_mov(st1, WriteVal::Reg(reg), Value::Mem(frame_slot(off)), t) {
                    lemma_grows_trans(st, st1, st2);
                }
            }
        }
    }
}

proof fn lemma_finish_binop_grows(st: CgState, lv: Value, rv: Value, op: crate::lexer::BinOp, ty: crate::types::TypeV)
    ensures
        sp_finish_binop(st, lv, rv, op, ty) matches Ok((st2, _)) ==> out_grows(st, st2),
{
    let l = if lv is Constant && rv is Reg {
        rv
    } else {
        lv
    };
    let r = if lv is Constant && rv is Reg {
        lv
    } else {
        rv
    };
    lemma_into_write_val_grows(st, l);
    if let Ok((st1, res)) = sp_into_write_val(st, l) {
        if let Some(instr) = op_instr(op) {
            let text = crate::codegen::instr_text(instr, res, r, asm_type_of(ty));
            lemma_grows_emit(st1, text);
            let st2 = emit_text(st1, text);
            lemma_grows_trans(st, st1, st2);
            lemma_grows_same(st2, sp_unused_value(st2, r));
            lemma_grows_trans(st, st2, sp_unused_value(st2, r));
        }
    }
}

proof fn lemma_arg_movs_grows(st: CgState, vals: Seq<Value>, tys: Seq<AsmType>, n: nat)
    ensures
        sp_arg_movs(st, vals, tys, n) matches Ok(st2) ==> out_grows(st, st2),
    decreases n,
{
    if n == 0 {
        lemma_grows_refl(st);
    } else {
        lemma_arg_movs_grows(st, vals, tys, (n - 1) as nat);
        if let Ok(st1) = sp_arg_movs(st, vals, tys, (n - 1) as nat) {
            if n - 1 < 6 {
                let to = WriteVal::Reg(arg_reg((n - 1) as nat));
                lemma_emit_mov_grows(st1, to, vals[n - 1], tys[n - 1]);
                if let Ok(st2) = sp_emit_mov(st1, to, vals[n - 1], tys[n - 1]) {
                    lemma_grows_trans(st, st1, st2);
                }
            }
        }
    }
}

proof fn lemma_free_values_out(st: CgState, vals: Seq<Value>, n: nat)
    ensures
        sp_free_values(st, vals, n).out == st.out,
    decreases n,
{
    if n > 0 {
        lemma_free_values_out(st, vals, (n - 1) as nat);
    }
}

proof fn lemma_finish_call_grows(st: CgState, fun: ExprV, vals: Seq<Value>, tys: Seq<AsmType>, ret_asm: AsmType)
    ensures
        sp_finish_call(st, fun, vals, tys, ret_asm) matches Ok((st2, _)) ==> out_grows(st, st2),
{
    let moved: CgResult<Seq<Value>> = match crate::codegen::position_from(vals, Value::Reg(Reg::Rax), 0) {
        None => Ok((st, vals)),
        Some(p) => match sp_next_reg(st) {
            None => Err(CodegenError::OutOfRegisters),
            Some((st1, r)) => match sp_emit_mov(st1, WriteVal::Reg(r), Value::Reg(Reg::Rax), ret_asm) {
                Err(e) => Err(e),
                Ok(st2) => Ok((st2, vals.update(p as int, Value::Reg(r)))),
            },
        },
    };
    lemma_grows_refl(st);
    if let Some(p) = crate::codegen::position_from(vals, Value::Reg(Reg::Rax), 0) {
        if let Some((st1, r)) = sp_next_reg(st) {
            lemma_grows_same(st, st1);
            lemma_emit_mov_grows(st1, WriteVal::Reg(r), Value::Reg(Reg::Rax), ret_asm);
            if let Ok(st2) = sp_emit_mov(st1, WriteVal::Reg(r), Value::Reg(Reg::Rax), ret_asm) {
                lemma_grows_trans(st, st1, st2);
            }
        }
    }
    if let Ok((st3, vals3)) = moved {
        lemma_arg_movs_grows(st3, vals3, tys, vals3.len());
        if let Ok(st4) = sp_arg_movs(st3, vals3, tys, vals3.len()) {
            lemma_grows_trans(st, st3, st4);
            if let ExprV::VarUse(name) = fun {
                let st5 = emit_text(st4, "\tcall "@ + name + "\n"@);
                lemma_grows_emit(st4, "\tcall "@ + name + "\n"@);
                lemma_grows_trans(st, st4, st5);
                let st6 = CgState { used: st5.used.update(0, true), ..st5 };
                lemma_free_values_out(st6, vals3, vals3.len());
                lemma_grows_same(st5, sp_free_values(st6, vals3, vals3.len()));
                lemma_grows_trans(st, st5, sp_free_values(st6, vals3, vals3.len()));
            }
        }
    }
}

proof fn lemma_cg_args_grows(st: CgState, args: Seq<ExprV>)
    ensures
        sp_cg_args(st, args) matches Ok((st2, _)) ==> out_grows(st, st2),
    decreases args, 0nat,
{
    if args.len() == 0 {
        lemma_grows_refl(st);
    } else {
        let init = args.subrange(0, args.len() - 1);
        lemma_cg_args_grows(st, init);
        if let Ok((st1, _)) = sp_cg_args(st, init) {
            lemma_expr_grows(st1, args[args.len() - 1]);
            if let Ok((st2, _)) = sp_cg_expr(st1, args[args.len() - 1]) {
                lemma_grows_trans(st, st1, st2);
            }
        }
    }
}

proof fn lemma_binop_grows(st: CgState, e: ExprV, ty: crate::types::TypeV)
    ensures
        sp_binop(st, e, ty) matches Ok((st2, _)) ==> out_grows(st, st2),
    decreases e, 1nat,
{
    if let ExprV::BinOp { lhs, op, rhs } = e {
        lemma_expr_grows(st, *lhs);
        if let Ok((st1, lv)) = sp_cg_expr(st, *lhs) {
            lemma_expr_grows(st1, *rhs);
            if let Ok((st2, rv)) = sp_cg_expr(st1, *rhs) {
                lemma_grows_trans(st, st1, st2);
                lemma_finish_binop_grows(st2, lv, rv, op, ty);
                if let Ok((st3, _)) = sp_finish_binop(st2, lv, rv, op, ty) {
                    lemma_grows_trans(st, st2, st3);
                }
            }
        }
    }
}

proof fn lemma_call_grows(st: CgState, e: ExprV)
    ensures
        sp_call(st, e) matches Ok((st2, _)) ==> out_grows(st, st2),
    decreases e, 1nat,
{
    if let ExprV::FunctionCall { fun, args } = e {
        lemma_cg_args_grows(st, args);
        if let Ok(crate::types::TypeV::Function(f)) = spec_get_type(*fun, st.vars) {
            if let Ok((st1, vals)) = sp_cg_args(st, args) {
                if let Ok(tys) = sp_arg_types(args, st1.vars) {
                    lemma_finish_call_grows(st1, *fun, vals, tys, asm_type_of(f.ret_type));
                    if let Ok((st2, _)) = sp_finish_call(st1, *fun, vals, tys, asm_type_of(f.ret_type)) {
                        lemma_grows_trans(st, st1, st2);
                    }
                }
            }
        }
    }
}

proof fn lemma_expr_grows(st: CgState, e: ExprV)
    ensures
        sp_cg_expr(st, e) matches Ok((st2, _)) ==> out_grows(st, st2),
    decreases e, 2nat,
{
    match e {
        ExprV::Number(_) => {
            lemma_grows_refl(st);
        },
        ExprV::VarUse(name) => {
            lemma_var_use_grows(st, name);
        },
        ExprV::BinOp { .. } => {
            if let Ok(ty) = spec_get_type(e, st.vars) {
                lemma_binop_grows(st, e, ty);
            }
        },
        ExprV::FunctionCall { .. } => {
            lemma_call_grows(st, e);
        },
    }
}

proof fn lemma_statement_grows(st: CgState, s: StmtV)
    ensures
        sp_statement(st, s) matches Ok(st2) ==> out_grows(st, st2),
{
    match s {
        StmtV::Return(e) => {
            lemma_expr_grows(st, e);
            if let Ok((st1, v)) = sp_cg_expr(st, e) {
                let t = asm_type_of(st1.ret);
                lemma_emit_mov_grows(st1, WriteVal::Reg(Reg::Rax), v, t);
                if let Ok(st2) = sp_emit_mov(st1, WriteVal::Reg(Reg::Rax), v, t) {
                    lemma_grows_trans(st, st1, st2);
                    let st3 = emit_text(st2, FUN_EPILOGUE@);
                    lemma_grows_emit(st2, FUN_EPILOGUE@);
                    lemma_grows_trans(st, st2, st3);
                    lemma_grows_emit(st3, "\tret\n"@);
                    lemma_grows_trans(st, st3, emit_text(st3, "\tret\n"@));
                }
            }
        },
        StmtV::Var { name, var_type, val } => {
            lemma_expr_grows(st, val);
            if let Ok((st1, v)) = sp_cg_expr(st, val) {
                if let Ok((st2, off)) = sp_stack_offset(st1, type_size_of(var_type)) {
                    let st3 = CgState {
                        vars: st2.vars.insert(name, VarV { var_type: var_type, stack_offset: Some(off) }),
                        ..st2
                    };
                    lemma_grows_same(st1, st3);
                    lemma_grows_trans(st, st1, st3);
                    let to = WriteVal::Mem(frame_slot(off));
                    lemma_emit_mov_grows(st3, to, v, asm_type_of(var_type));
                    if let Ok(st4) = sp_emit_mov(st3, to, v, asm_type_of(var_type)) {
                        lemma_grows_trans(st, st3, st4);
                        lemma_grows_same(st4, sp_unused_value(st4, v));
                        lemma_grows_trans(st, st4, sp_unused_value(st4, v));
                    }
                }
            }
        },
        StmtV::Expr(e) => {
            lemma_expr_grows(st, e);
        },
        StmtV::If { .. } => {},
    }
}

proof fn lemma_statements_grows(st: CgState, body: Seq<StmtV>)
    ensures
        sp_statements(st, body) matches Ok(st2) ==> out_grows(st, st2),
    decreases body.len(),
{
    if body.len() == 0 {
        lemma_grows_refl(st);
    } else {
        lemma_statements_grows(st, body.drop_last());
        if let Ok(st1) = sp_statements(st, body.drop_last()) {
            lemma_statement_grows(st1, body.last());
            if let Ok(st2) = sp_statement(st1, body.last()) {
                lemma_grows_trans(st, st1, st2);
            }
        }
    }
}

proof fn lemma_declare_args_out(st: CgState, args: Seq<ArgV>, n: nat)
    ensures
        sp_declare_args(st, args, n) matches Ok((st2, _)) ==> st2.out == st.out,
    decreases n,
{
    if n > 0 {
        lemma_declare_args_out(st, args, (n - 1) as nat);
    }
}

proof fn lemma_store_args_grows(st: CgState, args: Seq<ArgV>, offs: Seq<u32>, n: nat)
    ensures
        sp_store_args(st, args, offs, n) matches Ok(st2) ==> out_grows(st, st2),
    decreases n,
{
    if n == 0 {
        lemma_grows_refl(st);
    } else {
        lemma_store_args_grows(st, args, offs, (n - 1) as nat);
        if let Ok(st1) = sp_store_args(st, args, offs, (n - 1) as nat) {
            let to = WriteVal::Mem(frame_slot(offs[n - 1]));
            let from = Value::Reg(arg_reg((n - 1) as nat));
            let t = asm_type_of(args[n - 1].arg_type);
            lemma_emit_mov_grows(st1, to, from, t);
            if let Ok(st2) = sp_emit_mov(st1, to, from, t) {
                lemma_grows_trans(st, st1, st2);
            }
        }
    }
}

proof fn lemma_function_grows(st: CgState, name: Seq<char>, body: Seq<StmtV>, ret: TypeV, args: Seq<ArgV>)
    ensures
        sp_function(st, name, body, ret, args) matches Ok(st2) ==> out_grows(st, st2),
{
    if args.len() <= 6 {
        let head = "\t.globl\t"@ + name + "\n"@ + name + ":\n"@ + FUN_PRELUDE@;
        let st1 = CgState {
            out: st.out + "\t.globl\t"@ + name + "\n"@ + name + ":\n"@ + FUN_PRELUDE@,
            used: init_used(),
            ret,
            ..st
        };
        assert(st1.out =~= st.out + head);
        lemma_grows_emit(st, head);
        assert(out_grows(st, st1)) by {
            reveal(out_grows);
        }
        lemma_declare_args_out(st1, args, args.len());
        if let Ok((st2, offs)) = sp_declare_args(st1, args, args.len()) {
            lemma_grows_same(st1, st2);
            lemma_grows_trans(st, st1, st2);
            lemma_store_args_grows(st2, args, offs, args.len());
            if let Ok(st3) = sp_store_args(st2, args, offs, args.len()) {
                lemma_grows_trans(st, st2, st3);
                lemma_statements_grows(st3, body);
                if let Ok(st4) = sp_statements(st3, body) {
                    lemma_grows_trans(st, st3, st4);
                    if let Ok(st5) = sp_function(st, name, body, ret, args) {
                        assert(st5.out == st4.out);
                        lemma_grows_same(st4, st5);
                        lemma_grows_trans(st, st4, st5);
                    }
                }
            }
        }
    }
}

proof fn lemma_toplevel_grows(st: CgState, t: TopV)
    ensures
        sp_toplevel(st, t) matches Ok(st2) ==> out_grows(st, st2),
{
    reveal(sp_toplevel);
    let TopV::Function { name, args, body, return_type } = t;
    lemma_function_grows(st, name, body, return_type, args);
}

proof fn lemma_toplevels_grows(st: CgState, tops: Seq<TopV>)
    ensures
        sp_toplevels(st, tops) matches Ok(st2) ==> out_grows(st, st2),
    decreases tops.len(),
{
    if tops.len() == 0 {
        lemma_grows_refl(st);
    } else {
        lemma_toplevels_grows(st, tops.drop_last());
        if let Ok(st1) = sp_toplevels(st, tops.drop_last()) {
            lemma_toplevel_grows(st1, tops.last());
            if let Ok(st2) = sp_toplevel(st1, tops.last()) {
                lemma_grows_trans(st, st1, st2);
            }
        }
    }
}

/// Declarations after `p` continue from where `p` left off.
proof fn lemma_toplevels_concat(st: CgState, p: Seq<TopV>, q: Seq<TopV>)
    ensures
        sp_toplevels(st, p + q) == (match sp_toplevels(st, p) {
            Err(e) => Err(e),
            Ok(st1) => sp_toplevels(st1, q),
        }),
    decreases q.len(),
{
    if q.len() == 0 {
        assert(p + q =~= p);
    } else {
        assert((p + q).drop_last() =~= p + q.drop_last());
        assert((p + q).last() == q.last());
        lemma_toplevels_concat(st, p, q.drop_last());
    }
}

/// The assembly of a program begins with the fixed file header, followed by the
/// assembly of each of its prefixes: compiling further declarations only appends.
pub proof fn lemma_codegen_appends(prog: Seq<TopV>, more: Seq<TopV>)
    ensures
        spec_codegen(prog + more) matches Ok(out) ==> {
            &&& ASM_TEMPLATE@.is_prefix_of(out)
            &&& spec_codegen(prog) matches Ok(out1) && out1.is_prefix_of(out)
        },
{
    reveal(out_grows);
    lemma_toplevels_concat(initial_state(), prog, more);
    lemma_toplevels_grows(initial_state(), prog);
    if let Ok(st1) = sp_toplevels(initial_state(), prog) {
        lemma_toplevels_grows(st1, more);
        if let Ok(st2) = sp_toplevels(st1, more) {
            lemma_grows_trans(initial_state(), st1, st2);
        }
    }
}

} // verus!
