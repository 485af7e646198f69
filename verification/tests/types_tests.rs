use ccomp::lexer::BinOp;
use ccomp::parser::ExprAst;
use ccomp::types::{compare_types, guess_lit_nb_type, type_max, FunctionType, Type, TypeError};
use ccomp::vars::Var;
use rustc_hash::FxHashMap;

fn fun(ret: Type, args: Vec<Type>) -> Type {
    Type::Function(Box::new(FunctionType { ret_type: ret, args_type: args }))
}

fn samples() -> Vec<Type> {
    vec![
        Type::Char,
        Type::Short,
        Type::Int,
        Type::Long,
        fun(Type::Int, vec![]),
        fun(Type::Int, vec![Type::Char]),
        fun(Type::Int, vec![Type::Char, Type::Long]),
        fun(Type::Char, vec![Type::Long]),
        fun(Type::Long, vec![]),
        fun(fun(Type::Int, vec![]), vec![Type::Short]),
    ]
}

fn order_num(o: std::cmp::Ordering) -> i8 {
    match o {
        std::cmp::Ordering::Less => -1,
        std::cmp::Ordering::Equal => 0,
        std::cmp::Ordering::Greater => 1,
    }
}

#[test]
fn compare_types_agrees_with_derived_order() {
    for a in samples() {
        for b in samples() {
            assert_eq!(compare_types(&a, &b), order_num(a.cmp(&b)), "{:?} vs {:?}", a, b);
        }
    }
}

#[test]
fn compare_types_variant_order() {
    assert_eq!(compare_types(&Type::Char, &Type::Short), -1);
    assert_eq!(compare_types(&Type::Short, &Type::Int), -1);
    assert_eq!(compare_types(&Type::Int, &fun(Type::Long, vec![])), -1);
    assert_eq!(compare_types(&fun(Type::Long, vec![]), &Type::Long), -1);
    assert_eq!(compare_types(&Type::Long, &Type::Char), 1);
    assert_eq!(compare_types(&Type::Int, &Type::Int), 0);
}

#[test]
fn compare_types_is_reflexive_and_antisymmetric() {
    for a in samples() {
        assert_eq!(compare_types(&a, &a), 0);
        for b in samples() {
            assert_eq!(compare_types(&a, &b), -compare_types(&b, &a));
            if compare_types(&a, &b) == 0 {
                assert_eq!(a, b);
            }
        }
    }
}

#[test]
fn compare_types_is_transitive() {
    for a in samples() {
        for b in samples() {
            for c in samples() {
                if compare_types(&a, &b) <= 0 && compare_types(&b, &c) <= 0 {
                    assert!(compare_types(&a, &c) <= 0);
                }
            }
        }
    }
}

#[test]
fn type_max_picks_the_wider() {
    assert_eq!(type_max(Type::Char, Type::Int), Type::Int);
    assert_eq!(type_max(Type::Long, Type::Short), Type::Long);
    assert_eq!(type_max(Type::Long, fun(Type::Int, vec![])), Type::Long);
    assert_eq!(type_max(Type::Int, fun(Type::Int, vec![])), fun(Type::Int, vec![]));
}

#[test]
fn type_max_is_one_of_its_arguments_and_at_least_each() {
    for a in samples() {
        for b in samples() {
            let m = type_max(a.clone_type(), b.clone_type());
            assert!(m == a || m == b);
            assert!(compare_types(&a, &m) <= 0);
            assert!(compare_types(&b, &m) <= 0);
            assert_eq!(m, std::cmp::max(a.clone_type(), b.clone_type()));
        }
    }
}

trait CloneType {
    fn clone_type(&self) -> Type;
}

impl CloneType for Type {
    fn clone_type(&self) -> Type {
        self.duplicate()
    }
}

#[test]
fn duplicate_is_equal() {
    for a in samples() {
        assert_eq!(a.duplicate(), a);
    }
}

#[test]
fn into_function_type() {
    let f = fun(Type::Short, vec![Type::Char, Type::Int]).into_function_type().unwrap();
    assert_eq!(f.ret_type, Type::Short);
    assert_eq!(f.args_type, vec![Type::Char, Type::Int]);
    assert!(Type::Int.into_function_type().is_none());
    assert!(Type::Long.into_function_type().is_none());
}

#[test]
fn guess_literal_types() {
    assert_eq!(guess_lit_nb_type(0), Type::Char);
    assert_eq!(guess_lit_nb_type(255), Type::Char);
    assert_eq!(guess_lit_nb_type(256), Type::Short);
    assert_eq!(guess_lit_nb_type(65535), Type::Short);
    assert_eq!(guess_lit_nb_type(65536), Type::Int);
    assert_eq!(guess_lit_nb_type(4294967295), Type::Int);
    assert_eq!(guess_lit_nb_type(4294967296), Type::Long);
    assert_eq!(guess_lit_nb_type(u64::MAX as u128), Type::Long);
}

#[test]
fn guessed_literal_type_is_monotone() {
    let ns: [u128; 8] = [0, 1, 255, 256, 65535, 65536, 1 << 32, u64::MAX as u128];
    for i in 0..ns.len() {
        for j in i..ns.len() {
            assert!(compare_types(&guess_lit_nb_type(ns[i]), &guess_lit_nb_type(ns[j])) <= 0);
        }
    }
}

fn table() -> FxHashMap<String, Var> {
    let mut vars: FxHashMap<String, Var> = FxHashMap::default();
    vars.insert("c".to_string(), Var { var_type: Type::Char, stack_offset: Some(1) });
    vars.insert("l".to_string(), Var { var_type: Type::Long, stack_offset: Some(9) });
    vars.insert("f".to_string(), Var { var_type: fun(Type::Short, vec![Type::Int]), stack_offset: None });
    vars
}

fn bin(lhs: ExprAst, op: BinOp, rhs: ExprAst) -> ExprAst {
    ExprAst::BinOp { lhs: Box::new(lhs), op, rhs: Box::new(rhs) }
}

#[test]
fn get_type_of_literals() {
    let vars = table();
    assert_eq!(ExprAst::Number(7).get_type(&vars), Ok(Type::Char));
    assert_eq!(ExprAst::Number(70000).get_type(&vars), Ok(Type::Int));
    assert_eq!(ExprAst::Number(1u128 << 64).get_type(&vars), Err(TypeError::LiteralTooBig));
}

#[test]
fn get_type_of_variables() {
    let vars = table();
    assert_eq!(ExprAst::VarUse("c".to_string()).get_type(&vars), Ok(Type::Char));
    assert_eq!(ExprAst::VarUse("l".to_string()).get_type(&vars), Ok(Type::Long));
    assert_eq!(ExprAst::VarUse("zz".to_string()).get_type(&vars), Err(TypeError::UndefinedVariable));
}

#[test]
fn get_type_of_binop_is_at_least_int() {
    let vars = table();
    let e = bin(ExprAst::VarUse("c".to_string()), BinOp::Plus, ExprAst::Number(1));
    assert_eq!(e.get_type(&vars), Ok(Type::Int));
    let e = bin(ExprAst::VarUse("c".to_string()), BinOp::Mult, ExprAst::VarUse("l".to_string()));
    assert_eq!(e.get_type(&vars), Ok(Type::Long));
    let e = bin(ExprAst::VarUse("x".to_string()), BinOp::Mult, ExprAst::Number(1u128 << 70));
    assert_eq!(e.get_type(&vars), Err(TypeError::UndefinedVariable));
    let e = bin(ExprAst::Number(1), BinOp::Mult, ExprAst::Number(1u128 << 70));
    assert_eq!(e.get_type(&vars), Err(TypeError::LiteralTooBig));
}

#[test]
fn get_type_of_binop_is_the_widest() {
    let vars = table();
    let operands = [ExprAst::Number(3), ExprAst::Number(300000), ExprAst::VarUse("c".to_string()), ExprAst::VarUse("l".to_string())];
    for a in operands.iter() {
        for b in operands.iter() {
            let ta = a.get_type(&vars).unwrap();
            let tb = b.get_type(&vars).unwrap();
            let e = bin(clone_expr(a), BinOp::Minus, clone_expr(b));
            let t = e.get_type(&vars).unwrap();
            assert!(compare_types(&ta, &t) <= 0);
            assert!(compare_types(&tb, &t) <= 0);
            assert!(compare_types(&Type::Int, &t) <= 0);
            assert!(t == ta || t == tb || t == Type::Int);
        }
    }
}

fn clone_expr(e: &ExprAst) -> ExprAst {
    match e {
        ExprAst::Number(n) => ExprAst::Number(*n),
        ExprAst::VarUse(s) => ExprAst::VarUse(s.clone()),
        _ => unreachable!(),
    }
}

#[test]
fn get_type_of_call() {
    let vars = table();
    let call = ExprAst::FunctionCall { fun: Box::new(ExprAst::VarUse("f".to_string())), args: vec![] };
    assert_eq!(call.get_type(&vars), Ok(Type::Short));
    let bad = ExprAst::FunctionCall { fun: Box::new(ExprAst::VarUse("c".to_string())), args: vec![] };
    assert_eq!(bad.get_type(&vars), Err(TypeError::NotAFunction));
    let missing = ExprAst::FunctionCall { fun: Box::new(ExprAst::VarUse("g".to_string())), args: vec![] };
    assert_eq!(missing.get_type(&vars), Err(TypeError::UndefinedVariable));
}
