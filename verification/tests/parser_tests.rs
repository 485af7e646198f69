use ccomp::lexer::{lex, BinOp, TokenTag};
use ccomp::parser::{parse, Arg, ExprAst, ParseError, StatementAst, TopLevelAst};
use ccomp::types::Type;

fn parse_src(s: &str) -> Result<Vec<TopLevelAst>, ParseError> {
    parse(lex(s).unwrap())
}

fn num(n: u128) -> ExprAst {
    ExprAst::Number(n)
}

fn var(s: &str) -> ExprAst {
    ExprAst::VarUse(s.to_string())
}

fn bin(lhs: ExprAst, op: BinOp, rhs: ExprAst) -> ExprAst {
    ExprAst::BinOp { lhs: Box::new(lhs), op, rhs: Box::new(rhs) }
}

fn main_returning(e: ExprAst) -> Vec<TopLevelAst> {
    vec![TopLevelAst::Function {
        name: "main".to_string(),
        args: vec![],
        body: vec![StatementAst::Return(e)],
        return_type: Type::Int,
    }]
}

fn same(a: &[TopLevelAst], b: &[TopLevelAst]) -> bool {
    format!("{:?}", a) == format!("{:?}", b)
}

#[test]
fn parse_return_sum() {
    let ast = parse_src("int main() { return 1 + 2; }").unwrap();
    assert!(same(&ast, &main_returning(bin(num(1), BinOp::Plus, num(2)))));
}

#[test]
fn parse_empty_program() {
    assert_eq!(parse_src("").unwrap().len(), 0);
}

#[test]
fn parse_multiplication_binds_tighter() {
    let ast = parse_src("int main() { return 1 + 2 * 3; }").unwrap();
    let expected = bin(num(1), BinOp::Plus, bin(num(2), BinOp::Mult, num(3)));
    assert!(same(&ast, &main_returning(expected)));

    let ast = parse_src("int main() { return 1 * 2 + 3; }").unwrap();
    let expected = bin(bin(num(1), BinOp::Mult, num(2)), BinOp::Plus, num(3));
    assert!(same(&ast, &main_returning(expected)));
}

#[test]
fn parse_same_precedence_is_left_associative() {
    let ast = parse_src("int main() { return 8 - 4 - 2; }").unwrap();
    let expected = bin(bin(num(8), BinOp::Minus, num(4)), BinOp::Minus, num(2));
    assert!(same(&ast, &main_returning(expected)));

    let ast = parse_src("int main() { return 8 / 4 * 2; }").unwrap();
    let expected = bin(bin(num(8), BinOp::Div, num(4)), BinOp::Mult, num(2));
    assert!(same(&ast, &main_returning(expected)));
}

#[test]
fn parse_comparison_binds_loosest() {
    let ast = parse_src("int main() { return a == b + 1; }").unwrap();
    let expected = bin(var("a"), BinOp::Cmp, bin(var("b"), BinOp::Plus, num(1)));
    assert!(same(&ast, &main_returning(expected)));
}

#[test]
fn parse_assignment_binds_loosest_of_all() {
    let ast = parse_src("int main() { x = y == 1; }").unwrap();
    let expected = vec![TopLevelAst::Function {
        name: "main".to_string(),
        args: vec![],
        body: vec![StatementAst::Expr(bin(var("x"), BinOp::Equal, bin(var("y"), BinOp::Cmp, num(1))))],
        return_type: Type::Int,
    }];
    assert!(same(&ast, &expected));
}

#[test]
fn parse_function_with_args_and_call() {
    let ast = parse_src("long add(int a, char b) { return a + b; } int main() { int x = add(1, 2); return x; }")
        .unwrap();
    let expected = vec![
        TopLevelAst::Function {
            name: "add".to_string(),
            args: vec![
                Arg { name: "a".to_string(), arg_type: Type::Int },
                Arg { name: "b".to_string(), arg_type: Type::Char },
            ],
            body: vec![StatementAst::Return(bin(var("a"), BinOp::Plus, var("b")))],
            return_type: Type::Long,
        },
        TopLevelAst::Function {
            name: "main".to_string(),
            args: vec![],
            body: vec![
                StatementAst::Var {
                    name: "x".to_string(),
                    var_type: Type::Int,
                    val: ExprAst::FunctionCall { fun: Box::new(var("add")), args: vec![num(1), num(2)] },
                },
                StatementAst::Return(var("x")),
            ],
            return_type: Type::Int,
        },
    ];
    assert!(same(&ast, &expected));
}

#[test]
fn parse_call_without_args_then_operator() {
    let ast = parse_src("int main() { return f() * 2; }").unwrap();
    let call = ExprAst::FunctionCall { fun: Box::new(var("f")), args: vec![] };
    assert!(same(&ast, &main_returning(bin(call, BinOp::Mult, num(2)))));
}

#[test]
fn parse_if_else() {
    let ast = parse_src("int main() { if (x) { return 1; } else { return 2; } return 3; }").unwrap();
    let expected = vec![TopLevelAst::Function {
        name: "main".to_string(),
        args: vec![],
        body: vec![
            StatementAst::If {
                condition: var("x"),
                if_body: vec![StatementAst::Return(num(1))],
                else_body: Some(vec![StatementAst::Return(num(2))]),
            },
            StatementAst::Return(num(3)),
        ],
        return_type: Type::Int,
    }];
    assert!(same(&ast, &expected));
}

#[test]
fn parse_if_without_else() {
    let ast = parse_src("int main() { if (x) { } }").unwrap();
    let expected = vec![TopLevelAst::Function {
        name: "main".to_string(),
        args: vec![],
        body: vec![StatementAst::If { condition: var("x"), if_body: vec![], else_body: None }],
        return_type: Type::Int,
    }];
    assert!(same(&ast, &expected));
}

#[test]
fn parse_missing_semicolon() {
    assert_eq!(parse_src("int main() { return 1 }").unwrap_err(), ParseError::MissingSemicolon);
    assert_eq!(parse_src("int main() { return 1").unwrap_err(), ParseError::MissingSemicolon);
}

#[test]
fn parse_call_on_the_right_of_an_operator_is_refused() {
    assert_eq!(parse_src("int main() { return 1 + f(2); }").unwrap_err(), ParseError::MissingSemicolon);
}

#[test]
fn parse_unexpected_end() {
    assert_eq!(parse_src("int").unwrap_err(), ParseError::UnexpectedEnd);
    assert_eq!(parse_src("int main() {").unwrap_err(), ParseError::UnexpectedEnd);
    assert_eq!(parse_src("int main() { return").unwrap_err(), ParseError::UnexpectedEnd);
    assert_eq!(parse_src("int main() { return f(1, 2").unwrap_err(), ParseError::UnexpectedEnd);
}

#[test]
fn parse_wrong_token() {
    assert_eq!(
        parse_src("int 5() {}").unwrap_err(),
        ParseError::WrongToken { found: TokenTag::Number, expected: TokenTag::Identifier }
    );
    assert_eq!(
        parse_src("int main(x) {}").unwrap_err(),
        ParseError::WrongToken { found: TokenTag::Identifier, expected: TokenTag::Type }
    );
    assert_eq!(
        parse_src("int main() { return f(1 2); }").unwrap_err(),
        ParseError::WrongToken { found: TokenTag::Number, expected: TokenTag::Colon }
    );
    assert_eq!(
        parse_src("int main() { if x { } }").unwrap_err(),
        ParseError::WrongToken { found: TokenTag::Identifier, expected: TokenTag::LeftParen }
    );
}

#[test]
fn parse_unexpected_token() {
    assert_eq!(parse_src("main() {}").unwrap_err(), ParseError::UnexpectedToken(TokenTag::Identifier));
    assert_eq!(parse_src("int main() { return (1); }").unwrap_err(), ParseError::UnexpectedToken(TokenTag::LeftParen));
}

#[test]
fn parse_expected_assign() {
    assert_eq!(parse_src("int main() { int x 5; }").unwrap_err(), ParseError::ExpectedAssign(TokenTag::Number));
    assert_eq!(parse_src("int main() { int x == 5; }").unwrap_err(), ParseError::ExpectedAssign(TokenTag::BinOp));
    assert_eq!(parse_src("int main() { int x").unwrap_err(), ParseError::UnexpectedEnd);
}
