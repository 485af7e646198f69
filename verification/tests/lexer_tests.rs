use ccomp::lexer::{lex, BinOp, LexError, Token, TokenTag};
use ccomp::types::Type;

fn show(s: &str) -> String {
    format!("{:?}", lex(s).unwrap())
}

#[test]
fn lex_small_function() {
    let toks = lex("int main() { return 1 + 2; }").unwrap();
    assert_eq!(toks.len(), 11);
    assert!(matches!(toks[0], Token::Type(Type::Int)));
    assert!(matches!(&toks[1], Token::Identifier(s) if s == "main"));
    assert!(matches!(toks[2], Token::LeftParen));
    assert!(matches!(toks[3], Token::RightParen));
    assert!(matches!(toks[4], Token::LeftBrace));
    assert!(matches!(toks[5], Token::Return));
    assert!(matches!(toks[6], Token::Number(1)));
    assert!(matches!(toks[7], Token::BinOp(BinOp::Plus)));
    assert!(matches!(toks[8], Token::Number(2)));
    assert!(matches!(toks[9], Token::SemiColon));
    assert!(matches!(toks[10], Token::RightBrace));
}

#[test]
fn lex_keywords_and_types() {
    let toks = lex("char short int long if else return iff _x9").unwrap();
    assert!(matches!(toks[0], Token::Type(Type::Char)));
    assert!(matches!(toks[1], Token::Type(Type::Short)));
    assert!(matches!(toks[2], Token::Type(Type::Int)));
    assert!(matches!(toks[3], Token::Type(Type::Long)));
    assert!(matches!(toks[4], Token::If));
    assert!(matches!(toks[5], Token::Else));
    assert!(matches!(toks[6], Token::Return));
    assert!(matches!(&toks[7], Token::Identifier(s) if s == "iff"));
    assert!(matches!(&toks[8], Token::Identifier(s) if s == "_x9"));
    assert_eq!(toks.len(), 9);
}

#[test]
fn lex_operators() {
    let toks = lex("+ - * / == = ,").unwrap();
    assert!(matches!(toks[0], Token::BinOp(BinOp::Plus)));
    assert!(matches!(toks[1], Token::BinOp(BinOp::Minus)));
    assert!(matches!(toks[2], Token::BinOp(BinOp::Mult)));
    assert!(matches!(toks[3], Token::BinOp(BinOp::Div)));
    assert!(matches!(toks[4], Token::BinOp(BinOp::Cmp)));
    assert!(matches!(toks[5], Token::BinOp(BinOp::Equal)));
    assert!(matches!(toks[6], Token::Colon));
    assert_eq!(toks.len(), 7);
}

#[test]
fn lex_number_values() {
    let toks = lex("0 007 1234567890123456789").unwrap();
    assert!(matches!(toks[0], Token::Number(0)));
    assert!(matches!(toks[1], Token::Number(7)));
    assert!(matches!(toks[2], Token::Number(1234567890123456789)));
}

#[test]
fn lex_number_of_nineteen_nines() {
    let toks = lex("9999999999999999999").unwrap();
    assert!(matches!(toks[0], Token::Number(9999999999999999999)));
}

#[test]
fn lex_number_too_long() {
    assert_eq!(lex("12345678901234567890").unwrap_err(), LexError::NumberTooLong);
}

#[test]
fn lex_operator_too_long() {
    assert_eq!(lex("a +++ b").unwrap_err(), LexError::OperatorTooLong);
    assert_eq!(lex("/// doc").unwrap_err(), LexError::OperatorTooLong);
}

#[test]
fn lex_unknown_operator() {
    assert_eq!(lex("x += 1").unwrap_err(), LexError::UnknownOperator('+', '='));
    assert_eq!(lex("x -- 1").unwrap_err(), LexError::UnknownOperator('-', '-'));
}

#[test]
fn lex_unknown_char() {
    assert_eq!(lex("int a = 1 @ 2;").unwrap_err(), LexError::UnknownChar('@'));
    assert_eq!(lex("é").unwrap_err(), LexError::UnknownChar('é'));
}

#[test]
fn lex_empty_and_blank() {
    assert_eq!(lex("").unwrap().len(), 0);
    assert_eq!(lex(" \t\r\n\u{a0}\u{2003}").unwrap().len(), 0);
}

#[test]
fn lex_number_followed_by_identifier() {
    let toks = lex("12ab").unwrap();
    assert!(matches!(toks[0], Token::Number(12)));
    assert!(matches!(&toks[1], Token::Identifier(s) if s == "ab"));
}

#[test]
fn lex_whitespace_is_skipped() {
    assert_eq!(show("  int\tx\n"), show("int x"));
    assert_eq!(show("\u{2003}return"), show("return"));
}

#[test]
fn lex_preprocessor_line_is_skipped() {
    assert_eq!(show("# 1 \"main.c\"\nint"), show("int"));
    assert_eq!(show("#define X 1"), show(""));
}

#[test]
fn lex_line_comment_is_skipped() {
    assert_eq!(show("// a comment ( + @\nint"), show("int"));
    assert_eq!(show("x // trailing"), show("x"));
}

#[test]
fn lexed_tokens_are_well_formed() {
    let toks = lex("int x = 42; long y = 9999999999999999999; return x;").unwrap();
    for t in toks.iter() {
        match t {
            Token::Number(n) => assert!(*n < 10_000_000_000_000_000_000u128),
            Token::Identifier(s) => {
                assert!(!s.is_empty());
                for w in ["char", "short", "int", "long", "if", "else", "return"] {
                    assert_ne!(s.as_str(), w);
                }
            }
            _ => {}
        }
    }
}

#[test]
fn token_tags() {
    let toks = lex("5 + ( ) { } ; , return if else int z").unwrap();
    let tags: Vec<TokenTag> = toks.iter().map(|t| t.tag()).collect();
    assert_eq!(
        tags,
        vec![
            TokenTag::Number,
            TokenTag::BinOp,
            TokenTag::LeftParen,
            TokenTag::RightParen,
            TokenTag::LeftBrace,
            TokenTag::RightBrace,
            TokenTag::SemiColon,
            TokenTag::Colon,
            TokenTag::Return,
            TokenTag::If,
            TokenTag::Else,
            TokenTag::Type,
            TokenTag::Identifier,
        ]
    );
}

#[test]
fn lex_lines_are_independent() {
    let a = "int x = 12 // note";
    let b = "return x;";
    let joined = format!("{}\n{}", a, b);
    let mut expected = format!("{:?}", lex(a).unwrap());
    expected.pop();
    let tail = format!("{:?}", lex(b).unwrap());
    let expected = format!("{}, {}", expected, &tail[1..]);
    assert_eq!(show(&joined), expected);
    assert_eq!(lex(&joined).unwrap().len(), lex(a).unwrap().len() + lex(b).unwrap().len());
}

#[test]
fn lex_lines_report_the_first_error() {
    assert_eq!(lex("a @\nb $").unwrap_err(), LexError::UnknownChar('@'));
    assert_eq!(lex("a\nb $").unwrap_err(), LexError::UnknownChar('$'));
    assert_eq!(lex("#if @\nx").unwrap().len(), 1);
}

#[test]
fn lex_whitespace_runs_are_interchangeable() {
    assert_eq!(show("int  x =\t\t1 ;\n\nreturn x;"), show("int x = 1 ; return x;"));
    assert_eq!(show("a\r\n+\u{3000}b"), show("a + b"));
    assert_eq!(show("12 34"), format!("{:?}", vec![Token::Number(12), Token::Number(34)]));
}

#[test]
fn lex_every_whitespace_run_replaced() {
    let s = "long f ( int a , int b ) { return a * b ; }";
    let t = "long\tf(\n\n  int a ,\r\nint   b\u{2003})\t{return a\n*\tb ;\n}";
    let t = t.replace("f(", "f (");
    assert_eq!(show(s), show(&t));
    assert_eq!(lex("1 @ 2").unwrap_err(), lex("1\n\t@  2").unwrap_err());
}
