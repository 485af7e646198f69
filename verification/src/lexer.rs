//! Turns source text into tokens.
use vstd::prelude::*;
use std::collections::VecDeque;

use crate::arraybuf::{
    all_digits, decimal_value, digit_buf_as_str, digit_buf_chars, digit_buf_new, digit_buf_try_push,
    op_buf_as_str, op_buf_chars, op_buf_new, op_buf_try_push, parse_decimal_u128,
};
use crate::text::{spec_is_whitespace, char_is_whitespace, push_char};
use crate::types::{Type, TypeV};

verus! {

/// A binary operator.
#[derive(Debug, Clone, Copy, PartialEq, Eq, Structural)]
pub enum BinOp {
    Plus,
    Minus,
    Mult,
    Div,
    Cmp,
    Equal,
}

/// A token of the source text.
#[derive(Debug)]
pub enum Token {
    Number(u128),
    BinOp(BinOp),
    LeftParen,
    RightParen,
    LeftBrace,
    RightBrace,
    SemiColon,
    Colon,
    Return,
    If,
    Else,
    Type(Type),
    Identifier(String),
}

/// The variant of a [`Token`], without its payload.
#[derive(Debug, Clone, Copy, PartialEq, Eq, Structural)]
pub enum TokenTag {
    Number,
    BinOp,
    LeftParen,
    RightParen,
    LeftBrace,
    RightBrace,
    SemiColon,
    Colon,
    Return,
    If,
    Else,
    Type,
    Identifier,
}

/// Mathematical model of a [`Token`].
pub enum TokenV {
    Number(u128),
    BinOp(BinOp),
    LeftParen,
    RightParen,
    LeftBrace,
    RightBrace,
    SemiColon,
    Colon,
    Return,
    If,
    Else,
    Type(TypeV),
    Identifier(Seq<char>),
}

impl View for Token {
    type V = TokenV;

    open spec fn view(&self) -> TokenV {
        match self {
            Token::Number(n) => TokenV::Number(*n),
            Token::BinOp(op) => TokenV::BinOp(*op),
            Token::LeftParen => TokenV::LeftParen,
            Token::RightParen => TokenV::RightParen,
            Token::LeftBrace => TokenV::LeftBrace,
            Token::RightBrace => TokenV::RightBrace,
            Token::SemiColon => TokenV::SemiColon,
            Token::Colon => TokenV::Colon,
            Token::Return => TokenV::Return,
            Token::If => TokenV::If,
            Token::Else => TokenV::Else,
            Token::Type(t) => TokenV::Type(t@),
            Token::Identifier(s) => TokenV::Identifier(s@),
        }
    }
}

pub open spec fn token_tag(t: TokenV) -> TokenTag {
    match t {
        TokenV::Number(_) => TokenTag::Number,
        TokenV::BinOp(_) => TokenTag::BinOp,
        TokenV::LeftParen => TokenTag::LeftParen,
        TokenV::RightParen => TokenTag::RightParen,
        TokenV::LeftBrace => TokenTag::LeftBrace,
        TokenV::RightBrace => TokenTag::RightBrace,
        TokenV::SemiColon => TokenTag::SemiColon,
        TokenV::Colon => TokenTag::Colon,
        TokenV::Return => TokenTag::Return,
        TokenV::If => TokenTag::If,
        TokenV::Else => TokenTag::Else,
        TokenV::Type(_) => TokenTag::Type,
        TokenV::Identifier(_) => TokenTag::Identifier,
    }
}

impl Token {
    /// The variant of this token.
    pub fn tag(&self) -> (r: TokenTag)
        ensures
            r == token_tag(self@),
    {
        match self {
            Token::Number(_) => TokenTag::Number,
            Token::BinOp(_) => TokenTag::BinOp,
            Token::LeftParen => TokenTag::LeftParen,
            Token::RightParen => TokenTag::RightParen,
            Token::LeftBrace => TokenTag::LeftBrace,
            Token::RightBrace => TokenTag::RightBrace,
            Token::SemiColon => TokenTag::SemiColon,
            Token::Colon => TokenTag::Colon,
            Token::Return => TokenTag::Return,
            Token::If => TokenTag::If,
            Token::Else => TokenTag::Else,
            Token::Type(_) => TokenTag::Type,
            Token::Identifier(_) => TokenTag::Identifier,
        }
    }
}

/// The models of a sequence of tokens.
pub open spec fn tokens_view(ts: Seq<Token>) -> Seq<TokenV> {
    ts.map_values(|t: Token| t@)
}

/// Why some source text cannot be split into tokens.
#[derive(Debug, Clone, Copy, PartialEq, Eq, Structural)]
pub enum LexError {
    /// A number literal of more than 19 digits.
    NumberTooLong,
    /// A run of more than two operator characters.
    OperatorTooLong,
    /// Two operator characters that form no operator.
    UnknownOperator(char, char),
    /// A character that starts no token.
    UnknownChar(char),
}

/// The character classes whose maximal runs make up number literals, operators,
/// identifiers and the rest of a comment line.
pub enum CharClass {
    Digit,
    OpChar,
    IdentChar,
    NotNewline,
}

pub open spec fn is_digit(c: char) -> bool {
    '0' <= c <= '9'
}

pub open spec fn is_binop_char(c: char) -> bool {
    c == '+' || c == '-' || c == '*' || c == '/' || c == '='
}

pub open spec fn is_ident_start(c: char) -> bool {
    ('a' <= c <= 'z') || ('A' <= c <= 'Z') || c == '_'
}

pub open spec fn in_class(c: char, k: CharClass) -> bool {
    match k {
        CharClass::Digit => is_digit(c),
        CharClass::OpChar => is_binop_char(c),
        CharClass::IdentChar => is_ident_start(c) || is_digit(c),
        CharClass::NotNewline => c != '\n',
    }
}

/// Length of the longest prefix of `s` made of characters of class `k`.
pub open spec fn run_len(s: Seq<char>, k: CharClass) -> nat
    decreases s.len(),
{
    if s.len() > 0 && in_class(s[0], k) {
        1 + run_len(s.drop_first(), k)
    } else {
        0
    }
}

/// How many characters a comment that starts at the front of `s` takes: the rest of
/// the line, and the line break if there is one.
pub open spec fn line_rest(s: Seq<char>) -> nat {
    let n = run_len(s, CharClass::NotNewline);
    if n < s.len() {
        n + 1
    } else {
        n
    }
}

/// The operator written by one operator character.
pub open spec fn single_op(c: char) -> BinOp {
    if c == '+' {
        BinOp::Plus
    } else if c == '-' {
        BinOp::Minus
    } else if c == '*' {
        BinOp::Mult
    } else if c == '/' {
        BinOp::Div
    } else {
        BinOp::Equal
    }
}

/// The token of a word: a type name, a keyword, or an identifier.
pub open spec fn word_token(w: Seq<char>) -> TokenV {
    if w == seq!['c', 'h', 'a', 'r'] {
        TokenV::Type(TypeV::Char)
    } else if w == seq!['s', 'h', 'o', 'r', 't'] {
        TokenV::Type(TypeV::Short)
    } else if w == seq!['i', 'n', 't'] {
        TokenV::Type(TypeV::Int)
    } else if w == seq!['l', 'o', 'n', 'g'] {
        TokenV::Type(TypeV::Long)
    } else if w == seq!['r', 'e', 't', 'u', 'r', 'n'] {
        TokenV::Return
    } else if w == seq!['i', 'f'] {
        TokenV::If
    } else if w == seq!['e', 'l', 's', 'e'] {
        TokenV::Else
    } else {
        TokenV::Identifier(w)
    }
}

/// One lexing step at the front of a non-empty `cs`: the tokens it yields and how
/// many characters it takes, or why it fails.
pub open spec fn lex_step(cs: Seq<char>) -> Result<(Seq<TokenV>, nat), LexError> {
    let c = cs[0];
    if spec_is_whitespace(c) {
        Ok((seq![], 1))
    } else if is_digit(c) {
        let n = run_len(cs, CharClass::Digit);
        if n > 19 {
            Err(LexError::NumberTooLong)
        } else {
            Ok((seq![TokenV::Number(decimal_value(cs.take(n as int)) as u128)], n))
        }
    } else if is_binop_char(c) {
        let n = run_len(cs, CharClass::OpChar);
        if n > 2 {
            Err(LexError::OperatorTooLong)
        } else if n == 1 {
            Ok((seq![TokenV::BinOp(single_op(c))], 1))
        } else if c == '/' && cs[1] == '/' {
            Ok((seq![], 2 + line_rest(cs.skip(2))))
        } else if c == '=' && cs[1] == '=' {
            Ok((seq![TokenV::BinOp(BinOp::Cmp)], 2))
        } else {
            Err(LexError::UnknownOperator(c, cs[1]))
        }
    } else if is_ident_start(c) {
        let n = run_len(cs, CharClass::IdentChar);
        Ok((seq![word_token(cs.take(n as int))], n))
    } else if c == '(' {
        Ok((seq![TokenV::LeftParen], 1))
    } else if c == ')' {
        Ok((seq![TokenV::RightParen], 1))
    } else if c == '{' {
        Ok((seq![TokenV::LeftBrace], 1))
    } else if c == '}' {
        Ok((seq![TokenV::RightBrace], 1))
    } else if c == ',' {
        Ok((seq![TokenV::Colon], 1))
    } else if c == ';' {
        Ok((seq![TokenV::SemiColon], 1))
    } else if c == '#' {
        Ok((seq![], line_rest(cs)))
    } else {
        Err(LexError::UnknownChar(c))
    }
}

/// The tokens `prefix` followed by those of `rest`, or the error of `rest`.
pub open spec fn prepend_tokens(prefix: Seq<TokenV>, rest: Result<Seq<TokenV>, LexError>) -> Result<
    Seq<TokenV>,
    LexError,
> {
    match rest {
        Ok(ts) => Ok(prefix + ts),
        Err(e) => Err(e),
    }
}

/// The tokens of a whole source text, or why it cannot be split into tokens.
pub open spec fn spec_lex(cs: Seq<char>) -> Result<Seq<TokenV>, LexError>
    decreases cs.len(),
{
    if cs.len() == 0 {
        Ok(seq![])
    } else {
        match lex_step(cs) {
            Err(e) => Err(e),
            Ok((toks, n)) => {
                proof {
                    lemma_lex_step_progress(cs);
                }
                prepend_tokens(toks, spec_lex(cs.skip(n as int)))
            },
        }
    }
}

pub proof fn lemma_run_len_bound(s: Seq<char>, k: CharClass)
    ensures
        run_len(s, k) <= s.len(),
        forall|i: int| 0 <= i < run_len(s, k) ==> in_class(#[trigger] s[i], k),
        run_len(s, k) < s.len() ==> !in_class(s[run_len(s, k) as int], k),
    decreases s.len(),
{
    if s.len() > 0 && in_class(s[0], k) {
        lemma_run_len_bound(s.drop_first(), k);
        assert forall|i: int| 0 <= i < run_len(s, k) implies in_class(#[trigger] s[i], k) by {
            if i > 0 {
                assert(s[i] == s.drop_first()[i - 1]);
            }
        }
    }
}

/// Each lexing step takes at least one character and at most what is there.
pub proof fn lemma_lex_step_progress(cs: Seq<char>)
    requires
        cs.len() > 0,
    ensures
        lex_step(cs) matches Ok((_, n)) ==> 0 < n <= cs.len(),
{
    lemma_run_len_bound(cs, CharClass::Digit);
    lemma_run_len_bound(cs, CharClass::OpChar);
    lemma_run_len_bound(cs, CharClass::IdentChar);
    lemma_run_len_bound(cs, CharClass::NotNewline);
    lemma_run_len_bound(cs.skip(2), CharClass::NotNewline);
}

/// Unfolds `run_len` at position `p` of `cs`.
proof fn lemma_run_len_at(cs: Seq<char>, p: int, k: CharClass)
    requires
        0 <= p <= cs.len(),
    ensures
        run_len(cs.skip(p), k) == if p < cs.len() && in_class(cs[p], k) {
            1 + run_len(cs.skip(p + 1), k)
        } else {
            0
        },
{
    if p < cs.len() {
        assert(cs.skip(p).drop_first() =~= cs.skip(p + 1));
    }
}

/// Advances `pos` over the longest run of class-`k` characters.
fn scan_run(chars: &Vec<char>, pos: &mut usize, k: CharClass)
    requires
        *old(pos) <= chars@.len(),
    ensures
        *final(pos) == *old(pos) + run_len(chars@.skip(*old(pos) as int), k),
        *final(pos) <= chars@.len(),
{
    let ghost start = *pos;
    let ghost cs = chars@;
    proof {
        lemma_run_len_bound(cs.skip(start as int), k);
    }
    loop
        invariant
            start <= *pos <= cs.len(),
            cs == chars@,
            run_len(cs.skip(start as int), k) == (*pos - start) + run_len(cs.skip(*pos as int), k),
        ensures
            start <= *pos <= cs.len(),
            run_len(cs.skip(start as int), k) == *pos - start,
        decreases cs.len() - *pos,
    {
        proof {
            lemma_run_len_at(cs, *pos as int, k);
        }
        if *pos < chars.len() && char_in_class(chars[*pos], &k) {
            *pos = *pos + 1;
        } else {
            break;
        }
    }
}

fn char_in_class(c: char, k: &CharClass) -> (r: bool)
    ensures
        r == in_class(c, *k),
{
    match k {
        CharClass::Digit => '0' <= c && c <= '9',
        CharClass::OpChar => c == '+' || c == '-' || c == '*' || c == '/' || c == '=',
        CharClass::IdentChar => ('a' <= c && c <= 'z') || ('A' <= c && c <= 'Z') || c == '_' || (
        '0' <= c && c <= '9'),
        CharClass::NotNewline => c != '\n',
    }
}

/// 10 to the power `n`.
pub open spec fn pow10(n: nat) -> nat
    decreases n,
{
    if n == 0 {
        1
    } else {
        10 * pow10((n - 1) as nat)
    }
}

/// The value of `n` decimal digits is below `10^n`.
pub proof fn lemma_decimal_value_bound(ds: Seq<char>)
    requires
        all_digits(ds),
    ensures
        decimal_value(ds) < pow10(ds.len()),
    decreases ds.len(),
{
    if ds.len() > 0 {
        let p = ds.drop_last();
        assert(all_digits(p)) by {
            assert forall|i: int| 0 <= i < p.len() implies '0' <= #[trigger] p[i] <= '9' by {
                assert(p[i] == ds[i]);
            }
        }
        lemma_decimal_value_bound(p);
        let d = ((ds.last() as int) - 48);
        assert(0 <= d <= 9) by {
            assert(ds.last() == ds[ds.len() - 1]);
        }
        let v = decimal_value(p);
        let q = pow10(p.len());
        assert(v * 10 + d < q * 10) by (nonlinear_arith)
            requires
                v < q,
                0 <= d <= 9,
        ;
    }
}

pub proof fn lemma_pow10_mono(a: nat, b: nat)
    requires
        a <= b,
    ensures
        pow10(a) <= pow10(b),
    decreases b,
{
    if a < b {
        lemma_pow10_mono(a, (b - 1) as nat);
    }
}

/// A number literal of at most 19 digits is below `10^19`, which is below `2^64`.
pub proof fn lemma_short_literal_fits(ds: Seq<char>)
    requires
        all_digits(ds),
        ds.len() <= 19,
    ensures
        decimal_value(ds) < pow10(19),
        pow10(19) == 10_000_000_000_000_000_000nat,
        pow10(19) <= u64::MAX,
{
    lemma_decimal_value_bound(ds);
    lemma_pow10_mono(ds.len(), 19);
    reveal_with_fuel(pow10, 20);
}

/// Whether every number token is below `10^19`, so fits in 64 bits.
pub open spec fn numbers_fit(ts: Seq<TokenV>) -> bool {
    forall|i: int|
        0 <= i < ts.len() ==> (#[trigger] ts[i] matches TokenV::Number(n) ==> n < 10_000_000_000_000_000_000u128)
}

/// Whether every identifier token is a word that starts with a letter or `_`, is
/// made of letters, digits and `_`, and is no keyword or type name.
pub open spec fn identifiers_ok(ts: Seq<TokenV>) -> bool {
    forall|i: int|
        0 <= i < ts.len() ==> (#[trigger] ts[i] matches TokenV::Identifier(w) ==> {
            &&& w.len() > 0
            &&& is_ident_start(w[0])
            &&& forall|j: int| 0 <= j < w.len() ==> in_class(#[trigger] w[j], CharClass::IdentChar)
            &&& word_token(w) == TokenV::Identifier(w)
        })
}

proof fn lemma_prepend_keeps(toks: Seq<TokenV>, rest: Seq<TokenV>)
    requires
        numbers_fit(toks),
        numbers_fit(rest),
        identifiers_ok(toks),
        identifiers_ok(rest),
    ensures
        numbers_fit(toks + rest),
        identifiers_ok(toks + rest),
{
    let all = toks + rest;
    assert forall|i: int| 0 <= i < all.len() implies (#[trigger] all[i] matches TokenV::Number(
        n,
    ) ==> n < 10_000_000_000_000_000_000u128) by {
        if i < toks.len() {
            assert(all[i] == toks[i]);
        } else {
            assert(all[i] == rest[i - toks.len()]);
        }
    }
    assert forall|i: int| 0 <= i < all.len() implies (#[trigger] all[i] matches TokenV::Identifier(
        w,
    ) ==> {
        &&& w.len() > 0
        &&& is_ident_start(w[0])
        &&& forall|j: int| 0 <= j < w.len() ==> in_class(#[trigger] w[j], CharClass::IdentChar)
        &&& word_token(w) == TokenV::Identifier(w)
    }) by {
        if i < toks.len() {
            assert(all[i] == toks[i]);
        } else {
            assert(all[i] == rest[i - toks.len()]);
        }
    }
}

/// The tokens of one lexing step keep both properties.
proof fn lemma_lex_step_tokens_ok(cs: Seq<char>)
    requires
        cs.len() > 0,
    ensures
        lex_step(cs) matches Ok((toks, _)) ==> numbers_fit(toks) && identifiers_ok(toks),
{
    lemma_run_len_bound(cs, CharClass::Digit);
    lemma_run_len_bound(cs, CharClass::IdentChar);
    let c = cs[0];
    if !spec_is_whitespace(c) && is_digit(c) {
        let n = run_len(cs, CharClass::Digit);
        if n <= 19 {
            let ds = cs.take(n as int);
            assert(all_digits(ds)) by {
                assert forall|i: int| 0 <= i < ds.len() implies '0' <= #[trigger] ds[i] <= '9' by {
                    assert(ds[i] == cs[i]);
                }
            }
            lemma_short_literal_fits(ds);
        }
    }
    if !spec_is_whitespace(c) && !is_digit(c) && !is_binop_char(c) && is_ident_start(c) {
        let n = run_len(cs, CharClass::IdentChar);
        let w = cs.take(n as int);
        assert(w.len() > 0);
        assert(w[0] == c);
        assert forall|j: int| 0 <= j < w.len() implies in_class(#[trigger] w[j], CharClass::IdentChar) by {
            assert(w[j] == cs[j]);
        }
    }
}

/// Lexing keeps its promises on every token: a number literal fits in 64 bits (it
/// has at most 19 digits), and an identifier is a non-empty word that starts with a
/// letter or `_` and is no keyword or type name.
pub proof fn lemma_lexed_tokens_ok(cs: Seq<char>)
    ensures
        spec_lex(cs) matches Ok(ts) ==> numbers_fit(ts) && identifiers_ok(ts),
    decreases cs.len(),
{
    if cs.len() > 0 {
        if let Ok((toks, n)) = lex_step(cs) {
            lemma_lex_step_progress(cs);
            lemma_lex_step_tokens_ok(cs);
            lemma_lexed_tokens_ok(cs.skip(n as int));
            if let Ok(rest) = spec_lex(cs.skip(n as int)) {
                lemma_prepend_keeps(toks, rest);
            }
        }
    }
}

/// Whitespace between tokens is skipped: a whitespace character in front changes
/// nothing.
pub proof fn lemma_lex_skips_whitespace(c: char, cs: Seq<char>)
    requires
        spec_is_whitespace(c),
    ensures
        spec_lex(seq![c] + cs) == spec_lex(cs),
{
    let s = seq![c] + cs;
    assert(s[0] == c);
    assert(s.skip(1) =~= cs);
    if let Ok(ts) = spec_lex(cs) {
        assert(Seq::<TokenV>::empty() + ts =~= ts);
    }
}

/// `run_len` over a prefix all of class `k`.
proof fn lemma_run_len_concat(a: Seq<char>, b: Seq<char>, k: CharClass)
    requires
        forall|i: int| 0 <= i < a.len() ==> in_class(#[trigger] a[i], k),
    ensures
        run_len(a + b, k) == a.len() + run_len(b, k),
    decreases a.len(),
{
    if a.len() > 0 {
        assert((a + b).drop_first() =~= a.drop_first() + b);
        assert((a + b)[0] == a[0]);
        lemma_run_len_concat(a.drop_first(), b, k);
    } else {
        assert(a + b =~= b);
    }
}

/// A comment line (without its line break) followed by a line break, as
/// `line_rest` sees it: the line and the break are taken.
proof fn lemma_line_rest_of_line(l: Seq<char>, rest: Seq<char>)
    requires
        forall|i: int| 0 <= i < l.len() ==> #[trigger] l[i] != '\n',
    ensures
        line_rest(l + seq!['\n'] + rest) == l.len() + 1,
{
    let s = l + (seq!['\n'] + rest);
    assert(l + seq!['\n'] + rest =~= s);
    lemma_run_len_concat(l, seq!['\n'] + rest, CharClass::NotNewline);
    assert((seq!['\n'] + rest)[0] == '\n');
    assert(s[l.len() as int] == '\n');
}

/// A preprocessor line (`#...` up to its line break) yields no tokens.
pub proof fn lemma_lex_skips_hash_line(l: Seq<char>, rest: Seq<char>)
    requires
        forall|i: int| 0 <= i < l.len() ==> #[trigger] l[i] != '\n',
    ensures
        spec_lex(seq!['#'] + l + seq!['\n'] + rest) == spec_lex(rest),
{
    let hl = seq!['#'] + l;
    assert forall|i: int| 0 <= i < hl.len() implies #[trigger] hl[i] != '\n' by {
        if i > 0 {
            assert(hl[i] == l[i - 1]);
        }
    }
    let s = hl + seq!['\n'] + rest;
    assert(seq!['#'] + l + seq!['\n'] + rest =~= s);
    lemma_line_rest_of_line(hl, rest);
    assert(s[0] == '#');
    assert(!spec_is_whitespace('#'));
    assert(s.skip(hl.len() as int + 1) =~= rest);
    if let Ok(ts) = spec_lex(rest) {
        assert(Seq::<TokenV>::empty() + ts =~= ts);
    }
}

/// A `//` comment up to its line break yields no tokens, when the comment does not
/// start with another operator character (which would make the operator too long).
pub proof fn lemma_lex_skips_line_comment(l: Seq<char>, rest: Seq<char>)
    requires
        forall|i: int| 0 <= i < l.len() ==> #[trigger] l[i] != '\n',
        l.len() == 0 || !is_binop_char(l[0]),
    ensures
        spec_lex(seq!['/', '/'] + l + seq!['\n'] + rest) == spec_lex(rest),
{
    let s = seq!['/', '/'] + l + seq!['\n'] + rest;
    let tail = l + seq!['\n'] + rest;
    assert(s =~= seq!['/', '/'] + tail);
    assert(s[0] == '/');
    assert(s[1] == '/');
    assert(!spec_is_whitespace('/'));
    lemma_run_len_concat(seq!['/', '/'], tail, CharClass::OpChar);
    if l.len() > 0 {
        assert(tail[0] == l[0]);
    } else {
        assert(tail[0] == '\n');
    }
    assert(run_len(tail, CharClass::OpChar) == 0);
    assert(s.skip(2) =~= tail);
    lemma_line_rest_of_line(l, rest);
    assert(s.skip(2 + l.len() as int + 1) =~= rest);
    if let Ok(ts) = spec_lex(rest) {
        assert(Seq::<TokenV>::empty() + ts =~= ts);
    }
}

/// The tokens of two texts one after the other, or the first error (of the first
/// text, else of the second).
pub open spec fn join_lexed(
    ra: Result<Seq<TokenV>, LexError>,
    rb: Result<Seq<TokenV>, LexError>,
) -> Result<Seq<TokenV>, LexError> {
    match ra {
        Err(e) => Err(e),
        Ok(ta) => match rb {
            Err(e) => Err(e),
            Ok(tb) => Ok(ta + tb),
        },
    }
}

/// A run in `a + c` is the run in `a`, or all of `a` and the run in `c`.
proof fn lemma_run_len_append(a: Seq<char>, c: Seq<char>, k: CharClass)
    ensures
        run_len(a + c, k) == if run_len(a, k) < a.len() {
            run_len(a, k)
        } else {
            a.len() + run_len(c, k)
        },
    decreases a.len(),
{
    lemma_run_len_bound(a, k);
    if a.len() > 0 {
        assert((a + c).drop_first() =~= a.drop_first() + c);
        assert((a + c)[0] == a[0]);
        lemma_run_len_append(a.drop_first(), c, k);
    } else {
        assert(a + c =~= c);
    }
}

/// No run crosses a line break: before `\n`, every run stops where `a` ends.
proof fn lemma_run_len_line(a: Seq<char>, b: Seq<char>, k: CharClass)
    ensures
        run_len(a + seq!['\n'] + b, k) == run_len(a, k),
{
    let c = seq!['\n'] + b;
    assert(a + seq!['\n'] + b =~= a + c);
    assert(c[0] == '\n');
    assert(!in_class('\n', k));
    assert(run_len(c, k) == 0);
    lemma_run_len_append(a, c, k);
    lemma_run_len_bound(a, k);
}

/// `line_rest` before a line break: the same, except that a comment running to
/// the end of `a` also takes the line break.
proof fn lemma_line_rest_line(a: Seq<char>, b: Seq<char>)
    ensures
        line_rest(a + seq!['\n'] + b) == if line_rest(a) < a.len() || run_len(a, CharClass::NotNewline)
            < a.len() {
            line_rest(a)
        } else {
            a.len() + 1
        },
{
    lemma_run_len_line(a, b, CharClass::NotNewline);
    lemma_run_len_bound(a, CharClass::NotNewline);
}

/// One lexing step at the front of `a + "\n" + b` is the step at the front of `a`,
/// except that a comment or preprocessor line that runs to the end of `a` also
/// takes the line break.
proof fn lemma_lex_step_line(a: Seq<char>, b: Seq<char>)
    requires
        a.len() > 0,
    ensures
        lex_step(a + seq!['\n'] + b) == lex_step(a) || (lex_step(a) == Ok::<
            (Seq<TokenV>, nat),
            LexError,
        >((seq![], a.len())) && lex_step(a + seq!['\n'] + b) == Ok::<(Seq<TokenV>, nat), LexError>(
            (seq![], a.len() + 1),
        )),
{
    let s = a + seq!['\n'] + b;
    assert(s[0] == a[0]);
    lemma_run_len_line(a, b, CharClass::Digit);
    lemma_run_len_line(a, b, CharClass::OpChar);
    lemma_run_len_line(a, b, CharClass::IdentChar);
    lemma_run_len_bound(a, CharClass::Digit);
    lemma_run_len_bound(a, CharClass::OpChar);
    lemma_run_len_bound(a, CharClass::IdentChar);
    let nd = run_len(a, CharClass::Digit);
    let ni = run_len(a, CharClass::IdentChar);
    assert(s.take(nd as int) =~= a.take(nd as int));
    assert(s.take(ni as int) =~= a.take(ni as int));
    lemma_line_rest_line(a, b);
    lemma_run_len_bound(a, CharClass::NotNewline);
    let c = a[0];
    if spec_is_whitespace(c) || is_digit(c) || is_ident_start(c) {
        assert(lex_step(s) == lex_step(a));
    } else if is_binop_char(c) {
        let n = run_len(a, CharClass::OpChar);
        if n == 2 {
            assert(s[1] == a[1]);
            if c == '/' && a[1] == '/' {
                assert(s.skip(2) =~= a.skip(2) + seq!['\n'] + b);
                lemma_line_rest_line(a.skip(2), b);
                lemma_run_len_bound(a.skip(2), CharClass::NotNewline);
                if line_rest(a.skip(2)) < a.skip(2).len() || run_len(a.skip(2), CharClass::NotNewline)
                    < a.skip(2).len() {
                    assert(lex_step(s) == lex_step(a));
                } else {
                    assert(lex_step(a) == Ok::<(Seq<TokenV>, nat), LexError>((seq![], a.len())));
                }
            } else {
                assert(lex_step(s) == lex_step(a));
            }
        } else {
            assert(lex_step(s) == lex_step(a));
        }
    } else if c == '#' {
        if line_rest(a) < a.len() || run_len(a, CharClass::NotNewline) < a.len() {
            assert(lex_step(s) == lex_step(a));
        } else {
            assert(lex_step(a) == Ok::<(Seq<TokenV>, nat), LexError>((seq![], a.len())));
        }
    } else {
        assert(lex_step(s) == lex_step(a));
    }
}

/// Lines are split into tokens independently: the tokens of two texts joined by a
/// line break are those of the first followed by those of the second, and when
/// either cannot be split, the whole fails with the first error.
pub proof fn lemma_lex_lines(a: Seq<char>, b: Seq<char>)
    ensures
        spec_lex(a + seq!['\n'] + b) == join_lexed(spec_lex(a), spec_lex(b)),
    decreases a.len(),
{
    let s = a + seq!['\n'] + b;
    if a.len() == 0 {
        assert(s =~= seq!['\n'] + b);
        assert(spec_is_whitespace('\n'));
        lemma_lex_skips_whitespace('\n', b);
        if let Ok(tb) = spec_lex(b) {
            assert(Seq::<TokenV>::empty() + tb =~= tb);
        }
    } else {
        lemma_lex_step_line(a, b);
        lemma_lex_step_progress(a);
        match lex_step(a) {
            Err(e) => {},
            Ok((toks, n)) => {
                if lex_step(s) == lex_step(a) {
                    let a2 = a.skip(n as int);
                    assert(s.skip(n as int) =~= a2 + seq!['\n'] + b);
                    lemma_lex_lines(a2, b);
                    if let Ok(ta) = spec_lex(a2) {
                        if let Ok(tb) = spec_lex(b) {
                            assert(toks + (ta + tb) =~= (toks + ta) + tb);
                        }
                    }
                } else {
                    assert(s.skip(a.len() + 1 as int) =~= b);
                    assert(a.skip(a.len() as int) =~= Seq::<char>::empty());
                    assert(toks =~= Seq::<TokenV>::empty());
                    if let Ok(tb) = spec_lex(b) {
                        assert(Seq::<TokenV>::empty() + tb =~= tb);
                    }
                    assert(Seq::<TokenV>::empty() + Seq::<TokenV>::empty() =~= Seq::<TokenV>::empty());
                }
            },
        }
    }
}

/// Whether `a` holds no comment start: no `#` and no `//`.
pub open spec fn no_comment_start(a: Seq<char>) -> bool {
    forall|i: int|
        0 <= i < a.len() ==> #[trigger] a[i] != '#' && !(i + 1 < a.len() && a[i] == '/' && a[i + 1]
            == '/')
}

/// No run of a token class continues over a whitespace character.
proof fn lemma_run_len_sep(a: Seq<char>, c: char, b: Seq<char>, k: CharClass)
    requires
        spec_is_whitespace(c),
        k != CharClass::NotNewline,
    ensures
        run_len(a + seq![c] + b, k) == run_len(a, k),
{
    let t = seq![c] + b;
    assert(a + seq![c] + b =~= a + t);
    assert(t[0] == c);
    assert(!in_class(c, k));
    assert(run_len(t, k) == 0);
    lemma_run_len_append(a, t, k);
    lemma_run_len_bound(a, k);
}

/// Without a comment in `a`, one lexing step at the front of `a`, a whitespace
/// character and `b` is the step at the front of `a`.
proof fn lemma_lex_step_sep(a: Seq<char>, c: char, b: Seq<char>)
    requires
        a.len() > 0,
        spec_is_whitespace(c),
        no_comment_start(a),
    ensures
        lex_step(a + seq![c] + b) == lex_step(a),
{
    let s = a + seq![c] + b;
    assert(s[0] == a[0]);
    assert(a[0] != '#');
    lemma_run_len_sep(a, c, b, CharClass::Digit);
    lemma_run_len_sep(a, c, b, CharClass::OpChar);
    lemma_run_len_sep(a, c, b, CharClass::IdentChar);
    lemma_run_len_bound(a, CharClass::Digit);
    lemma_run_len_bound(a, CharClass::OpChar);
    lemma_run_len_bound(a, CharClass::IdentChar);
    let nd = run_len(a, CharClass::Digit);
    let ni = run_len(a, CharClass::IdentChar);
    assert(s.take(nd as int) =~= a.take(nd as int));
    assert(s.take(ni as int) =~= a.take(ni as int));
    if a.len() >= 2 {
        assert(s[1] == a[1]);
        assert(!(a[0] == '/' && a[1] == '/'));
    }
}

/// Without a comment in `a`, the tokens of `a`, a whitespace character and `b`
/// are those of `a` followed by those of `b`.
proof fn lemma_lex_sep(a: Seq<char>, c: char, b: Seq<char>)
    requires
        spec_is_whitespace(c),
        no_comment_start(a),
    ensures
        spec_lex(a + seq![c] + b) == join_lexed(spec_lex(a), spec_lex(b)),
    decreases a.len(),
{
    let s = a + seq![c] + b;
    if a.len() == 0 {
        assert(s =~= seq![c] + b);
        lemma_lex_skips_whitespace(c, b);
        if let Ok(tb) = spec_lex(b) {
            assert(Seq::<TokenV>::empty() + tb =~= tb);
        }
    } else {
        lemma_lex_step_sep(a, c, b);
        lemma_lex_step_progress(a);
        if let Ok((toks, n)) = lex_step(a) {
            let a2 = a.skip(n as int);
            assert(s.skip(n as int) =~= a2 + seq![c] + b);
            assert forall|i: int| 0 <= i < a2.len() implies #[trigger] a2[i] != '#' && !(i + 1
                < a2.len() && a2[i] == '/' && a2[i + 1] == '/') by {
                assert(a2[i] == a[i + n]);
                if i + 1 < a2.len() {
                    assert(a2[i + 1] == a[i + 1 + n]);
                }
            }
            lemma_lex_sep(a2, c, b);
            if let Ok(ta) = spec_lex(a2) {
                if let Ok(tb) = spec_lex(b) {
                    assert(toks + (ta + tb) =~= (toks + ta) + tb);
                }
            }
        }
    }
}

/// Whether every character of `w` is whitespace.
pub open spec fn all_whitespace(w: Seq<char>) -> bool {
    forall|i: int| 0 <= i < w.len() ==> spec_is_whitespace(#[trigger] w[i])
}

/// A run of whitespace in front changes nothing.
pub proof fn lemma_lex_skips_whitespace_run(w: Seq<char>, b: Seq<char>)
    requires
        all_whitespace(w),
    ensures
        spec_lex(w + b) == spec_lex(b),
    decreases w.len(),
{
    if w.len() > 0 {
        let rest = w.drop_first();
        assert(w + b =~= seq![w[0]] + (rest + b));
        assert(spec_is_whitespace(w[0]));
        lemma_lex_skips_whitespace(w[0], rest + b);
        assert forall|i: int| 0 <= i < rest.len() implies spec_is_whitespace(#[trigger] rest[i]) by {
            assert(rest[i] == w[i + 1]);
        }
        lemma_lex_skips_whitespace_run(rest, b);
    } else {
        assert(w + b =~= b);
    }
}

/// Whitespace only separates tokens: after text without comments, a non-empty run
/// of whitespace can be replaced by any other one without changing the tokens,
/// which are those of the text before followed by those of the text after.
pub proof fn lemma_lex_whitespace_runs(a: Seq<char>, w1: Seq<char>, w2: Seq<char>, b: Seq<char>)
    requires
        no_comment_start(a),
        w1.len() > 0,
        w2.len() > 0,
        all_whitespace(w1),
        all_whitespace(w2),
    ensures
        spec_lex(a + w1 + b) == spec_lex(a + w2 + b),
        spec_lex(a + w1 + b) == join_lexed(spec_lex(a), spec_lex(b)),
{
    lemma_lex_whitespace_run_split(a, w1, b);
    lemma_lex_whitespace_run_split(a, w2, b);
}

proof fn lemma_lex_whitespace_run_split(a: Seq<char>, w: Seq<char>, b: Seq<char>)
    requires
        no_comment_start(a),
        w.len() > 0,
        all_whitespace(w),
    ensures
        spec_lex(a + w + b) == join_lexed(spec_lex(a), spec_lex(b)),
{
    let rest = w.drop_first();
    assert(a + w + b =~= a + seq![w[0]] + (rest + b));
    assert(spec_is_whitespace(w[0]));
    lemma_lex_sep(a, w[0], rest + b);
    assert forall|i: int| 0 <= i < rest.len() implies spec_is_whitespace(#[trigger] rest[i]) by {
        assert(rest[i] == w[i + 1]);
    }
    lemma_lex_skips_whitespace_run(rest, b);
}

/// Length of the longest prefix of `s` without whitespace.
pub open spec fn word_len(s: Seq<char>) -> nat
    decreases s.len(),
{
    if s.len() > 0 && !spec_is_whitespace(s[0]) {
        1 + word_len(s.drop_first())
    } else {
        0
    }
}

/// Length of the longest prefix of `s` made of whitespace.
pub open spec fn space_len(s: Seq<char>) -> nat
    decreases s.len(),
{
    if s.len() > 0 && spec_is_whitespace(s[0]) {
        1 + space_len(s.drop_first())
    } else {
        0
    }
}

/// The word at the front of `s` has no whitespace and ends at whitespace or the end.
pub proof fn lemma_word_len(s: Seq<char>)
    ensures
        word_len(s) <= s.len(),
        forall|i: int| 0 <= i < word_len(s) ==> !spec_is_whitespace(#[trigger] s[i]),
        word_len(s) < s.len() ==> spec_is_whitespace(s[word_len(s) as int]),
    decreases s.len(),
{
    if s.len() > 0 && !spec_is_whitespace(s[0]) {
        lemma_word_len(s.drop_first());
        assert forall|i: int| 0 <= i < word_len(s) implies !spec_is_whitespace(#[trigger] s[i]) by {
            if i > 0 {
                assert(s[i] == s.drop_first()[i - 1]);
            }
        }
    }
}

/// The whitespace run at the front of `s` ends at a non-whitespace character or the end.
pub proof fn lemma_space_len(s: Seq<char>)
    ensures
        space_len(s) <= s.len(),
        forall|i: int| 0 <= i < space_len(s) ==> spec_is_whitespace(#[trigger] s[i]),
        s.len() > 0 && spec_is_whitespace(s[0]) ==> space_len(s) > 0,
        space_len(s) < s.len() ==> !spec_is_whitespace(s[space_len(s) as int]),
    decreases s.len(),
{
    if s.len() > 0 && spec_is_whitespace(s[0]) {
        lemma_space_len(s.drop_first());
        assert forall|i: int| 0 <= i < space_len(s) implies spec_is_whitespace(#[trigger] s[i]) by {
            if i > 0 {
                assert(s[i] == s.drop_first()[i - 1]);
            }
        }
    }
}

/// `s` with every maximal run of whitespace replaced by a single space.
pub open spec fn collapse_whitespace(s: Seq<char>) -> Seq<char>
    decreases s.len(),
{
    let n = word_len(s);
    if n >= s.len() {
        s
    } else {
        proof {
            lemma_word_len(s);
            lemma_space_len(s.skip(n as int));
            assert(s.skip(n as int)[0] == s[n as int]);
        }
        let m = space_len(s.skip(n as int));
        s.take(n as int) + seq![' '] + collapse_whitespace(s.skip((n + m) as int))
    }
}

/// `no_comment_start` of a concatenation: of each part, and no `//` across the joint.
proof fn lemma_no_comment_concat(x: Seq<char>, y: Seq<char>)
    ensures
        no_comment_start(x + y) == (no_comment_start(x) && no_comment_start(y) && !(x.len() > 0
            && y.len() > 0 && x[x.len() - 1] == '/' && y[0] == '/')),
{
    let z = x + y;
    if no_comment_start(z) {
        assert forall|i: int| 0 <= i < x.len() implies #[trigger] x[i] != '#' && !(i + 1 < x.len()
            && x[i] == '/' && x[i + 1] == '/') by {
            assert(z[i] == x[i]);
            if i + 1 < x.len() {
                assert(z[i + 1] == x[i + 1]);
            }
        }
        assert forall|i: int| 0 <= i < y.len() implies #[trigger] y[i] != '#' && !(i + 1 < y.len()
            && y[i] == '/' && y[i + 1] == '/') by {
            assert(z[i + x.len()] == y[i]);
            if i + 1 < y.len() {
                assert(z[i + 1 + x.len()] == y[i + 1]);
            }
        }
        if x.len() > 0 && y.len() > 0 {
            assert(z[x.len() - 1] == x[x.len() - 1]);
            assert(z[x.len() as int] == y[0]);
        }
    }
    if no_comment_start(x) && no_comment_start(y) && !(x.len() > 0 && y.len() > 0 && x[x.len() - 1]
        == '/' && y[0] == '/') {
        assert forall|i: int| 0 <= i < z.len() implies #[trigger] z[i] != '#' && !(i + 1 < z.len()
            && z[i] == '/' && z[i + 1] == '/') by {
            if i < x.len() {
                assert(z[i] == x[i]);
                if i + 1 < x.len() {
                    assert(z[i + 1] == x[i + 1]);
                } else if i + 1 < z.len() {
                    assert(z[i + 1] == y[0]);
                }
            } else {
                assert(z[i] == y[i - x.len()]);
                if i + 1 < z.len() {
                    assert(z[i + 1] == y[i + 1 - x.len()]);
                }
            }
        }
    }
}

proof fn lemma_no_comment_whitespace(w: Seq<char>)
    requires
        all_whitespace(w),
    ensures
        no_comment_start(w),
        w.len() > 0 ==> w[0] != '/' && w[w.len() - 1] != '/',
{
    assert forall|i: int| 0 <= i < w.len() implies #[trigger] w[i] != '#' && !(i + 1 < w.len()
        && w[i] == '/' && w[i + 1] == '/') by {
        assert(spec_is_whitespace(w[i]));
    }
    if w.len() > 0 {
        assert(spec_is_whitespace(w[0]));
        assert(spec_is_whitespace(w[w.len() - 1]));
    }
}

/// The pieces of `s` that `collapse_whitespace` works on: the first word, the
/// whitespace run after it, and the rest.
proof fn lemma_collapse_split(s: Seq<char>)
    requires
        word_len(s) < s.len(),
    ensures
        ({
            let n = word_len(s);
            let m = space_len(s.skip(n as int));
            &&& m > 0
            &&& n + m <= s.len()
            &&& all_whitespace(s.subrange(n as int, (n + m) as int))
            &&& s =~= s.take(n as int) + s.subrange(n as int, (n + m) as int) + s.skip((n + m) as int)
            &&& collapse_whitespace(s) == s.take(n as int) + seq![' '] + collapse_whitespace(
                s.skip((n + m) as int),
            )
        }),
{
    let n = word_len(s);
    lemma_word_len(s);
    let t = s.skip(n as int);
    lemma_space_len(t);
    assert(t[0] == s[n as int]);
    let m = space_len(t);
    assert forall|i: int| 0 <= i < m implies spec_is_whitespace(#[trigger] s.subrange(n as int, (n + m) as int)[i]) by {
        assert(s.subrange(n as int, (n + m) as int)[i] == t[i]);
    }
}

/// `collapse_whitespace` keeps texts free of comment starts, and only those.
proof fn lemma_collapse_no_comment(s: Seq<char>)
    ensures
        no_comment_start(s) == no_comment_start(collapse_whitespace(s)),
    decreases s.len(),
{
    if word_len(s) < s.len() {
        lemma_collapse_split(s);
        let n = word_len(s);
        let m = space_len(s.skip(n as int));
        let a = s.take(n as int);
        let w = s.subrange(n as int, (n + m) as int);
        let rest = s.skip((n + m) as int);
        let c = collapse_whitespace(rest);
        lemma_collapse_no_comment(rest);
        lemma_no_comment_whitespace(w);
        assert(all_whitespace(seq![' '])) by {
            assert forall|i: int| 0 <= i < 1 implies spec_is_whitespace(#[trigger] seq![' '][i]) by {
            }
        }
        lemma_no_comment_whitespace(seq![' ']);
        lemma_no_comment_concat(a, w);
        lemma_no_comment_concat(a + w, rest);
        lemma_no_comment_concat(a, seq![' ']);
        lemma_no_comment_concat(a + seq![' '], c);
        assert((a + w).len() > 0 ==> (a + w)[(a + w).len() - 1] == w[w.len() - 1]);
        assert((a + seq![' ']).len() > 0 ==> (a + seq![' '])[(a + seq![' ']).len() - 1] == ' ');
    }
}

/// Lexing a text without comments gives the tokens of the text with each run of
/// whitespace collapsed to one space.
pub proof fn lemma_lex_collapse_whitespace(s: Seq<char>)
    requires
        no_comment_start(s),
    ensures
        spec_lex(s) == spec_lex(collapse_whitespace(s)),
    decreases s.len(),
{
    if word_len(s) < s.len() {
        lemma_collapse_split(s);
        let n = word_len(s);
        let m = space_len(s.skip(n as int));
        let a = s.take(n as int);
        let w = s.subrange(n as int, (n + m) as int);
        let rest = s.skip((n + m) as int);
        lemma_no_comment_whitespace(w);
        lemma_no_comment_concat(a, w);
        lemma_no_comment_concat(a + w, rest);
        lemma_lex_whitespace_run_split(a, w, rest);
        lemma_lex_collapse_whitespace(rest);
        assert(spec_is_whitespace(' '));
        lemma_lex_sep(a, ' ', collapse_whitespace(rest));
    }
}

/// Whitespace only separates tokens: in a text without comments, replacing every
/// maximal run of whitespace by some other non-empty run of whitespace (so that
/// both texts collapse to the same one) leaves the tokens, or the error, unchanged.
pub proof fn lemma_lex_whitespace_replaced(s: Seq<char>, t: Seq<char>)
    requires
        no_comment_start(s),
        collapse_whitespace(s) == collapse_whitespace(t),
    ensures
        spec_lex(s) == spec_lex(t),
{
    lemma_collapse_no_comment(s);
    lemma_collapse_no_comment(t);
    lemma_lex_collapse_whitespace(s);
    lemma_lex_collapse_whitespace(t);
}

/// The words that are not identifiers: the four type names and the three keywords.
pub proof fn lemma_keyword_tokens()
    ensures
        word_token("char"@) == TokenV::Type(TypeV::Char),
        word_token("short"@) == TokenV::Type(TypeV::Short),
        word_token("int"@) == TokenV::Type(TypeV::Int),
        word_token("long"@) == TokenV::Type(TypeV::Long),
        word_token("return"@) == TokenV::Return,
        word_token("if"@) == TokenV::If,
        word_token("else"@) == TokenV::Else,
        word_token("main"@) == TokenV::Identifier("main"@),
{
    reveal_strlit("char");
    reveal_strlit("short");
    reveal_strlit("int");
    reveal_strlit("long");
    reveal_strlit("return");
    reveal_strlit("if");
    reveal_strlit("else");
    reveal_strlit("main");
    assert("char"@ =~= seq!['c', 'h', 'a', 'r']);
    assert("short"@ =~= seq!['s', 'h', 'o', 'r', 't']);
    assert("int"@ =~= seq!['i', 'n', 't']);
    assert("long"@ =~= seq!['l', 'o', 'n', 'g']);
    assert("return"@ =~= seq!['r', 'e', 't', 'u', 'r', 'n']);
    assert("if"@ =~= seq!['i', 'f']);
    assert("else"@ =~= seq!['e', 'l', 's', 'e']);
    assert("main"@ != seq!['c', 'h', 'a', 'r']);
    assert("main"@ != seq!['s', 'h', 'o', 'r', 't']);
    assert("main"@ != seq!['i', 'n', 't']);
    assert("main"@ != seq!['l', 'o', 'n', 'g']);
    assert("main"@ != seq!['r', 'e', 't', 'u', 'r', 'n']);
    assert("main"@ != seq!['i', 'f']);
    assert("main"@ != seq!['e', 'l', 's', 'e']);
}

/// A word of letters of either case, digits and `_`, that starts with a letter or
/// `_`, is one token: its type name or keyword, else an identifier of the whole
/// word; a word that starts with an upper-case letter is always an identifier.
pub proof fn lemma_lex_word(w: Seq<char>)
    requires
        w.len() > 0,
        w[0] == '_' || ('A' <= w[0] <= 'Z') || ('a' <= w[0] <= 'z'),
        forall|i: int|
            0 <= i < w.len() ==> #[trigger] w[i] == '_' || ('A' <= w[i] <= 'Z') || ('a' <= w[i] <= 'z')
                || ('0' <= w[i] <= '9'),
    ensures
        spec_lex(w) == Ok::<Seq<TokenV>, LexError>(seq![word_token(w)]),
        'A' <= w[0] <= 'Z' ==> word_token(w) == TokenV::Identifier(w),
{
    assert forall|i: int| 0 <= i < w.len() implies in_class(#[trigger] w[i], CharClass::IdentChar) by {
        assert(w[i] == '_' || ('A' <= w[i] <= 'Z') || ('a' <= w[i] <= 'z') || ('0' <= w[i] <= '9'));
    }
    lemma_run_len_concat(w, Seq::<char>::empty(), CharClass::IdentChar);
    assert(w + Seq::<char>::empty() =~= w);
    assert(run_len(Seq::<char>::empty(), CharClass::IdentChar) == 0);
    assert(!spec_is_whitespace(w[0]));
    assert(w.take(w.len() as int) =~= w);
    assert(w.skip(w.len() as int) =~= Seq::<char>::empty());
    assert(seq![word_token(w)] + Seq::<TokenV>::empty() =~= seq![word_token(w)]);
    assert(!is_digit(w[0]) && !is_binop_char(w[0]) && is_ident_start(w[0]));
    assert(run_len(w, CharClass::IdentChar) == w.len());
    assert(lex_step(w) == Ok::<(Seq<TokenV>, nat), LexError>((seq![word_token(w)], w.len())));
    assert(spec_lex(w.skip(w.len() as int)) == Ok::<Seq<TokenV>, LexError>(Seq::<TokenV>::empty()));
    if 'A' <= w[0] <= 'Z' {
        assert(w != seq!['c', 'h', 'a', 'r']) by {
            assert(seq!['c', 'h', 'a', 'r'][0] == 'c');
        }
        assert(w != seq!['s', 'h', 'o', 'r', 't']) by {
            assert(seq!['s', 'h', 'o', 'r', 't'][0] == 's');
        }
        assert(w != seq!['i', 'n', 't']) by {
            assert(seq!['i', 'n', 't'][0] == 'i');
        }
        assert(w != seq!['l', 'o', 'n', 'g']) by {
            assert(seq!['l', 'o', 'n', 'g'][0] == 'l');
        }
        assert(w != seq!['r', 'e', 't', 'u', 'r', 'n']) by {
            assert(seq!['r', 'e', 't', 'u', 'r', 'n'][0] == 'r');
        }
        assert(w != seq!['i', 'f']) by {
            assert(seq!['i', 'f'][0] == 'i');
        }
        assert(w != seq!['e', 'l', 's', 'e']) by {
            assert(seq!['e', 'l', 's', 'e'][0] == 'e');
        }
    }
}

/// What one lexing step between positions `p0` and `p1` of `cs` did to the tokens,
/// given its result `r`.
pub open spec fn step_done(
    cs: Seq<char>,
    p0: int,
    p1: int,
    t0: Seq<Token>,
    t1: Seq<Token>,
    r: Result<(), LexError>,
) -> bool {
    &&& 0 <= p0 < cs.len()
    &&& match r {
        Ok(()) => {
            &&& lex_step(cs.skip(p0)) matches Ok((toks, n))
            &&& tokens_view(t1) == tokens_view(t0) + toks
            &&& p1 == p0 + n
            &&& p1 <= cs.len()
        },
        Err(e) => lex_step(cs.skip(p0)) matches Err(e2) && e2 == e,
    }
}

proof fn lemma_tokens_view_push(ts: Seq<Token>, t: Token)
    ensures
        tokens_view(ts.push(t)) == tokens_view(ts) + seq![t@],
{
    assert(tokens_view(ts.push(t)) =~= tokens_view(ts) + seq![t@]);
}

/// Skips a comment: the rest of the line and its line break.
pub fn handle_comment(chars: &Vec<char>, pos: &mut usize)
    requires
        *old(pos) <= chars@.len(),
    ensures
        *final(pos) == *old(pos) + line_rest(chars@.skip(*old(pos) as int)),
        *final(pos) <= chars@.len(),
{
    let ghost p0 = *pos;
    scan_run(chars, pos, CharClass::NotNewline);
    proof {
        lemma_run_len_bound(chars@.skip(p0 as int), CharClass::NotNewline);
    }
    if *pos < chars.len() && chars[*pos] == '\n' {
        *pos = *pos + 1;
    }
    proof {
        let s = chars@.skip(p0 as int);
        let n = run_len(s, CharClass::NotNewline);
        if n < s.len() {
            assert(s[n as int] == chars@[p0 + n]);
        }
    }
}

/// Lexes a number literal.
pub fn lex_nb(chars: &Vec<char>, pos: &mut usize, tokens: &mut VecDeque<Token>) -> (r: Result<
    (),
    LexError,
>)
    requires
        *old(pos) < chars@.len(),
        is_digit(chars@[*old(pos) as int]),
    ensures
        step_done(chars@, *old(pos) as int, *final(pos) as int, old(tokens)@, final(tokens)@, r),
{
    let ghost cs = chars@;
    let ghost start = *pos;
    let mut numbers = digit_buf_new();
    proof {
        lemma_run_len_bound(cs.skip(start as int), CharClass::Digit);
    }
    loop
        invariant
            start <= *pos <= cs.len(),
            cs == chars@,
            *pos - start <= 19,
            start == *old(pos),
            start < cs.len(),
            is_digit(cs[start as int]),
            digit_buf_chars(numbers) == cs.subrange(start as int, *pos as int),
            forall|i: int| start <= i < *pos ==> is_digit(#[trigger] cs[i]),
            run_len(cs.skip(start as int), CharClass::Digit) == (*pos - start) + run_len(
                cs.skip(*pos as int),
                CharClass::Digit,
            ),
            *tokens == *old(tokens),
        ensures
            start <= *pos <= cs.len(),
            *pos - start <= 19,
            digit_buf_chars(numbers) == cs.subrange(start as int, *pos as int),
            forall|i: int| start <= i < *pos ==> is_digit(#[trigger] cs[i]),
            run_len(cs.skip(start as int), CharClass::Digit) == *pos - start,
            *tokens == *old(tokens),
        decreases cs.len() - *pos,
    {
        proof {
            lemma_run_len_at(cs, *pos as int, CharClass::Digit);
        }
        if *pos < chars.len() && char_in_class(chars[*pos], &CharClass::Digit) {
            let c = chars[*pos];
            *pos = *pos + 1;
            proof {
                assert forall|i: int|
                    0 <= i < digit_buf_chars(numbers).len() implies (#[trigger] digit_buf_chars(
                    numbers,
                )[i] as u32) < 128 by {
                    assert(digit_buf_chars(numbers)[i] == cs[start + i]);
                }
            }
            match digit_buf_try_push(&mut numbers, c) {
                Ok(()) => {},
                Err(_) => {
                    proof {
                        let p = (*pos - 1) as int;
                        assert(is_digit(cs[p]));
                        assert((c as u32) < 128);
                        assert(p - start == 19);
                        lemma_run_len_at(cs, p, CharClass::Digit);
                        assert(run_len(cs.skip(start as int), CharClass::Digit) > 19);
                        assert(cs.skip(start as int)[0] == cs[start as int]);
                        assert(is_digit(cs.skip(start as int)[0]));
                    }
                    return Err(LexError::NumberTooLong);
                },
            }
            assert(digit_buf_chars(numbers) =~= cs.subrange(start as int, *pos as int));
        } else {
            break;
        }
    }
    let ghost ds = cs.subrange(start as int, *pos as int);
    proof {
        assert(ds =~= cs.skip(start as int).take((*pos - start) as int));
        assert(all_digits(ds)) by {
            assert forall|i: int| 0 <= i < ds.len() implies '0' <= #[trigger] ds[i] <= '9' by {
                assert(ds[i] == cs[start + i]);
            }
        }
        lemma_short_literal_fits(ds);
    }
    let nb = match parse_decimal_u128(digit_buf_as_str(&numbers)) {
        Ok(nb) => nb,
        Err(_) => {
            return Err(LexError::NumberTooLong);
        },
    };
    let tok = Token::Number(nb);
    proof {
        lemma_tokens_view_push(tokens@, tok);
    }
    tokens.push_back(tok);
    Ok(())
}

/// The operator of a one-character operator string.
fn single_op_exec(c: char) -> (r: BinOp)
    requires
        is_binop_char(c),
    ensures
        r == single_op(c),
{
    if c == '+' {
        BinOp::Plus
    } else if c == '-' {
        BinOp::Minus
    } else if c == '*' {
        BinOp::Mult
    } else if c == '/' {
        BinOp::Div
    } else {
        BinOp::Equal
    }
}

/// Lexes an operator, or skips a `//` comment.
pub fn lex_op(chars: &Vec<char>, pos: &mut usize, tokens: &mut VecDeque<Token>) -> (r: Result<
    (),
    LexError,
>)
    requires
        *old(pos) < chars@.len(),
        is_binop_char(chars@[*old(pos) as int]),
    ensures
        step_done(chars@, *old(pos) as int, *final(pos) as int, old(tokens)@, final(tokens)@, r),
{
    let ghost cs = chars@;
    let ghost start = *pos;
    let mut binop = op_buf_new();
    proof {
        lemma_run_len_bound(cs.skip(start as int), CharClass::OpChar);
    }
    loop
        invariant
            start <= *pos <= cs.len(),
            cs == chars@,
            *pos - start <= 2,
            start == *old(pos),
            start < cs.len(),
            is_binop_char(cs[start as int]),
            op_buf_chars(binop) == cs.subrange(start as int, *pos as int),
            forall|i: int| start <= i < *pos ==> is_binop_char(#[trigger] cs[i]),
            run_len(cs.skip(start as int), CharClass::OpChar) == (*pos - start) + run_len(
                cs.skip(*pos as int),
                CharClass::OpChar,
            ),
            *tokens == *old(tokens),
        ensures
            start <= *pos <= cs.len(),
            *pos - start <= 2,
            op_buf_chars(binop) == cs.subrange(start as int, *pos as int),
            run_len(cs.skip(start as int), CharClass::OpChar) == *pos - start,
            *tokens == *old(tokens),
        decreases cs.len() - *pos,
    {
        proof {
            lemma_run_len_at(cs, *pos as int, CharClass::OpChar);
        }
        if *pos < chars.len() && char_in_class(chars[*pos], &CharClass::OpChar) {
            let c = chars[*pos];
            *pos = *pos + 1;
            proof {
                assert forall|i: int|
                    0 <= i < op_buf_chars(binop).len() implies (#[trigger] op_buf_chars(
                    binop,
                )[i] as u32) < 128 by {
                    assert(op_buf_chars(binop)[i] == cs[start + i]);
                }
            }
            match op_buf_try_push(&mut binop, c) {
                Ok(()) => {},
                Err(_) => {
                    proof {
                        let p = (*pos - 1) as int;
                        assert(is_binop_char(cs[p]));
                        assert((c as u32) < 128);
                        assert(p - start == 2);
                        lemma_run_len_at(cs, p, CharClass::OpChar);
                        assert(run_len(cs.skip(start as int), CharClass::OpChar) > 2);
                        assert(cs.skip(start as int)[0] == cs[start as int]);
                    }
                    return Err(LexError::OperatorTooLong);
                },
            }
            assert(op_buf_chars(binop) =~= cs.subrange(start as int, *pos as int));
        } else {
            break;
        }
    }
    proof {
        lemma_run_len_at(cs, start as int, CharClass::OpChar);
    }
    let s = op_buf_as_str(&binop);
    let n = s.unicode_len();
    let c0 = s.get_char(0);
    assert(c0 == cs.skip(start as int)[0]);
    if n == 1 {
        let tok = Token::BinOp(single_op_exec(c0));
        proof {
            lemma_tokens_view_push(tokens@, tok);
        }
        tokens.push_back(tok);
        Ok(())
    } else {
        let c1 = s.get_char(1);
        assert(c1 == cs.skip(start as int)[1]);
        if c0 == '/' && c1 == '/' {
            handle_comment(chars, pos);
            assert(cs.skip(start as int).skip(2) =~= cs.skip(start + 2));
            assert(tokens_view(tokens@) =~= tokens_view(old(tokens)@) + seq![]);
            Ok(())
        } else if c0 == '=' && c1 == '=' {
            let tok = Token::BinOp(BinOp::Cmp);
            proof {
                lemma_tokens_view_push(tokens@, tok);
            }
            tokens.push_back(tok);
            Ok(())
        } else {
            Err(LexError::UnknownOperator(c0, c1))
        }
    }
}

/// Whether the characters of `w` are those of `k`.
fn word_eq(w: &str, k: &[char]) -> (r: bool)
    ensures
        r == (w@ == k@),
{
    let n = w.unicode_len();
    if n != k.len() {
        return false;
    }
    let mut i: usize = 0;
    while i < n
        invariant
            n == w@.len(),
            n == k@.len(),
            i <= n,
            forall|j: int| 0 <= j < i ==> w@[j] == k@[j],
        decreases n - i,
    {
        if w.get_char(i) != k[i] {
            return false;
        }
        i = i + 1;
    }
    assert(w@ =~= k@);
    true
}

/// The type named by a type keyword.
pub fn lex_type(ident: &str) -> (r: Type)
    requires
        word_token(ident@) is Type,
    ensures
        TokenV::Type(r@) == word_token(ident@),
{
    if word_eq(ident, &['c', 'h', 'a', 'r']) {
        Type::Char
    } else if word_eq(ident, &['s', 'h', 'o', 'r', 't']) {
        Type::Short
    } else if word_eq(ident, &['i', 'n', 't']) {
        Type::Int
    } else {
        Type::Long
    }
}

/// Lexes a word: a type name, a keyword or an identifier.
pub fn lex_identifier(chars: &Vec<char>, pos: &mut usize, tokens: &mut VecDeque<Token>)
    requires
        *old(pos) < chars@.len(),
        is_ident_start(chars@[*old(pos) as int]),
    ensures
        step_done(chars@, *old(pos) as int, *final(pos) as int, old(tokens)@, final(tokens)@, Ok(())),
{
    let ghost cs = chars@;
    let ghost start = *pos;
    let mut identifier = String::new();
    loop
        invariant
            start <= *pos <= cs.len(),
            cs == chars@,
            identifier@ == cs.subrange(start as int, *pos as int),
            run_len(cs.skip(start as int), CharClass::IdentChar) == (*pos - start) + run_len(
                cs.skip(*pos as int),
                CharClass::IdentChar,
            ),
            *tokens == *old(tokens),
        ensures
            start <= *pos <= cs.len(),
            identifier@ == cs.subrange(start as int, *pos as int),
            run_len(cs.skip(start as int), CharClass::IdentChar) == *pos - start,
            *tokens == *old(tokens),
        decreases cs.len() - *pos,
    {
        proof {
            lemma_run_len_at(cs, *pos as int, CharClass::IdentChar);
        }
        if *pos < chars.len() && char_in_class(chars[*pos], &CharClass::IdentChar) {
            let c = chars[*pos];
            *pos = *pos + 1;
            push_char(&mut identifier, c);
            assert(identifier@ =~= cs.subrange(start as int, *pos as int));
        } else {
            break;
        }
    }
    proof {
        assert(identifier@ =~= cs.skip(start as int).take((*pos - start) as int));
        lemma_run_len_at(cs, start as int, CharClass::IdentChar);
    }
    let s = identifier.as_str();
    let tok = if word_eq(s, &['c', 'h', 'a', 'r']) || word_eq(s, &['s', 'h', 'o', 'r', 't'])
        || word_eq(s, &['i', 'n', 't']) || word_eq(s, &['l', 'o', 'n', 'g']) {
        Token::Type(lex_type(s))
    } else if word_eq(s, &['r', 'e', 't', 'u', 'r', 'n']) {
        Token::Return
    } else if word_eq(s, &['i', 'f']) {
        Token::If
    } else if word_eq(s, &['e', 'l', 's', 'e']) {
        Token::Else
    } else {
        Token::Identifier(identifier)
    };
    proof {
        lemma_tokens_view_push(tokens@, tok);
    }
    tokens.push_back(tok);
}

/// Emits a one-character token.
pub fn single_char_tok(chars: &Vec<char>, pos: &mut usize, tokens: &mut VecDeque<Token>, tok: Token)
    requires
        *old(pos) < chars@.len(),
    ensures
        tokens_view(final(tokens)@) == tokens_view(old(tokens)@) + seq![tok@],
        *final(pos) == *old(pos) + 1,
{
    proof {
        lemma_tokens_view_push(tokens@, tok);
    }
    tokens.push_back(tok);
    let n = chars.len();
    assert(*pos < n);
    *pos = *pos + 1;
}

/// Skips a preprocessor line (`#...`).
pub fn lex_cpp_metadata(chars: &Vec<char>, pos: &mut usize)
    requires
        *old(pos) <= chars@.len(),
    ensures
        *final(pos) == *old(pos) + line_rest(chars@.skip(*old(pos) as int)),
        *final(pos) <= chars@.len(),
{
    handle_comment(chars, pos);
}

/// Unfolds `spec_lex` at position `p` of `cs`.
proof fn lemma_spec_lex_unfold(cs: Seq<char>, p: int)
    requires
        0 <= p < cs.len(),
    ensures
        spec_lex(cs.skip(p)) == match lex_step(cs.skip(p)) {
            Err(e) => Err(e),
            Ok((toks, n)) => prepend_tokens(toks, spec_lex(cs.skip(p + n))),
        },
{
    let s = cs.skip(p);
    lemma_lex_step_progress(s);
    if let Ok((toks, n)) = lex_step(s) {
        assert(s.skip(n as int) =~= cs.skip(p + n));
    }
}

proof fn lemma_prepend_assoc(a: Seq<TokenV>, b: Seq<TokenV>, r: Result<Seq<TokenV>, LexError>)
    ensures
        prepend_tokens(a, prepend_tokens(b, r)) == prepend_tokens(a + b, r),
{
    if let Ok(ts) = r {
        assert(a + (b + ts) =~= (a + b) + ts);
    }
}

/// The characters of a string slice, in order.
fn collect_chars(s: &str) -> (r: Vec<char>)
    ensures
        r@ == s@,
{
    let mut out: Vec<char> = Vec::new();
    let n = s.unicode_len();
    let mut i: usize = 0;
    while i < n
        invariant
            n == s@.len(),
            i <= n,
            out@ == s@.subrange(0, i as int),
        decreases n - i,
    {
        out.push(s.get_char(i));
        i = i + 1;
        assert(out@ =~= s@.subrange(0, i as int));
    }
    assert(s@.subrange(0, n as int) =~= s@);
    out
}

/// Splits source text into tokens.
pub fn lex(s: &str) -> (r: Result<VecDeque<Token>, LexError>)
    ensures
        match r {
            Ok(ts) => spec_lex(s@) == Ok::<Seq<TokenV>, LexError>(tokens_view(ts@)),
            Err(e) => spec_lex(s@) == Err::<Seq<TokenV>, LexError>(e),
        },
{
    let chars = collect_chars(s);
    let ghost cs = chars@;
    let mut pos: usize = 0;
    let mut tokens: VecDeque<Token> = VecDeque::new();
    proof {
        assert(cs.skip(0) =~= cs);
        assert(tokens_view(tokens@) =~= seq![]);
        assert(prepend_tokens(seq![], spec_lex(cs)) == spec_lex(cs)) by {
            if let Ok(ts) = spec_lex(cs) {
                assert(seq![] + ts =~= ts);
            }
        }
    }
    while pos < chars.len()
        invariant
            pos <= cs.len(),
            cs == chars@,
            cs == s@,
            spec_lex(cs) == prepend_tokens(tokens_view(tokens@), spec_lex(cs.skip(pos as int))),
        decreases cs.len() - pos,
    {
        let ghost p0 = pos as int;
        let ghost t0 = tokens@;
        proof {
            lemma_spec_lex_unfold(cs, p0);
            lemma_run_len_bound(cs.skip(p0), CharClass::Digit);
        }
        let c = chars[pos];
        assert(c == cs.skip(p0)[0]);
        let step: Result<(), LexError> = if char_is_whitespace(c) {
            pos = pos + 1;
            assert(tokens_view(tokens@) =~= tokens_view(t0) + seq![]);
            Ok(())
        } else if char_in_class(c, &CharClass::Digit) {
            lex_nb(&chars, &mut pos, &mut tokens)
        } else if char_in_class(c, &CharClass::OpChar) {
            lex_op(&chars, &mut pos, &mut tokens)
        } else if ('a' <= c && c <= 'z') || ('A' <= c && c <= 'Z') || c == '_' {
            lex_identifier(&chars, &mut pos, &mut tokens);
            Ok(())
        } else if c == '(' {
            single_char_tok(&chars, &mut pos, &mut tokens, Token::LeftParen);
            Ok(())
        } else if c == ')' {
            single_char_tok(&chars, &mut pos, &mut tokens, Token::RightParen);
            Ok(())
        } else if c == '{' {
            single_char_tok(&chars, &mut pos, &mut tokens, Token::LeftBrace);
            Ok(())
        } else if c == '}' {
            single_char_tok(&chars, &mut pos, &mut tokens, Token::RightBrace);
            Ok(())
        } else if c == ',' {
            single_char_tok(&chars, &mut pos, &mut tokens, Token::Colon);
            Ok(())
        } else if c == ';' {
            single_char_tok(&chars, &mut pos, &mut tokens, Token::SemiColon);
            Ok(())
        } else if c == '#' {
            lex_cpp_metadata(&chars, &mut pos);
            assert(tokens_view(tokens@) =~= tokens_view(t0) + seq![]);
            Ok(())
        } else {
            Err(LexError::UnknownChar(c))
        };
        assert(step_done(cs, p0, pos as int, t0, tokens@, step));
        match step {
            Ok(()) => {
                proof {
                    if let Ok((toks, n)) = lex_step(cs.skip(p0)) {
                        lemma_prepend_assoc(tokens_view(t0), toks, spec_lex(cs.skip(p0 + n)));
                    }
                }
            },
            Err(e) => {
                return Err(e);
            },
        }
    }
    proof {
        assert(cs.skip(pos as int) =~= seq![]);
        assert(tokens_view(tokens@) + seq![] =~= tokens_view(tokens@));
    }
    Ok(tokens)
}

} // verus!
