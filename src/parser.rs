use vstd::prelude::*;
use vstd::string::StrSliceExecFns;

use crate::lexer::{
    kind_text, lex, lexical_text, string_from_chars, tokenize, tokens_match, LexicalError, Token,
    TokenKind,
};
use crate::nodes::{int_text, loc_of, push_int, push_str, Loc, Node, Statement, Statements, Tree};

verus! {

/// Why a program could not be parsed. The first error found ends the parse.
#[derive(Debug)]
pub enum ParseError {
    /// The tokenizer failed at a place the parser reached.
    User { error: LexicalError },
    /// A token that continues no rule, with the kinds that would have.
    UnrecognizedToken { token: (usize, Token, usize), expected: Vec<TokenKind> },
    /// The input ended inside an expression, with the kinds that would have continued it.
    UnrecognizedEof { location: usize, expected: Vec<TokenKind> },
}

/// The mathematical value of a `ParseError`.
pub enum Failure {
    User(LexicalError),
    /// Start, kind, text and end of the token, and the kinds expected there.
    Unexpected(usize, TokenKind, Seq<char>, usize, Seq<TokenKind>),
    Eof(usize, Seq<TokenKind>),
}

impl ParseError {
    pub open spec fn view(&self) -> Failure {
        match self {
            ParseError::User { error } => Failure::User(*error),
            ParseError::UnrecognizedToken { token, expected } => Failure::Unexpected(
                token.0,
                token.1.spec_kind(),
                token.1.text(),
                token.2,
                expected@,
            ),
            ParseError::UnrecognizedEof { location, expected } => Failure::Eof(
                *location,
                expected@,
            ),
        }
    }
}

/// How a token kind is named in messages.
pub open spec fn kind_name(k: TokenKind) -> Seq<char> {
    if k == TokenKind::Variable {
        "identifier"@
    } else if k == TokenKind::Number {
        "number"@
    } else {
        kind_text(k)
    }
}

/// Token kinds named one after another, separated by `, `.
pub open spec fn kinds_text(ks: Seq<TokenKind>) -> Seq<char>
    decreases ks.len(),
{
    if ks.len() == 0 {
        Seq::empty()
    } else if ks.len() == 1 {
        kind_name(ks[0])
    } else {
        kinds_text(ks.drop_last()) + ", "@ + kind_name(ks.last())
    }
}

/// How a token of kind `k` read as `text` is shown: identifiers and numbers
/// in double quotes, other tokens as written.
pub open spec fn shown(k: TokenKind, text: Seq<char>) -> Seq<char> {
    if k == TokenKind::Variable || k == TokenKind::Number {
        seq!['"'] + text + seq!['"']
    } else {
        text
    }
}

/// The message of a parse failure.
pub open spec fn failure_text(f: Failure) -> Seq<char> {
    match f {
        Failure::User(e) => lexical_text(e),
        Failure::Unexpected(a, k, text, b, ex) => "unrecognized token "@ + shown(k, text) + " at "@
            + int_text(a as int) + ".."@ + int_text(b as int) + ", expected one of "@ + kinds_text(
            ex,
        ),
        Failure::Eof(at, ex) => "unexpected end of input at "@ + int_text(at as int)
            + ", expected one of "@ + kinds_text(ex),
    }
}

fn push_kind(out: &mut Vec<char>, k: TokenKind)
    ensures
        final(out)@ == old(out)@ + kind_name(k),
{
    match k {
        TokenKind::Variable => push_str(out, "identifier"),
        TokenKind::Number => push_str(out, "number"),
        TokenKind::Pi => push_str(out, "PI"),
        TokenKind::OpAdd => push_str(out, "+"),
        TokenKind::OpSub => push_str(out, "-"),
        TokenKind::OpMul => push_str(out, "*"),
        TokenKind::OpDiv => push_str(out, "/"),
        TokenKind::OpPow => push_str(out, "**"),
        TokenKind::OpenRoundBracket => push_str(out, "("),
        TokenKind::CloseRoundBracket => push_str(out, ")"),
        TokenKind::OpenSquareBracket => push_str(out, "["),
        TokenKind::CloseSquareBracket => push_str(out, "]"),
        TokenKind::Semicolon => push_str(out, ";"),
        TokenKind::Assign => push_str(out, "="),
    }
    proof {
        reveal_strlit("PI");
        reveal_strlit("+");
        reveal_strlit("-");
        reveal_strlit("*");
        reveal_strlit("/");
        reveal_strlit("**");
        reveal_strlit("(");
        reveal_strlit(")");
        reveal_strlit("[");
        reveal_strlit("]");
        reveal_strlit(";");
        reveal_strlit("=");
    }
    assert(final(out)@ =~= old(out)@ + kind_name(k));
}

fn push_kinds(out: &mut Vec<char>, ks: &Vec<TokenKind>)
    ensures
        final(out)@ == old(out)@ + kinds_text(ks@),
{
    let ghost start = out@;
    let mut i: usize = 0;
    while i < ks.len()
        invariant
            i <= ks.len(),
            out@ == start + kinds_text(ks@.take(i as int)),
        decreases ks.len() - i,
    {
        let ghost taken = ks@.take(i + 1);
        assert(taken.drop_last() =~= ks@.take(i as int));
        if i > 0 {
            push_str(out, ", ");
        }
        push_kind(out, ks[i]);
        proof {
            if i == 0 {
                assert(taken.len() == 1);
                assert(out@ =~= start + kinds_text(taken));
            } else {
                assert(out@ =~= start + kinds_text(taken));
            }
        }
        i = i + 1;
    }
    assert(ks@.take(i as int) =~= ks@);
}

impl ParseError {
    /// The message of this error.
    pub fn message(&self) -> (r: String)
        ensures
            r@ == failure_text(self.view()),
    {
        match self {
            ParseError::User { error } => error.message(),
            ParseError::UnrecognizedToken { token, expected } => {
                let mut out: Vec<char> = Vec::new();
                push_str(&mut out, "unrecognized token ");
                let shown_text = token.1.to_string();
                push_str(&mut out, shown_text.as_str());
                push_str(&mut out, " at ");
                push_int(&mut out, token.0 as i128);
                push_str(&mut out, "..");
                push_int(&mut out, token.2 as i128);
                push_str(&mut out, ", expected one of ");
                push_kinds(&mut out, expected);
                assert(out@ =~= failure_text(self.view()));
                string_from_chars(&out)
            },
            ParseError::UnrecognizedEof { location, expected } => {
                let mut out: Vec<char> = Vec::new();
                push_str(&mut out, "unexpected end of input at ");
                push_int(&mut out, *location as i128);
                push_str(&mut out, ", expected one of ");
                push_kinds(&mut out, expected);
                assert(out@ =~= failure_text(self.view()));
                string_from_chars(&out)
            },
        }
    }
}

/// The input as the parser sees it: the text, its tokens, and the lexical
/// error that ends them, if any.
pub struct Stream {
    pub text: Seq<char>,
    pub toks: Seq<(usize, TokenKind, usize)>,
    pub fail: Option<LexicalError>,
}

pub open spec fn stream_of(s: Seq<char>) -> Stream {
    Stream { text: s, toks: lex(s).0, fail: lex(s).1 }
}

/// The result of parsing a phrase from a token index: the tree and the
/// index after it.
pub type Parsed = Result<(Tree, nat), Failure>;

pub open spec fn kind_at(st: Stream, k: nat) -> Option<TokenKind> {
    if k < st.toks.len() {
        Some(st.toks[k as int].1)
    } else {
        None
    }
}

pub open spec fn text_at(st: Stream, k: nat) -> Seq<char> {
    st.text.subrange(st.toks[k as int].0 as int, st.toks[k as int].2 as int)
}

pub open spec fn loc_at(st: Stream, k: nat) -> Loc {
    Loc(st.toks[k as int].0, st.toks[k as int].2)
}

/// Kinds that can start an operand.
pub open spec fn operand_kinds() -> Seq<TokenKind> {
    seq![
        TokenKind::OpenRoundBracket,
        TokenKind::OpSub,
        TokenKind::Pi,
        TokenKind::Number,
        TokenKind::Variable,
    ]
}

/// Binary operator kinds.
pub open spec fn operator_kinds() -> Seq<TokenKind> {
    seq![TokenKind::OpAdd, TokenKind::OpSub, TokenKind::OpMul, TokenKind::OpDiv, TokenKind::OpPow]
}

/// Kinds that can follow a complete operand inside brackets.
pub open spec fn in_brackets_kinds() -> Seq<TokenKind> {
    operator_kinds().push(TokenKind::CloseRoundBracket)
}

/// Kinds that can follow a complete statement; after a lone identifier,
/// `=` as well.
pub open spec fn after_statement_kinds(lone: bool) -> Seq<TokenKind> {
    if lone {
        operator_kinds().push(TokenKind::Assign).push(TokenKind::Semicolon)
    } else {
        operator_kinds().push(TokenKind::Semicolon)
    }
}

/// The error reported when the token at index `k` cannot continue the parse.
pub open spec fn failure_at(st: Stream, k: nat, expected: Seq<TokenKind>) -> Failure {
    if k < st.toks.len() {
        Failure::Unexpected(
            st.toks[k as int].0,
            st.toks[k as int].1,
            text_at(st, k),
            st.toks[k as int].2,
            expected,
        )
    } else if st.fail is Some {
        Failure::User(st.fail->0)
    } else {
        Failure::Eof(st.text.len() as usize, expected)
    }
}

pub open spec fn digit_of(c: char) -> nat {
    if '0' <= c && c <= '9' {
        (c as u32 - '0' as u32) as nat
    } else {
        0
    }
}

/// The value of a run of decimal digits.
pub open spec fn digits_value(s: Seq<char>) -> nat
    decreases s.len(),
{
    if s.len() == 0 {
        0
    } else {
        digits_value(s.drop_last()) * 10 + digit_of(s.last())
    }
}

/// The node that a binary operator token of kind `op` builds.
pub open spec fn binary(op: TokenKind, l: Tree, r: Tree) -> Tree {
    let loc = Loc(loc_of(l).0, loc_of(r).1);
    if op == TokenKind::OpAdd {
        Tree::Add(loc, Box::new(l), Box::new(r))
    } else if op == TokenKind::OpSub {
        Tree::Subtract(loc, Box::new(l), Box::new(r))
    } else if op == TokenKind::OpMul {
        Tree::Multiply(loc, Box::new(l), Box::new(r))
    } else if op == TokenKind::OpDiv {
        Tree::Divide(loc, Box::new(l), Box::new(r))
    } else {
        Tree::Power(loc, Box::new(l), Box::new(r))
    }
}

/// primary := number | identifier | PI | `(` expression `)`
pub open spec fn p_primary(st: Stream, k: nat) -> Parsed
    decreases st.toks.len() - k, 0nat,
{
    if k >= st.toks.len() {
        Err(failure_at(st, k, operand_kinds()))
    } else {
        let kind = st.toks[k as int].1;
        if kind == TokenKind::Number {
            let d = digits_value(text_at(st, k));
            if d <= i128::MAX {
                Ok((Tree::NumberLiteral(loc_at(st, k), d as i128), k + 1))
            } else {
                Err(
                    Failure::User(
                        LexicalError::NumberOutOfRange(st.toks[k as int].0, st.toks[k as int].2),
                    ),
                )
            }
        } else if kind == TokenKind::Variable {
            Ok((Tree::Variable(loc_at(st, k), text_at(st, k)), k + 1))
        } else if kind == TokenKind::Pi {
            Ok((Tree::Pi(loc_at(st, k)), k + 1))
        } else if kind == TokenKind::OpenRoundBracket {
            match p_expr(st, k + 1) {
                Err(e) => Err(e),
                Ok((t, j)) => if kind_at(st, j) == Some(TokenKind::CloseRoundBracket) {
                    Ok(
                        (
                            Tree::RoundBrackets(
                                Loc(st.toks[k as int].0, st.toks[j as int].2),
                                Box::new(t),
                            ),
                            j + 1,
                        ),
                    )
                } else {
                    Err(failure_at(st, j, in_brackets_kinds()))
                },
            }
        } else {
            Err(failure_at(st, k, operand_kinds()))
        }
    }
}

/// unary := `-` unary | primary
pub open spec fn p_unary(st: Stream, k: nat) -> Parsed
    decreases st.toks.len() - k, 1nat,
{
    if kind_at(st, k) == Some(TokenKind::OpSub) {
        match p_unary(st, k + 1) {
            Err(e) => Err(e),
            Ok((t, j)) => Ok(
                (Tree::UnaryMinus(Loc(st.toks[k as int].0, loc_of(t).1), Box::new(t)), j),
            ),
        }
    } else {
        p_primary(st, k)
    }
}

/// power := unary `**` power | unary  (grouping to the right)
pub open spec fn p_power(st: Stream, k: nat) -> Parsed
    decreases st.toks.len() - k, 2nat,
{
    match p_unary(st, k) {
        Err(e) => Err(e),
        Ok((b, j)) => if kind_at(st, j) == Some(TokenKind::OpPow) && k <= j {
            match p_power(st, j + 1) {
                Err(e) => Err(e),
                Ok((x, m)) => Ok((binary(TokenKind::OpPow, b, x), m)),
            }
        } else {
            Ok((b, j))
        },
    }
}

/// The rest of a product after its first factors, already built into `l`.
pub open spec fn p_term_rest(st: Stream, l: Tree, j: nat) -> Parsed
    decreases st.toks.len() - j, 3nat,
{
    if kind_at(st, j) == Some(TokenKind::OpMul) || kind_at(st, j) == Some(TokenKind::OpDiv) {
        match p_power(st, j + 1) {
            Err(e) => Err(e),
            Ok((r, m)) => if j < m <= st.toks.len() {
                p_term_rest(st, binary(st.toks[j as int].1, l, r), m)
            } else {
                Ok((l, j))
            },
        }
    } else {
        Ok((l, j))
    }
}

/// term := term (`*` | `/`) power | power  (grouping to the left)
pub open spec fn p_term(st: Stream, k: nat) -> Parsed
    decreases st.toks.len() - k, 4nat,
{
    match p_power(st, k) {
        Err(e) => Err(e),
        Ok((l, j)) => if k < j <= st.toks.len() {
            p_term_rest(st, l, j)
        } else {
            Ok((l, j))
        },
    }
}

/// The rest of a sum after its first terms, already built into `l`.
pub open spec fn p_expr_rest(st: Stream, l: Tree, j: nat) -> Parsed
    decreases st.toks.len() - j, 5nat,
{
    if kind_at(st, j) == Some(TokenKind::OpAdd) || kind_at(st, j) == Some(TokenKind::OpSub) {
        match p_term(st, j + 1) {
            Err(e) => Err(e),
            Ok((r, m)) => if j < m <= st.toks.len() {
                p_expr_rest(st, binary(st.toks[j as int].1, l, r), m)
            } else {
                Ok((l, j))
            },
        }
    } else {
        Ok((l, j))
    }
}

/// expression := expression (`+` | `-`) term | term  (grouping to the left)
pub open spec fn p_expr(st: Stream, k: nat) -> Parsed
    decreases st.toks.len() - k, 6nat,
{
    match p_term(st, k) {
        Err(e) => Err(e),
        Ok((l, j)) => if k < j <= st.toks.len() {
            p_expr_rest(st, l, j)
        } else {
            Ok((l, j))
        },
    }
}

/// statement := identifier `=` expression | expression
pub open spec fn p_statement(st: Stream, k: nat) -> Parsed {
    if kind_at(st, k) == Some(TokenKind::Variable) && kind_at(st, k + 1) == Some(
        TokenKind::Assign,
    ) {
        match p_expr(st, k + 2) {
            Err(e) => Err(e),
            Ok((v, j)) => Ok(
                (
                    Tree::Assignment(
                        Loc(st.toks[k as int].0, loc_of(v).1),
                        Box::new(Tree::Variable(loc_at(st, k), text_at(st, k))),
                        Box::new(v),
                    ),
                    j,
                ),
            ),
        }
    } else {
        p_expr(st, k)
    }
}

/// program := statements separated by `;`; empty statements are dropped.
/// `acc` holds the statements parsed before token index `k`.
pub open spec fn p_program(st: Stream, k: nat, acc: Seq<Tree>) -> Result<Seq<Tree>, Failure>
    decreases st.toks.len() - k,
{
    if k >= st.toks.len() {
        if st.fail is Some {
            Err(Failure::User(st.fail->0))
        } else {
            Ok(acc)
        }
    } else if st.toks[k as int].1 == TokenKind::Semicolon {
        p_program(st, k + 1, acc)
    } else {
        match p_statement(st, k) {
            Err(e) => Err(e),
            Ok((t, j)) => if kind_at(st, j) == Some(TokenKind::Semicolon) {
                if k <= j {
                    p_program(st, j + 1, acc.push(t))
                } else {
                    Ok(acc)
                }
            } else if j >= st.toks.len() && st.fail is None {
                Ok(acc.push(t))
            } else {
                Err(failure_at(st, j, after_statement_kinds(t is Variable)))
            },
        }
    }
}

/// The statements of `s`, or the first error met while reading them.
pub open spec fn parse_spec(s: Seq<char>) -> Result<Seq<Tree>, Failure> {
    p_program(stream_of(s), 0, Seq::empty())
}

/// Whether a tree holds no assignment.
pub open spec fn assignment_free(t: Tree) -> bool
    decreases t,
{
    match t {
        Tree::Assignment(_, _, _) => false,
        Tree::Multiply(_, a, b) => assignment_free(*a) && assignment_free(*b),
        Tree::Divide(_, a, b) => assignment_free(*a) && assignment_free(*b),
        Tree::Add(_, a, b) => assignment_free(*a) && assignment_free(*b),
        Tree::Subtract(_, a, b) => assignment_free(*a) && assignment_free(*b),
        Tree::Power(_, a, b) => assignment_free(*a) && assignment_free(*b),
        Tree::UnaryMinus(_, a) => assignment_free(*a),
        Tree::RoundBrackets(_, a) => assignment_free(*a),
        _ => true,
    }
}

/// A statement is an expression without assignments, or one assignment of
/// such an expression to a bare variable.
pub open spec fn statement_shape(t: Tree) -> bool {
    match t {
        Tree::Assignment(_, target, value) => (*target) is Variable && assignment_free(*value),
        _ => assignment_free(t),
    }
}

proof fn lemma_primary_shape(st: Stream, k: nat)
    ensures
        p_primary(st, k) matches Ok((t, _)) ==> assignment_free(t),
    decreases st.toks.len() - k, 0nat,
{
    if k < st.toks.len() && st.toks[k as int].1 == TokenKind::OpenRoundBracket {
        lemma_expr_shape(st, k + 1);
    }
}

proof fn lemma_unary_shape(st: Stream, k: nat)
    ensures
        p_unary(st, k) matches Ok((t, _)) ==> assignment_free(t),
    decreases st.toks.len() - k, 1nat,
{
    if kind_at(st, k) == Some(TokenKind::OpSub) {
        lemma_unary_shape(st, k + 1);
    } else {
        lemma_primary_shape(st, k);
    }
}

proof fn lemma_power_shape(st: Stream, k: nat)
    ensures
        p_power(st, k) matches Ok((t, _)) ==> assignment_free(t),
    decreases st.toks.len() - k, 2nat,
{
    lemma_unary_shape(st, k);
    if let Ok((b, j)) = p_unary(st, k) {
        if kind_at(st, j) == Some(TokenKind::OpPow) && k <= j {
            lemma_power_shape(st, j + 1);
        }
    }
}

proof fn lemma_term_rest_shape(st: Stream, l: Tree, j: nat)
    requires
        assignment_free(l),
    ensures
        p_term_rest(st, l, j) matches Ok((t, _)) ==> assignment_free(t),
    decreases st.toks.len() - j, 3nat,
{
    if kind_at(st, j) == Some(TokenKind::OpMul) || kind_at(st, j) == Some(TokenKind::OpDiv) {
        lemma_power_shape(st, j + 1);
        if let Ok((r, m)) = p_power(st, j + 1) {
            if j < m <= st.toks.len() {
                lemma_term_rest_shape(st, binary(st.toks[j as int].1, l, r), m);
            }
        }
    }
}

proof fn lemma_term_shape(st: Stream, k: nat)
    ensures
        p_term(st, k) matches Ok((t, _)) ==> assignment_free(t),
    decreases st.toks.len() - k, 4nat,
{
    lemma_power_shape(st, k);
    if let Ok((l, j)) = p_power(st, k) {
        if k < j <= st.toks.len() {
            lemma_term_rest_shape(st, l, j);
        }
    }
}

proof fn lemma_expr_rest_shape(st: Stream, l: Tree, j: nat)
    requires
        assignment_free(l),
    ensures
        p_expr_rest(st, l, j) matches Ok((t, _)) ==> assignment_free(t),
    decreases st.toks.len() - j, 5nat,
{
    if kind_at(st, j) == Some(TokenKind::OpAdd) || kind_at(st, j) == Some(TokenKind::OpSub) {
        lemma_term_shape(st, j + 1);
        if let Ok((r, m)) = p_term(st, j + 1) {
            if j < m <= st.toks.len() {
                lemma_expr_rest_shape(st, binary(st.toks[j as int].1, l, r), m);
            }
        }
    }
}

proof fn lemma_expr_shape(st: Stream, k: nat)
    ensures
        p_expr(st, k) matches Ok((t, _)) ==> assignment_free(t),
    decreases st.toks.len() - k, 6nat,
{
    lemma_term_shape(st, k);
    if let Ok((l, j)) = p_term(st, k) {
        if k < j <= st.toks.len() {
            lemma_expr_rest_shape(st, l, j);
        }
    }
}

proof fn lemma_program_shape(st: Stream, k: nat, acc: Seq<Tree>)
    requires
        forall|i: int| 0 <= i < acc.len() ==> statement_shape(#[trigger] acc[i]),
    ensures
        p_program(st, k, acc) matches Ok(ts) ==> forall|i: int|
            0 <= i < ts.len() ==> statement_shape(#[trigger] ts[i]),
    decreases st.toks.len() - k,
{
    if k < st.toks.len() {
        if st.toks[k as int].1 == TokenKind::Semicolon {
            lemma_program_shape(st, k + 1, acc);
        } else {
            if kind_at(st, k) == Some(TokenKind::Variable) && kind_at(st, k + 1) == Some(
                TokenKind::Assign,
            ) {
                lemma_expr_shape(st, k + 2);
            } else {
                lemma_expr_shape(st, k);
            }
            if let Ok((t, j)) = p_statement(st, k) {
                assert(statement_shape(t));
                assert forall|i: int| 0 <= i < acc.push(t).len() implies statement_shape(
                    #[trigger] acc.push(t)[i],
                ) by {
                    if i < acc.len() {
                        assert(acc.push(t)[i] == acc[i]);
                    }
                }
                if kind_at(st, j) == Some(TokenKind::Semicolon) && k <= j {
                    lemma_program_shape(st, j + 1, acc.push(t));
                }
            }
        }
    }
}

/// Every parsed statement is an expression without assignments, or a single
/// assignment of such an expression to a bare variable: assignments never
/// nest and never have a compound target.
pub proof fn lemma_parse_statement_shape(s: Seq<char>)
    ensures
        parse_spec(s) matches Ok(ts) ==> forall|i: int|
            0 <= i < ts.len() ==> statement_shape(#[trigger] ts[i]),
{
    lemma_program_shape(stream_of(s), 0, Seq::empty());
}

/// Whether a successful spec result ends after index `k` and within the tokens.
pub open spec fn moves_on(p: Parsed, k: nat, len: nat) -> bool {
    p matches Ok((_, j)) ==> k < j <= len
}

proof fn lemma_primary_moves(st: Stream, k: nat)
    ensures
        moves_on(p_primary(st, k), k, st.toks.len()),
    decreases st.toks.len() - k, 0nat,
{
    if k < st.toks.len() && st.toks[k as int].1 == TokenKind::OpenRoundBracket {
        lemma_expr_moves(st, k + 1);
    }
}

proof fn lemma_unary_moves(st: Stream, k: nat)
    ensures
        moves_on(p_unary(st, k), k, st.toks.len()),
    decreases st.toks.len() - k, 1nat,
{
    if kind_at(st, k) == Some(TokenKind::OpSub) {
        lemma_unary_moves(st, k + 1);
    } else {
        lemma_primary_moves(st, k);
    }
}

proof fn lemma_power_moves(st: Stream, k: nat)
    ensures
        moves_on(p_power(st, k), k, st.toks.len()),
    decreases st.toks.len() - k, 2nat,
{
    lemma_unary_moves(st, k);
    if let Ok((b, j)) = p_unary(st, k) {
        if kind_at(st, j) == Some(TokenKind::OpPow) && k <= j {
            lemma_power_moves(st, j + 1);
        }
    }
}

proof fn lemma_term_rest_moves(st: Stream, l: Tree, j: nat)
    requires
        j <= st.toks.len(),
    ensures
        p_term_rest(st, l, j) matches Ok((_, m)) ==> j <= m <= st.toks.len(),
    decreases st.toks.len() - j, 3nat,
{
    if kind_at(st, j) == Some(TokenKind::OpMul) || kind_at(st, j) == Some(TokenKind::OpDiv) {
        lemma_power_moves(st, j + 1);
        if let Ok((r, m)) = p_power(st, j + 1) {
            lemma_term_rest_moves(st, binary(st.toks[j as int].1, l, r), m);
        }
    }
}

proof fn lemma_term_moves(st: Stream, k: nat)
    ensures
        moves_on(p_term(st, k), k, st.toks.len()),
    decreases st.toks.len() - k, 4nat,
{
    lemma_power_moves(st, k);
    if let Ok((l, j)) = p_power(st, k) {
        lemma_term_rest_moves(st, l, j);
    }
}

proof fn lemma_expr_rest_moves(st: Stream, l: Tree, j: nat)
    requires
        j <= st.toks.len(),
    ensures
        p_expr_rest(st, l, j) matches Ok((_, m)) ==> j <= m <= st.toks.len(),
    decreases st.toks.len() - j, 5nat,
{
    if kind_at(st, j) == Some(TokenKind::OpAdd) || kind_at(st, j) == Some(TokenKind::OpSub) {
        lemma_term_moves(st, j + 1);
        if let Ok((r, m)) = p_term(st, j + 1) {
            lemma_expr_rest_moves(st, binary(st.toks[j as int].1, l, r), m);
        }
    }
}

proof fn lemma_expr_moves(st: Stream, k: nat)
    ensures
        moves_on(p_expr(st, k), k, st.toks.len()),
    decreases st.toks.len() - k, 6nat,
{
    lemma_term_moves(st, k);
    if let Ok((l, j)) = p_term(st, k) {
        lemma_expr_rest_moves(st, l, j);
    }
}

/// Every phrase the grammar accepts takes at least one token and stays
/// within the tokens, so the fallback branches that the grammar keeps for
/// termination are never taken.
pub proof fn lemma_phrases_move_on(st: Stream, k: nat)
    ensures
        moves_on(p_primary(st, k), k, st.toks.len()),
        moves_on(p_unary(st, k), k, st.toks.len()),
        moves_on(p_power(st, k), k, st.toks.len()),
        moves_on(p_term(st, k), k, st.toks.len()),
        moves_on(p_expr(st, k), k, st.toks.len()),
        moves_on(p_statement(st, k), k, st.toks.len()),
{
    lemma_primary_moves(st, k);
    lemma_unary_moves(st, k);
    lemma_power_moves(st, k);
    lemma_term_moves(st, k);
    lemma_expr_moves(st, k);
    if kind_at(st, k) == Some(TokenKind::Variable) && kind_at(st, k + 1) == Some(TokenKind::Assign) {
        lemma_expr_moves(st, k + 2);
    }
}

/// Whether an executable parse result is the spec result `p`.
pub open spec fn agrees(r: Result<(Node, usize), ParseError>, p: Parsed) -> bool {
    match p {
        Ok((t, j)) => r matches Ok((n, j2)) && n@ == t && j2 == j,
        Err(f) => r matches Err(e) && e.view() == f,
    }
}

/// Whether a successful result ends after index `k` and within the tokens.
pub open spec fn advances(r: Result<(Node, usize), ParseError>, k: nat, len: nat) -> bool {
    r matches Ok((_, j)) ==> k < j <= len
}

fn operand_list() -> (r: Vec<TokenKind>)
    ensures
        r@ == operand_kinds(),
{
    let r = vec![
        TokenKind::OpenRoundBracket,
        TokenKind::OpSub,
        TokenKind::Pi,
        TokenKind::Number,
        TokenKind::Variable,
    ];
    assert(r@ =~= operand_kinds());
    r
}

fn operator_list() -> (r: Vec<TokenKind>)
    ensures
        r@ == operator_kinds(),
{
    let r = vec![
        TokenKind::OpAdd,
        TokenKind::OpSub,
        TokenKind::OpMul,
        TokenKind::OpDiv,
        TokenKind::OpPow,
    ];
    assert(r@ =~= operator_kinds());
    r
}

/// The value of a digit run, or `None` above `i128::MAX`.
fn literal_value(s: &String) -> (r: Option<i128>)
    ensures
        r == (if digits_value(s@) <= i128::MAX {
            Some(digits_value(s@) as i128)
        } else {
            None::<i128>
        }),
{
    let mut acc: Option<i128> = Some(0);
    let ghost mut seen: Seq<char> = Seq::empty();
    for c in it: s.as_str().chars()
        invariant
            seen == it.seq().take(it.index() as int),
            acc == (if digits_value(seen) <= i128::MAX {
                Some(digits_value(seen) as i128)
            } else {
                None::<i128>
            }),
    {
        assert(seen.push(c).drop_last() =~= seen);
        let d: i128 = if '0' <= c && c <= '9' {
            (c as u32 - '0' as u32) as i128
        } else {
            0
        };
        acc = match acc {
            Some(v) => match v.checked_mul(10) {
                Some(w) => w.checked_add(d),
                None => None,
            },
            None => None,
        };
        proof {
            seen = seen.push(c);
        }
    }
    assert(seen =~= s@);
    acc
}

/// A parser over the tokens of one input.
struct Parser {
    toks: Vec<(usize, Token, usize)>,
    fail: Option<LexicalError>,
    len: usize,
    st: Ghost<Stream>,
}

impl Parser {
    spec fn wf(&self) -> bool {
        &&& tokens_match(self.toks@, self.st@.text, self.st@.toks)
        &&& self.fail == self.st@.fail
        &&& self.len == self.st@.text.len()
    }

    spec fn n(&self) -> nat {
        self.st@.toks.len()
    }

    fn kind_at(&self, k: usize) -> (r: Option<TokenKind>)
        requires
            self.wf(),
        ensures
            r == kind_at(self.st@, k as nat),
            r is Some ==> k < self.toks.len(),
    {
        if k < self.toks.len() {
            Some(self.toks[k].1.kind())
        } else {
            None
        }
    }

    fn failure(&self, k: usize, expected: Vec<TokenKind>) -> (e: ParseError)
        requires
            self.wf(),
        ensures
            e.view() == failure_at(self.st@, k as nat, expected@),
    {
        if k < self.toks.len() {
            let t = &self.toks[k];
            ParseError::UnrecognizedToken { token: (t.0, t.1.duplicate(), t.2), expected }
        } else {
            match self.fail {
                Some(error) => ParseError::User { error },
                None => ParseError::UnrecognizedEof { location: self.len, expected },
            }
        }
    }

    fn primary(&self, k: usize) -> (r: Result<(Node, usize), ParseError>)
        requires
            self.wf(),
        ensures
            agrees(r, p_primary(self.st@, k as nat)),
            advances(r, k as nat, self.n()),
        decreases self.n() - k, 0nat,
    {
        if k >= self.toks.len() {
            return Err(self.failure(k, operand_list()));
        }
        let (a, ref t, b) = self.toks[k];
        let ghost st = self.st@;
        let loc = Loc(a, b);
        match t {
            Token::Number(digits) => match literal_value(digits) {
                Some(v) => Ok((Node::NumberLiteral(loc, v), k + 1)),
                None => Err(ParseError::User { error: LexicalError::NumberOutOfRange(a, b) }),
            },
            Token::Variable(name) => Ok((Node::Variable(loc, name.clone()), k + 1)),
            Token::Pi => Ok((Node::Pi(loc), k + 1)),
            Token::OpenRoundBracket => match self.expr(k + 1) {
                Err(e) => Err(e),
                Ok((inner, j)) => {
                    if j < self.toks.len() && self.toks[j].1.kind()
                        == TokenKind::CloseRoundBracket {
                        Ok((Node::RoundBrackets(Loc(a, self.toks[j].2), Box::new(inner)), j + 1))
                    } else {
                        let mut ex = operator_list();
                        ex.push(TokenKind::CloseRoundBracket);
                        Err(self.failure(j, ex))
                    }
                },
            },
            _ => Err(self.failure(k, operand_list())),
        }
    }

    fn unary(&self, k: usize) -> (r: Result<(Node, usize), ParseError>)
        requires
            self.wf(),
        ensures
            agrees(r, p_unary(self.st@, k as nat)),
            advances(r, k as nat, self.n()),
        decreases self.n() - k, 1nat,
    {
        if self.kind_at(k) == Some(TokenKind::OpSub) {
            match self.unary(k + 1) {
                Err(e) => Err(e),
                Ok((t, j)) => {
                    let loc = Loc(self.toks[k].0, t.loc().1);
                    Ok((Node::UnaryMinus(loc, Box::new(t)), j))
                },
            }
        } else {
            self.primary(k)
        }
    }

    fn power(&self, k: usize) -> (r: Result<(Node, usize), ParseError>)
        requires
            self.wf(),
        ensures
            agrees(r, p_power(self.st@, k as nat)),
            advances(r, k as nat, self.n()),
        decreases self.n() - k, 2nat,
    {
        match self.unary(k) {
            Err(e) => Err(e),
            Ok((b, j)) => {
                if self.kind_at(j) == Some(TokenKind::OpPow) {
                    match self.power(j + 1) {
                        Err(e) => Err(e),
                        Ok((x, m)) => {
                            let loc = Loc(b.loc().0, x.loc().1);
                            Ok((Node::Power(loc, Box::new(b), Box::new(x)), m))
                        },
                    }
                } else {
                    Ok((b, j))
                }
            },
        }
    }

    fn term(&self, k: usize) -> (r: Result<(Node, usize), ParseError>)
        requires
            self.wf(),
        ensures
            agrees(r, p_term(self.st@, k as nat)),
            advances(r, k as nat, self.n()),
        decreases self.n() - k, 4nat,
    {
        let (mut l, mut j) = match self.power(k) {
            Err(e) => return Err(e),
            Ok(p) => p,
        };
        loop
            invariant
                self.wf(),
                k < j <= self.n(),
                p_term(self.st@, k as nat) == p_term_rest(self.st@, l@, j as nat),
            decreases self.n() - j,
        {
            let op = self.kind_at(j);
            if op == Some(TokenKind::OpMul) || op == Some(TokenKind::OpDiv) {
                match self.power(j + 1) {
                    Err(e) => return Err(e),
                    Ok((r, m)) => {
                        let loc = Loc(l.loc().0, r.loc().1);
                        l = if op == Some(TokenKind::OpMul) {
                            Node::Multiply(loc, Box::new(l), Box::new(r))
                        } else {
                            Node::Divide(loc, Box::new(l), Box::new(r))
                        };
                        j = m;
                    },
                }
            } else {
                return Ok((l, j));
            }
        }
    }

    fn expr(&self, k: usize) -> (r: Result<(Node, usize), ParseError>)
        requires
            self.wf(),
        ensures
            agrees(r, p_expr(self.st@, k as nat)),
            advances(r, k as nat, self.n()),
        decreases self.n() - k, 6nat,
    {
        let (mut l, mut j) = match self.term(k) {
            Err(e) => return Err(e),
            Ok(p) => p,
        };
        loop
            invariant
                self.wf(),
                k < j <= self.n(),
                p_expr(self.st@, k as nat) == p_expr_rest(self.st@, l@, j as nat),
            decreases self.n() - j,
        {
            let op = self.kind_at(j);
            if op == Some(TokenKind::OpAdd) || op == Some(TokenKind::OpSub) {
                match self.term(j + 1) {
                    Err(e) => return Err(e),
                    Ok((r, m)) => {
                        let loc = Loc(l.loc().0, r.loc().1);
                        l = if op == Some(TokenKind::OpAdd) {
                            Node::Add(loc, Box::new(l), Box::new(r))
                        } else {
                            Node::Subtract(loc, Box::new(l), Box::new(r))
                        };
                        j = m;
                    },
                }
            } else {
                return Ok((l, j));
            }
        }
    }

    fn statement(&self, k: usize) -> (r: Result<(Node, usize), ParseError>)
        requires
            self.wf(),
        ensures
            agrees(r, p_statement(self.st@, k as nat)),
            advances(r, k as nat, self.n()),
    {
        if self.kind_at(k) == Some(TokenKind::Variable) && self.kind_at(k + 1) == Some(
            TokenKind::Assign,
        ) {
            let (a, ref t, b) = self.toks[k];
            let name = match t {
                Token::Variable(name) => name.clone(),
                _ => String::new(),
            };
            assert(name@ == text_at(self.st@, k as nat));
            match self.expr(k + 2) {
                Err(e) => Err(e),
                Ok((v, j)) => {
                    let loc = Loc(a, v.loc().1);
                    let target = Node::Variable(Loc(a, b), name);
                    assert(target@ == Tree::Variable(
                        loc_at(self.st@, k as nat),
                        text_at(self.st@, k as nat),
                    ));
                    assert(loc == Loc(self.st@.toks[k as int].0, loc_of(v@).1));
                    Ok((Node::Assignment(loc, Box::new(target), Box::new(v)), j))
                },
            }
        } else {
            self.expr(k)
        }
    }
}

/// The trees of a statement list.
pub open spec fn trees_of(v: Seq<Statement>) -> Seq<Tree> {
    v.map_values(|s: Statement| s.0@)
}

/// Parses a whole input into its statements. Empty statements between
/// separators are dropped; the first lexical or syntax error met ends the
/// parse and is returned.
#[verifier::rlimit(60)]
pub fn parse(src: &str) -> (r: Result<Statements, ParseError>)
    ensures
        match parse_spec(src@) {
            Ok(ts) => r matches Ok(ss) && ss@ == ts,
            Err(f) => r matches Err(e) && e.view() == f,
        },
{
    let (toks, fail) = tokenize(src);
    let len = src.unicode_len();
    let p = Parser { toks, fail, len, st: Ghost(stream_of(src@)) };
    let n = p.toks.len();
    let mut acc: Vec<Statement> = Vec::new();
    let mut k: usize = 0;
    assert(trees_of(acc@) =~= Seq::<Tree>::empty());
    loop
        invariant
            p.wf(),
            p.st@ == stream_of(src@),
            k <= n == p.n(),
            parse_spec(src@) == p_program(p.st@, k as nat, trees_of(acc@)),
        decreases n - k,
    {
        if k >= n {
            assert(trees_of(acc@) == Statements(acc)@);
            match p.fail {
                Some(error) => return Err(ParseError::User { error }),
                None => return Ok(Statements(acc)),
            }
        }
        if p.toks[k].1.kind() == TokenKind::Semicolon {
            k = k + 1;
        } else {
            match p.statement(k) {
                Err(e) => return Err(e),
                Ok((t, j)) => {
                    let ghost tree = t@;
                    let lone = match t {
                        Node::Variable(_, _) => true,
                        _ => false,
                    };
                    let next = p.kind_at(j);
                    let at_end = j >= n && match p.fail {
                        Some(_) => false,
                        None => true,
                    };
                    if next == Some(TokenKind::Semicolon) || at_end {
                        let ghost before = acc@;
                        acc.push(Statement(t));
                        assert(trees_of(acc@) =~= trees_of(before).push(tree));
                        if at_end {
                            assert(trees_of(acc@) == Statements(acc)@);
                            return Ok(Statements(acc));
                        }
                        k = j + 1;
                    } else {
                        let mut ex = operator_list();
                        if lone {
                            ex.push(TokenKind::Assign);
                        }
                        ex.push(TokenKind::Semicolon);
                        return Err(p.failure(j, ex));
                    }
                },
            }
        }
    }
}

} // verus!
