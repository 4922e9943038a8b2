//! The parser: a Pratt expression parser inside a recursive-descent statement
//! parser.  It pulls every token from the lexer up front and walks them with
//! one token of lookahead; `spec_parse_program` is the exact mathematical
//! description of what comes out, error messages included.
//!
//! Cursor discipline: each production is entered with the cursor on its first
//! token and leaves it on its last; the caller advances in between.  Errors
//! are collected, never thrown; a failed production yields `None` and the
//! top-level loop advances one token and tries again.
use crate::ast::Block;
use crate::ast::BinaryOperator;
use crate::ast::Expr;
use crate::ast::ExprV;
use crate::ast::Program;
use crate::ast::Statement;
use crate::ast::StmtV;
use crate::ast::UnaryOperator;
use crate::ast::expr_view;
use crate::ast::exprs_view;
use crate::ast::program_view;
use crate::ast::stmt_view;
use crate::ast::stmts_view;
use crate::ast::elifs_view;
use crate::generator::dot_pos;
use crate::lexer::Lexer;
use crate::lexer::Token;
use crate::lexer::TokenV;
use crate::lexer::token_seq;
use crate::lexer::tokens_view;
use crate::lexer::lemma_tokenization_total;
use crate::lexer::lemma_lex_progress;
use crate::strfmt::dec_int_rep;
use crate::strfmt::append_i64;
use crate::strfmt::push_char;
use vstd::prelude::*;
use vstd::string::*;

verus! {

// ---------------------------------------------------------------------------
// Tokens as the parser sees them.
// ---------------------------------------------------------------------------

/// The token at a stream position; past the end everything reads as `Eof`.
pub open spec fn tok_at(toks: Seq<TokenV>, i: int) -> TokenV {
    if 0 <= i < toks.len() {
        toks[i]
    } else {
        TokenV::Eof
    }
}

/// A well-shaped token stream: finite, `Eof` at the end and nowhere else.
pub open spec fn wf_tokens(toks: Seq<TokenV>) -> bool {
    &&& toks.len() >= 1
    &&& toks.last() is Eof
    &&& forall|j: int| 0 <= j < toks.len() - 1 ==> !(#[trigger] toks[j] is Eof)
}

/// The termination measure: how many tokens lie at or after position `i`.
pub open spec fn remaining(toks: Seq<TokenV>, i: int) -> int {
    if i > toks.len() {
        0
    } else {
        toks.len() - i
    }
}

/// Clamps a position into `[lo, hi]`; the parser's positions always lie in
/// range, so in every reachable state this is the identity.
pub open spec fn clamp_pos(j: int, lo: int, hi: int) -> int {
    if j < lo {
        lo
    } else if j > hi {
        hi
    } else {
        j
    }
}

/// Binding power of an infix token; `0` for everything that cannot continue
/// an expression.
pub open spec fn spec_token_precedence(t: TokenV) -> int {
    match t {
        TokenV::Or => 1,
        TokenV::And => 2,
        TokenV::Eq => 3,
        TokenV::NotEq => 3,
        TokenV::Lt => 4,
        TokenV::Lte => 4,
        TokenV::Gt => 4,
        TokenV::Gte => 4,
        TokenV::Plus => 5,
        TokenV::Minus => 5,
        TokenV::Multiply => 6,
        TokenV::Divide => 6,
        TokenV::Modulo => 6,
        TokenV::LParen => 8,
        _ => 0,
    }
}

/// The binding power of a prefix operator's operand.
pub open spec fn prec_prefix() -> int {
    7
}

pub open spec fn is_infix_op(t: TokenV) -> bool {
    match t {
        TokenV::Plus | TokenV::Minus | TokenV::Multiply | TokenV::Divide | TokenV::Modulo
            | TokenV::Eq | TokenV::NotEq | TokenV::Lt | TokenV::Lte | TokenV::Gt | TokenV::Gte
            | TokenV::And | TokenV::Or => true,
        _ => false,
    }
}

pub open spec fn binary_op_of(t: TokenV) -> BinaryOperator {
    match t {
        TokenV::Plus => BinaryOperator::Plus,
        TokenV::Minus => BinaryOperator::Minus,
        TokenV::Multiply => BinaryOperator::Multiply,
        TokenV::Divide => BinaryOperator::Divide,
        TokenV::Modulo => BinaryOperator::Modulo,
        TokenV::Eq => BinaryOperator::Eq,
        TokenV::NotEq => BinaryOperator::NotEq,
        TokenV::Lt => BinaryOperator::Lt,
        TokenV::Lte => BinaryOperator::Lte,
        TokenV::Gt => BinaryOperator::Gt,
        TokenV::Gte => BinaryOperator::Gte,
        TokenV::And => BinaryOperator::And,
        _ => BinaryOperator::Or,
    }
}

pub open spec fn is_digit_char(c: char) -> bool {
    48 <= c as int && c as int <= 57
}

pub open spec fn digits_only(s: Seq<char>, from: int, to: int) -> bool {
    forall|j: int| from <= j < to ==> is_digit_char(#[trigger] s[j])
}

/// A well-formed float lexeme: one or more digits, a dot, one or more digits.
pub open spec fn is_float_lexeme(s: Seq<char>) -> bool {
    let d = dot_pos(s, 0);
    &&& 1 <= d
    &&& d <= s.len() - 2
    &&& digits_only(s, 0, d)
    &&& digits_only(s, d + 1, s.len() as int)
}

// ---------------------------------------------------------------------------
// Diagnostic texts.
// ---------------------------------------------------------------------------

/// How a token is named inside a diagnostic.
pub open spec fn token_dbg(t: TokenV) -> Seq<char> {
    match t {
        TokenV::Illegal(c) => "Illegal('"@ + seq![c] + "')"@,
        TokenV::Eof => "Eof"@,
        TokenV::Identifier(s) => "Identifier(\""@ + s + "\")"@,
        TokenV::Integer(v) => "Integer("@ + dec_int_rep(v as int) + ")"@,
        TokenV::Float(s) => "Float(\""@ + s + "\")"@,
        TokenV::String(s) => "String(\""@ + s + "\")"@,
        TokenV::Let => "Let"@,
        TokenV::Mut => "Mut"@,
        TokenV::If => "If"@,
        TokenV::Else => "Else"@,
        TokenV::Loop => "Loop"@,
        TokenV::While => "While"@,
        TokenV::For => "For"@,
        TokenV::Fn => "Fn"@,
        TokenV::Return => "Return"@,
        TokenV::True => "True"@,
        TokenV::False => "False"@,
        TokenV::Print => "Print"@,
        TokenV::Println => "Println"@,
        TokenV::Break => "Break"@,
        TokenV::Continue => "Continue"@,
        TokenV::Assign => "Assign"@,
        TokenV::Plus => "Plus"@,
        TokenV::Minus => "Minus"@,
        TokenV::Multiply => "Multiply"@,
        TokenV::Divide => "Divide"@,
        TokenV::Modulo => "Modulo"@,
        TokenV::Bang => "Bang"@,
        TokenV::Eq => "Eq"@,
        TokenV::NotEq => "NotEq"@,
        TokenV::Lt => "Lt"@,
        TokenV::Lte => "Lte"@,
        TokenV::Gt => "Gt"@,
        TokenV::Gte => "Gte"@,
        TokenV::And => "And"@,
        TokenV::Or => "Or"@,
        TokenV::Comma => "Comma"@,
        TokenV::Semicolon => "Semicolon"@,
        TokenV::Colon => "Colon"@,
        TokenV::LParen => "LParen"@,
        TokenV::RParen => "RParen"@,
        TokenV::LBrace => "LBrace"@,
        TokenV::RBrace => "RBrace"@,
    }
}

pub open spec fn msg_expected(want: TokenV, got: TokenV, cur: TokenV) -> Seq<char> {
    "expected next token to be "@ + token_dbg(want) + ", got "@ + token_dbg(got)
        + " instead. (current: "@ + token_dbg(cur) + ")"@
}

pub open spec fn msg_no_prefix(cur: TokenV, peek: TokenV) -> Seq<char> {
    "No prefix parse function for "@ + token_dbg(cur) + " found. Peek: "@ + token_dbg(peek)
}

pub open spec fn msg_bad_float(lex: Seq<char>) -> Seq<char> {
    "Could not parse float string '"@ + lex + "'"@
}

pub open spec fn msg_unterminated_block(cur: TokenV) -> Seq<char> {
    "Unterminated block: expected '}', got "@ + token_dbg(cur)
}

pub open spec fn msg_for_semicolon(part: Seq<char>, cur: TokenV, peek: TokenV) -> Seq<char> {
    "Expected ';' after for loop "@ + part + ", got "@ + token_dbg(cur) + " (peek: "@ + token_dbg(
        peek,
    ) + ")"@
}

pub open spec fn msg_bad_callee() -> Seq<char> {
    "Expected function name (identifier) for call"@
}

// ---------------------------------------------------------------------------
// The spec-level parser.  Each function takes the token stream and the
// cursor, and yields the parsed value, the cursor after the production's
// last token, and the diagnostics it appended.
// ---------------------------------------------------------------------------

/// The prefix part of an expression: a literal, an identifier, a unary
/// operator, or a grouped expression.
#[verifier::opaque]
pub open spec fn spec_parse_prefix(toks: Seq<TokenV>, i: int) -> (Option<ExprV>, int, Seq<Seq<char>>)
    decreases remaining(toks, i), 1int,
{
    match tok_at(toks, i) {
        TokenV::Identifier(name) => (Some(ExprV::Identifier(name)), i, Seq::empty()),
        TokenV::Integer(v) => (Some(ExprV::Integer(v)), i, Seq::empty()),
        TokenV::Float(lex) => if is_float_lexeme(lex) {
            (Some(ExprV::Float(lex)), i, Seq::empty())
        } else {
            (None, i, seq![msg_bad_float(lex)])
        },
        TokenV::String(s) => (Some(ExprV::StringLiteral(s)), i, Seq::empty()),
        TokenV::True => (Some(ExprV::Boolean(true)), i, Seq::empty()),
        TokenV::False => (Some(ExprV::Boolean(false)), i, Seq::empty()),
        TokenV::Bang => {
            let (e, j, errs) = spec_parse_expression(toks, clamp_pos(i + 1, i + 1, toks.len() as int), prec_prefix());
            match e {
                Some(x) => (
                    Some(ExprV::UnaryOp { op: UnaryOperator::Not, expr: Box::new(x) }),
                    j,
                    errs,
                ),
                None => (None, j, errs),
            }
        },
        TokenV::Minus => {
            let (e, j, errs) = spec_parse_expression(toks, clamp_pos(i + 1, i + 1, toks.len() as int), prec_prefix());
            match e {
                Some(x) => (
                    Some(ExprV::UnaryOp { op: UnaryOperator::Negate, expr: Box::new(x) }),
                    j,
                    errs,
                ),
                None => (None, j, errs),
            }
        },
        TokenV::LParen => {
            let (e, j, errs) = spec_parse_expression(toks, clamp_pos(i + 1, i + 1, toks.len() as int), 0);
            if tok_at(toks, j + 1) is RParen {
                (e, j + 1, errs)
            } else {
                (None, j, errs.push(msg_expected(TokenV::RParen, tok_at(toks, j + 1), tok_at(toks, j))))
            }
        },
        _ => (None, i, seq![msg_no_prefix(tok_at(toks, i), tok_at(toks, i + 1))]),
    }
}

/// The argument list of a call, after the first argument has been parsed:
/// as long as a comma follows, another argument.
#[verifier::opaque]
pub open spec fn spec_parse_call_args(toks: Seq<TokenV>, i: int, acc: Seq<ExprV>) -> (
    Option<Seq<ExprV>>,
    int,
    Seq<Seq<char>>,
)
    decreases remaining(toks, i), 3int,
{
    if tok_at(toks, i + 1) is Comma {
        // Consume the comma; the next argument starts two tokens on.
        let (arg, j, errs) = spec_parse_expression(
            toks,
            clamp_pos(i + 2, i + 1, toks.len() as int),
            0,
        );
        match arg {
            None => (None, j, errs),
            Some(a) => {
                let (rest, k, errs2) = spec_parse_call_args(
                    toks,
                    clamp_pos(j, i + 1, toks.len() as int),
                    acc.push(a),
                );
                (rest, k, errs + errs2)
            },
        }
    } else {
        if tok_at(toks, i + 1) is RParen {
            (Some(acc), i + 1, Seq::empty())
        } else {
            (
                None,
                i,
                seq![msg_expected(TokenV::RParen, tok_at(toks, i + 1), tok_at(toks, i))],
            )
        }
    }
}

/// A call expression; the cursor is on the `(` and the callee has already
/// been parsed.  Only an identifier may be called.
#[verifier::opaque]
pub open spec fn spec_parse_call(toks: Seq<TokenV>, i: int, callee: ExprV) -> (
    Option<ExprV>,
    int,
    Seq<Seq<char>>,
)
    decreases remaining(toks, i), 4int,
{
    match callee {
        ExprV::Identifier(name) => {
            if tok_at(toks, i + 1) is RParen {
                (Some(ExprV::Call { callee: name, args: Seq::empty() }), i + 1, Seq::empty())
            } else {
                let (arg, j, errs) = spec_parse_expression(
                    toks,
                    clamp_pos(i + 1, i + 1, toks.len() as int),
                    0,
                );
                match arg {
                    None => (None, j, errs),
                    Some(a) => {
                        let (args, k, errs2) = spec_parse_call_args(
                            toks,
                            clamp_pos(j, i + 1, toks.len() as int),
                            seq![a],
                        );
                        match args {
                            None => (None, k, errs + errs2),
                            Some(list) => (
                                Some(ExprV::Call { callee: name, args: list }),
                                k,
                                errs + errs2,
                            ),
                        }
                    },
                }
            }
        },
        _ => (None, i, seq![msg_bad_callee()]),
    }
}

/// The infix continuation: while the lookahead binds tighter than
/// `min_prec`, extend the expression to the left; a `;` always stops it.
#[verifier::opaque]
pub open spec fn spec_infix_loop(toks: Seq<TokenV>, i: int, min_prec: int, left: Option<ExprV>) -> (
    Option<ExprV>,
    int,
    Seq<Seq<char>>,
)
    decreases remaining(toks, i), 0int,
{
    let peek = tok_at(toks, i + 1);
    if peek is Semicolon || !(min_prec < spec_token_precedence(peek)) {
        (left, i, Seq::empty())
    } else if !is_infix_op(peek) && !(peek is LParen) {
        (left, i, Seq::empty())
    } else {
        // Consume up to the operator; it becomes the current token.
        if is_infix_op(peek) {
            match left {
                None => (None, i + 1, Seq::empty()),
                Some(l) => {
                    let (rhs, j, errs) = spec_parse_expression(
                        toks,
                        clamp_pos(i + 2, i + 2, toks.len() as int),
                        spec_token_precedence(peek),
                    );
                    let newleft = match rhs {
                        None => None,
                        Some(r) => Some(
                            ExprV::BinaryOp {
                                left: Box::new(l),
                                op: binary_op_of(peek),
                                right: Box::new(r),
                            },
                        ),
                    };
                    let (res, k, errs2) = spec_infix_loop(
                        toks,
                        clamp_pos(j, i + 1, toks.len() as int),
                        min_prec,
                        newleft,
                    );
                    (res, k, errs + errs2)
                },
            }
        } else {
            match left {
                None => (None, i + 1, Seq::empty()),
                Some(l) => {
                    let (called, j, errs) = spec_parse_call(
                        toks,
                        clamp_pos(i + 1, i + 1, toks.len() as int),
                        l,
                    );
                    let (res, k, errs2) = spec_infix_loop(
                        toks,
                        clamp_pos(j, i + 1, toks.len() as int),
                        min_prec,
                        called,
                    );
                    (res, k, errs + errs2)
                },
            }
        }
    }
}

/// A whole expression: prefix part, then the infix continuation.
#[verifier::opaque]
pub open spec fn spec_parse_expression(toks: Seq<TokenV>, i: int, min_prec: int) -> (
    Option<ExprV>,
    int,
    Seq<Seq<char>>,
)
    decreases remaining(toks, i), 2int,
{
    let (pre, j, errs) = spec_parse_prefix(toks, i);
    let (res, k, errs2) = spec_infix_loop(
        toks,
        clamp_pos(j, i, toks.len() as int),
        min_prec,
        pre,
    );
    (res, k, errs + errs2)
}

// ---------------------------------------------------------------------------
// Statement-level spec parser.
// ---------------------------------------------------------------------------

/// The optional trailing semicolon: when the statement parsed and a `;`
/// follows it, the cursor moves onto the `;`; the tree is unchanged.
pub open spec fn spec_with_suffix(toks: Seq<TokenV>, r: (Option<StmtV>, int, Seq<Seq<char>>)) -> (
    Option<StmtV>,
    int,
    Seq<Seq<char>>,
) {
    match r.0 {
        Some(_) => if tok_at(toks, r.1 + 1) is Semicolon {
            (r.0, r.1 + 1, r.2)
        } else {
            r
        },
        None => r,
    }
}

/// An expression standing as a statement.
pub open spec fn spec_parse_expr_statement(toks: Seq<TokenV>, i: int) -> (
    Option<StmtV>,
    int,
    Seq<Seq<char>>,
) {
    let (e, j, errs) = spec_parse_expression(toks, i, 0);
    match e {
        None => (None, j, errs),
        Some(x) => (Some(StmtV::ExprStatement { expr: x }), j, errs),
    }
}

/// The tail of a declaration after the name (and annotation): `=` and the
/// value expression.
pub open spec fn spec_parse_let_tail(
    toks: Seq<TokenV>,
    p: int,
    mutable: bool,
    name: Seq<char>,
    ann: Option<Seq<char>>,
) -> (Option<StmtV>, int, Seq<Seq<char>>) {
    if tok_at(toks, p + 1) is Assign {
        let (v, j, errs) = spec_parse_expression(toks, p + 2, 0);
        match v {
            None => (None, j, errs),
            Some(x) => (
                Some(StmtV::LetDecl { name: name, type_ann: ann, mutable: mutable, value: x }),
                j,
                errs,
            ),
        }
    } else {
        (None, p, seq![msg_expected(TokenV::Assign, tok_at(toks, p + 1), tok_at(toks, p))])
    }
}

/// A declaration: `let`, `mut` or `let mut`, a name, an optional `: Type`,
/// `=`, the value.
#[verifier::opaque]
pub open spec fn spec_parse_let(toks: Seq<TokenV>, i: int) -> (Option<StmtV>, int, Seq<Seq<char>>) {
    let pk: int = if tok_at(toks, i) is Let && tok_at(toks, i + 1) is Mut {
        i + 1
    } else {
        i
    };
    let mutable = tok_at(toks, pk) is Mut;
    match tok_at(toks, pk + 1) {
        TokenV::Identifier(name) => if tok_at(toks, pk + 2) is Colon {
            match tok_at(toks, pk + 3) {
                TokenV::Identifier(tn) => spec_parse_let_tail(toks, pk + 3, mutable, name, Some(tn)),
                _ => (
                    None,
                    pk + 2,
                    seq![
                        msg_expected(
                            TokenV::Identifier("TYPE_NAME"@),
                            tok_at(toks, pk + 3),
                            tok_at(toks, pk + 2),
                        )
                    ],
                ),
            }
        } else {
            spec_parse_let_tail(toks, pk + 1, mutable, name, None)
        },
        _ => (
            None,
            pk,
            seq![
                msg_expected(
                    TokenV::Identifier("IDENTIFIER_NAME"@),
                    tok_at(toks, pk + 1),
                    tok_at(toks, pk),
                )
            ],
        ),
    }
}

/// A print statement: the keyword, mandatory parentheses, one argument.
#[verifier::opaque]
pub open spec fn spec_parse_print(toks: Seq<TokenV>, i: int) -> (Option<StmtV>, int, Seq<Seq<char>>) {
    let newline = tok_at(toks, i) is Println;
    if tok_at(toks, i + 1) is LParen {
        let (e, j, errs) = spec_parse_expression(toks, i + 2, 0);
        match e {
            None => (None, j, errs),
            Some(x) => if tok_at(toks, j + 1) is RParen {
                (Some(StmtV::Print { expr: x, newline: newline }), j + 1, errs)
            } else {
                (
                    None,
                    j,
                    errs.push(msg_expected(TokenV::RParen, tok_at(toks, j + 1), tok_at(toks, j))),
                )
            },
        }
    } else {
        (None, i, seq![msg_expected(TokenV::LParen, tok_at(toks, i + 1), tok_at(toks, i))])
    }
}

/// The statements of a block, up to the closing brace; reaching the end of
/// input instead is the unterminated-block error.
#[verifier::opaque]
pub open spec fn spec_parse_block_items(toks: Seq<TokenV>, i: int, acc: Seq<StmtV>) -> (
    Option<Seq<StmtV>>,
    int,
    Seq<Seq<char>>,
)
    decreases remaining(toks, i), 8int,
{
    match tok_at(toks, i) {
        TokenV::RBrace => (Some(acc), i, Seq::empty()),
        TokenV::Eof => (None, i, seq![msg_unterminated_block(tok_at(toks, i))]),
        _ => {
            let (st, j, errs) = spec_parse_statement(toks, i);
            let acc2 = match st {
                Some(s) => acc.push(s),
                None => acc,
            };
            let (res, k, errs2) = spec_parse_block_items(
                toks,
                clamp_pos(j + 1, i + 1, toks.len() as int),
                acc2,
            );
            (res, k, errs + errs2)
        },
    }
}

/// A block: `{`, statements, `}`; the cursor is left on the `}`.
#[verifier::opaque]
pub open spec fn spec_parse_block(toks: Seq<TokenV>, i: int) -> (
    Option<Seq<StmtV>>,
    int,
    Seq<Seq<char>>,
)
    decreases remaining(toks, i), 7int,
{
    if tok_at(toks, i) is LBrace {
        spec_parse_block_items(toks, i + 1, Seq::empty())
    } else {
        (None, i, Seq::empty())
    }
}

/// The `else if` arms and the final `else` of an `if`; the cursor starts on
/// the `}` of the block just parsed.
#[verifier::opaque]
pub open spec fn spec_parse_elifs(
    toks: Seq<TokenV>,
    i: int,
    acc: Seq<(ExprV, Seq<StmtV>)>,
) -> (Option<(Seq<(ExprV, Seq<StmtV>)>, Option<Seq<StmtV>>)>, int, Seq<Seq<char>>)
    decreases remaining(toks, i), 4int,
{
    if tok_at(toks, i + 1) is Else {
        if tok_at(toks, i + 2) is If {
            let (c, j, e1) = spec_parse_expression(toks, i + 3, 0);
            match c {
                None => (None, j, e1),
                Some(cv) => if tok_at(toks, j + 1) is LBrace {
                    let (b, k, e2) = spec_parse_block(toks, clamp_pos(j + 1, i + 2, toks.len() as int));
                    match b {
                        None => (None, k, e1 + e2),
                        Some(bs) => {
                            let (res, m, e3) = spec_parse_elifs(
                                toks,
                                clamp_pos(k, i + 2, toks.len() as int),
                                acc.push((cv, bs)),
                            );
                            (res, m, e1 + e2 + e3)
                        },
                    }
                } else {
                    (
                        None,
                        j,
                        e1.push(msg_expected(TokenV::LBrace, tok_at(toks, j + 1), tok_at(toks, j))),
                    )
                },
            }
        } else {
            if tok_at(toks, i + 2) is LBrace {
                let (b, k, e2) = spec_parse_block(toks, i + 2);
                match b {
                    None => (None, k, e2),
                    Some(bs) => (Some((acc, Some(bs))), k, e2),
                }
            } else {
                (
                    None,
                    i + 1,
                    seq![msg_expected(TokenV::LBrace, tok_at(toks, i + 2), tok_at(toks, i + 1))],
                )
            }
        }
    } else {
        (Some((acc, None)), i, Seq::empty())
    }
}

/// An `if` statement: condition, block, `else if` arms, optional `else`.
#[verifier::opaque]
pub open spec fn spec_parse_if(toks: Seq<TokenV>, i: int) -> (Option<StmtV>, int, Seq<Seq<char>>)
    decreases remaining(toks, i), 4int,
{
    if !(tok_at(toks, i) is If) {
        (None, i, Seq::empty())
    } else {
        let (cond, j, e1) = spec_parse_expression(toks, i + 1, 0);
        match cond {
            None => (None, j, e1),
            Some(c) => if tok_at(toks, j + 1) is LBrace {
                let (tb, k, e2) = spec_parse_block(toks, clamp_pos(j + 1, i + 1, toks.len() as int));
                match tb {
                    None => (None, k, e1 + e2),
                    Some(then_stmts) => {
                        let (tail, m, e3) = spec_parse_elifs(
                            toks,
                            clamp_pos(k, i + 1, toks.len() as int),
                            Seq::empty(),
                        );
                        match tail {
                            None => (None, m, e1 + e2 + e3),
                            Some(parts) => (
                                Some(
                                    StmtV::If {
                                        condition: c,
                                        then_block: then_stmts,
                                        else_if_blocks: parts.0,
                                        else_block: parts.1,
                                    },
                                ),
                                m,
                                e1 + e2 + e3,
                            ),
                        }
                    },
                }
            } else {
                (None, j, e1.push(msg_expected(TokenV::LBrace, tok_at(toks, j + 1), tok_at(toks, j))))
            },
        }
    }
}

/// A `while` statement: condition, then the body block.
#[verifier::opaque]
pub open spec fn spec_parse_while(toks: Seq<TokenV>, i: int) -> (Option<StmtV>, int, Seq<Seq<char>>)
    decreases remaining(toks, i), 4int,
{
    if !(tok_at(toks, i) is While) {
        (None, i, Seq::empty())
    } else {
        let (cond, j, e1) = spec_parse_expression(toks, i + 1, 0);
        match cond {
            None => (None, j, e1),
            Some(c) => if tok_at(toks, j + 1) is LBrace {
                let (b, k, e2) = spec_parse_block(toks, clamp_pos(j + 1, i + 1, toks.len() as int));
                match b {
                    None => (None, k, e1 + e2),
                    Some(bs) => (Some(StmtV::While { condition: c, body: bs }), k, e1 + e2),
                }
            } else {
                (None, j, e1.push(msg_expected(TokenV::LBrace, tok_at(toks, j + 1), tok_at(toks, j))))
            },
        }
    }
}

/// A `loop` statement: just the body block.
#[verifier::opaque]
pub open spec fn spec_parse_loop(toks: Seq<TokenV>, i: int) -> (Option<StmtV>, int, Seq<Seq<char>>)
    decreases remaining(toks, i), 4int,
{
    if !(tok_at(toks, i) is Loop) {
        (None, i, Seq::empty())
    } else if tok_at(toks, i + 1) is LBrace {
        let (b, k, e) = spec_parse_block(toks, i + 1);
        match b {
            None => (None, k, e),
            Some(bs) => (Some(StmtV::Loop { body: bs }), k, e),
        }
    } else {
        (None, i, seq![msg_expected(TokenV::LBrace, tok_at(toks, i + 1), tok_at(toks, i))])
    }
}

/// A `for` statement: optional parentheses around the header, optional
/// initializer statement, mandatory `;`, optional condition, mandatory `;`,
/// optional increment statement, then the body block.
#[verifier::opaque]
pub open spec fn spec_parse_for(toks: Seq<TokenV>, i: int) -> (Option<StmtV>, int, Seq<Seq<char>>)
    decreases remaining(toks, i), 4int,
{
    if !(tok_at(toks, i) is For) {
        (None, i, Seq::empty())
    } else {
        let p0: int = if tok_at(toks, i + 1) is LParen {
            i + 2
        } else {
            i + 1
        };
        let initr = if tok_at(toks, p0) is Semicolon {
            (None, p0, Seq::<Seq<char>>::empty())
        } else {
            spec_parse_statement(toks, clamp_pos(p0, i + 1, toks.len() as int))
        };
        let init = initr.0;
        let p1 = initr.1;
        let e1 = initr.2;
        if tok_at(toks, p1) is Semicolon || tok_at(toks, p1 + 1) is Semicolon {
            let p2: int = (if tok_at(toks, p1) is Semicolon {
                p1
            } else {
                p1 + 1
            }) + 1;
            let condr = if tok_at(toks, p2) is Semicolon {
                (None, p2, Seq::<Seq<char>>::empty())
            } else {
                spec_parse_expression(toks, p2, 0)
            };
            let cnd = condr.0;
            let p3 = condr.1;
            let e2 = condr.2;
            if tok_at(toks, p3) is Semicolon || tok_at(toks, p3 + 1) is Semicolon {
                let p4: int = (if tok_at(toks, p3) is Semicolon {
                    p3
                } else {
                    p3 + 1
                }) + 1;
                let incr = if tok_at(toks, p4) is RParen || tok_at(toks, p4) is LBrace {
                    (None, p4, Seq::<Seq<char>>::empty())
                } else {
                    spec_parse_statement(toks, clamp_pos(p4, i + 1, toks.len() as int))
                };
                let inc = incr.0;
                let p5 = incr.1;
                let e3 = incr.2;
                let p6: int = if !(tok_at(toks, p5) is RParen) && tok_at(toks, p5 + 1) is RParen {
                    p5 + 1
                } else {
                    p5
                };
                let pb: int = if tok_at(toks, p6) is LBrace {
                    p6
                } else {
                    p6 + 1
                };
                if tok_at(toks, pb) is LBrace {
                    let (b, p7, e4) = spec_parse_block(toks, clamp_pos(pb, i + 1, toks.len() as int));
                    match b {
                        None => (None, p7, e1 + e2 + e3 + e4),
                        Some(bs) => (
                            Some(
                                StmtV::For {
                                    initializer: match init {
                                        Some(s0) => Some(Box::new(s0)),
                                        None => None,
                                    },
                                    condition: cnd,
                                    increment: match inc {
                                        Some(s0) => Some(Box::new(s0)),
                                        None => None,
                                    },
                                    body: bs,
                                },
                            ),
                            p7,
                            e1 + e2 + e3 + e4,
                        ),
                    }
                } else {
                    (
                        None,
                        p6,
                        (e1 + e2 + e3).push(
                            msg_expected(TokenV::LBrace, tok_at(toks, p6 + 1), tok_at(toks, p6)),
                        ),
                    )
                }
            } else {
                (
                    None,
                    p3,
                    (e1 + e2).push(msg_for_semicolon("condition"@, tok_at(toks, p3), tok_at(toks, p3 + 1))),
                )
            }
        } else {
            (
                None,
                p1,
                e1.push(msg_for_semicolon("initializer"@, tok_at(toks, p1), tok_at(toks, p1 + 1))),
            )
        }
    }
}

/// One statement, dispatched on the current token; a bare `;` or a stray `}`
/// stands for nothing and yields no tree and no diagnostic.

/// The tail of a `for` statement from the increment onward: `p4` is the
/// position after the second `;`, `init` and `cnd` what the header yielded,
/// and `epre` the diagnostics the header collected.
pub open spec fn spec_for_tail(
    toks: Seq<TokenV>,
    i0: int,
    p4: int,
    init: Option<StmtV>,
    cnd: Option<ExprV>,
    epre: Seq<Seq<char>>,
) -> (Option<StmtV>, int, Seq<Seq<char>>) {
    let incr = if tok_at(toks, p4) is RParen || tok_at(toks, p4) is LBrace {
        (None, p4, Seq::<Seq<char>>::empty())
    } else {
        spec_parse_statement(toks, clamp_pos(p4, i0 + 1, toks.len() as int))
    };
    let inc = incr.0;
    let p5 = incr.1;
    let e3 = incr.2;
    let p6: int = if !(tok_at(toks, p5) is RParen) && tok_at(toks, p5 + 1) is RParen {
        p5 + 1
    } else {
        p5
    };
    let pb: int = if tok_at(toks, p6) is LBrace {
        p6
    } else {
        p6 + 1
    };
    if tok_at(toks, pb) is LBrace {
        let (b, p7, e4) = spec_parse_block(toks, clamp_pos(pb, i0 + 1, toks.len() as int));
        match b {
            None => (None, p7, epre + e3 + e4),
            Some(bs) => (
                Some(
                    StmtV::For {
                        initializer: match init {
                            Some(s0) => Some(Box::new(s0)),
                            None => None,
                        },
                        condition: cnd,
                        increment: match inc {
                            Some(s0) => Some(Box::new(s0)),
                            None => None,
                        },
                        body: bs,
                    },
                ),
                p7,
                epre + e3 + e4,
            ),
        }
    } else {
        (
            None,
            p6,
            (epre + e3).push(msg_expected(TokenV::LBrace, tok_at(toks, p6 + 1), tok_at(toks, p6))),
        )
    }
}

#[verifier::opaque]
pub open spec fn spec_parse_statement(toks: Seq<TokenV>, i: int) -> (
    Option<StmtV>,
    int,
    Seq<Seq<char>>,
)
    decreases remaining(toks, i), 5int,
{
    match tok_at(toks, i) {
        TokenV::Let => spec_with_suffix(toks, spec_parse_let(toks, i)),
        TokenV::Mut => spec_with_suffix(toks, spec_parse_let(toks, i)),
        TokenV::If => spec_parse_if(toks, i),
        TokenV::Loop => spec_parse_loop(toks, i),
        TokenV::While => spec_parse_while(toks, i),
        TokenV::For => spec_parse_for(toks, i),
        TokenV::Print => spec_with_suffix(toks, spec_parse_print(toks, i)),
        TokenV::Println => spec_with_suffix(toks, spec_parse_print(toks, i)),
        TokenV::Break => spec_with_suffix(toks, (Some(StmtV::Break), i, Seq::empty())),
        TokenV::Continue => spec_with_suffix(toks, (Some(StmtV::Continue), i, Seq::empty())),
        TokenV::Identifier(name) => if tok_at(toks, i + 1) is Assign {
            let (v, j, errs) = spec_parse_expression(toks, i + 2, 0);
            match v {
                None => (None, j, errs),
                Some(x) => spec_with_suffix(
                    toks,
                    (Some(StmtV::Assignment { name: name, value: x }), j, errs),
                ),
            }
        } else {
            spec_with_suffix(toks, spec_parse_expr_statement(toks, i))
        },
        TokenV::Semicolon => (None, i, Seq::empty()),
        TokenV::RBrace => (None, i, Seq::empty()),
        TokenV::Assign => (None, i, Seq::empty()),
        _ => spec_with_suffix(toks, spec_parse_expr_statement(toks, i)),
    }
}

/// Every statement of the program, up to `Eof`.
#[verifier::opaque]
pub open spec fn spec_parse_program_items(toks: Seq<TokenV>, i: int, acc: Seq<StmtV>) -> (
    Seq<StmtV>,
    int,
    Seq<Seq<char>>,
)
    decreases remaining(toks, i),
{
    if tok_at(toks, i) is Eof {
        (acc, i, Seq::empty())
    } else {
        let (st, j, errs) = spec_parse_statement(toks, i);
        let acc2 = match st {
            Some(s) => acc.push(s),
            None => acc,
        };
        let (res, k, errs2) = spec_parse_program_items(
            toks,
            clamp_pos(j + 1, i + 1, toks.len() as int),
            acc2,
        );
        (res, k, errs + errs2)
    }
}

/// What parsing a whole token stream yields: the program when no diagnostic
/// was collected, otherwise every diagnostic, in order.
pub open spec fn spec_parse_program(toks: Seq<TokenV>) -> Result<Seq<StmtV>, Seq<Seq<char>>> {
    let (stmts, _, errs) = spec_parse_program_items(toks, 0, Seq::empty());
    if errs.len() == 0 {
        Ok(stmts)
    } else {
        Err(errs)
    }
}

// ---------------------------------------------------------------------------
// Executable helpers.
// ---------------------------------------------------------------------------

/// The view of an error list.
pub open spec fn errs_view(v: Seq<String>) -> Seq<Seq<char>> {
    Seq::new(v.len(), |i: int| v[i]@)
}

/// A copy of a token whose view is the original's.
fn copy_token(t: &Token) -> (r: Token)
    ensures
        r@ == t@,
{
    match t {
        Token::Illegal(c) => Token::Illegal(*c),
        Token::Eof => Token::Eof,
        Token::Identifier(s) => Token::Identifier(s.clone()),
        Token::Integer(v) => Token::Integer(*v),
        Token::Float(s) => Token::Float(s.clone()),
        Token::String(s) => Token::String(s.clone()),
        Token::Let => Token::Let,
        Token::Mut => Token::Mut,
        Token::If => Token::If,
        Token::Else => Token::Else,
        Token::Loop => Token::Loop,
        Token::While => Token::While,
        Token::For => Token::For,
        Token::Fn => Token::Fn,
        Token::Return => Token::Return,
        Token::True => Token::True,
        Token::False => Token::False,
        Token::Print => Token::Print,
        Token::Println => Token::Println,
        Token::Break => Token::Break,
        Token::Continue => Token::Continue,
        Token::Assign => Token::Assign,
        Token::Plus => Token::Plus,
        Token::Minus => Token::Minus,
        Token::Multiply => Token::Multiply,
        Token::Divide => Token::Divide,
        Token::Modulo => Token::Modulo,
        Token::Bang => Token::Bang,
        Token::Eq => Token::Eq,
        Token::NotEq => Token::NotEq,
        Token::Lt => Token::Lt,
        Token::Lte => Token::Lte,
        Token::Gt => Token::Gt,
        Token::Gte => Token::Gte,
        Token::And => Token::And,
        Token::Or => Token::Or,
        Token::Comma => Token::Comma,
        Token::Semicolon => Token::Semicolon,
        Token::Colon => Token::Colon,
        Token::LParen => Token::LParen,
        Token::RParen => Token::RParen,
        Token::LBrace => Token::LBrace,
        Token::RBrace => Token::RBrace,
    }
}

/// Renders a token the way diagnostics name it.
fn token_debug(t: &Token) -> (r: String)
    ensures
        r@ == token_dbg(t@),
{
    match t {
        Token::Illegal(c) => {
            let mut s = String::from_str("Illegal('");
            push_char(&mut s, *c);
            s.append("')");
            proof {
                assert(s@ =~= token_dbg(t@));
            }
            s
        },
        Token::Eof => String::from_str("Eof"),
        Token::Identifier(name) => {
            let mut s = String::from_str("Identifier(\"");
            s.append(name.as_str());
            s.append("\")");
            s
        },
        Token::Integer(v) => {
            let mut s = String::from_str("Integer(");
            append_i64(&mut s, *v);
            s.append(")");
            s
        },
        Token::Float(lex) => {
            let mut s = String::from_str("Float(\"");
            s.append(lex.as_str());
            s.append("\")");
            s
        },
        Token::String(text) => {
            let mut s = String::from_str("String(\"");
            s.append(text.as_str());
            s.append("\")");
            s
        },
        Token::Let => String::from_str("Let"),
        Token::Mut => String::from_str("Mut"),
        Token::If => String::from_str("If"),
        Token::Else => String::from_str("Else"),
        Token::Loop => String::from_str("Loop"),
        Token::While => String::from_str("While"),
        Token::For => String::from_str("For"),
        Token::Fn => String::from_str("Fn"),
        Token::Return => String::from_str("Return"),
        Token::True => String::from_str("True"),
        Token::False => String::from_str("False"),
        Token::Print => String::from_str("Print"),
        Token::Println => String::from_str("Println"),
        Token::Break => String::from_str("Break"),
        Token::Continue => String::from_str("Continue"),
        Token::Assign => String::from_str("Assign"),
        Token::Plus => String::from_str("Plus"),
        Token::Minus => String::from_str("Minus"),
        Token::Multiply => String::from_str("Multiply"),
        Token::Divide => String::from_str("Divide"),
        Token::Modulo => String::from_str("Modulo"),
        Token::Bang => String::from_str("Bang"),
        Token::Eq => String::from_str("Eq"),
        Token::NotEq => String::from_str("NotEq"),
        Token::Lt => String::from_str("Lt"),
        Token::Lte => String::from_str("Lte"),
        Token::Gt => String::from_str("Gt"),
        Token::Gte => String::from_str("Gte"),
        Token::And => String::from_str("And"),
        Token::Or => String::from_str("Or"),
        Token::Comma => String::from_str("Comma"),
        Token::Semicolon => String::from_str("Semicolon"),
        Token::Colon => String::from_str("Colon"),
        Token::LParen => String::from_str("LParen"),
        Token::RParen => String::from_str("RParen"),
        Token::LBrace => String::from_str("LBrace"),
        Token::RBrace => String::from_str("RBrace"),
    }
}

fn render_expected(want: &Token, got: &Token, cur: &Token) -> (r: String)
    ensures
        r@ == msg_expected(want@, got@, cur@),
{
    let mut s = String::from_str("expected next token to be ");
    let w = token_debug(want);
    s.append(w.as_str());
    s.append(", got ");
    let g = token_debug(got);
    s.append(g.as_str());
    s.append(" instead. (current: ");
    let c = token_debug(cur);
    s.append(c.as_str());
    s.append(")");
    proof {
        assert(s@ =~= msg_expected(want@, got@, cur@));
    }
    s
}

fn render_no_prefix(cur: &Token, peek: &Token) -> (r: String)
    ensures
        r@ == msg_no_prefix(cur@, peek@),
{
    let mut s = String::from_str("No prefix parse function for ");
    let c = token_debug(cur);
    s.append(c.as_str());
    s.append(" found. Peek: ");
    let p = token_debug(peek);
    s.append(p.as_str());
    proof {
        assert(s@ =~= msg_no_prefix(cur@, peek@));
    }
    s
}

fn render_bad_float(lex: &String) -> (r: String)
    ensures
        r@ == msg_bad_float(lex@),
{
    let mut s = String::from_str("Could not parse float string '");
    s.append(lex.as_str());
    s.append("'");
    proof {
        assert(s@ =~= msg_bad_float(lex@));
    }
    s
}

fn render_unterminated_block(cur: &Token) -> (r: String)
    ensures
        r@ == msg_unterminated_block(cur@),
{
    let mut s = String::from_str("Unterminated block: expected '}', got ");
    let c = token_debug(cur);
    s.append(c.as_str());
    proof {
        assert(s@ =~= msg_unterminated_block(cur@));
    }
    s
}

fn render_for_semicolon(part: &str, cur: &Token, peek: &Token) -> (r: String)
    ensures
        r@ == msg_for_semicolon(part@, cur@, peek@),
{
    let mut s = String::from_str("Expected ';' after for loop ");
    s.append(part);
    s.append(", got ");
    let c = token_debug(cur);
    s.append(c.as_str());
    s.append(" (peek: ");
    let p = token_debug(peek);
    s.append(p.as_str());
    s.append(")");
    proof {
        assert(s@ =~= msg_for_semicolon(part@, cur@, peek@));
    }
    s
}

/// Binding power of an infix token.
fn token_precedence(t: &Token) -> (r: u8)
    ensures
        r as int == spec_token_precedence(t@),
{
    match t {
        Token::Or => 1,
        Token::And => 2,
        Token::Eq => 3,
        Token::NotEq => 3,
        Token::Lt => 4,
        Token::Lte => 4,
        Token::Gt => 4,
        Token::Gte => 4,
        Token::Plus => 5,
        Token::Minus => 5,
        Token::Multiply => 6,
        Token::Divide => 6,
        Token::Modulo => 6,
        Token::LParen => 8,
        _ => 0,
    }
}

fn is_infix_operator(t: &Token) -> (r: bool)
    ensures
        r == is_infix_op(t@),
{
    match t {
        Token::Plus | Token::Minus | Token::Multiply | Token::Divide | Token::Modulo | Token::Eq
            | Token::NotEq | Token::Lt | Token::Lte | Token::Gt | Token::Gte | Token::And
            | Token::Or => true,
        _ => false,
    }
}

/// Whether a float lexeme has the shape digits `.` digits.
fn is_well_formed_float(lex: &String) -> (r: bool)
    ensures
        r == is_float_lexeme(lex@),
{
    let n = lex.as_str().unicode_len();
    let mut d: usize = 0;
    while d < n && lex.as_str().get_char(d) != '.'
        invariant
            n == lex@.len(),
            0 <= d <= n,
            dot_pos(lex@, 0) == dot_pos(lex@, d as int),
        decreases n - d,
    {
        d = d + 1;
    }
    proof {
        assert(dot_pos(lex@, 0) == d as int);
    }
    if d < 1 || n < 2 || d > n - 2 {
        return false;
    }
    let mut j: usize = 0;
    while j < d
        invariant
            n == lex@.len(),
            0 <= j <= d < n,
            dot_pos(lex@, 0) == d as int,
            1 <= d && d + 2 <= n,
            digits_only(lex@, 0, j as int),
        decreases d - j,
    {
        let c = lex.as_str().get_char(j);
        let u = c as u32;
        if u < 48 || u > 57 {
            proof {
                assert(!is_digit_char(lex@[j as int]));
            }
            return false;
        }
        j = j + 1;
    }
    let mut k: usize = d + 1;
    while k < n
        invariant
            n == lex@.len(),
            d + 1 <= k <= n,
            dot_pos(lex@, 0) == d as int,
            1 <= d && d + 2 <= n,
            digits_only(lex@, 0, d as int),
            digits_only(lex@, d + 1, k as int),
        decreases n - k,
    {
        let c = lex.as_str().get_char(k);
        let u = c as u32;
        if u < 48 || u > 57 {
            proof {
                assert(!is_digit_char(lex@[k as int]));
            }
            return false;
        }
        k = k + 1;
    }
    true
}

/// The view of an optional expression.
pub open spec fn opt_expr_view(e: Option<Expr>) -> Option<ExprV> {
    match e {
        Some(x) => Some(expr_view(x)),
        None => None,
    }
}

/// "Expected float literal" diagnostic, for a float position holding
/// something else.
pub open spec fn msg_expected_float(t: TokenV) -> Seq<char> {
    "Expected float literal, got "@ + token_dbg(t)
}

const PREC_LOWEST: u8 = 0;

const PREC_PREFIX: u8 = 7;

// ---------------------------------------------------------------------------
// The executable parser.
// ---------------------------------------------------------------------------

/// The parser: the token stream, a cursor into it, the current and lookahead
/// tokens, and the diagnostics collected so far.
pub struct Parser {
    tokens: Vec<Token>,
    pos: usize,
    pub current_token: Token,
    pub peek_token: Token,
    errors: Vec<String>,
}

impl Parser {
    /// The views of the whole token stream.
    pub closed spec fn toks(&self) -> Seq<TokenV> {
        tokens_view(self.tokens@)
    }

    /// The cursor: the index of the current token.
    pub closed spec fn cur(&self) -> int {
        self.pos as int
    }

    /// The views of the diagnostics collected so far.
    pub closed spec fn errs(&self) -> Seq<Seq<char>> {
        errs_view(self.errors@)
    }

    /// The view of the current token.
    pub closed spec fn cur_tok(&self) -> TokenV {
        self.current_token@
    }

    /// The view of the lookahead token.
    pub closed spec fn peek_tok(&self) -> TokenV {
        self.peek_token@
    }

    /// The parser's invariant: a well-shaped stream, the cursor inside it,
    /// and the two lookahead fields holding the tokens at and after it.
    pub closed spec fn wf(&self) -> bool {
        &&& wf_tokens(self.toks())
        &&& self.pos <= self.tokens.len()
        &&& self.current_token@ == tok_at(self.toks(), self.cur())
        &&& self.peek_token@ == tok_at(self.toks(), self.cur() + 1)
    }

    fn token_at(tokens: &Vec<Token>, i: usize) -> (r: Token)
        ensures
            r@ == tok_at(tokens_view(tokens@), i as int),
    {
        if i < tokens.len() {
            copy_token(&tokens[i])
        } else {
            Token::Eof
        }
    }

    /// Builds a parser by draining the lexer: every remaining token through
    /// the first `Eof` becomes part of the stream.
    pub fn new(lexer: Lexer) -> (p: Parser)
        requires
            lexer.wf(),
        ensures
            p.wf(),
            p.cur() == 0,
            p.errs() == Seq::<Seq<char>>::empty(),
            p.toks() == token_seq(lexer.bytes(), lexer.pos()),
    {
        let ghost s = lexer.bytes();
        let ghost p0 = lexer.pos();
        let mut lx = lexer;
        let mut tokens: Vec<Token> = Vec::new();
        proof {
            crate::lexer::lemma_wf_bounds(&lx);
            assert(tokens_view(tokens@) =~= Seq::<TokenV>::empty());
            assert(Seq::<TokenV>::empty() + token_seq(s, p0) =~= token_seq(s, p0));
        }
        loop
            invariant_except_break
                token_seq(s, p0) == tokens_view(tokens@) + token_seq(s, lx.pos()),
            invariant
                lx.wf(),
                lx.bytes() == s,
                0 <= lx.pos() <= s.len(),
            ensures
                token_seq(s, p0) == tokens_view(tokens@),
            decreases s.len() - lx.pos(),
        {
            let ghost pc = lx.pos();
            proof {
                lemma_lex_progress(s, pc);
            }
            let t = lx.next_token();
            let is_eof = matches!(t, Token::Eof);
            let ghost prev = tokens_view(tokens@);
            tokens.push(t);
            proof {
                assert(tokens_view(tokens@) =~= prev.push(crate::lexer::lex_token_at(s, pc).0));
                assert(token_seq(s, pc) == seq![crate::lexer::lex_token_at(s, pc).0]
                    + if crate::lexer::lex_token_at(s, pc).0 is Eof {
                    Seq::<TokenV>::empty()
                } else {
                    token_seq(s, crate::lexer::lex_token_at(s, pc).1)
                });
                assert(token_seq(s, p0) =~= tokens_view(tokens@) + if crate::lexer::lex_token_at(
                    s,
                    pc,
                ).0 is Eof {
                    Seq::<TokenV>::empty()
                } else {
                    token_seq(s, crate::lexer::lex_token_at(s, pc).1)
                });
            }
            if is_eof {
                proof {
                    assert(token_seq(s, p0) =~= tokens_view(tokens@));
                }
                break ;
            }
        }
        proof {
            lemma_tokenization_total(s, p0);
        }
        let current_token = Self::token_at(&tokens, 0);
        let peek_token = Self::token_at(&tokens, 1);
        let p = Parser { tokens, pos: 0, current_token, peek_token, errors: Vec::new() };
        proof {
            assert(p.errs() =~= Seq::<Seq<char>>::empty());
        }
        p
    }

    /// The diagnostics collected so far.
    pub fn errors(&self) -> (r: &Vec<String>)
        ensures
            errs_view(r@) == self.errs(),
    {
        &self.errors
    }

    /// Appends one diagnostic; nothing else changes.
    fn push_error(&mut self, m: String)
        ensures
            final(self).errs() == old(self).errs().push(m@),
            final(self).toks() == old(self).toks(),
            final(self).cur() == old(self).cur(),
            final(self).cur_tok() == old(self).cur_tok(),
            final(self).peek_tok() == old(self).peek_tok(),
            old(self).wf() ==> final(self).wf(),
    {
        let ghost prev = errs_view(self.errors@);
        self.errors.push(m);
        proof {
            assert(errs_view(self.errors@) =~= prev.push(m@));
        }
    }

    /// Advances one token: the lookahead becomes current.  At the end of the
    /// stream the cursor stands still and both tokens read `Eof`.
    fn next_token(&mut self)
        requires
            old(self).wf(),
        ensures
            final(self).wf(),
            final(self).toks() == old(self).toks(),
            final(self).errs() == old(self).errs(),
            final(self).cur() == if old(self).cur() < old(self).toks().len() {
                old(self).cur() + 1
            } else {
                old(self).cur()
            },
    {
        if self.pos < self.tokens.len() {
            self.pos = self.pos + 1;
        }
        let cur = copy_token(&self.peek_token);
        self.current_token = cur;
        self.peek_token = if self.pos < self.tokens.len() {
            Self::token_at(&self.tokens, self.pos + 1)
        } else {
            Token::Eof
        };
    }

    /// The float literal under the cursor, or the malformed-float
    /// diagnostic.  Reads only the current token, so it is meaningful in any
    /// parser state.
    pub fn parse_float_literal(&mut self) -> (r: Option<Expr>)
        ensures
            final(self).toks() == old(self).toks(),
            final(self).cur() == old(self).cur(),
            final(self).cur_tok() == old(self).cur_tok(),
            final(self).peek_tok() == old(self).peek_tok(),
            old(self).wf() ==> final(self).wf(),
            ({
                match old(self).cur_tok() {
                    TokenV::Float(lex) => if is_float_lexeme(lex) {
                        &&& final(self).errs() == old(self).errs()
                        &&& (match r {
                            Some(x) => expr_view(x) == ExprV::Float(lex),
                            None => false,
                        })
                    } else {
                        &&& final(self).errs() == old(self).errs().push(msg_bad_float(lex))
                        &&& r is None
                    },
                    _ => {
                        &&& final(self).errs() == old(self).errs().push(
                            msg_expected_float(old(self).cur_tok()),
                        )
                        &&& r is None
                    },
                }
            }),
    {
        let cur = copy_token(&self.current_token);
        match cur {
            Token::Float(lex) => {
                if is_well_formed_float(&lex) {
                    Some(Expr::Float(lex))
                } else {
                    let m = render_bad_float(&lex);
                    self.push_error(m);
                    None
                }
            },
            other => {
                let mut s = String::from_str("Expected float literal, got ");
                let d = token_debug(&other);
                s.append(d.as_str());
                proof {
                    assert(s@ =~= msg_expected_float(old(self).cur_tok()));
                }
                self.push_error(s);
                None
            },
        }
    }

    /// The prefix part of an expression.
    #[verifier::rlimit(100)]
    fn parse_prefix(&mut self) -> (r: Option<Expr>)
        requires
            old(self).wf(),
        ensures
            final(self).wf(),
            final(self).toks() == old(self).toks(),
            old(self).cur() <= final(self).cur(),
            ({
                let (sv, j, e) = spec_parse_prefix(old(self).toks(), old(self).cur());
                &&& final(self).cur() == j
                &&& final(self).errs() == old(self).errs() + e
                &&& (match r {
                    Some(x) => sv == Some(expr_view(x)),
                    None => sv is None,
                })
            }),
        decreases remaining(self.toks(), self.cur()), 1int,
    {
        let ghost toks = old(self).toks();
        let ghost i0 = old(self).cur();
        let cur = copy_token(&self.current_token);
        match cur {
            Token::Identifier(name) => {
                proof {
                    reveal(spec_parse_prefix);
                    reveal(spec_parse_call_args);
                    reveal(spec_parse_call);
                    reveal(spec_infix_loop);
                    reveal(spec_parse_expression);
                    assert(spec_parse_prefix(toks, i0) == (
                        Some(ExprV::Identifier(name@)),
                        i0,
                        Seq::<Seq<char>>::empty(),
                    ));
                    assert(final(self).errs() =~= old(self).errs() + Seq::<Seq<char>>::empty());
                }
                Some(Expr::Identifier(name))
            },
            Token::Integer(v) => {
                proof {
                    reveal(spec_parse_prefix);
                    reveal(spec_parse_call_args);
                    reveal(spec_parse_call);
                    reveal(spec_infix_loop);
                    reveal(spec_parse_expression);
                    assert(spec_parse_prefix(toks, i0) == (
                        Some(ExprV::Integer(v)),
                        i0,
                        Seq::<Seq<char>>::empty(),
                    ));
                    assert(final(self).errs() =~= old(self).errs() + Seq::<Seq<char>>::empty());
                }
                Some(Expr::Integer(v))
            },
            Token::Float(_) => {
                let r = self.parse_float_literal();
                proof {
                    reveal(spec_parse_prefix);
                    reveal(spec_parse_call_args);
                    reveal(spec_parse_call);
                    reveal(spec_infix_loop);
                    reveal(spec_parse_expression);
                    match tok_at(toks, i0) {
                        TokenV::Float(lex) => {
                            if is_float_lexeme(lex) {
                                assert(spec_parse_prefix(toks, i0) == (
                                    Some(ExprV::Float(lex)),
                                    i0,
                                    Seq::<Seq<char>>::empty(),
                                ));
                                assert(self.errs() =~= old(self).errs()
                                    + Seq::<Seq<char>>::empty());
                            } else {
                                assert(spec_parse_prefix(toks, i0) == (
                                    None::<ExprV>,
                                    i0,
                                    seq![msg_bad_float(lex)],
                                ));
                                assert(self.errs() =~= old(self).errs() + seq![
                                    msg_bad_float(lex),
                                ]);
                            }
                        },
                        _ => {
                            assert(false);
                        },
                    }
                }
                r
            },
            Token::String(s) => {
                proof {
                    reveal(spec_parse_prefix);
                    reveal(spec_parse_call_args);
                    reveal(spec_parse_call);
                    reveal(spec_infix_loop);
                    reveal(spec_parse_expression);
                    assert(spec_parse_prefix(toks, i0) == (
                        Some(ExprV::StringLiteral(s@)),
                        i0,
                        Seq::<Seq<char>>::empty(),
                    ));
                    assert(final(self).errs() =~= old(self).errs() + Seq::<Seq<char>>::empty());
                }
                Some(Expr::StringLiteral(s))
            },
            Token::True => {
                proof {
                    reveal(spec_parse_prefix);
                    reveal(spec_parse_call_args);
                    reveal(spec_parse_call);
                    reveal(spec_infix_loop);
                    reveal(spec_parse_expression);
                    assert(spec_parse_prefix(toks, i0) == (
                        Some(ExprV::Boolean(true)),
                        i0,
                        Seq::<Seq<char>>::empty(),
                    ));
                    assert(final(self).errs() =~= old(self).errs() + Seq::<Seq<char>>::empty());
                }
                Some(Expr::Boolean(true))
            },
            Token::False => {
                proof {
                    reveal(spec_parse_prefix);
                    reveal(spec_parse_call_args);
                    reveal(spec_parse_call);
                    reveal(spec_infix_loop);
                    reveal(spec_parse_expression);
                    assert(spec_parse_prefix(toks, i0) == (
                        Some(ExprV::Boolean(false)),
                        i0,
                        Seq::<Seq<char>>::empty(),
                    ));
                    assert(final(self).errs() =~= old(self).errs() + Seq::<Seq<char>>::empty());
                }
                Some(Expr::Boolean(false))
            },
            Token::Bang => {
                self.next_token();
                let e = self.parse_expression(PREC_PREFIX);
                proof {
                    reveal(spec_parse_prefix);
                    reveal(spec_parse_call_args);
                    reveal(spec_parse_call);
                    reveal(spec_infix_loop);
                    reveal(spec_parse_expression);
                    assert(tok_at(toks, i0) == TokenV::Bang);
                    assert(clamp_pos(i0 + 1, i0 + 1, toks.len() as int) == i0 + 1);
                    assert(spec_parse_prefix(toks, i0).1 == spec_parse_expression(
                        toks,
                        clamp_pos(i0 + 1, i0 + 1, toks.len() as int),
                        prec_prefix(),
                    ).1);
                    assert(spec_parse_prefix(toks, i0) == ({
                        let (e0, j, errs) = spec_parse_expression(toks, i0 + 1, prec_prefix());
                        match e0 {
                            Some(x) => (
                                Some(ExprV::UnaryOp { op: UnaryOperator::Not, expr: Box::new(x) }),
                                j,
                                errs,
                            ),
                            None => (None::<ExprV>, j, errs),
                        }
                    }));
                }
                match e {
                    Some(x) => Some(Expr::UnaryOp { op: UnaryOperator::Not, expr: Box::new(x) }),
                    None => None,
                }
            },
            Token::Minus => {
                self.next_token();
                let e = self.parse_expression(PREC_PREFIX);
                proof {
                    reveal(spec_parse_prefix);
                    reveal(spec_parse_call_args);
                    reveal(spec_parse_call);
                    reveal(spec_infix_loop);
                    reveal(spec_parse_expression);
                    assert(clamp_pos(i0 + 1, i0 + 1, toks.len() as int) == i0 + 1);
                    assert(spec_parse_prefix(toks, i0) == ({
                        let (e0, j, errs) = spec_parse_expression(toks, i0 + 1, prec_prefix());
                        match e0 {
                            Some(x) => (
                                Some(
                                    ExprV::UnaryOp {
                                        op: UnaryOperator::Negate,
                                        expr: Box::new(x),
                                    },
                                ),
                                j,
                                errs,
                            ),
                            None => (None::<ExprV>, j, errs),
                        }
                    }));
                }
                match e {
                    Some(x) => Some(
                        Expr::UnaryOp { op: UnaryOperator::Negate, expr: Box::new(x) },
                    ),
                    None => None,
                }
            },
            Token::LParen => {
                self.next_token();
                let e = self.parse_expression(PREC_LOWEST);
                proof {
                    reveal(spec_parse_prefix);
                    reveal(spec_parse_call_args);
                    reveal(spec_parse_call);
                    reveal(spec_infix_loop);
                    reveal(spec_parse_expression);
                    assert(clamp_pos(i0 + 1, i0 + 1, toks.len() as int) == i0 + 1);
                    assert(spec_parse_prefix(toks, i0) == ({
                        let (e0, j, errs) = spec_parse_expression(toks, i0 + 1, 0);
                        if tok_at(toks, j + 1) is RParen {
                            (e0, j + 1, errs)
                        } else {
                            (
                                None::<ExprV>,
                                j,
                                errs.push(
                                    msg_expected(
                                        TokenV::RParen,
                                        tok_at(toks, j + 1),
                                        tok_at(toks, j),
                                    ),
                                ),
                            )
                        }
                    }));
                }
                if matches!(self.peek_token, Token::RParen) {
                    self.next_token();
                    e
                } else {
                    let got = copy_token(&self.peek_token);
                    let curt = copy_token(&self.current_token);
                    let m = render_expected(&Token::RParen, &got, &curt);
                    self.push_error(m);
                    proof {
                        let (ev, j, errs) = spec_parse_expression(toks, i0 + 1, 0);
                        assert(self.errs() =~= old(self).errs() + errs.push(
                            msg_expected(TokenV::RParen, tok_at(toks, j + 1), tok_at(toks, j)),
                        ));
                    }
                    None
                }
            },
            other => {
                let curt = copy_token(&self.current_token);
                let pk = copy_token(&self.peek_token);
                let m = render_no_prefix(&curt, &pk);
                self.push_error(m);
                proof {
                    reveal(spec_parse_prefix);
                    reveal(spec_parse_call_args);
                    reveal(spec_parse_call);
                    reveal(spec_infix_loop);
                    reveal(spec_parse_expression);
                    assert(spec_parse_prefix(toks, i0) == (
                        None::<ExprV>,
                        i0,
                        seq![msg_no_prefix(tok_at(toks, i0), tok_at(toks, i0 + 1))],
                    ));
                    assert(self.errs() =~= old(self).errs() + seq![
                        msg_no_prefix(tok_at(toks, i0), tok_at(toks, i0 + 1)),
                    ]);
                }
                None
            },
        }
    }

    /// One infix step: the cursor is on a binary operator, `left` is the
    /// expression before it; parses the right operand.
    fn parse_infix_expression(&mut self, left: Expr) -> (r: Option<Expr>)
        requires
            old(self).wf(),
            is_infix_op(tok_at(old(self).toks(), old(self).cur())),
        ensures
            final(self).wf(),
            final(self).toks() == old(self).toks(),
            old(self).cur() < final(self).cur(),
            ({
                let op = tok_at(old(self).toks(), old(self).cur());
                let (rhs, j, e) = spec_parse_expression(
                    old(self).toks(),
                    old(self).cur() + 1,
                    spec_token_precedence(op),
                );
                &&& final(self).cur() == j
                &&& final(self).errs() == old(self).errs() + e
                &&& (match r {
                    Some(x) => rhs matches Some(rv) && expr_view(x) == ExprV::BinaryOp {
                        left: Box::new(expr_view(left)),
                        op: binary_op_of(op),
                        right: Box::new(rv),
                    },
                    None => rhs is None,
                })
            }),
        decreases remaining(self.toks(), self.cur()), 5int,
    {
        let op_tok = copy_token(&self.current_token);
        let prec = token_precedence(&self.current_token);
        self.next_token();
        let rhs = self.parse_expression(prec);
        match rhs {
            None => None,
            Some(rexp) => {
                let op_enum = match op_tok {
                    Token::Plus => BinaryOperator::Plus,
                    Token::Minus => BinaryOperator::Minus,
                    Token::Multiply => BinaryOperator::Multiply,
                    Token::Divide => BinaryOperator::Divide,
                    Token::Modulo => BinaryOperator::Modulo,
                    Token::Eq => BinaryOperator::Eq,
                    Token::NotEq => BinaryOperator::NotEq,
                    Token::Lt => BinaryOperator::Lt,
                    Token::Lte => BinaryOperator::Lte,
                    Token::Gt => BinaryOperator::Gt,
                    Token::Gte => BinaryOperator::Gte,
                    Token::And => BinaryOperator::And,
                    Token::Or => BinaryOperator::Or,
                    _ => {
                        proof {
                            assert(false);
                        }
                        BinaryOperator::Or
                    },
                };
                Some(Expr::BinaryOp { left: Box::new(left), op: op_enum, right: Box::new(rexp) })
            },
        }
    }

    /// A call expression: the cursor is on the `(` and `function` is what
    /// stood before it; only an identifier may be called.
    #[verifier::rlimit(100)]
    fn parse_call_expression(&mut self, function: Expr) -> (r: Option<Expr>)
        requires
            old(self).wf(),
            tok_at(old(self).toks(), old(self).cur()) is LParen,
        ensures
            final(self).wf(),
            final(self).toks() == old(self).toks(),
            old(self).cur() <= final(self).cur(),
            ({
                let (cv, j, e) = spec_parse_call(
                    old(self).toks(),
                    old(self).cur(),
                    expr_view(function),
                );
                &&& final(self).cur() == j
                &&& final(self).errs() == old(self).errs() + e
                &&& (match r {
                    Some(x) => cv == Some(expr_view(x)),
                    None => cv is None,
                })
            }),
        decreases remaining(self.toks(), self.cur()), 6int,
    {
        reveal(spec_parse_prefix);
        reveal(spec_parse_call_args);
        reveal(spec_parse_call);
        reveal(spec_infix_loop);
        reveal(spec_parse_expression);
        let ghost toks = old(self).toks();
        let ghost i0 = old(self).cur();
        let callee = match function {
            Expr::Identifier(name) => name,
            _ => {
                let m = String::from_str("Expected function name (identifier) for call");
                proof {
                    assert(m@ == msg_bad_callee());
                }
                self.push_error(m);
                proof {
                    assert(self.errs() =~= old(self).errs() + seq![msg_bad_callee()]);
                }
                return None;
            },
        };
        if matches!(self.peek_token, Token::RParen) {
            self.next_token();
            let args0: Vec<Expr> = Vec::new();
            proof {
                assert(args0@ =~= Seq::<Expr>::empty());
                assert(exprs_view(args0@) =~= Seq::<ExprV>::empty());
                assert(self.errs() =~= old(self).errs() + Seq::<Seq<char>>::empty());
            }
            return Some(Expr::Call { callee, args: args0 });
        }
        self.next_token();
        let first = self.parse_expression(PREC_LOWEST);
        let a0 = match first {
            Some(a) => a,
            None => {
                proof {
                    assert(0 <= i0 < toks.len());
                    assert(clamp_pos(i0 + 1, i0 + 1, toks.len() as int) == i0 + 1);
                }
                return None;
            },
        };
        let mut args: Vec<Expr> = Vec::new();
        let ghost e_head = spec_parse_expression(toks, i0 + 1, 0).2;
        args.push(a0);
        let ghost jstart = self.cur();
        let ghost acc0 = exprs_view(args@);
        let ghost base_errs = self.errs();
        proof {
            assert(args@ =~= Seq::<Expr>::empty().push(a0));
            crate::ast::lemma_exprs_view_snoc(Seq::<Expr>::empty(), a0);
            assert(exprs_view(Seq::<Expr>::empty()) =~= Seq::<ExprV>::empty());
            assert(acc0 =~= seq![expr_view(a0)]);
        }
        loop
            invariant
                self.wf(),
                toks == old(self).toks(),
                i0 == old(self).cur(),
                self.toks() == toks,
                i0 + 1 <= self.cur() <= toks.len(),
                wf_tokens(toks),
                tok_at(toks, i0) is LParen,
                expr_view(function) == ExprV::Identifier(callee@),
                e_head == spec_parse_expression(toks, i0 + 1, 0).2,
                spec_parse_expression(toks, i0 + 1, 0).0 is Some,
                jstart == spec_parse_expression(toks, i0 + 1, 0).1,
                acc0 == seq![spec_parse_expression(toks, i0 + 1, 0).0->0],
                base_errs == old(self).errs() + e_head,
                spec_parse_call_args(toks, jstart, acc0).0 == spec_parse_call_args(
                    toks,
                    self.cur(),
                    exprs_view(args@),
                ).0,
                spec_parse_call_args(toks, jstart, acc0).1 == spec_parse_call_args(
                    toks,
                    self.cur(),
                    exprs_view(args@),
                ).1,
                base_errs + spec_parse_call_args(toks, jstart, acc0).2 == self.errs()
                    + spec_parse_call_args(toks, self.cur(), exprs_view(args@)).2,
                spec_parse_call(toks, i0, expr_view(function)) == ({
                    let (ar, k, e2) = spec_parse_call_args(toks, jstart, acc0);
                    match ar {
                        None => (None::<ExprV>, k, e_head + e2),
                        Some(list) => (
                            Some(ExprV::Call { callee: callee@, args: list }),
                            k,
                            e_head + e2,
                        ),
                    }
                }),
            decreases self.tokens.len() - self.pos,
        {
            let ghost pc = self.cur();
            let ghost accc = exprs_view(args@);
            let ghost errs_c = self.errs();
            reveal(spec_parse_prefix);
            reveal(spec_parse_call_args);
            reveal(spec_parse_call);
            reveal(spec_infix_loop);
            reveal(spec_parse_expression);
            if matches!(self.peek_token, Token::Comma) {
                self.next_token();
                self.next_token();
                let nxt = self.parse_expression(PREC_LOWEST);
                match nxt {
                    None => {
                        proof {
                            assert(clamp_pos(pc + 2, pc + 1, toks.len() as int) == pc + 2);
                            assert((old(self).errs() + e_head) + spec_parse_call_args(
                                toks,
                                jstart,
                                acc0,
                            ).2 =~= old(self).errs() + (e_head + spec_parse_call_args(
                                toks,
                                jstart,
                                acc0,
                            ).2));
                        }
                        return None;
                    },
                    Some(a) => {
                        proof {
                            assert(clamp_pos(pc + 2, pc + 1, toks.len() as int) == pc + 2);
                            assert(clamp_pos(self.cur(), pc + 1, toks.len() as int)
                                == self.cur());
                            crate::ast::lemma_exprs_view_snoc(args@, a);
                            let ee = spec_parse_expression(toks, pc + 2, 0).2;
                            let enext = spec_parse_call_args(
                                toks,
                                self.cur(),
                                accc.push(expr_view(a)),
                            ).2;
                            assert((errs_c + ee) + enext =~= errs_c + (ee + enext));
                        }
                        args.push(a);
                    },
                }
            } else if matches!(self.peek_token, Token::RParen) {
                self.next_token();
                proof {
                    assert(self.errs() + Seq::<Seq<char>>::empty() =~= self.errs());
                    assert((old(self).errs() + e_head) + spec_parse_call_args(
                        toks,
                        jstart,
                        acc0,
                    ).2 =~= old(self).errs() + (e_head + spec_parse_call_args(
                        toks,
                        jstart,
                        acc0,
                    ).2));
                }
                return Some(Expr::Call { callee, args });
            } else {
                let got = copy_token(&self.peek_token);
                let curt = copy_token(&self.current_token);
                let m = render_expected(&Token::RParen, &got, &curt);
                self.push_error(m);
                proof {
                    let msg = msg_expected(TokenV::RParen, tok_at(toks, pc + 1), tok_at(toks, pc));
                    assert(errs_c + seq![msg] =~= errs_c.push(msg));
                    assert((old(self).errs() + e_head) + spec_parse_call_args(
                        toks,
                        jstart,
                        acc0,
                    ).2 =~= old(self).errs() + (e_head + spec_parse_call_args(
                        toks,
                        jstart,
                        acc0,
                    ).2));
                }
                return None;
            }
        }
    }

    /// A whole expression: prefix part, then operators while they bind
    /// tighter than `min_prec`.
    #[verifier::rlimit(50)]
    fn parse_expression(&mut self, min_prec: u8) -> (r: Option<Expr>)
        requires
            old(self).wf(),
        ensures
            final(self).wf(),
            final(self).toks() == old(self).toks(),
            old(self).cur() <= final(self).cur(),
            ({
                let (sv, j, e) = spec_parse_expression(
                    old(self).toks(),
                    old(self).cur(),
                    min_prec as int,
                );
                &&& final(self).cur() == j
                &&& final(self).errs() == old(self).errs() + e
                &&& (match r {
                    Some(x) => sv == Some(expr_view(x)),
                    None => sv is None,
                })
            }),
        decreases remaining(self.toks(), self.cur()), 2int,
    {
        reveal(spec_parse_prefix);
        reveal(spec_parse_call_args);
        reveal(spec_parse_call);
        reveal(spec_infix_loop);
        reveal(spec_parse_expression);
        let ghost toks = old(self).toks();
        let ghost i0 = old(self).cur();
        let ghost mp = min_prec as int;
        let pre = self.parse_prefix();
        let ghost jstart = self.cur();
        let ghost lv0 = opt_expr_view(pre);
        let ghost base_errs = self.errs();
        proof {
            assert(clamp_pos(jstart, i0, toks.len() as int) == jstart);
        }
        let mut left = pre;
        loop
            invariant
                self.wf(),
                toks == old(self).toks(),
                i0 == old(self).cur(),
                self.toks() == toks,
                i0 <= self.cur() <= toks.len(),
                mp == min_prec as int,
                jstart == spec_parse_prefix(toks, i0).1,
                lv0 == spec_parse_prefix(toks, i0).0,
                base_errs == old(self).errs() + spec_parse_prefix(toks, i0).2,
                spec_infix_loop(toks, jstart, mp, lv0).0 == spec_infix_loop(
                    toks,
                    self.cur(),
                    mp,
                    opt_expr_view(left),
                ).0,
                spec_infix_loop(toks, jstart, mp, lv0).1 == spec_infix_loop(
                    toks,
                    self.cur(),
                    mp,
                    opt_expr_view(left),
                ).1,
                base_errs + spec_infix_loop(toks, jstart, mp, lv0).2 == self.errs()
                    + spec_infix_loop(toks, self.cur(), mp, opt_expr_view(left)).2,
                spec_parse_expression(toks, i0, mp).0 == spec_infix_loop(toks, jstart, mp, lv0).0,
                spec_parse_expression(toks, i0, mp).1 == spec_infix_loop(toks, jstart, mp, lv0).1,
                old(self).errs() + spec_parse_expression(toks, i0, mp).2 == base_errs
                    + spec_infix_loop(toks, jstart, mp, lv0).2,
            decreases self.tokens.len() - self.pos,
        {
            reveal(spec_parse_prefix);
            reveal(spec_parse_call_args);
            reveal(spec_parse_call);
            reveal(spec_infix_loop);
            reveal(spec_parse_expression);
            let pprec = token_precedence(&self.peek_token);
            if matches!(self.peek_token, Token::Semicolon) || !(min_prec < pprec) {
                proof {
                    assert(self.errs() + Seq::<Seq<char>>::empty() =~= self.errs());
                    assert(old(self).errs() + spec_parse_expression(toks, i0, mp).2
                        =~= self.errs());
                }
                return left;
            }
            if !is_infix_operator(&self.peek_token) && !matches!(self.peek_token, Token::LParen) {
                proof {
                    assert(self.errs() + Seq::<Seq<char>>::empty() =~= self.errs());
                    assert(old(self).errs() + spec_parse_expression(toks, i0, mp).2
                        =~= self.errs());
                }
                return left;
            }
            let ghost pc = self.cur();
            let ghost lvc = opt_expr_view(left);
            self.next_token();
            if is_infix_operator(&self.current_token) {
                let l = match left {
                    Some(l) => l,
                    None => {
                        proof {
                            assert(self.errs() + Seq::<Seq<char>>::empty() =~= self.errs());
                            assert(old(self).errs() + spec_parse_expression(toks, i0, mp).2
                                =~= self.errs());
                        }
                        return None;
                    },
                };
                let r2 = self.parse_infix_expression(l);
                proof {
                    assert(clamp_pos(self.cur(), pc + 1, toks.len() as int) == self.cur());
                }
                left = r2;
            } else {
                let l = match left {
                    Some(l) => l,
                    None => {
                        proof {
                            assert(self.errs() + Seq::<Seq<char>>::empty() =~= self.errs());
                            assert(old(self).errs() + spec_parse_expression(toks, i0, mp).2
                                =~= self.errs());
                        }
                        return None;
                    },
                };
                let r2 = self.parse_call_expression(l);
                proof {
                    assert(clamp_pos(self.cur(), pc + 1, toks.len() as int) == self.cur());
                }
                left = r2;
            }
        }
    }

    /// A declaration statement: `let` or `mut`, name, optional annotation,
    /// `=`, value.
    fn parse_let_or_mut_statement(&mut self) -> (r: Option<Statement>)
        requires
            old(self).wf(),
            tok_at(old(self).toks(), old(self).cur()) is Let || tok_at(
                old(self).toks(),
                old(self).cur(),
            ) is Mut,
        ensures
            final(self).wf(),
            final(self).toks() == old(self).toks(),
            old(self).cur() <= final(self).cur(),
            ({
                let (sv, j, e) = spec_parse_let(old(self).toks(), old(self).cur());
                &&& final(self).cur() == j
                &&& final(self).errs() == old(self).errs() + e
                &&& (match r {
                    Some(x) => sv == Some(stmt_view(x)),
                    None => sv is None,
                })
            }),
    {
        let ghost toks = old(self).toks();
        let ghost i0 = old(self).cur();
        if matches!(self.current_token, Token::Let) && matches!(self.peek_token, Token::Mut) {
            self.next_token();
        }
        let ghost pk = self.cur();
        let mutable = matches!(self.current_token, Token::Mut);
        reveal(spec_parse_let);
        if !matches!(self.peek_token, Token::Identifier(_)) {
            let got = copy_token(&self.peek_token);
            let curt = copy_token(&self.current_token);
            let m = render_expected(&Token::Identifier(String::from_str("IDENTIFIER_NAME")), &got, &curt);
            self.push_error(m);
            proof {
                assert(self.errs() =~= old(self).errs() + seq![
                    msg_expected(
                        TokenV::Identifier("IDENTIFIER_NAME"@),
                        tok_at(toks, pk + 1),
                        tok_at(toks, pk),
                    ),
                ]);
            }
            return None;
        }
        self.next_token();
        let name = match &self.current_token {
            Token::Identifier(n) => n.clone(),
            _ => {
                proof {
                    assert(false);
                }
                String::new()
            },
        };
        let mut type_ann: Option<String> = None;
        if matches!(self.peek_token, Token::Colon) {
            self.next_token();
            if !matches!(self.peek_token, Token::Identifier(_)) {
                let got = copy_token(&self.peek_token);
                let curt = copy_token(&self.current_token);
                let m = render_expected(
                    &Token::Identifier(String::from_str("TYPE_NAME")),
                    &got,
                    &curt,
                );
                self.push_error(m);
                proof {
                    assert(self.errs() =~= old(self).errs() + seq![
                        msg_expected(
                            TokenV::Identifier("TYPE_NAME"@),
                            tok_at(toks, pk + 3),
                            tok_at(toks, pk + 2),
                        ),
                    ]);
                }
                return None;
            }
            self.next_token();
            let tn = match &self.current_token {
                Token::Identifier(n) => n.clone(),
                _ => {
                    proof {
                        assert(false);
                    }
                    String::new()
                },
            };
            type_ann = Some(tn);
        }
        let ghost p = self.cur();
        if !matches!(self.peek_token, Token::Assign) {
            let got = copy_token(&self.peek_token);
            let curt = copy_token(&self.current_token);
            let m = render_expected(&Token::Assign, &got, &curt);
            self.push_error(m);
            proof {
                assert(self.errs() =~= old(self).errs() + seq![
                    msg_expected(TokenV::Assign, tok_at(toks, p + 1), tok_at(toks, p)),
                ]);
            }
            return None;
        }
        self.next_token();
        self.next_token();
        let v = self.parse_expression(PREC_LOWEST);
        match v {
            None => None,
            Some(value_expr) => Some(
                Statement::LetDecl { name, type_ann, mutable, value_expr },
            ),
        }
    }

    /// An expression standing as a statement.
    fn parse_expression_statement(&mut self) -> (r: Option<Statement>)
        requires
            old(self).wf(),
        ensures
            final(self).wf(),
            final(self).toks() == old(self).toks(),
            old(self).cur() <= final(self).cur(),
            ({
                let (sv, j, e) = spec_parse_expr_statement(old(self).toks(), old(self).cur());
                &&& final(self).cur() == j
                &&& final(self).errs() == old(self).errs() + e
                &&& (match r {
                    Some(x) => sv == Some(stmt_view(x)),
                    None => sv is None,
                })
            }),
    {
        let e = self.parse_expression(PREC_LOWEST);
        match e {
            None => None,
            Some(expr) => Some(Statement::ExprStatement { expr }),
        }
    }

    /// A print statement: keyword, `(`, one argument, `)`.
    fn parse_print_statement(&mut self) -> (r: Option<Statement>)
        requires
            old(self).wf(),
            tok_at(old(self).toks(), old(self).cur()) is Print || tok_at(
                old(self).toks(),
                old(self).cur(),
            ) is Println,
        ensures
            final(self).wf(),
            final(self).toks() == old(self).toks(),
            old(self).cur() <= final(self).cur(),
            ({
                let (sv, j, e) = spec_parse_print(old(self).toks(), old(self).cur());
                &&& final(self).cur() == j
                &&& final(self).errs() == old(self).errs() + e
                &&& (match r {
                    Some(x) => sv == Some(stmt_view(x)),
                    None => sv is None,
                })
            }),
    {
        let ghost toks = old(self).toks();
        let ghost i0 = old(self).cur();
        let newline = matches!(self.current_token, Token::Println);
        reveal(spec_parse_print);
        if !matches!(self.peek_token, Token::LParen) {
            let got = copy_token(&self.peek_token);
            let curt = copy_token(&self.current_token);
            let m = render_expected(&Token::LParen, &got, &curt);
            self.push_error(m);
            proof {
                assert(self.errs() =~= old(self).errs() + seq![
                    msg_expected(TokenV::LParen, tok_at(toks, i0 + 1), tok_at(toks, i0)),
                ]);
            }
            return None;
        }
        self.next_token();
        self.next_token();
        let e = self.parse_expression(PREC_LOWEST);
        match e {
            None => None,
            Some(expr) => {
                if matches!(self.peek_token, Token::RParen) {
                    self.next_token();
                    Some(Statement::Print { expr, newline })
                } else {
                    let got = copy_token(&self.peek_token);
                    let curt = copy_token(&self.current_token);
                    let m = render_expected(&Token::RParen, &got, &curt);
                    self.push_error(m);
                    proof {
                        let (ev, j, errs) = spec_parse_expression(toks, i0 + 2, 0);
                        assert(self.errs() =~= old(self).errs() + errs.push(
                            msg_expected(TokenV::RParen, tok_at(toks, j + 1), tok_at(toks, j)),
                        ));
                    }
                    None
                }
            },
        }
    }

    /// A block: the cursor is on `{`; on return it is on the matching `}`.
    #[verifier::rlimit(100)]
    fn parse_block_statement(&mut self) -> (r: Option<Block>)
        requires
            old(self).wf(),
            tok_at(old(self).toks(), old(self).cur()) is LBrace,
        ensures
            final(self).wf(),
            final(self).toks() == old(self).toks(),
            old(self).cur() <= final(self).cur(),
            ({
                let (sv, j, e) = spec_parse_block(old(self).toks(), old(self).cur());
                &&& final(self).cur() == j
                &&& final(self).errs() == old(self).errs() + e
                &&& (match r {
                    Some(b) => sv == Some(crate::ast::block_view(b)),
                    None => sv is None,
                })
            }),
        decreases remaining(self.toks(), self.cur()), 7int,
    {
        let ghost toks = old(self).toks();
        let ghost i0 = old(self).cur();
        self.next_token();
        let mut statements: Vec<Statement> = Vec::new();
        reveal(spec_parse_block_items);
        reveal(spec_parse_block);
        reveal(spec_parse_elifs);
        reveal(spec_parse_if);
        reveal(spec_parse_while);
        reveal(spec_parse_loop);
        reveal(spec_parse_for);
        reveal(spec_parse_statement);
        let ghost jstart = self.cur();
        let ghost base_errs = self.errs();
        proof {
            assert(statements@ =~= Seq::<Statement>::empty());
            assert(stmts_view(statements@) =~= Seq::<StmtV>::empty());
        }
        loop
            invariant
                self.wf(),
                toks == old(self).toks(),
                i0 == old(self).cur(),
                self.toks() == toks,
                tok_at(toks, i0) is LBrace,
                jstart == i0 + 1,
                i0 + 1 <= self.cur() <= toks.len(),
                base_errs == old(self).errs(),
                spec_parse_block_items(toks, jstart, Seq::empty()).0 == spec_parse_block_items(
                    toks,
                    self.cur(),
                    stmts_view(statements@),
                ).0,
                spec_parse_block_items(toks, jstart, Seq::empty()).1 == spec_parse_block_items(
                    toks,
                    self.cur(),
                    stmts_view(statements@),
                ).1,
                base_errs + spec_parse_block_items(toks, jstart, Seq::empty()).2 == self.errs()
                    + spec_parse_block_items(toks, self.cur(), stmts_view(statements@)).2,
            decreases self.tokens.len() - self.pos,
        {
            let ghost pc = self.cur();
            let ghost accc = stmts_view(statements@);
            let ghost errs_c = self.errs();
            reveal(spec_parse_block_items);
            reveal(spec_parse_block);
            reveal(spec_parse_elifs);
            reveal(spec_parse_if);
            reveal(spec_parse_while);
            reveal(spec_parse_loop);
            reveal(spec_parse_for);
            reveal(spec_parse_statement);
            if matches!(self.current_token, Token::RBrace) {
                proof {
                    assert(self.errs() + Seq::<Seq<char>>::empty() =~= self.errs());
                }
                return Some(Block { statements });
            }
            if matches!(self.current_token, Token::Eof) {
                let curt = copy_token(&self.current_token);
                let m = render_unterminated_block(&curt);
                self.push_error(m);
                proof {
                    let msg = msg_unterminated_block(tok_at(toks, pc));
                    assert(errs_c + seq![msg] =~= errs_c.push(msg));
                }
                return None;
            }
            let st = self.parse_statement();
            match st {
                Some(stmt) => {
                    proof {
                        crate::ast::lemma_stmts_view_snoc(statements@, stmt);
                    }
                    statements.push(stmt);
                },
                None => {},
            }
            self.next_token();
            proof {
                let (sts, j, ee) = spec_parse_statement(toks, pc);
                assert(clamp_pos(j + 1, pc + 1, toks.len() as int) == self.cur());
                let enext = spec_parse_block_items(toks, self.cur(), stmts_view(statements@)).2;
                assert((errs_c + ee) + enext =~= errs_c + (ee + enext));
            }
        }
    }

    /// The `else if` arms and optional final `else` of an `if`; the cursor
    /// is on the `}` of the block just parsed.
    #[verifier::rlimit(100)]

    /// One definitional unfolding of `spec_parse_elifs`, packaged so that
    /// callers need no fuel of their own.
    proof fn lemma_spec_parse_elifs_unfold(toks: Seq<TokenV>, i: int, acc: Seq<(ExprV, Seq<StmtV>)>)
        ensures
            spec_parse_elifs(toks, i, acc) == (if tok_at(toks, i + 1) is Else {
                if tok_at(toks, i + 2) is If {
                    let (c, j, e1) = spec_parse_expression(toks, i + 3, 0);
                    match c {
                        None => (None, j, e1),
                        Some(cv) => if tok_at(toks, j + 1) is LBrace {
                            let (b, k, e2) = spec_parse_block(
                                toks,
                                clamp_pos(j + 1, i + 2, toks.len() as int),
                            );
                            match b {
                                None => (None, k, e1 + e2),
                                Some(bs) => {
                                    let (res, m, e3) = spec_parse_elifs(
                                        toks,
                                        clamp_pos(k, i + 2, toks.len() as int),
                                        acc.push((cv, bs)),
                                    );
                                    (res, m, e1 + e2 + e3)
                                },
                            }
                        } else {
                            (
                                None,
                                j,
                                e1.push(
                                    msg_expected(
                                        TokenV::LBrace,
                                        tok_at(toks, j + 1),
                                        tok_at(toks, j),
                                    ),
                                ),
                            )
                        },
                    }
                } else {
                    if tok_at(toks, i + 2) is LBrace {
                        let (b, k, e2) = spec_parse_block(toks, i + 2);
                        match b {
                            None => (None, k, e2),
                            Some(bs) => (Some((acc, Some(bs))), k, e2),
                        }
                    } else {
                        (
                            None,
                            i + 1,
                            seq![
                                msg_expected(
                                    TokenV::LBrace,
                                    tok_at(toks, i + 2),
                                    tok_at(toks, i + 1),
                                )
                            ],
                        )
                    }
                }
            } else {
                (Some((acc, None)), i, Seq::empty())
            }),
    {
        reveal(spec_parse_block_items);
        reveal(spec_parse_block);
        reveal(spec_parse_elifs);
        reveal(spec_parse_if);
        reveal(spec_parse_while);
        reveal(spec_parse_loop);
        reveal(spec_parse_for);
        reveal(spec_parse_statement);
    }

    fn parse_elif_chain(&mut self) -> (r: Option<(Vec<(Expr, Block)>, Option<Block>)>)
        requires
            old(self).wf(),
        ensures
            final(self).wf(),
            final(self).toks() == old(self).toks(),
            old(self).cur() <= final(self).cur(),
            ({
                let (sv, j, e) = spec_parse_elifs(old(self).toks(), old(self).cur(), Seq::empty());
                &&& final(self).cur() == j
                &&& final(self).errs() == old(self).errs() + e
                &&& (match r {
                    Some(parts) => sv == Some(
                        (
                            elifs_view(parts.0@),
                            match parts.1 {
                                Some(b) => Some(crate::ast::block_view(b)),
                                None => None,
                            },
                        ),
                    ),
                    None => sv is None,
                })
            }),
        decreases remaining(self.toks(), self.cur()), 4int,
    {
        let ghost toks = old(self).toks();
        let ghost i0 = old(self).cur();
        let mut else_if_blocks: Vec<(Expr, Block)> = Vec::new();
        let ghost base_errs = self.errs();
        proof {
            assert(else_if_blocks@ =~= Seq::<(Expr, Block)>::empty());
            assert(elifs_view(else_if_blocks@) =~= Seq::<(ExprV, Seq<StmtV>)>::empty());
        }
        loop
            invariant
                self.wf(),
                toks == old(self).toks(),
                i0 == old(self).cur(),
                self.toks() == toks,
                i0 <= self.cur() <= toks.len(),
                base_errs == old(self).errs(),
                spec_parse_elifs(toks, i0, Seq::empty()).0 == spec_parse_elifs(
                    toks,
                    self.cur(),
                    elifs_view(else_if_blocks@),
                ).0,
                spec_parse_elifs(toks, i0, Seq::empty()).1 == spec_parse_elifs(
                    toks,
                    self.cur(),
                    elifs_view(else_if_blocks@),
                ).1,
                base_errs + spec_parse_elifs(toks, i0, Seq::empty()).2 == self.errs()
                    + spec_parse_elifs(toks, self.cur(), elifs_view(else_if_blocks@)).2,
            decreases self.tokens.len() - self.pos,
        {
            let ghost pc = self.cur();
            let ghost accc = elifs_view(else_if_blocks@);
            let ghost errs_c = self.errs();
            proof {
                Self::lemma_spec_parse_elifs_unfold(toks, pc, accc);
            }
            if !matches!(self.peek_token, Token::Else) {
                proof {
                    assert(self.errs() + Seq::<Seq<char>>::empty() =~= self.errs());
                }
                return Some((else_if_blocks, None));
            }
            self.next_token();
            if matches!(self.peek_token, Token::If) {
                self.next_token();
                self.next_token();
                let c2 = self.parse_expression(PREC_LOWEST);
                let cv = match c2 {
                    None => {
                        return None;
                    },
                    Some(x) => x,
                };
                let ghost j2 = self.cur();
                if !matches!(self.peek_token, Token::LBrace) {
                    let got = copy_token(&self.peek_token);
                    let curt = copy_token(&self.current_token);
                    let m = render_expected(&Token::LBrace, &got, &curt);
                    self.push_error(m);
                    proof {
                        let e1 = spec_parse_expression(toks, pc + 3, 0).2;
                        let msg = msg_expected(TokenV::LBrace, tok_at(toks, j2 + 1), tok_at(toks, j2));
                        assert((errs_c + e1).push(msg) =~= errs_c + e1.push(msg));
                    }
                    return None;
                }
                self.next_token();
                let b2 = self.parse_block_statement();
                match b2 {
                    None => {
                        proof {
                            assert(clamp_pos(j2 + 1, pc + 2, toks.len() as int) == j2 + 1);
                            let e1 = spec_parse_expression(toks, pc + 3, 0).2;
                            let e2 = spec_parse_block(toks, j2 + 1).2;
                            assert((errs_c + e1) + e2 =~= errs_c + (e1 + e2));
                        }
                        return None;
                    },
                    Some(blk) => {
                        proof {
                            assert(clamp_pos(j2 + 1, pc + 2, toks.len() as int) == j2 + 1);
                            assert(clamp_pos(self.cur(), pc + 2, toks.len() as int) == self.cur());
                            crate::ast::lemma_elifs_view_snoc(else_if_blocks@, (cv, blk));
                            let e1 = spec_parse_expression(toks, pc + 3, 0).2;
                            let e2 = spec_parse_block(toks, j2 + 1).2;
                            let e3 = spec_parse_elifs(
                                toks,
                                self.cur(),
                                accc.push((expr_view(cv), crate::ast::block_view(blk))),
                            ).2;
                            assert((errs_c + e1) + e2 =~= errs_c + (e1 + e2));
                            assert(((errs_c + e1) + e2) + e3 =~= errs_c + ((e1 + e2) + e3));
                        }
                        else_if_blocks.push((cv, blk));
                    },
                }
            } else {
                if !matches!(self.peek_token, Token::LBrace) {
                    let got = copy_token(&self.peek_token);
                    let curt = copy_token(&self.current_token);
                    let m = render_expected(&Token::LBrace, &got, &curt);
                    self.push_error(m);
                    proof {
                        let msg = msg_expected(
                            TokenV::LBrace,
                            tok_at(toks, pc + 2),
                            tok_at(toks, pc + 1),
                        );
                        assert(errs_c + seq![msg] =~= errs_c.push(msg));
                    }
                    return None;
                }
                self.next_token();
                let b2 = self.parse_block_statement();
                match b2 {
                    None => {
                        return None;
                    },
                    Some(blk) => {
                        return Some((else_if_blocks, Some(blk)));
                    },
                }
            }
        }
    }

    /// An `if` statement: condition, block, `else if` arms, optional `else`.
    #[verifier::rlimit(100)]
    fn parse_if_statement(&mut self) -> (r: Option<Statement>)
        requires
            old(self).wf(),
            tok_at(old(self).toks(), old(self).cur()) is If,
        ensures
            final(self).wf(),
            final(self).toks() == old(self).toks(),
            old(self).cur() <= final(self).cur(),
            ({
                let (sv, j, e) = spec_parse_if(old(self).toks(), old(self).cur());
                &&& final(self).cur() == j
                &&& final(self).errs() == old(self).errs() + e
                &&& (match r {
                    Some(x) => sv == Some(stmt_view(x)),
                    None => sv is None,
                })
            }),
        decreases remaining(self.toks(), self.cur()), 4int,
    {
        reveal(spec_parse_block_items);
        reveal(spec_parse_block);
        reveal(spec_parse_elifs);
        reveal(spec_parse_if);
        reveal(spec_parse_while);
        reveal(spec_parse_loop);
        reveal(spec_parse_for);
        reveal(spec_parse_statement);
        let ghost toks = old(self).toks();
        let ghost i0 = old(self).cur();
        self.next_token();
        let c = self.parse_expression(PREC_LOWEST);
        let condition = match c {
            None => {
                return None;
            },
            Some(cv) => cv,
        };
        let ghost j1 = self.cur();
        if !matches!(self.peek_token, Token::LBrace) {
            let got = copy_token(&self.peek_token);
            let curt = copy_token(&self.current_token);
            let m = render_expected(&Token::LBrace, &got, &curt);
            self.push_error(m);
            proof {
                let (ev, j, e1) = spec_parse_expression(toks, i0 + 1, 0);
                assert(self.errs() =~= old(self).errs() + e1.push(
                    msg_expected(TokenV::LBrace, tok_at(toks, j + 1), tok_at(toks, j)),
                ));
            }
            return None;
        }
        self.next_token();
        proof {
            assert(clamp_pos(j1 + 1, i0 + 1, toks.len() as int) == j1 + 1);
        }
        let tb = self.parse_block_statement();
        let then_block = match tb {
            None => {
                proof {
                    let e1 = spec_parse_expression(toks, i0 + 1, 0).2;
                    let e2 = spec_parse_block(toks, j1 + 1).2;
                    assert((old(self).errs() + e1) + e2 =~= old(self).errs() + (e1 + e2));
                }
                return None;
            },
            Some(b) => b,
        };
        proof {
            assert(clamp_pos(self.cur(), i0 + 1, toks.len() as int) == self.cur());
        }
        let tail = self.parse_elif_chain();
        match tail {
            None => {
                proof {
                    let e1 = spec_parse_expression(toks, i0 + 1, 0).2;
                    let e2 = spec_parse_block(toks, j1 + 1).2;
                    let e3 = spec_parse_elifs(
                        toks,
                        spec_parse_block(toks, j1 + 1).1,
                        Seq::empty(),
                    ).2;
                    assert(((old(self).errs() + e1) + e2) + e3 =~= old(self).errs() + ((e1 + e2)
                        + e3));
                }
                None
            },
            Some(parts) => {
                let (else_if_blocks, else_block) = parts;
                proof {
                    let e1 = spec_parse_expression(toks, i0 + 1, 0).2;
                    let e2 = spec_parse_block(toks, j1 + 1).2;
                    let e3 = spec_parse_elifs(
                        toks,
                        spec_parse_block(toks, j1 + 1).1,
                        Seq::empty(),
                    ).2;
                    assert(((old(self).errs() + e1) + e2) + e3 =~= old(self).errs() + ((e1 + e2)
                        + e3));
                }
                Some(Statement::If { condition, then_block, else_if_blocks, else_block })
            },
        }
    }

    /// A `while` statement: condition, then the body block.
    fn parse_while_statement(&mut self) -> (r: Option<Statement>)
        requires
            old(self).wf(),
            tok_at(old(self).toks(), old(self).cur()) is While,
        ensures
            final(self).wf(),
            final(self).toks() == old(self).toks(),
            old(self).cur() <= final(self).cur(),
            ({
                let (sv, j, e) = spec_parse_while(old(self).toks(), old(self).cur());
                &&& final(self).cur() == j
                &&& final(self).errs() == old(self).errs() + e
                &&& (match r {
                    Some(x) => sv == Some(stmt_view(x)),
                    None => sv is None,
                })
            }),
        decreases remaining(self.toks(), self.cur()), 4int,
    {
        reveal(spec_parse_block_items);
        reveal(spec_parse_block);
        reveal(spec_parse_elifs);
        reveal(spec_parse_if);
        reveal(spec_parse_while);
        reveal(spec_parse_loop);
        reveal(spec_parse_for);
        reveal(spec_parse_statement);
        let ghost toks = old(self).toks();
        let ghost i0 = old(self).cur();
        self.next_token();
        let c = self.parse_expression(PREC_LOWEST);
        let condition = match c {
            None => {
                return None;
            },
            Some(cv) => cv,
        };
        let ghost j1 = self.cur();
        if !matches!(self.peek_token, Token::LBrace) {
            let got = copy_token(&self.peek_token);
            let curt = copy_token(&self.current_token);
            let m = render_expected(&Token::LBrace, &got, &curt);
            self.push_error(m);
            proof {
                let (ev, j, e1) = spec_parse_expression(toks, i0 + 1, 0);
                assert(self.errs() =~= old(self).errs() + e1.push(
                    msg_expected(TokenV::LBrace, tok_at(toks, j + 1), tok_at(toks, j)),
                ));
            }
            return None;
        }
        self.next_token();
        proof {
            assert(clamp_pos(j1 + 1, i0 + 1, toks.len() as int) == j1 + 1);
        }
        let b = self.parse_block_statement();
        match b {
            None => None,
            Some(body_block) => Some(Statement::While { condition, body_block }),
        }
    }

    /// A `loop` statement: just the body block.
    fn parse_loop_statement(&mut self) -> (r: Option<Statement>)
        requires
            old(self).wf(),
            tok_at(old(self).toks(), old(self).cur()) is Loop,
        ensures
            final(self).wf(),
            final(self).toks() == old(self).toks(),
            old(self).cur() <= final(self).cur(),
            ({
                let (sv, j, e) = spec_parse_loop(old(self).toks(), old(self).cur());
                &&& final(self).cur() == j
                &&& final(self).errs() == old(self).errs() + e
                &&& (match r {
                    Some(x) => sv == Some(stmt_view(x)),
                    None => sv is None,
                })
            }),
        decreases remaining(self.toks(), self.cur()), 4int,
    {
        reveal(spec_parse_block_items);
        reveal(spec_parse_block);
        reveal(spec_parse_elifs);
        reveal(spec_parse_if);
        reveal(spec_parse_while);
        reveal(spec_parse_loop);
        reveal(spec_parse_for);
        reveal(spec_parse_statement);
        let ghost toks = old(self).toks();
        let ghost i0 = old(self).cur();
        if !matches!(self.peek_token, Token::LBrace) {
            let got = copy_token(&self.peek_token);
            let curt = copy_token(&self.current_token);
            let m = render_expected(&Token::LBrace, &got, &curt);
            self.push_error(m);
            proof {
                assert(self.errs() =~= old(self).errs() + seq![
                    msg_expected(TokenV::LBrace, tok_at(toks, i0 + 1), tok_at(toks, i0)),
                ]);
            }
            return None;
        }
        self.next_token();
        let b = self.parse_block_statement();
        match b {
            None => None,
            Some(body_block) => Some(Statement::Loop { body_block }),
        }
    }

    /// One definitional unfolding of `spec_parse_statement`, packaged so
    /// that callers need no fuel of their own.
    proof fn lemma_spec_parse_statement_unfold(toks: Seq<TokenV>, i: int)
        ensures
            spec_parse_statement(toks, i) == (match tok_at(toks, i) {
                TokenV::Let => spec_with_suffix(toks, spec_parse_let(toks, i)),
                TokenV::Mut => spec_with_suffix(toks, spec_parse_let(toks, i)),
                TokenV::If => spec_parse_if(toks, i),
                TokenV::Loop => spec_parse_loop(toks, i),
                TokenV::While => spec_parse_while(toks, i),
                TokenV::For => spec_parse_for(toks, i),
                TokenV::Print => spec_with_suffix(toks, spec_parse_print(toks, i)),
                TokenV::Println => spec_with_suffix(toks, spec_parse_print(toks, i)),
                TokenV::Break => spec_with_suffix(toks, (Some(StmtV::Break), i, Seq::empty())),
                TokenV::Continue => spec_with_suffix(
                    toks,
                    (Some(StmtV::Continue), i, Seq::empty()),
                ),
                TokenV::Identifier(name) => if tok_at(toks, i + 1) is Assign {
                    let (v, j, errs) = spec_parse_expression(toks, i + 2, 0);
                    match v {
                        None => (None, j, errs),
                        Some(x) => spec_with_suffix(
                            toks,
                            (Some(StmtV::Assignment { name: name, value: x }), j, errs),
                        ),
                    }
                } else {
                    spec_with_suffix(toks, spec_parse_expr_statement(toks, i))
                },
                TokenV::Semicolon => (None, i, Seq::empty()),
                TokenV::RBrace => (None, i, Seq::empty()),
                TokenV::Assign => (None, i, Seq::empty()),
                _ => spec_with_suffix(toks, spec_parse_expr_statement(toks, i)),
            }),
    {
        reveal(spec_parse_block_items);
        reveal(spec_parse_block);
        reveal(spec_parse_elifs);
        reveal(spec_parse_if);
        reveal(spec_parse_while);
        reveal(spec_parse_loop);
        reveal(spec_parse_for);
        reveal(spec_parse_statement);
    }

    /// One definitional unfolding of `spec_parse_for`, packaged so that
    /// callers need no fuel of their own.
    proof fn lemma_spec_parse_for_unfold(toks: Seq<TokenV>, i: int)
        ensures
            spec_parse_for(toks, i) == (if !(tok_at(toks, i) is For) {
                (None, i, Seq::empty())
            } else {
                let p0: int = if tok_at(toks, i + 1) is LParen {
                    i + 2
                } else {
                    i + 1
                };
                let initr = if tok_at(toks, p0) is Semicolon {
                    (None, p0, Seq::<Seq<char>>::empty())
                } else {
                    spec_parse_statement(toks, clamp_pos(p0, i + 1, toks.len() as int))
                };
                let init = initr.0;
                let p1 = initr.1;
                let e1 = initr.2;
                if tok_at(toks, p1) is Semicolon || tok_at(toks, p1 + 1) is Semicolon {
                    let p2: int = (if tok_at(toks, p1) is Semicolon {
                        p1
                    } else {
                        p1 + 1
                    }) + 1;
                    let condr = if tok_at(toks, p2) is Semicolon {
                        (None, p2, Seq::<Seq<char>>::empty())
                    } else {
                        spec_parse_expression(toks, p2, 0)
                    };
                    let cnd = condr.0;
                    let p3 = condr.1;
                    let e2 = condr.2;
                    if tok_at(toks, p3) is Semicolon || tok_at(toks, p3 + 1) is Semicolon {
                        let p4: int = (if tok_at(toks, p3) is Semicolon {
                            p3
                        } else {
                            p3 + 1
                        }) + 1;
                        let incr = if tok_at(toks, p4) is RParen || tok_at(toks, p4) is LBrace {
                            (None, p4, Seq::<Seq<char>>::empty())
                        } else {
                            spec_parse_statement(toks, clamp_pos(p4, i + 1, toks.len() as int))
                        };
                        let inc = incr.0;
                        let p5 = incr.1;
                        let e3 = incr.2;
                        let p6: int = if !(tok_at(toks, p5) is RParen) && tok_at(
                            toks,
                            p5 + 1,
                        ) is RParen {
                            p5 + 1
                        } else {
                            p5
                        };
                        let pb: int = if tok_at(toks, p6) is LBrace {
                            p6
                        } else {
                            p6 + 1
                        };
                        if tok_at(toks, pb) is LBrace {
                            let (b, p7, e4) = spec_parse_block(
                                toks,
                                clamp_pos(pb, i + 1, toks.len() as int),
                            );
                            match b {
                                None => (None, p7, e1 + e2 + e3 + e4),
                                Some(bs) => (
                                    Some(
                                        StmtV::For {
                                            initializer: match init {
                                                Some(s0) => Some(Box::new(s0)),
                                                None => None,
                                            },
                                            condition: cnd,
                                            increment: match inc {
                                                Some(s0) => Some(Box::new(s0)),
                                                None => None,
                                            },
                                            body: bs,
                                        },
                                    ),
                                    p7,
                                    e1 + e2 + e3 + e4,
                                ),
                            }
                        } else {
                            (
                                None,
                                p6,
                                (e1 + e2 + e3).push(
                                    msg_expected(
                                        TokenV::LBrace,
                                        tok_at(toks, p6 + 1),
                                        tok_at(toks, p6),
                                    ),
                                ),
                            )
                        }
                    } else {
                        (
                            None,
                            p3,
                            (e1 + e2).push(
                                msg_for_semicolon("condition"@, tok_at(toks, p3), tok_at(toks, p3 + 1)),
                            ),
                        )
                    }
                } else {
                    (
                        None,
                        p1,
                        e1.push(
                            msg_for_semicolon(
                                "initializer"@,
                                tok_at(toks, p1),
                                tok_at(toks, p1 + 1),
                            ),
                        ),
                    )
                }
            }),
    {
        reveal(spec_parse_block_items);
        reveal(spec_parse_block);
        reveal(spec_parse_elifs);
        reveal(spec_parse_if);
        reveal(spec_parse_while);
        reveal(spec_parse_loop);
        reveal(spec_parse_for);
        reveal(spec_parse_statement);
    }


    /// When the header stages of a `for` statement have gone through, what
    /// remains of `spec_parse_for` is exactly `spec_for_tail`.
    proof fn lemma_spec_parse_for_stages(
        toks: Seq<TokenV>,
        i0: int,
        p4: int,
        init: Option<StmtV>,
        cnd: Option<ExprV>,
        e1: Seq<Seq<char>>,
        e2: Seq<Seq<char>>,
    )
        requires
            tok_at(toks, i0) is For,
            ({
                let p0: int = if tok_at(toks, i0 + 1) is LParen {
                    i0 + 2
                } else {
                    i0 + 1
                };
                let initr = if tok_at(toks, p0) is Semicolon {
                    (None::<StmtV>, p0, Seq::<Seq<char>>::empty())
                } else {
                    spec_parse_statement(toks, clamp_pos(p0, i0 + 1, toks.len() as int))
                };
                &&& initr.0 == init
                &&& initr.2 == e1
                &&& (tok_at(toks, initr.1) is Semicolon || tok_at(toks, initr.1 + 1) is Semicolon)
                &&& ({
                    let p2: int = (if tok_at(toks, initr.1) is Semicolon {
                        initr.1
                    } else {
                        initr.1 + 1
                    }) + 1;
                    let condr = if tok_at(toks, p2) is Semicolon {
                        (None::<ExprV>, p2, Seq::<Seq<char>>::empty())
                    } else {
                        spec_parse_expression(toks, p2, 0)
                    };
                    &&& condr.0 == cnd
                    &&& condr.2 == e2
                    &&& (tok_at(toks, condr.1) is Semicolon || tok_at(
                        toks,
                        condr.1 + 1,
                    ) is Semicolon)
                    &&& p4 == (if tok_at(toks, condr.1) is Semicolon {
                        condr.1
                    } else {
                        condr.1 + 1
                    }) + 1
                })
            }),
        ensures
            spec_parse_for(toks, i0) == spec_for_tail(toks, i0, p4, init, cnd, e1 + e2),
    {
        reveal(spec_parse_block_items);
        reveal(spec_parse_block);
        reveal(spec_parse_elifs);
        reveal(spec_parse_if);
        reveal(spec_parse_while);
        reveal(spec_parse_loop);
        reveal(spec_parse_for);
        reveal(spec_parse_statement);
    }

    /// A `for` statement: optionally parenthesized header of initializer,
    /// condition and increment with mandatory inner semicolons, then the
    /// body block.
    #[verifier::rlimit(100)]
    #[verifier::spinoff_prover]
    fn parse_for_statement(&mut self) -> (r: Option<Statement>)
        requires
            old(self).wf(),
            tok_at(old(self).toks(), old(self).cur()) is For,
        ensures
            final(self).wf(),
            final(self).toks() == old(self).toks(),
            old(self).cur() <= final(self).cur(),
            ({
                let (sv, j, e) = spec_parse_for(old(self).toks(), old(self).cur());
                &&& final(self).cur() == j
                &&& final(self).errs() == old(self).errs() + e
                &&& (match r {
                    Some(x) => sv == Some(stmt_view(x)),
                    None => sv is None,
                })
            }),
        decreases remaining(self.toks(), self.cur()), 4int,
    {
        let ghost toks = old(self).toks();
        let ghost i0 = old(self).cur();
        proof {
            Self::lemma_spec_parse_for_unfold(toks, i0);
        }
        self.next_token();
        if matches!(self.current_token, Token::LParen) {
            self.next_token();
        }
        let ghost p0 = self.cur();
        let initializer: Option<Box<Statement>> = if matches!(
            self.current_token,
            Token::Semicolon,
        ) {
            None
        } else {
            proof {
                assert(clamp_pos(p0, i0 + 1, toks.len() as int) == p0);
            }
            match self.parse_statement() {
                Some(s) => Some(Box::new(s)),
                None => None,
            }
        };
        let ghost p1 = self.cur();
        let ghost e1 = if tok_at(toks, p0) is Semicolon {
            Seq::<Seq<char>>::empty()
        } else {
            spec_parse_statement(toks, p0).2
        };
        proof {
            assert(self.errs() =~= old(self).errs() + e1);
            assert(p0 == (if tok_at(toks, i0 + 1) is LParen {
                i0 + 2int
            } else {
                i0 + 1int
            }));
            assert((if tok_at(toks, p0) is Semicolon {
                (None::<StmtV>, p0, Seq::<Seq<char>>::empty())
            } else {
                spec_parse_statement(toks, clamp_pos(p0, i0 + 1, toks.len() as int))
            }) == (
                match initializer {
                    Some(b0) => Some(stmt_view(*b0)),
                    None => None::<StmtV>,
                },
                p1,
                e1,
            ));
        }
        if matches!(self.current_token, Token::Semicolon) {
        } else if matches!(self.peek_token, Token::Semicolon) {
            self.next_token();
        } else {
            let curt = copy_token(&self.current_token);
            let pk = copy_token(&self.peek_token);
            let m = render_for_semicolon("initializer", &curt, &pk);
            self.push_error(m);
            proof {
                let msg = msg_for_semicolon("initializer"@, tok_at(toks, p1), tok_at(toks, p1 + 1));
                assert((old(self).errs() + e1).push(msg) =~= old(self).errs() + e1.push(msg));
            }
            return None;
        }
        self.next_token();
        let ghost p2 = self.cur();
        let condition: Option<Expr> = if matches!(self.current_token, Token::Semicolon) {
            None
        } else {
            self.parse_expression(PREC_LOWEST)
        };
        let ghost p3 = self.cur();
        let ghost e2 = if tok_at(toks, p2) is Semicolon {
            Seq::<Seq<char>>::empty()
        } else {
            spec_parse_expression(toks, p2, 0).2
        };
        proof {
            assert((old(self).errs() + e1) + e2 =~= old(self).errs() + (e1 + e2));
            assert(p2 == (if tok_at(toks, p1) is Semicolon {
                p1
            } else {
                p1 + 1
            }) + 1);
            assert((if tok_at(toks, p2) is Semicolon {
                (None::<ExprV>, p2, Seq::<Seq<char>>::empty())
            } else {
                spec_parse_expression(toks, p2, 0)
            }) == (
                match condition {
                    Some(c) => Some(expr_view(c)),
                    None => None::<ExprV>,
                },
                p3,
                e2,
            ));
        }
        if matches!(self.current_token, Token::Semicolon) {
        } else if matches!(self.peek_token, Token::Semicolon) {
            self.next_token();
        } else {
            let curt = copy_token(&self.current_token);
            let pk = copy_token(&self.peek_token);
            let m = render_for_semicolon("condition", &curt, &pk);
            self.push_error(m);
            proof {
                let msg = msg_for_semicolon("condition"@, tok_at(toks, p3), tok_at(toks, p3 + 1));
                assert((old(self).errs() + (e1 + e2)).push(msg) =~= old(self).errs() + (e1
                    + e2).push(msg));
            }
            return None;
        }
        self.next_token();
        let ghost p4 = self.cur();
        proof {
            Self::lemma_spec_parse_for_stages(
                toks,
                i0,
                p4,
                match &initializer {
                    Some(b0) => Some(stmt_view(**b0)),
                    None => None,
                },
                match &condition {
                    Some(c) => Some(expr_view(*c)),
                    None => None,
                },
                e1,
                e2,
            );
            assert(self.errs() =~= old(self).errs() + (e1 + e2));
        }
        let r = self.parse_for_tail(
            initializer,
            condition,
            Ghost(toks),
            Ghost(i0),
            Ghost(old(self).errs()),
            Ghost(e1 + e2),
        );
        r
    }

    /// The tail of a `for` statement: the optional increment, the optional
    /// closing `)`, and the body block.
    #[verifier::rlimit(100)]
    fn parse_for_tail(
        &mut self,
        initializer: Option<Box<Statement>>,
        condition: Option<Expr>,
        Ghost(gtoks): Ghost<Seq<TokenV>>,
        Ghost(gi0): Ghost<int>,
        Ghost(eorig): Ghost<Seq<Seq<char>>>,
        Ghost(epre): Ghost<Seq<Seq<char>>>,
    ) -> (r: Option<Statement>)
        requires
            old(self).wf(),
            old(self).toks() == gtoks,
            gi0 + 1 <= old(self).cur() <= gtoks.len(),
            old(self).errs() == eorig + epre,
        ensures
            final(self).wf(),
            final(self).toks() == gtoks,
            old(self).cur() <= final(self).cur(),
            ({
                let (sv, j, e) = spec_for_tail(
                    gtoks,
                    gi0,
                    old(self).cur(),
                    match initializer {
                        Some(b0) => Some(stmt_view(*b0)),
                        None => None,
                    },
                    match condition {
                        Some(c) => Some(expr_view(c)),
                        None => None,
                    },
                    epre,
                );
                &&& final(self).cur() == j
                &&& final(self).errs() == eorig + e
                &&& (match r {
                    Some(x) => sv == Some(stmt_view(x)),
                    None => sv is None,
                })
            }),
        decreases remaining(self.toks(), self.cur()), 8int,
    {
        let ghost toks = gtoks;
        let ghost i0 = gi0;
        let ghost p4 = old(self).cur();
        let increment: Option<Box<Statement>> = if matches!(self.current_token, Token::RParen)
            || matches!(self.current_token, Token::LBrace) {
            None
        } else {
            proof {
                assert(clamp_pos(p4, i0 + 1, toks.len() as int) == p4);
            }
            match self.parse_statement() {
                Some(s) => Some(Box::new(s)),
                None => None,
            }
        };
        let ghost p5 = self.cur();
        let ghost e3 = if tok_at(toks, p4) is RParen || tok_at(toks, p4) is LBrace {
            Seq::<Seq<char>>::empty()
        } else {
            spec_parse_statement(toks, p4).2
        };
        proof {
            assert((eorig + epre) + e3 =~= eorig + (epre + e3));
            assert((if tok_at(toks, p4) is RParen || tok_at(toks, p4) is LBrace {
                (None::<StmtV>, p4, Seq::<Seq<char>>::empty())
            } else {
                spec_parse_statement(toks, clamp_pos(p4, i0 + 1, toks.len() as int))
            }) == (
                match increment {
                    Some(b0) => Some(stmt_view(*b0)),
                    None => None::<StmtV>,
                },
                p5,
                e3,
            ));
        }
        if !matches!(self.current_token, Token::RParen) && matches!(
            self.peek_token,
            Token::RParen,
        ) {
            self.next_token();
        }
        let ghost p6 = self.cur();
        if matches!(self.current_token, Token::LBrace) {
        } else if matches!(self.peek_token, Token::LBrace) {
            self.next_token();
        } else {
            let got = copy_token(&self.peek_token);
            let curt = copy_token(&self.current_token);
            let m = render_expected(&Token::LBrace, &got, &curt);
            self.push_error(m);
            proof {
                let msg = msg_expected(TokenV::LBrace, tok_at(toks, p6 + 1), tok_at(toks, p6));
                assert(((eorig + epre) + e3).push(msg) =~= eorig + (epre + e3).push(msg));
            }
            return None;
        }
        let ghost pb = self.cur();
        proof {
            assert(clamp_pos(pb, i0 + 1, toks.len() as int) == pb);
        }
        let b = self.parse_block_statement();
        match b {
            None => {
                proof {
                    let e4 = spec_parse_block(toks, pb).2;
                    assert(((eorig + epre) + e3) + e4 =~= eorig + (epre + e3 + e4));
                }
                None
            },
            Some(body_block) => {
                proof {
                    let e4 = spec_parse_block(toks, pb).2;
                    assert(((eorig + epre) + e3) + e4 =~= eorig + (epre + e3 + e4));
                }
                Some(Statement::For { initializer, condition, increment, body_block })
            },
        }
    }

    /// One statement, dispatched on the current token; a bare `;` or a stray
    /// `}` stands for nothing.  For the statement kinds that allow it, one
    /// trailing `;` is consumed.
    #[verifier::rlimit(100)]
    fn parse_statement(&mut self) -> (r: Option<Statement>)
        requires
            old(self).wf(),
        ensures
            final(self).wf(),
            final(self).toks() == old(self).toks(),
            old(self).cur() <= final(self).cur(),
            ({
                let (sv, j, e) = spec_parse_statement(old(self).toks(), old(self).cur());
                &&& final(self).cur() == j
                &&& final(self).errs() == old(self).errs() + e
                &&& (match r {
                    Some(x) => sv == Some(stmt_view(x)),
                    None => sv is None,
                })
            }),
        decreases remaining(self.toks(), self.cur()), 5int,
    {
        let ghost toks = old(self).toks();
        let ghost i0 = old(self).cur();
        proof {
            Self::lemma_spec_parse_statement_unfold(toks, i0);
        }
        let stmt: Option<Statement> = if matches!(self.current_token, Token::Let) || matches!(
            self.current_token,
            Token::Mut,
        ) {
            let r0 = self.parse_let_or_mut_statement();
            proof {
                assert(spec_parse_statement(toks, i0) == spec_with_suffix(toks, spec_parse_let(toks, i0)));
            }
            r0
        } else if matches!(self.current_token, Token::If) {
            let r = self.parse_if_statement();
            proof {
                assert(spec_parse_statement(toks, i0) == spec_parse_if(toks, i0));
            }
            return r;
        } else if matches!(self.current_token, Token::Loop) {
            let r = self.parse_loop_statement();
            proof {
                assert(spec_parse_statement(toks, i0) == spec_parse_loop(toks, i0));
            }
            return r;
        } else if matches!(self.current_token, Token::While) {
            let r = self.parse_while_statement();
            proof {
                assert(spec_parse_statement(toks, i0) == spec_parse_while(toks, i0));
            }
            return r;
        } else if matches!(self.current_token, Token::For) {
            let r = self.parse_for_statement();
            proof {
                assert(spec_parse_statement(toks, i0) == spec_parse_for(toks, i0));
            }
            return r;
        } else if matches!(self.current_token, Token::Print) || matches!(
            self.current_token,
            Token::Println,
        ) {
            let r0 = self.parse_print_statement();
            proof {
                assert(spec_parse_statement(toks, i0) == spec_with_suffix(toks, spec_parse_print(toks, i0)));
            }
            r0
        } else if matches!(self.current_token, Token::Break) {
            proof {
                assert(spec_parse_statement(toks, i0) == spec_with_suffix(
                    toks,
                    (Some(StmtV::Break), i0, Seq::<Seq<char>>::empty()),
                ));
                assert(self.errs() + Seq::<Seq<char>>::empty() =~= self.errs());
            }
            Some(Statement::Break)
        } else if matches!(self.current_token, Token::Continue) {
            proof {
                assert(spec_parse_statement(toks, i0) == spec_with_suffix(
                    toks,
                    (Some(StmtV::Continue), i0, Seq::<Seq<char>>::empty()),
                ));
                assert(self.errs() + Seq::<Seq<char>>::empty() =~= self.errs());
            }
            Some(Statement::Continue)
        } else if matches!(self.current_token, Token::Identifier(_)) {
            proof {
                assert(spec_parse_statement(toks, i0) == (match tok_at(toks, i0) {
                    TokenV::Identifier(nm) => if tok_at(toks, i0 + 1) is Assign {
                        let (v, j, errs) = spec_parse_expression(toks, i0 + 2, 0);
                        match v {
                            None => (None::<StmtV>, j, errs),
                            Some(x) => spec_with_suffix(
                                toks,
                                (Some(StmtV::Assignment { name: nm, value: x }), j, errs),
                            ),
                        }
                    } else {
                        spec_with_suffix(toks, spec_parse_expr_statement(toks, i0))
                    },
                    _ => (None::<StmtV>, i0, Seq::<Seq<char>>::empty()),
                }));
            }
            if matches!(self.peek_token, Token::Assign) {
                let name = match &self.current_token {
                    Token::Identifier(n) => n.clone(),
                    _ => {
                        proof {
                            assert(false);
                        }
                        String::new()
                    },
                };
                self.next_token();
                self.next_token();
                let v = self.parse_expression(PREC_LOWEST);
                match v {
                    None => {
                        return None;
                    },
                    Some(value_expr) => Some(Statement::Assignment { name, value_expr }),
                }
            } else {
                self.parse_expression_statement()
            }
        } else if matches!(self.current_token, Token::Semicolon) {
            proof {
                assert(spec_parse_statement(toks, i0) == (
                    None::<StmtV>,
                    i0,
                    Seq::<Seq<char>>::empty(),
                ));
                assert(self.errs() + Seq::<Seq<char>>::empty() =~= self.errs());
            }
            return None;
        } else if matches!(self.current_token, Token::RBrace) {
            proof {
                assert(spec_parse_statement(toks, i0) == (
                    None::<StmtV>,
                    i0,
                    Seq::<Seq<char>>::empty(),
                ));
                assert(self.errs() + Seq::<Seq<char>>::empty() =~= self.errs());
            }
            return None;
        } else if matches!(self.current_token, Token::Assign) {
            proof {
                assert(spec_parse_statement(toks, i0) == (
                    None::<StmtV>,
                    i0,
                    Seq::<Seq<char>>::empty(),
                ));
                assert(self.errs() + Seq::<Seq<char>>::empty() =~= self.errs());
            }
            return None;
        } else {
            let r0 = self.parse_expression_statement();
            proof {
                assert(spec_parse_statement(toks, i0) == spec_with_suffix(toks, spec_parse_expr_statement(toks, i0)));
            }
            r0
        };
        match stmt {
            Some(s) => {
                if matches!(self.peek_token, Token::Semicolon) {
                    self.next_token();
                }
                Some(s)
            },
            None => None,
        }
    }

    /// Parses the whole stream: statements until `Eof`.  Yields the program
    /// when no diagnostic was collected, otherwise every diagnostic in
    /// order.
    pub fn parse_program(&mut self) -> (r: Result<Program, Vec<String>>)
        requires
            old(self).wf(),
        ensures
            final(self).wf(),
            final(self).toks() == old(self).toks(),
            old(self).cur() <= final(self).cur(),
            ({
                let (stmts, j, e) = spec_parse_program_items(
                    old(self).toks(),
                    old(self).cur(),
                    Seq::empty(),
                );
                &&& final(self).cur() == j
                &&& final(self).errs() == old(self).errs() + e
                &&& (match r {
                    Ok(p) => crate::ast::program_view(p) == stmts && final(self).errs().len() == 0,
                    Err(msgs) => errs_view(msgs@) == final(self).errs()
                        && final(self).errs().len() > 0,
                })
            }),
            old(self).cur() == 0 && old(self).errs() == Seq::<Seq<char>>::empty() ==> (match (
                r,
                spec_parse_program(old(self).toks()),
            ) {
                (Ok(p), Ok(sv)) => crate::ast::program_view(p) == sv,
                (Err(msgs), Err(ev)) => errs_view(msgs@) == ev,
                _ => false,
            }),
    {
        let ghost toks = old(self).toks();
        let ghost i0 = old(self).cur();
        let ghost base_errs = self.errs();
        let mut statements: Vec<Statement> = Vec::new();
        reveal(spec_parse_program_items);
        proof {
            assert(statements@ =~= Seq::<Statement>::empty());
            assert(stmts_view(statements@) =~= Seq::<StmtV>::empty());
        }
        loop
            invariant
                self.wf(),
                toks == old(self).toks(),
                i0 == old(self).cur(),
                self.toks() == toks,
                i0 <= self.cur() <= toks.len(),
                base_errs == old(self).errs(),
                spec_parse_program_items(toks, i0, Seq::empty()).0 == spec_parse_program_items(
                    toks,
                    self.cur(),
                    stmts_view(statements@),
                ).0,
                spec_parse_program_items(toks, i0, Seq::empty()).1 == spec_parse_program_items(
                    toks,
                    self.cur(),
                    stmts_view(statements@),
                ).1,
                base_errs + spec_parse_program_items(toks, i0, Seq::empty()).2 == self.errs()
                    + spec_parse_program_items(toks, self.cur(), stmts_view(statements@)).2,
            decreases self.tokens.len() - self.pos,
        {
            let ghost pc = self.cur();
            let ghost accc = stmts_view(statements@);
            let ghost errs_c = self.errs();
            reveal(spec_parse_program_items);
            if matches!(self.current_token, Token::Eof) {
                proof {
                    assert(self.errs() + Seq::<Seq<char>>::empty() =~= self.errs());
                }
                if self.errors.len() == 0 {
                    proof {
                        assert(self.errs() =~= Seq::<Seq<char>>::empty());
                    }
                    return Ok(Program { statements });
                }
                let mut msgs: Vec<String> = Vec::new();
                let mut k: usize = 0;
                proof {
                    assert(errs_view(msgs@) =~= errs_view(self.errors@).subrange(0, 0int));
                }
                while k < self.errors.len()
                    invariant
                        k <= self.errors.len(),
                        errs_view(msgs@) == errs_view(self.errors@).subrange(0, k as int),
                    decreases self.errors.len() - k,
                {
                    let ghost prevm = errs_view(msgs@);
                    let m = self.errors[k].clone();
                    msgs.push(m);
                    proof {
                        assert(errs_view(msgs@) =~= prevm.push(m@));
                        assert(m@ == errs_view(self.errors@)[k as int]);
                        assert(prevm.push(m@) =~= errs_view(self.errors@).subrange(0, k + 1));
                    }
                    k = k + 1;
                }
                proof {
                    assert(errs_view(self.errors@).subrange(0, self.errors@.len() as int)
                        =~= errs_view(self.errors@));
                }
                return Err(msgs);
            }
            let st = self.parse_statement();
            match st {
                Some(stmt) => {
                    proof {
                        crate::ast::lemma_stmts_view_snoc(statements@, stmt);
                    }
                    statements.push(stmt);
                },
                None => {},
            }
            self.next_token();
            proof {
                let (sts, j, ee) = spec_parse_statement(toks, pc);
                assert(clamp_pos(j + 1, pc + 1, toks.len() as int) == self.cur());
                let enext = spec_parse_program_items(toks, self.cur(), stmts_view(statements@)).2;
                assert((errs_c + ee) + enext =~= errs_c + (ee + enext));
            }
        }
    }
}



} // verus!
