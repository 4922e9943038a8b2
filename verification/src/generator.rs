//! The emitter: walks an AST and produces the target-language program text.
//! Pure function from tree to string; `emit_program` is the text's exact
//! mathematical description, and every operator application comes out fully
//! parenthesized so that no precedence table of the target is needed.
use crate::ast::Block;
use crate::ast::BinaryOperator;
use crate::ast::Expr;
use crate::ast::ExprV;
use crate::ast::Program;
use crate::ast::Statement;
use crate::ast::StmtV;
use crate::ast::UnaryOperator;
use crate::ast::block_view;
use crate::ast::elifs_view;
use crate::ast::expr_view;
use crate::ast::exprs_view;
use crate::ast::lemma_elifs_view_index;
use crate::ast::lemma_exprs_view_index;
use crate::ast::lemma_stmts_view_index;
use crate::ast::program_view;
use crate::ast::stmt_view;
use crate::ast::stmts_view;
use crate::strfmt::append_escaped;
use crate::strfmt::append_i64;
use crate::strfmt::dec_int_rep;
use crate::strfmt::escape_seq;
use crate::strfmt::push_char;
use vstd::prelude::*;
use vstd::string::*;

verus! {

/// The error reserved for impossible emission states; nothing constructs it
/// in the current grammar, but callers must propagate it if it ever appears.
#[derive(Debug, Clone, PartialEq)]
pub struct GenerationError(pub String);

impl GenerationError {
    /// The error text, prefixed as it is shown to the user.
    pub fn message_line(&self) -> (r: String)
        ensures
            r@ == "Generation Error: "@ + self.0@,
    {
        let mut out = String::from_str("Generation Error: ");
        out.append(self.0.as_str());
        out
    }
}

// ---------------------------------------------------------------------------
// The emission spec.
// ---------------------------------------------------------------------------

/// Four spaces: one level of indentation.
pub open spec fn ind_unit() -> Seq<char> {
    "    "@
}

/// How a source-language type name is written in the target language; an
/// unknown name is passed through as written.
pub open spec fn map_type_text(t: Seq<char>) -> Seq<char> {
    if t == "int"@ {
        "i64"@
    } else if t == "float"@ {
        "f64"@
    } else if t == "bool"@ {
        "bool"@
    } else if t == "string"@ {
        "String"@
    } else {
        t
    }
}

pub open spec fn bin_op_text(op: BinaryOperator) -> Seq<char> {
    match op {
        BinaryOperator::Plus => " + "@,
        BinaryOperator::Minus => " - "@,
        BinaryOperator::Multiply => " * "@,
        BinaryOperator::Divide => " / "@,
        BinaryOperator::Modulo => " % "@,
        BinaryOperator::Eq => " == "@,
        BinaryOperator::NotEq => " != "@,
        BinaryOperator::Lt => " < "@,
        BinaryOperator::Lte => " <= "@,
        BinaryOperator::Gt => " > "@,
        BinaryOperator::Gte => " >= "@,
        BinaryOperator::And => " && "@,
        BinaryOperator::Or => " || "@,
    }
}

pub open spec fn un_op_text(op: UnaryOperator) -> Seq<char> {
    match op {
        UnaryOperator::Not => "!"@,
        UnaryOperator::Negate => "-"@,
    }
}

/// Index of the first `.` in `s` at or after `i`, or the length.
pub open spec fn dot_pos(s: Seq<char>, i: int) -> int
    decreases s.len() - i,
{
    if i < s.len() && 0 <= i && s[i] != '.' {
        dot_pos(s, i + 1)
    } else {
        i
    }
}

/// Drops leading zeros, keeping at least one character.
pub open spec fn strip_leading_zeros(s: Seq<char>) -> Seq<char>
    decreases s.len(),
{
    if s.len() > 1 && s[0] == '0' {
        strip_leading_zeros(s.subrange(1, s.len() as int))
    } else {
        s
    }
}

/// Drops trailing zeros, possibly all of them.
pub open spec fn strip_trailing_zeros(s: Seq<char>) -> Seq<char>
    decreases s.len(),
{
    if s.len() > 0 && s[s.len() - 1] == '0' {
        strip_trailing_zeros(s.subrange(0, s.len() - 1))
    } else {
        s
    }
}

/// The decimal form in which a float lexeme is emitted: redundant zeros are
/// dropped on both sides, and a fractional part with nothing left becomes
/// `.0` so that the literal stays a float in the target language.
pub open spec fn float_text(lex: Seq<char>) -> Seq<char> {
    let d = dot_pos(lex, 0);
    let ip0 = lex.subrange(0, d);
    let ip = if ip0.len() == 0 {
        "0"@
    } else {
        strip_leading_zeros(ip0)
    };
    let fp0 = if d < lex.len() {
        lex.subrange(d + 1, lex.len() as int)
    } else {
        Seq::<char>::empty()
    };
    let fp = strip_trailing_zeros(fp0);
    if fp.len() == 0 {
        ip + ".0"@
    } else {
        ip + "."@ + fp
    }
}

/// The emitted text of one expression.
pub open spec fn emit_expr(e: ExprV) -> Seq<char>
    decreases e,
{
    match e {
        ExprV::Integer(v) => dec_int_rep(v as int) + "_i64"@,
        ExprV::Float(lex) => float_text(lex) + "_f64"@,
        ExprV::StringLiteral(s) => "\""@ + escape_seq(s) + "\""@,
        ExprV::Boolean(b) => if b {
            "true"@
        } else {
            "false"@
        },
        ExprV::Identifier(name) => name,
        ExprV::BinaryOp { left, op, right } => "("@ + emit_expr(*left) + bin_op_text(op)
            + emit_expr(*right) + ")"@,
        ExprV::UnaryOp { op, expr } => "("@ + un_op_text(op) + emit_expr(*expr) + ")"@,
        ExprV::Call { callee, args } => callee + "("@ + emit_args(args) + ")"@,
    }
}

/// The emitted text of a comma-separated argument list.
pub open spec fn emit_args(args: Seq<ExprV>) -> Seq<char>
    decreases args,
        via emit_args_decreases
{
    if args.len() == 0 {
        Seq::<char>::empty()
    } else if args.len() == 1 {
        emit_expr(args[0])
    } else {
        emit_args(args.subrange(0, args.len() - 1)) + ", "@ + emit_expr(args[args.len() - 1])
    }
}

#[via_fn]
proof fn emit_args_decreases(args: Seq<ExprV>) {
    if args.len() > 1 {
        vstd::seq::axiom_seq_subrange_decreases(args, 0, args.len() - 1);
        vstd::seq::axiom_seq_index_decreases(args, args.len() - 1);
    } else if args.len() == 1 {
        vstd::seq::axiom_seq_index_decreases(args, 0);
    }
}

/// The emitted text of one statement, at the given indentation.
pub open spec fn emit_stmt(s: StmtV, ind: Seq<char>) -> Seq<char>
    decreases s, 2int,
{
    match s {
        StmtV::LetDecl { name, type_ann, mutable, value } => ind + "let "@ + (if mutable {
            "mut "@
        } else {
            Seq::<char>::empty()
        }) + name + (match type_ann {
            Some(t) => ": "@ + map_type_text(t),
            None => Seq::<char>::empty(),
        }) + " = "@ + emit_expr(value) + ";\n"@,
        StmtV::Assignment { name, value } => ind + name + " = "@ + emit_expr(value) + ";\n"@,
        StmtV::ExprStatement { expr } => ind + emit_expr(expr) + ";\n"@,
        StmtV::If { condition, then_block, else_if_blocks, else_block } => ind + "if "@ + emit_expr(
            condition,
        ) + " "@ + emit_block(then_block, ind) + emit_elifs(else_if_blocks, ind) + (match else_block {
            Some(b) => " else "@ + emit_block(b, ind),
            None => Seq::<char>::empty(),
        }) + "\n"@,
        StmtV::While { condition, body } => ind + "while "@ + emit_expr(condition) + " "@
            + emit_block(body, ind) + "\n"@,
        StmtV::Loop { body } => ind + "loop "@ + emit_block(body, ind) + "\n"@,
        StmtV::For { initializer, condition, increment, body } => ind + (match initializer {
            Some(s0) => emit_stmt(*s0, Seq::<char>::empty()) + ind,
            None => Seq::<char>::empty(),
        }) + "while "@ + (match condition {
            Some(c) => emit_expr(c),
            None => "true"@,
        }) + " {\n"@ + emit_stmts(body, ind + ind_unit()) + (match increment {
            Some(s0) => emit_stmt(*s0, ind + ind_unit()),
            None => Seq::<char>::empty(),
        }) + ind + "}\n"@,
        StmtV::Print { expr, newline } => ind + (if newline {
            "println!"@
        } else {
            "print!"@
        }) + "(\"{}\", "@ + emit_expr(expr) + ");\n"@,
        StmtV::Break => ind + "break;\n"@,
        StmtV::Continue => ind + "continue;\n"@,
    }
}

/// The emitted text of a statement list, each statement at `ind`.
pub open spec fn emit_stmts(v: Seq<StmtV>, ind: Seq<char>) -> Seq<char>
    decreases v, 0int,
        via emit_stmts_decreases
{
    if v.len() == 0 {
        Seq::<char>::empty()
    } else {
        emit_stmts(v.subrange(0, v.len() - 1), ind) + emit_stmt(v[v.len() - 1], ind)
    }
}

#[via_fn]
proof fn emit_stmts_decreases(v: Seq<StmtV>, ind: Seq<char>) {
    if v.len() > 0 {
        vstd::seq::axiom_seq_subrange_decreases(v, 0, v.len() - 1);
        vstd::seq::axiom_seq_index_decreases(v, v.len() - 1);
    }
}

/// The emitted text of a block: braces around its statements, one level in.
pub open spec fn emit_block(b: Seq<StmtV>, ind: Seq<char>) -> Seq<char>
    decreases b, 1int,
{
    "{\n"@ + emit_stmts(b, ind + ind_unit()) + ind + "}"@
}

/// The emitted text of a chain of `else if` arms.
pub open spec fn emit_elifs(v: Seq<(ExprV, Seq<StmtV>)>, ind: Seq<char>) -> Seq<char>
    decreases v, 0int,
        via emit_elifs_decreases
{
    if v.len() == 0 {
        Seq::<char>::empty()
    } else {
        emit_elifs(v.subrange(0, v.len() - 1), ind) + " else if "@ + emit_expr(v[v.len() - 1].0)
            + " "@ + emit_block(v[v.len() - 1].1, ind)
    }
}

#[via_fn]
proof fn emit_elifs_decreases(v: Seq<(ExprV, Seq<StmtV>)>, ind: Seq<char>) {
    if v.len() > 0 {
        vstd::seq::axiom_seq_subrange_decreases(v, 0, v.len() - 1);
        vstd::seq::axiom_seq_index_decreases(v, v.len() - 1);
        let pair = v[v.len() - 1];
        assert(decreases_to!(pair => pair.0));
        assert(decreases_to!(pair => pair.1));
    }
}

/// The whole emitted program: the statements inside the entry point.
pub open spec fn emit_program(p: Seq<StmtV>) -> Seq<char> {
    "fn main() {\n"@ + emit_stmts(p, ind_unit()) + "}\n"@
}

// ---------------------------------------------------------------------------
// Helper lemmas about the emission spec.
// ---------------------------------------------------------------------------

/// Extending a statement list extends its text on the right.
pub proof fn lemma_emit_stmts_snoc(v: Seq<StmtV>, s: StmtV, ind: Seq<char>)
    ensures
        emit_stmts(v.push(s), ind) == emit_stmts(v, ind) + emit_stmt(s, ind),
{
    assert(v.push(s).subrange(0, v.push(s).len() - 1) =~= v);
    assert(v.push(s)[v.push(s).len() - 1] == s);
}

/// Extending an argument list extends its text on the right.
pub proof fn lemma_emit_args_snoc(v: Seq<ExprV>, e: ExprV)
    ensures
        emit_args(v.push(e)) == if v.len() == 0 {
            emit_expr(e)
        } else {
            emit_args(v) + ", "@ + emit_expr(e)
        },
{
    assert(v.push(e).subrange(0, v.push(e).len() - 1) =~= v);
    assert(v.push(e)[v.push(e).len() - 1] == e);
}

/// Extending an `else if` chain extends its text on the right.
pub proof fn lemma_emit_elifs_snoc(v: Seq<(ExprV, Seq<StmtV>)>, p: (ExprV, Seq<StmtV>), ind: Seq<char>)
    ensures
        emit_elifs(v.push(p), ind) == emit_elifs(v, ind) + " else if "@ + emit_expr(p.0) + " "@
            + emit_block(p.1, ind),
{
    assert(v.push(p).subrange(0, v.push(p).len() - 1) =~= v);
    assert(v.push(p)[v.push(p).len() - 1] == p);
}

// ---------------------------------------------------------------------------
// The executable emitter.
// ---------------------------------------------------------------------------

/// Maps a source-language type name to the target's.
fn map_type(simple_type: &str) -> (r: String)
    ensures
        r@ == map_type_text(simple_type@),
{
    if crate::strfmt::str_eq(simple_type, "int") {
        String::from_str("i64")
    } else if crate::strfmt::str_eq(simple_type, "float") {
        String::from_str("f64")
    } else if crate::strfmt::str_eq(simple_type, "bool") {
        String::from_str("bool")
    } else if crate::strfmt::str_eq(simple_type, "string") {
        String::from_str("String")
    } else {
        simple_type.to_owned()
    }
}

/// Appends the emitted decimal form of a float lexeme.
fn append_float_text(out: &mut String, lex: &String)
    ensures
        final(out)@ == old(out)@ + float_text(lex@),
{
    let n = lex.as_str().unicode_len();
    // Find the dot.
    let mut d: usize = 0;
    while d < n && lex.as_str().get_char(d) != '.'
        invariant
            n == lex@.len(),
            0 <= d <= n,
            dot_pos(lex@, 0) == dot_pos(lex@, d as int),
        decreases n - d,
    {
        d = d + 1;
    }
    proof {
        assert(dot_pos(lex@, 0) == d as int);
    }
    // Integer part: strip leading zeros, keeping one digit.
    if d == 0 {
        out.append("0");
        proof {
            assert(lex@.subrange(0, 0int).len() == 0);
        }
    } else {
        let mut k: usize = 0;
        while k + 1 < d && lex.as_str().get_char(k) == '0'
            invariant
                n == lex@.len(),
                0 <= k < d <= n,
                strip_leading_zeros(lex@.subrange(k as int, d as int)) == strip_leading_zeros(
                    lex@.subrange(0, d as int),
                ),
            decreases d - k,
        {
            proof {
                assert(lex@.subrange(k as int, d as int).subrange(
                    1,
                    lex@.subrange(k as int, d as int).len() as int,
                ) =~= lex@.subrange(k + 1, d as int));
            }
            k = k + 1;
        }
        proof {
            assert(strip_leading_zeros(lex@.subrange(k as int, d as int)) == lex@.subrange(
                k as int,
                d as int,
            ));
        }
        let mut i: usize = k;
        while i < d
            invariant
                n == lex@.len(),
                k <= i <= d <= n,
                out@ == old(out)@ + lex@.subrange(k as int, i as int),
            decreases d - i,
        {
            let c = lex.as_str().get_char(i);
            push_char(out, c);
            i = i + 1;
            proof {
                assert(out@ =~= old(out)@ + lex@.subrange(k as int, i as int));
            }
        }
    }
    // Fractional part: strip trailing zeros; emit `.0` when nothing is left.
    let fstart = if d < n {
        d + 1
    } else {
        n
    };
    let mut m: usize = n;
    while m > fstart && lex.as_str().get_char(m - 1) == '0'
        invariant
            n == lex@.len(),
            fstart <= m <= n,
            fstart == if (d as int) < n as int {
                d + 1
            } else {
                n as int
            },
            strip_trailing_zeros(lex@.subrange(fstart as int, m as int)) == strip_trailing_zeros(
                lex@.subrange(fstart as int, n as int),
            ),
        decreases m,
    {
        proof {
            assert(lex@.subrange(fstart as int, m as int).subrange(
                0,
                lex@.subrange(fstart as int, m as int).len() - 1,
            ) =~= lex@.subrange(fstart as int, m - 1));
        }
        m = m - 1;
    }
    proof {
        assert(strip_trailing_zeros(lex@.subrange(fstart as int, m as int)) == lex@.subrange(
            fstart as int,
            m as int,
        ));
        if (d as int) < lex@.len() {
            assert(lex@.subrange(fstart as int, n as int) =~= lex@.subrange(
                d + 1,
                lex@.len() as int,
            ));
        } else {
            assert(lex@.subrange(fstart as int, n as int).len() == 0);
            assert(strip_trailing_zeros(Seq::<char>::empty()).len() == 0);
        }
    }
    if m == fstart {
        out.append(".0");
    } else {
        out.append(".");
        let mut i: usize = fstart;
        let ghost mark = out@;
        while i < m
            invariant
                n == lex@.len(),
                fstart <= i <= m <= n,
                out@ == mark + lex@.subrange(fstart as int, i as int),
            decreases m - i,
        {
            let c = lex.as_str().get_char(i);
            push_char(out, c);
            i = i + 1;
            proof {
                assert(out@ =~= mark + lex@.subrange(fstart as int, i as int));
            }
        }
    }
    proof {
        assert(final(out)@ =~= old(out)@ + float_text(lex@));
    }
}

/// Appends the emitted text of one expression.
fn generate_expression(e: &Expr, out: &mut String)
    ensures
        final(out)@ == old(out)@ + emit_expr(expr_view(*e)),
    decreases *e,
{
    match e {
        Expr::Integer(v) => {
            append_i64(out, *v);
            out.append("_i64");
            proof {
                assert(final(out)@ =~= old(out)@ + emit_expr(expr_view(*e)));
            }
        },
        Expr::Float(lex) => {
            append_float_text(out, lex);
            out.append("_f64");
            proof {
                assert(final(out)@ =~= old(out)@ + emit_expr(expr_view(*e)));
            }
        },
        Expr::StringLiteral(s) => {
            out.append("\"");
            append_escaped(out, s);
            out.append("\"");
            proof {
                assert(final(out)@ =~= old(out)@ + emit_expr(expr_view(*e)));
            }
        },
        Expr::Boolean(b) => {
            if *b {
                out.append("true");
            } else {
                out.append("false");
            }
        },
        Expr::Identifier(name) => {
            out.append(name.as_str());
        },
        Expr::BinaryOp { left, op, right } => {
            out.append("(");
            generate_expression(left, out);
            let op_text: &str = match op {
                BinaryOperator::Plus => " + ",
                BinaryOperator::Minus => " - ",
                BinaryOperator::Multiply => " * ",
                BinaryOperator::Divide => " / ",
                BinaryOperator::Modulo => " % ",
                BinaryOperator::Eq => " == ",
                BinaryOperator::NotEq => " != ",
                BinaryOperator::Lt => " < ",
                BinaryOperator::Lte => " <= ",
                BinaryOperator::Gt => " > ",
                BinaryOperator::Gte => " >= ",
                BinaryOperator::And => " && ",
                BinaryOperator::Or => " || ",
            };
            out.append(op_text);
            generate_expression(right, out);
            out.append(")");
            proof {
                assert(final(out)@ =~= old(out)@ + emit_expr(expr_view(*e)));
            }
        },
        Expr::UnaryOp { op, expr } => {
            out.append("(");
            match op {
                UnaryOperator::Not => out.append("!"),
                UnaryOperator::Negate => out.append("-"),
            }
            generate_expression(expr, out);
            out.append(")");
            proof {
                assert(final(out)@ =~= old(out)@ + emit_expr(expr_view(*e)));
            }
        },
        Expr::Call { callee, args } => {
            out.append(callee.as_str());
            out.append("(");
            let ghost mark = out@;
            let mut i: usize = 0;
            while i < args.len()
                invariant
                    i <= args.len(),
                    out@ == mark + emit_args(exprs_view(args@.subrange(0, i as int))),
                    decreases_to!(*e => *args),
                decreases args.len() - i,
            {
                if i > 0 {
                    out.append(", ");
                }
                proof {
                    vstd::std_specs::vec::axiom_vec_decreases_to_view(*args);
                    vstd::seq::axiom_seq_index_decreases(args@, i as int);
                    lemma_exprs_view_index(args@.subrange(0, i as int));
                }
                generate_expression(&args[i], out);
                proof {
                    let prev = exprs_view(args@.subrange(0, i as int));
                    assert(exprs_view(args@.subrange(0, i + 1)) =~= prev.push(
                        expr_view(args@[i as int]),
                    )) by {
                        lemma_exprs_view_index(args@.subrange(0, i + 1));
                        lemma_exprs_view_index(args@.subrange(0, i as int));
                        assert forall|j: int| 0 <= j < i + 1 implies args@.subrange(0, i + 1)[j]
                            == args@[j] by {}
                    }
                    lemma_emit_args_snoc(prev, expr_view(args@[i as int]));
                    assert(prev.len() == i as int);
                    assert(out@ =~= mark + emit_args(exprs_view(args@.subrange(0, i + 1))));
                }
                i = i + 1;
            }
            out.append(")");
            proof {
                assert(args@.subrange(0, args@.len() as int) =~= args@);
                assert(final(out)@ =~= old(out)@ + emit_expr(expr_view(*e)));
            }
        },
    }
}

/// Appends the emitted text of a chain of `else if` arms.
fn generate_elif_chain(else_if_blocks: &Vec<(Expr, Block)>, out: &mut String, ind: &String)
    ensures
        final(out)@ == old(out)@ + emit_elifs(elifs_view(else_if_blocks@), ind@),
    decreases *else_if_blocks, 2int,
{
    let ghost mark = out@;
    let mut i: usize = 0;
    while i < else_if_blocks.len()
        invariant
            i <= else_if_blocks.len(),
            out@ == mark + emit_elifs(elifs_view(else_if_blocks@.subrange(0, i as int)), ind@),
        decreases else_if_blocks.len() - i,
    {
        out.append(" else if ");
        proof {
            vstd::std_specs::vec::axiom_vec_decreases_to_view(*else_if_blocks);
            vstd::seq::axiom_seq_index_decreases(else_if_blocks@, i as int);
            let pair = else_if_blocks@[i as int];
            assert(decreases_to!(pair => pair.0));
            assert(decreases_to!(pair => pair.1));
        }
        generate_expression(&else_if_blocks[i].0, out);
        out.append(" ");
        generate_block(&else_if_blocks[i].1, out, ind);
        proof {
            let prev = elifs_view(else_if_blocks@.subrange(0, i as int));
            let pv = (
                expr_view(else_if_blocks@[i as int].0),
                stmts_view(else_if_blocks@[i as int].1.statements@),
            );
            assert(elifs_view(else_if_blocks@.subrange(0, i + 1)) =~= prev.push(pv)) by {
                lemma_elifs_view_index(else_if_blocks@.subrange(0, i + 1));
                lemma_elifs_view_index(else_if_blocks@.subrange(0, i as int));
                assert forall|j: int| 0 <= j < i + 1 implies else_if_blocks@.subrange(0, i + 1)[j]
                    == else_if_blocks@[j] by {}
            }
            lemma_emit_elifs_snoc(prev, pv, ind@);
            assert(out@ =~= mark + emit_elifs(
                elifs_view(else_if_blocks@.subrange(0, i + 1)),
                ind@,
            ));
        }
        i = i + 1;
    }
    proof {
        assert(else_if_blocks@.subrange(0, else_if_blocks@.len() as int) =~= else_if_blocks@);
    }
}

/// Appends the emitted text of one statement at the given indentation.
#[verifier::rlimit(100)]
fn generate_statement(statement: &Statement, out: &mut String, ind: &String)
    ensures
        final(out)@ == old(out)@ + emit_stmt(stmt_view(*statement), ind@),
    decreases *statement, 2int,
{
    out.append(ind.as_str());
    match statement {
        Statement::LetDecl { name, type_ann, mutable, value_expr } => {
            out.append("let ");
            if *mutable {
                out.append("mut ");
            }
            out.append(name.as_str());
            match type_ann {
                Some(t) => {
                    out.append(": ");
                    let mapped = map_type(t.as_str());
                    out.append(mapped.as_str());
                },
                None => {},
            }
            out.append(" = ");
            generate_expression(value_expr, out);
            out.append(";\n");
            proof {
                assert(final(out)@ =~= old(out)@ + emit_stmt(stmt_view(*statement), ind@));
            }
        },
        Statement::Assignment { name, value_expr } => {
            out.append(name.as_str());
            out.append(" = ");
            generate_expression(value_expr, out);
            out.append(";\n");
            proof {
                assert(final(out)@ =~= old(out)@ + emit_stmt(stmt_view(*statement), ind@));
            }
        },
        Statement::ExprStatement { expr } => {
            generate_expression(expr, out);
            out.append(";\n");
            proof {
                assert(final(out)@ =~= old(out)@ + emit_stmt(stmt_view(*statement), ind@));
            }
        },
        Statement::If { condition, then_block, else_if_blocks, else_block } => {
            out.append("if ");
            generate_expression(condition, out);
            out.append(" ");
            proof {
                assert(decreases_to!(*statement => *then_block));
                assert(decreases_to!(*statement => *else_if_blocks));
            }
            generate_block(then_block, out, ind);
            generate_elif_chain(else_if_blocks, out, ind);
            match else_block {
                Some(b) => {
                    out.append(" else ");
                    proof {
                        assert(decreases_to!(*statement => *b));
                    }
                    generate_block(b, out, ind);
                },
                None => {},
            }
            out.append("\n");
            proof {
                assert(final(out)@ =~= old(out)@ + emit_stmt(stmt_view(*statement), ind@));
            }
        },
        Statement::While { condition, body_block } => {
            out.append("while ");
            generate_expression(condition, out);
            out.append(" ");
            proof {
                assert(decreases_to!(*statement => *body_block));
            }
            generate_block(body_block, out, ind);
            out.append("\n");
            proof {
                assert(final(out)@ =~= old(out)@ + emit_stmt(stmt_view(*statement), ind@));
            }
        },
        Statement::Loop { body_block } => {
            out.append("loop ");
            proof {
                assert(decreases_to!(*statement => *body_block));
            }
            generate_block(body_block, out, ind);
            out.append("\n");
            proof {
                assert(final(out)@ =~= old(out)@ + emit_stmt(stmt_view(*statement), ind@));
            }
        },
        Statement::For { initializer, condition, increment, body_block } => {
            match initializer {
                Some(init) => {
                    let empty_ind = String::new();
                    proof {
                        assert(decreases_to!(*statement => *initializer));
                        assert(decreases_to!(*initializer => **init));
                    }
                    generate_statement(init, out, &empty_ind);
                    out.append(ind.as_str());
                },
                None => {},
            }
            out.append("while ");
            match condition {
                Some(c) => generate_expression(c, out),
                None => out.append("true"),
            }
            out.append(" {\n");
            let mut deeper = ind.clone();
            deeper.append("    ");
            proof {
                assert(decreases_to!(*statement => *body_block));
            }
            generate_block_inner(body_block, out, &deeper);
            match increment {
                Some(inc) => {
                    proof {
                        assert(decreases_to!(*statement => *increment));
                        assert(decreases_to!(*increment => **inc));
                    }
                    generate_statement(inc, out, &deeper);
                },
                None => {},
            }
            out.append(ind.as_str());
            out.append("}\n");
            proof {
                assert(final(out)@ =~= old(out)@ + emit_stmt(stmt_view(*statement), ind@));
            }
        },
        Statement::Print { expr, newline } => {
            if *newline {
                out.append("println!");
            } else {
                out.append("print!");
            }
            out.append("(\"{}\", ");
            generate_expression(expr, out);
            out.append(");\n");
            proof {
                assert(final(out)@ =~= old(out)@ + emit_stmt(stmt_view(*statement), ind@));
            }
        },
        Statement::Break => {
            out.append("break;\n");
            proof {
                assert(final(out)@ =~= old(out)@ + emit_stmt(stmt_view(*statement), ind@));
            }
        },
        Statement::Continue => {
            out.append("continue;\n");
            proof {
                assert(final(out)@ =~= old(out)@ + emit_stmt(stmt_view(*statement), ind@));
            }
        },
    }
}

/// Appends the statements of a block, each one level deeper than `ind`;
/// `deeper` must already be that indentation.
fn generate_block_inner(block: &Block, out: &mut String, deeper: &String)
    ensures
        final(out)@ == old(out)@ + emit_stmts(block_view(*block), deeper@),
    decreases *block, 0int,
{
    let ghost mark = out@;
    let mut i: usize = 0;
    while i < block.statements.len()
        invariant
            i <= block.statements.len(),
            out@ == mark + emit_stmts(stmts_view(block.statements@.subrange(0, i as int)), deeper@),
            decreases_to!(*block => block.statements),
        decreases block.statements.len() - i,
    {
        proof {
            vstd::std_specs::vec::axiom_vec_decreases_to_view(block.statements);
            vstd::seq::axiom_seq_index_decreases(block.statements@, i as int);
        }
        generate_statement(&block.statements[i], out, deeper);
        proof {
            let prev = stmts_view(block.statements@.subrange(0, i as int));
            let sv = stmt_view(block.statements@[i as int]);
            assert(stmts_view(block.statements@.subrange(0, i + 1)) =~= prev.push(sv)) by {
                lemma_stmts_view_index(block.statements@.subrange(0, i + 1));
                lemma_stmts_view_index(block.statements@.subrange(0, i as int));
                assert forall|j: int| 0 <= j < i + 1 implies block.statements@.subrange(0, i + 1)[j]
                    == block.statements@[j] by {}
            }
            lemma_emit_stmts_snoc(prev, sv, deeper@);
            assert(out@ =~= mark + emit_stmts(
                stmts_view(block.statements@.subrange(0, i + 1)),
                deeper@,
            ));
        }
        i = i + 1;
    }
    proof {
        assert(block.statements@.subrange(0, block.statements@.len() as int)
            =~= block.statements@);
    }
}

/// Appends the emitted text of a block: braces, statements one level deeper,
/// closing brace back at `ind`.
fn generate_block(block: &Block, out: &mut String, ind: &String)
    ensures
        final(out)@ == old(out)@ + emit_block(block_view(*block), ind@),
    decreases *block, 1int,
{
    out.append("{\n");
    let mut deeper = ind.clone();
    deeper.append("    ");
    generate_block_inner(block, out, &deeper);
    out.append(ind.as_str());
    out.append("}");
    proof {
        assert(final(out)@ =~= old(out)@ + emit_block(block_view(*block), ind@));
    }
}

/// Emits the whole program: its statements inside the target's entry point.
/// Emission cannot fail in the current grammar, so the result is always the
/// program text.
pub fn generate(program: &Program) -> (r: Result<String, GenerationError>)
    ensures
        r matches Ok(code) && code@ == emit_program(program_view(*program)),
{
    let mut out = String::from_str("fn main() {\n");
    let ind = String::from_str("    ");
    let ghost mark = out@;
    let mut i: usize = 0;
    while i < program.statements.len()
        invariant
            i <= program.statements.len(),
            ind@ == ind_unit(),
            out@ == mark + emit_stmts(stmts_view(program.statements@.subrange(0, i as int)), ind@),
        decreases program.statements.len() - i,
    {
        generate_statement(&program.statements[i], &mut out, &ind);
        proof {
            let prev = stmts_view(program.statements@.subrange(0, i as int));
            let sv = stmt_view(program.statements@[i as int]);
            assert(stmts_view(program.statements@.subrange(0, i + 1)) =~= prev.push(sv)) by {
                lemma_stmts_view_index(program.statements@.subrange(0, i + 1));
                lemma_stmts_view_index(program.statements@.subrange(0, i as int));
                assert forall|j: int|
                    0 <= j < i + 1 implies program.statements@.subrange(0, i + 1)[j]
                    == program.statements@[j] by {}
            }
            lemma_emit_stmts_snoc(prev, sv, ind@);
            assert(out@ =~= mark + emit_stmts(
                stmts_view(program.statements@.subrange(0, i + 1)),
                ind@,
            ));
        }
        i = i + 1;
    }
    out.append("}\n");
    proof {
        assert(program.statements@.subrange(0, program.statements@.len() as int)
            =~= program.statements@);
        assert(out@ =~= emit_program(program_view(*program)));
    }
    Ok(out)
}

} // verus!
