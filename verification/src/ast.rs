//! The abstract syntax tree: a pure tree with owned children, produced by the
//! parser and read by the emitter.  Each node kind has a view type whose text
//! fields are `Seq<char>` and whose lists are `Seq`, so that contracts can
//! speak of trees as mathematical values.
use vstd::prelude::*;

verus! {

/// A whole source file: its statements in order.
#[derive(Debug, PartialEq)]
pub struct Program {
    pub statements: Vec<Statement>,
}

/// A brace-delimited sequence of statements.
#[derive(Debug, PartialEq)]
pub struct Block {
    pub statements: Vec<Statement>,
}

#[derive(Debug, PartialEq)]
pub enum Statement {
    LetDecl { name: String, type_ann: Option<String>, mutable: bool, value_expr: Expr },
    Assignment { name: String, value_expr: Expr },
    ExprStatement { expr: Expr },
    If {
        condition: Expr,
        then_block: Block,
        else_if_blocks: Vec<(Expr, Block)>,
        else_block: Option<Block>,
    },
    While { condition: Expr, body_block: Block },
    Loop { body_block: Block },
    For {
        initializer: Option<Box<Statement>>,
        condition: Option<Expr>,
        increment: Option<Box<Statement>>,
        body_block: Block,
    },
    Print { expr: Expr, newline: bool },
    Break,
    Continue,
}

#[derive(Debug, PartialEq)]
pub enum Expr {
    Integer(i64),
    /// The raw decimal lexeme of a float literal, kept as written so that no
    /// rounding happens before emission.
    Float(String),
    StringLiteral(String),
    Boolean(bool),
    Identifier(String),
    BinaryOp { left: Box<Expr>, op: BinaryOperator, right: Box<Expr> },
    UnaryOp { op: UnaryOperator, expr: Box<Expr> },
    Call { callee: String, args: Vec<Expr> },
}

#[derive(Debug, PartialEq)]
pub enum BinaryOperator {
    Plus,
    Minus,
    Multiply,
    Divide,
    Modulo,
    Eq,
    NotEq,
    Lt,
    Lte,
    Gt,
    Gte,
    And,
    Or,
}

#[derive(Debug, PartialEq)]
pub enum UnaryOperator {
    Not,
    Negate,
}

// ---------------------------------------------------------------------------
// Views.
// ---------------------------------------------------------------------------

pub enum ExprV {
    Integer(i64),
    Float(Seq<char>),
    StringLiteral(Seq<char>),
    Boolean(bool),
    Identifier(Seq<char>),
    BinaryOp { left: Box<ExprV>, op: BinaryOperator, right: Box<ExprV> },
    UnaryOp { op: UnaryOperator, expr: Box<ExprV> },
    Call { callee: Seq<char>, args: Seq<ExprV> },
}

pub enum StmtV {
    LetDecl { name: Seq<char>, type_ann: Option<Seq<char>>, mutable: bool, value: ExprV },
    Assignment { name: Seq<char>, value: ExprV },
    ExprStatement { expr: ExprV },
    If {
        condition: ExprV,
        then_block: Seq<StmtV>,
        else_if_blocks: Seq<(ExprV, Seq<StmtV>)>,
        else_block: Option<Seq<StmtV>>,
    },
    While { condition: ExprV, body: Seq<StmtV> },
    Loop { body: Seq<StmtV> },
    For {
        initializer: Option<Box<StmtV>>,
        condition: Option<ExprV>,
        increment: Option<Box<StmtV>>,
        body: Seq<StmtV>,
    },
    Print { expr: ExprV, newline: bool },
    Break,
    Continue,
}

pub open spec fn expr_view(e: Expr) -> ExprV
    decreases e,
        via expr_view_decreases
{
    match e {
        Expr::Integer(v) => ExprV::Integer(v),
        Expr::Float(s) => ExprV::Float(s@),
        Expr::StringLiteral(s) => ExprV::StringLiteral(s@),
        Expr::Boolean(b) => ExprV::Boolean(b),
        Expr::Identifier(s) => ExprV::Identifier(s@),
        Expr::BinaryOp { left, op, right } => ExprV::BinaryOp {
            left: Box::new(expr_view(*left)),
            op: op,
            right: Box::new(expr_view(*right)),
        },
        Expr::UnaryOp { op, expr } => ExprV::UnaryOp { op: op, expr: Box::new(expr_view(*expr)) },
        Expr::Call { callee, args } => ExprV::Call { callee: callee@, args: exprs_view(args@) },
    }
}

#[via_fn]
proof fn expr_view_decreases(e: Expr) {
    match e {
        Expr::Call { callee, args } => {
            assert(decreases_to!(e => args));
            vstd::std_specs::vec::axiom_vec_decreases_to_view(args);
        },
        _ => {},
    }
}

/// The views of a list of expressions, in order.
pub open spec fn exprs_view(v: Seq<Expr>) -> Seq<ExprV>
    decreases v,
        via exprs_view_decreases
{
    if v.len() == 0 {
        Seq::<ExprV>::empty()
    } else {
        exprs_view(v.subrange(0, v.len() - 1)).push(expr_view(v[v.len() - 1]))
    }
}

#[via_fn]
proof fn exprs_view_decreases(v: Seq<Expr>) {
    if v.len() > 0 {
        vstd::seq::axiom_seq_subrange_decreases(v, 0, v.len() - 1);
        vstd::seq::axiom_seq_index_decreases(v, v.len() - 1);
    }
}

pub open spec fn stmt_view(s: Statement) -> StmtV
    decreases s,
        via stmt_view_decreases
{
    match s {
        Statement::LetDecl { name, type_ann, mutable, value_expr } => StmtV::LetDecl {
            name: name@,
            type_ann: match type_ann {
                Some(t) => Some(t@),
                None => None,
            },
            mutable: mutable,
            value: expr_view(value_expr),
        },
        Statement::Assignment { name, value_expr } => StmtV::Assignment {
            name: name@,
            value: expr_view(value_expr),
        },
        Statement::ExprStatement { expr } => StmtV::ExprStatement { expr: expr_view(expr) },
        Statement::If { condition, then_block, else_if_blocks, else_block } => StmtV::If {
            condition: expr_view(condition),
            then_block: stmts_view(then_block.statements@),
            else_if_blocks: elifs_view(else_if_blocks@),
            else_block: match else_block {
                Some(b) => Some(stmts_view(b.statements@)),
                None => None,
            },
        },
        Statement::While { condition, body_block } => StmtV::While {
            condition: expr_view(condition),
            body: stmts_view(body_block.statements@),
        },
        Statement::Loop { body_block } => StmtV::Loop { body: stmts_view(body_block.statements@) },
        Statement::For { initializer, condition, increment, body_block } => StmtV::For {
            initializer: match initializer {
                Some(s0) => Some(Box::new(stmt_view(*s0))),
                None => None,
            },
            condition: match condition {
                Some(c) => Some(expr_view(c)),
                None => None,
            },
            increment: match increment {
                Some(s0) => Some(Box::new(stmt_view(*s0))),
                None => None,
            },
            body: stmts_view(body_block.statements@),
        },
        Statement::Print { expr, newline } => StmtV::Print {
            expr: expr_view(expr),
            newline: newline,
        },
        Statement::Break => StmtV::Break,
        Statement::Continue => StmtV::Continue,
    }
}

#[via_fn]
proof fn stmt_view_decreases(s: Statement) {
    match s {
        Statement::If { condition, then_block, else_if_blocks, else_block } => {
            assert(decreases_to!(s => then_block));
            assert(decreases_to!(then_block => then_block.statements));
            vstd::std_specs::vec::axiom_vec_decreases_to_view(then_block.statements);
            assert(decreases_to!(s => else_if_blocks));
            vstd::std_specs::vec::axiom_vec_decreases_to_view(else_if_blocks);
            match else_block {
                Some(b) => {
                    assert(decreases_to!(s => b));
                    assert(decreases_to!(b => b.statements));
                    vstd::std_specs::vec::axiom_vec_decreases_to_view(b.statements);
                },
                None => {},
            }
        },
        Statement::While { condition, body_block } => {
            assert(decreases_to!(s => body_block));
            assert(decreases_to!(body_block => body_block.statements));
            vstd::std_specs::vec::axiom_vec_decreases_to_view(body_block.statements);
        },
        Statement::Loop { body_block } => {
            assert(decreases_to!(s => body_block));
            assert(decreases_to!(body_block => body_block.statements));
            vstd::std_specs::vec::axiom_vec_decreases_to_view(body_block.statements);
        },
        Statement::For { initializer, condition, increment, body_block } => {
            assert(decreases_to!(s => body_block));
            assert(decreases_to!(body_block => body_block.statements));
            vstd::std_specs::vec::axiom_vec_decreases_to_view(body_block.statements);
        },
        _ => {},
    }
}

/// The views of a list of statements, in order.
pub open spec fn stmts_view(v: Seq<Statement>) -> Seq<StmtV>
    decreases v,
        via stmts_view_decreases
{
    if v.len() == 0 {
        Seq::<StmtV>::empty()
    } else {
        stmts_view(v.subrange(0, v.len() - 1)).push(stmt_view(v[v.len() - 1]))
    }
}

#[via_fn]
proof fn stmts_view_decreases(v: Seq<Statement>) {
    if v.len() > 0 {
        vstd::seq::axiom_seq_subrange_decreases(v, 0, v.len() - 1);
        vstd::seq::axiom_seq_index_decreases(v, v.len() - 1);
    }
}

/// The views of the `else if` arms of an `If`, in order.
pub open spec fn elifs_view(v: Seq<(Expr, Block)>) -> Seq<(ExprV, Seq<StmtV>)>
    decreases v,
        via elifs_view_decreases
{
    if v.len() == 0 {
        Seq::<(ExprV, Seq<StmtV>)>::empty()
    } else {
        elifs_view(v.subrange(0, v.len() - 1)).push(
            (
                expr_view(v[v.len() - 1].0),
                stmts_view(v[v.len() - 1].1.statements@),
            ),
        )
    }
}

#[via_fn]
proof fn elifs_view_decreases(v: Seq<(Expr, Block)>) {
    if v.len() > 0 {
        vstd::seq::axiom_seq_subrange_decreases(v, 0, v.len() - 1);
        vstd::seq::axiom_seq_index_decreases(v, v.len() - 1);
        let pair = v[v.len() - 1];
        assert(decreases_to!(pair => pair.0));
        assert(decreases_to!(pair => pair.1));
        assert(decreases_to!(pair.1 => pair.1.statements));
        vstd::std_specs::vec::axiom_vec_decreases_to_view(pair.1.statements);
    }
}

/// `stmts_view` maps the list element by element.
pub proof fn lemma_stmts_view_index(v: Seq<Statement>)
    ensures
        stmts_view(v).len() == v.len(),
        forall|i: int| 0 <= i < v.len() ==> #[trigger] stmts_view(v)[i] == stmt_view(v[i]),
    decreases v.len(),
{
    if v.len() > 0 {
        lemma_stmts_view_index(v.subrange(0, v.len() - 1));
        assert forall|i: int| 0 <= i < v.len() implies #[trigger] stmts_view(v)[i] == stmt_view(
            v[i],
        ) by {
            if i < v.len() - 1 {
                assert(v.subrange(0, v.len() - 1)[i] == v[i]);
            }
        }
    }
}

/// `exprs_view` maps the list element by element.
pub proof fn lemma_exprs_view_index(v: Seq<Expr>)
    ensures
        exprs_view(v).len() == v.len(),
        forall|i: int| 0 <= i < v.len() ==> #[trigger] exprs_view(v)[i] == expr_view(v[i]),
    decreases v.len(),
{
    if v.len() > 0 {
        lemma_exprs_view_index(v.subrange(0, v.len() - 1));
        assert forall|i: int| 0 <= i < v.len() implies #[trigger] exprs_view(v)[i] == expr_view(
            v[i],
        ) by {
            if i < v.len() - 1 {
                assert(v.subrange(0, v.len() - 1)[i] == v[i]);
            }
        }
    }
}

/// `elifs_view` maps the list element by element.
pub proof fn lemma_elifs_view_index(v: Seq<(Expr, Block)>)
    ensures
        elifs_view(v).len() == v.len(),
        forall|i: int|
            0 <= i < v.len() ==> #[trigger] elifs_view(v)[i] == (
                expr_view(v[i].0),
                stmts_view(v[i].1.statements@),
            ),
    decreases v.len(),
{
    if v.len() > 0 {
        lemma_elifs_view_index(v.subrange(0, v.len() - 1));
        assert forall|i: int|
            0 <= i < v.len() implies #[trigger] elifs_view(v)[i] == (
            expr_view(v[i].0),
            stmts_view(v[i].1.statements@),
        ) by {
            if i < v.len() - 1 {
                assert(v.subrange(0, v.len() - 1)[i] == v[i]);
            }
        }
    }
}

/// Appending one statement appends one view.
pub proof fn lemma_stmts_view_snoc(v: Seq<Statement>, s: Statement)
    ensures
        stmts_view(v.push(s)) == stmts_view(v).push(stmt_view(s)),
{
    assert(v.push(s).subrange(0, v.push(s).len() - 1) =~= v);
    assert(v.push(s)[v.push(s).len() - 1] == s);
}

/// Appending one expression appends one view.
pub proof fn lemma_exprs_view_snoc(v: Seq<Expr>, e: Expr)
    ensures
        exprs_view(v.push(e)) == exprs_view(v).push(expr_view(e)),
{
    assert(v.push(e).subrange(0, v.push(e).len() - 1) =~= v);
    assert(v.push(e)[v.push(e).len() - 1] == e);
}

/// Appending one `else if` arm appends one view.
pub proof fn lemma_elifs_view_snoc(v: Seq<(Expr, Block)>, p: (Expr, Block))
    ensures
        elifs_view(v.push(p)) == elifs_view(v).push(
            (expr_view(p.0), stmts_view(p.1.statements@)),
        ),
{
    assert(v.push(p).subrange(0, v.push(p).len() - 1) =~= v);
    assert(v.push(p)[v.push(p).len() - 1] == p);
}

/// The view of a block: the views of its statements.
pub open spec fn block_view(b: Block) -> Seq<StmtV> {
    stmts_view(b.statements@)
}

/// The view of a program: the views of its statements.
pub open spec fn program_view(p: Program) -> Seq<StmtV> {
    stmts_view(p.statements@)
}

} // verus!
