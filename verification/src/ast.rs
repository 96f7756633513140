use crate::render::{dec_int, i64_to_string};
use crate::token::{Token, TokenV};
use vstd::prelude::*;

verus! {

/// A literal as written in source.
#[derive(Debug)]
pub enum Literal {
    Number(i64),
    String(String),
    True,
    False,
    Nil,
}

/// Mathematical model of a literal.
pub enum LiteralV {
    Number(i64),
    StrLit(Seq<char>),
    True,
    False,
    Nil,
}

impl View for Literal {
    type V = LiteralV;

    open spec fn view(&self) -> LiteralV {
        match self {
            Literal::Number(n) => LiteralV::Number(*n),
            Literal::String(s) => LiteralV::StrLit(s@),
            Literal::True => LiteralV::True,
            Literal::False => LiteralV::False,
            Literal::Nil => LiteralV::Nil,
        }
    }
}

/// A binary operator.
#[derive(Clone, Copy, Debug, PartialEq, Eq, Structural)]
pub enum BinOp {
    EqualEqual,
    BangEqual,
    Less,
    LessEqual,
    Greater,
    GreaterEqual,
    Plus,
    Minus,
    Star,
    Slash,
}

/// A prefix unary operator.
#[derive(Clone, Copy, Debug, PartialEq, Eq, Structural)]
pub enum UnOp {
    Minus,
    Bang,
}

/// An expression node.
#[derive(Debug)]
pub enum Expr {
    Literal(Literal),
    Grouping { expression: Box<Expr> },
    Unary { operator: UnOp, right: Box<Expr> },
    Binary { left: Box<Expr>, operator: BinOp, right: Box<Expr> },
    Variable { token: Token },
    Assign { token: Token, value: Box<Expr> },
}

/// Mathematical model of an expression.
pub enum ExprV {
    Literal(LiteralV),
    Grouping(Box<ExprV>),
    Unary(UnOp, Box<ExprV>),
    Binary(Box<ExprV>, BinOp, Box<ExprV>),
    Variable(TokenV),
    Assign(TokenV, Box<ExprV>),
}

/// The model of an expression node.
pub open spec fn view_expr(e: Expr) -> ExprV
    decreases e,
{
    match e {
        Expr::Literal(l) => ExprV::Literal(l@),
        Expr::Grouping { expression } => ExprV::Grouping(Box::new(view_expr(*expression))),
        Expr::Unary { operator, right } => ExprV::Unary(operator, Box::new(view_expr(*right))),
        Expr::Binary { left, operator, right } => ExprV::Binary(
            Box::new(view_expr(*left)),
            operator,
            Box::new(view_expr(*right)),
        ),
        Expr::Variable { token } => ExprV::Variable(token@),
        Expr::Assign { token, value } => ExprV::Assign(token@, Box::new(view_expr(*value))),
    }
}

/// A statement node.
#[derive(Debug)]
pub enum Stmt {
    ExprStmt(Expr),
    PrintStmt(Expr),
    Block(Vec<Decl>),
}

/// A declaration node: a variable declaration or a statement. A program
/// is an ordered sequence of declarations.
#[derive(Debug)]
pub enum Decl {
    VarDecl { identifier: Token, initializer: Option<Expr> },
    Stmt(Stmt),
}

/// Mathematical model of a statement.
pub enum StmtV {
    ExprStmt(ExprV),
    PrintStmt(ExprV),
    Block(Seq<DeclV>),
}

/// Mathematical model of a declaration.
pub enum DeclV {
    VarDecl(TokenV, Option<ExprV>),
    Stmt(StmtV),
}

/// The model of a statement node.
pub open spec fn view_stmt(s: Stmt) -> StmtV
    decreases s,
{
    match s {
        Stmt::ExprStmt(e) => StmtV::ExprStmt(view_expr(e)),
        Stmt::PrintStmt(e) => StmtV::PrintStmt(view_expr(e)),
        Stmt::Block(ds) => StmtV::Block(view_decls(ds@)),
    }
}

/// The model of a sequence of declaration nodes.
pub open spec fn view_decls(ds: Seq<Decl>) -> Seq<DeclV>
    decreases ds,
{
    if ds.len() == 0 {
        Seq::empty()
    } else {
        view_decls(ds.drop_last()).push(view_decl(ds.last()))
    }
}

/// The model of a declaration node.
pub open spec fn view_decl(d: Decl) -> DeclV
    decreases d,
{
    match d {
        Decl::VarDecl { identifier, initializer } => DeclV::VarDecl(
            identifier@,
            match initializer {
                Some(e) => Some(view_expr(e)),
                None => None,
            },
        ),
        Decl::Stmt(s) => DeclV::Stmt(view_stmt(s)),
    }
}

/// The text of a binary operator.
pub open spec fn sp_bin_op_text(op: BinOp) -> Seq<char> {
    match op {
        BinOp::EqualEqual => "=="@,
        BinOp::BangEqual => "!="@,
        BinOp::Less => "<"@,
        BinOp::LessEqual => "<="@,
        BinOp::Greater => ">"@,
        BinOp::GreaterEqual => ">="@,
        BinOp::Plus => "+"@,
        BinOp::Minus => "-"@,
        BinOp::Star => "*"@,
        BinOp::Slash => "/"@,
    }
}

/// The text of a unary operator.
pub open spec fn sp_un_op_text(op: UnOp) -> Seq<char> {
    match op {
        UnOp::Minus => "-"@,
        UnOp::Bang => "!"@,
    }
}

/// A literal's own text.
pub open spec fn sp_literal_text(l: LiteralV) -> Seq<char> {
    match l {
        LiteralV::Number(n) => dec_int(n as int),
        LiteralV::StrLit(s) => s,
        LiteralV::True => "true"@,
        LiteralV::False => "false"@,
        LiteralV::Nil => "nil"@,
    }
}

/// The fully parenthesized prefix form of an expression: a binary node
/// as `(op l r)`, a unary as `(op r)`, a grouping as `(group e)`, an
/// assignment as `(= name value)`; literals and variables render as
/// their own text.
pub open spec fn sp_expr_text(e: ExprV) -> Seq<char>
    decreases e,
{
    match e {
        ExprV::Literal(l) => sp_literal_text(l),
        ExprV::Grouping(inner) => "(group "@ + sp_expr_text(*inner) + ")"@,
        ExprV::Unary(op, r) => "("@ + sp_un_op_text(op) + " "@ + sp_expr_text(*r) + ")"@,
        ExprV::Binary(l, op, r) => "("@ + sp_bin_op_text(op) + " "@ + sp_expr_text(*l) + " "@
            + sp_expr_text(*r) + ")"@,
        ExprV::Variable(t) => t.lexeme,
        ExprV::Assign(t, v) => "(= "@ + t.lexeme + " "@ + sp_expr_text(*v) + ")"@,
    }
}

/// Renders an expression in fully parenthesized prefix form, useful for
/// inspecting what the parser produced independently of evaluation.
pub fn expr_text(e: &Expr) -> (r: String)
    ensures
        r@ == sp_expr_text(view_expr(*e)),
    decreases e,
{
    match e {
        Expr::Literal(l) => match l {
            Literal::Number(n) => i64_to_string(*n),
            Literal::String(s) => s.clone(),
            Literal::True => String::from_str("true"),
            Literal::False => String::from_str("false"),
            Literal::Nil => String::from_str("nil"),
        },
        Expr::Grouping { expression } => {
            let mut s = String::from_str("(group ");
            let inner = expr_text(&**expression);
            s.append(inner.as_str());
            s.append(")");
            s
        },
        Expr::Unary { operator, right } => {
            let mut s = String::from_str("(");
            let op = match operator {
                UnOp::Minus => String::from_str("-"),
                UnOp::Bang => String::from_str("!"),
            };
            s.append(op.as_str());
            s.append(" ");
            let inner = expr_text(&**right);
            s.append(inner.as_str());
            s.append(")");
            s
        },
        Expr::Binary { left, operator, right } => {
            let mut s = String::from_str("(");
            let op = match operator {
                BinOp::EqualEqual => String::from_str("=="),
                BinOp::BangEqual => String::from_str("!="),
                BinOp::Less => String::from_str("<"),
                BinOp::LessEqual => String::from_str("<="),
                BinOp::Greater => String::from_str(">"),
                BinOp::GreaterEqual => String::from_str(">="),
                BinOp::Plus => String::from_str("+"),
                BinOp::Minus => String::from_str("-"),
                BinOp::Star => String::from_str("*"),
                BinOp::Slash => String::from_str("/"),
            };
            s.append(op.as_str());
            s.append(" ");
            let l = expr_text(&**left);
            s.append(l.as_str());
            s.append(" ");
            let r2 = expr_text(&**right);
            s.append(r2.as_str());
            s.append(")");
            s
        },
        Expr::Variable { token } => token.lexeme.clone(),
        Expr::Assign { token, value } => {
            let mut s = String::from_str("(= ");
            s.append(token.lexeme.as_str());
            s.append(" ");
            let inner = expr_text(&**value);
            s.append(inner.as_str());
            s.append(")");
            s
        },
    }
}

/// The model of a sequence of declarations, element by element.
pub proof fn lemma_view_decls_index(ds: Seq<Decl>)
    ensures
        view_decls(ds).len() == ds.len(),
        forall|i: int| 0 <= i < ds.len() ==> view_decls(ds)[i] == view_decl(#[trigger] ds[i]),
    decreases ds.len(),
{
    if ds.len() > 0 {
        lemma_view_decls_index(ds.drop_last());
        assert(forall|i: int|
            0 <= i < ds.len() - 1 ==> ds.drop_last()[i] == #[trigger] ds[i]);
    }
}

} // verus!
