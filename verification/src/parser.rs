use crate::ast::{view_decl, view_decls, view_expr, view_stmt, BinOp, Decl, DeclV, Expr, ExprV,
    Literal, LiteralV, Stmt, StmtV, UnOp};
use crate::diagnostic::{diags_view, Diagnostic, DiagnosticV};
use crate::scanner::toks_view;
use crate::token::{spec_kind_of, Token, TokenKind, TokenType, TokenTypeV, TokenV};
use vstd::prelude::*;

verus! {

/// The token at a position; out of range reads as end-of-input, which is
/// what the synthetic closing token guarantees can never be consumed.
pub open spec fn tok_at(toks: Seq<TokenV>, p: int) -> TokenV {
    if 0 <= p < toks.len() {
        toks[p]
    } else {
        TokenV { ty: TokenTypeV::Eof, lexeme: Seq::empty(), line: 0 }
    }
}

/// The grammatical tag at a position. Matching is by tag only: payloads
/// play no part in grammar decisions.
pub open spec fn kind_at(toks: Seq<TokenV>, p: int) -> TokenKind {
    spec_kind_of(tok_at(toks, p).ty)
}

/// Whether the parser stands at end of input.
pub open spec fn at_end(toks: Seq<TokenV>, p: int) -> bool {
    kind_at(toks, p) == TokenKind::Eof
}

/// A well-formed token stream: non-empty and closed by end-of-input.
pub open spec fn tokens_wf(toks: Seq<TokenV>) -> bool {
    toks.len() >= 1 && spec_kind_of(toks[toks.len() - 1].ty) == TokenKind::Eof
}

/// The diagnostic raised at a token: located " at end" for end-of-input,
/// else " at '<lexeme>'".
pub open spec fn sp_token_diag(t: TokenV, msg: Seq<char>) -> DiagnosticV {
    DiagnosticV {
        line: t.line,
        location: if spec_kind_of(t.ty) == TokenKind::Eof {
            " at end"@
        } else {
            " at '"@ + t.lexeme + "'"@
        },
        message: msg,
    }
}

/// Progress guard: a continuation position is kept inside `[lo, hi]` so
/// that recursion visibly advances; the parser's own results always lie
/// there already.
pub open spec fn step_pos(p: int, lo: int, hi: int) -> int {
    if p < lo {
        lo
    } else if p > hi {
        hi
    } else {
        p
    }
}

/// How many tokens remain at a position, clipped at the ends so the
/// recursion measure never turns negative.
pub open spec fn rem_toks(toks: Seq<TokenV>, pos: int) -> int {
    if pos < 0 {
        toks.len() as int + 1
    } else if pos > toks.len() {
        0
    } else {
        toks.len() - pos
    }
}

/// Where error recovery resumes scanning, given the position after the
/// first discarding step.
pub open spec fn sp_sync_scan(toks: Seq<TokenV>, p: int) -> int
    decreases toks.len() - p,
{
    if at_end(toks, p) {
        p
    } else if kind_at(toks, p - 1) == TokenKind::Semicolon {
        p
    } else if is_sync_start(kind_at(toks, p)) {
        p
    } else {
        sp_sync_scan(toks, p + 1)
    }
}

/// The tags that begin a new statement, safe places to resume parsing.
pub open spec fn is_sync_start(k: TokenKind) -> bool {
    k == TokenKind::Class || k == TokenKind::Fun || k == TokenKind::Var || k == TokenKind::For
        || k == TokenKind::If || k == TokenKind::While || k == TokenKind::Print || k
        == TokenKind::Return
}

/// Error recovery: discards tokens until a statement boundary (a consumed
/// semicolon, a token that starts a statement, or end of input), so that
/// later declarations still parse and several independent syntax errors
/// surface in one pass.
pub open spec fn sp_synchronize(toks: Seq<TokenV>, pos: int) -> int {
    if at_end(toks, pos) {
        pos
    } else {
        sp_sync_scan(toks, pos + 1)
    }
}

/// The outcome of an expression-level rule: the parsed expression and
/// the next position, or the diagnostic and the position where parsing
/// failed.
pub type ERes = Result<(ExprV, int), (DiagnosticV, int)>;

/// The outcome of a statement-level rule.
pub type SRes = Result<(StmtV, int), (DiagnosticV, int)>;

/// `primary := NUMBER | STRING | "true" | "false" | "nil" | IDENT
///            | "(" expression ")"`.
pub open spec fn sp_primary(toks: Seq<TokenV>, pos: int) -> ERes
    decreases rem_toks(toks, pos), 2int,
{
    let k = kind_at(toks, pos);
    if k == TokenKind::False {
        Ok((ExprV::Literal(LiteralV::False), pos + 1))
    } else if k == TokenKind::True {
        Ok((ExprV::Literal(LiteralV::True), pos + 1))
    } else if k == TokenKind::Nil {
        Ok((ExprV::Literal(LiteralV::Nil), pos + 1))
    } else if k == TokenKind::Number || k == TokenKind::StrLit {
        let lit = match tok_at(toks, pos).ty {
            TokenTypeV::Number(n) => LiteralV::Number(n),
            TokenTypeV::StrLit(s) => LiteralV::StrLit(s),
            _ => LiteralV::Nil,
        };
        Ok((ExprV::Literal(lit), pos + 1))
    } else if k == TokenKind::LeftParen {
        match sp_expression(toks, pos + 1) {
            Ok((e, p2)) => {
                if kind_at(toks, p2) == TokenKind::RightParen {
                    Ok((ExprV::Grouping(Box::new(e)), p2 + 1))
                } else {
                    Err((sp_token_diag(tok_at(toks, p2), "Expect ')' after expression."@), p2))
                }
            },
            Err(er) => Err(er),
        }
    } else if k == TokenKind::Identifier {
        Ok((ExprV::Variable(tok_at(toks, pos)), pos + 1))
    } else {
        Err((sp_token_diag(tok_at(toks, pos), "Expect expression."@), pos))
    }
}

/// `unary := ("!" | "-") unary | primary`; prefix operators nest.
pub open spec fn sp_unary(toks: Seq<TokenV>, pos: int) -> ERes
    decreases rem_toks(toks, pos), 4int,
{
    let k = kind_at(toks, pos);
    if k == TokenKind::Bang || k == TokenKind::Minus {
        let op = if k == TokenKind::Bang {
            UnOp::Bang
        } else {
            UnOp::Minus
        };
        match sp_unary(toks, pos + 1) {
            Ok((e, p2)) => Ok((ExprV::Unary(op, Box::new(e)), p2)),
            Err(er) => Err(er),
        }
    } else {
        sp_primary(toks, pos)
    }
}

/// The left-associative fold for `factor`: while the next token is a
/// `*` or `/`, consume it, parse another unary, and nest to the left.
pub open spec fn sp_factor_rest(toks: Seq<TokenV>, pos: int, left: ExprV) -> ERes
    decreases rem_toks(toks, pos), 5int,
{
    let k = kind_at(toks, pos);
    if k == TokenKind::Slash || k == TokenKind::Star {
        let op = if k == TokenKind::Slash {
            BinOp::Slash
        } else {
            BinOp::Star
        };
        match sp_unary(toks, pos + 1) {
            Ok((r, p2)) => sp_factor_rest(
                toks,
                step_pos(p2, pos + 1, toks.len() as int),
                ExprV::Binary(Box::new(left), op, Box::new(r)),
            ),
            Err(er) => Err(er),
        }
    } else {
        Ok((left, pos))
    }
}

/// `factor := unary ( ("*" | "/") unary )*`, left-associative.
pub open spec fn sp_factor(toks: Seq<TokenV>, pos: int) -> ERes
    decreases rem_toks(toks, pos), 6int,
{
    match sp_unary(toks, pos) {
        Ok((e, p2)) => sp_factor_rest(toks, step_pos(p2, pos, toks.len() as int), e),
        Err(er) => Err(er),
    }
}

/// The left-associative fold for `term`.
pub open spec fn sp_term_rest(toks: Seq<TokenV>, pos: int, left: ExprV) -> ERes
    decreases rem_toks(toks, pos), 7int,
{
    let k = kind_at(toks, pos);
    if k == TokenKind::Plus || k == TokenKind::Minus {
        let op = if k == TokenKind::Plus {
            BinOp::Plus
        } else {
            BinOp::Minus
        };
        match sp_factor(toks, pos + 1) {
            Ok((r, p2)) => sp_term_rest(
                toks,
                step_pos(p2, pos + 1, toks.len() as int),
                ExprV::Binary(Box::new(left), op, Box::new(r)),
            ),
            Err(er) => Err(er),
        }
    } else {
        Ok((left, pos))
    }
}

/// `term := factor ( ("+" | "-") factor )*`, left-associative.
pub open spec fn sp_term(toks: Seq<TokenV>, pos: int) -> ERes
    decreases rem_toks(toks, pos), 8int,
{
    match sp_factor(toks, pos) {
        Ok((e, p2)) => sp_term_rest(toks, step_pos(p2, pos, toks.len() as int), e),
        Err(er) => Err(er),
    }
}

/// The left-associative fold for `comparison`.
pub open spec fn sp_comparison_rest(toks: Seq<TokenV>, pos: int, left: ExprV) -> ERes
    decreases rem_toks(toks, pos), 9int,
{
    let k = kind_at(toks, pos);
    if k == TokenKind::Greater || k == TokenKind::GreaterEqual || k == TokenKind::Less || k
        == TokenKind::LessEqual {
        let op = if k == TokenKind::Greater {
            BinOp::Greater
        } else if k == TokenKind::GreaterEqual {
            BinOp::GreaterEqual
        } else if k == TokenKind::Less {
            BinOp::Less
        } else {
            BinOp::LessEqual
        };
        match sp_term(toks, pos + 1) {
            Ok((r, p2)) => sp_comparison_rest(
                toks,
                step_pos(p2, pos + 1, toks.len() as int),
                ExprV::Binary(Box::new(left), op, Box::new(r)),
            ),
            Err(er) => Err(er),
        }
    } else {
        Ok((left, pos))
    }
}

/// `comparison := term ( ("<" | "<=" | ">" | ">=") term )*`.
pub open spec fn sp_comparison(toks: Seq<TokenV>, pos: int) -> ERes
    decreases rem_toks(toks, pos), 10int,
{
    match sp_term(toks, pos) {
        Ok((e, p2)) => sp_comparison_rest(toks, step_pos(p2, pos, toks.len() as int), e),
        Err(er) => Err(er),
    }
}

/// The left-associative fold for `equality`.
pub open spec fn sp_equality_rest(toks: Seq<TokenV>, pos: int, left: ExprV) -> ERes
    decreases rem_toks(toks, pos), 11int,
{
    let k = kind_at(toks, pos);
    if k == TokenKind::BangEqual || k == TokenKind::EqualEqual {
        let op = if k == TokenKind::BangEqual {
            BinOp::BangEqual
        } else {
            BinOp::EqualEqual
        };
        match sp_comparison(toks, pos + 1) {
            Ok((r, p2)) => sp_equality_rest(
                toks,
                step_pos(p2, pos + 1, toks.len() as int),
                ExprV::Binary(Box::new(left), op, Box::new(r)),
            ),
            Err(er) => Err(er),
        }
    } else {
        Ok((left, pos))
    }
}

/// `equality := comparison ( ("==" | "!=") comparison )*`.
pub open spec fn sp_equality(toks: Seq<TokenV>, pos: int) -> ERes
    decreases rem_toks(toks, pos), 12int,
{
    match sp_comparison(toks, pos) {
        Ok((e, p2)) => sp_equality_rest(toks, step_pos(p2, pos, toks.len() as int), e),
        Err(er) => Err(er),
    }
}

/// Assignment sits at the lowest precedence and nests to the right; it
/// is valid only when the left operand parsed as a variable, else the
/// equals sign is reported as an invalid assignment target.
pub open spec fn sp_assignment(toks: Seq<TokenV>, pos: int) -> ERes
    decreases rem_toks(toks, pos), 14int,
{
    match sp_equality(toks, pos) {
        Ok((e, p2)) => {
            // The position bound keeps the right recursion visibly finite;
            // the parser never stands past the end.
            if pos < toks.len() && kind_at(toks, p2) == TokenKind::Equal {
                match e {
                    ExprV::Variable(name_tok) => {
                        match sp_assignment(
                            toks,
                            step_pos(p2 + 1, pos + 1, toks.len() as int),
                        ) {
                            Ok((v, p3)) => Ok((ExprV::Assign(name_tok, Box::new(v)), p3)),
                            Err(er) => Err(er),
                        }
                    },
                    _ => Err(
                        (
                            sp_token_diag(tok_at(toks, p2), "Invalid assignment target."@),
                            p2,
                        ),
                    ),
                }
            } else {
                Ok((e, p2))
            }
        },
        Err(er) => Err(er),
    }
}

/// `expression := assignment`.
pub open spec fn sp_expression(toks: Seq<TokenV>, pos: int) -> ERes
    decreases rem_toks(toks, pos), 16int,
{
    sp_assignment(toks, pos)
}

/// `print` statement body: an expression closed by a semicolon.
pub open spec fn sp_print_statement(toks: Seq<TokenV>, pos: int) -> SRes
    decreases rem_toks(toks, pos), 18int,
{
    match sp_expression(toks, pos) {
        Ok((e, p2)) => {
            if kind_at(toks, p2) == TokenKind::Semicolon {
                Ok((StmtV::PrintStmt(e), p2 + 1))
            } else {
                Err((sp_token_diag(tok_at(toks, p2), "Expect ';' after value."@), p2))
            }
        },
        Err(er) => Err(er),
    }
}

/// Expression statement: an expression closed by a semicolon.
pub open spec fn sp_expression_statement(toks: Seq<TokenV>, pos: int) -> SRes
    decreases rem_toks(toks, pos), 18int,
{
    match sp_expression(toks, pos) {
        Ok((e, p2)) => {
            if kind_at(toks, p2) == TokenKind::Semicolon {
                Ok((StmtV::ExprStmt(e), p2 + 1))
            } else {
                Err((sp_token_diag(tok_at(toks, p2), "Expect ';' after expression."@), p2))
            }
        },
        Err(er) => Err(er),
    }
}

/// Variable declaration body, after the `var` keyword: a name, an
/// optional initializer, a semicolon.
pub open spec fn sp_var_declaration(toks: Seq<TokenV>, pos: int) -> Result<
    (DeclV, int),
    (DiagnosticV, int),
>
    decreases rem_toks(toks, pos), 18int,
{
    if kind_at(toks, pos) != TokenKind::Identifier {
        Err((sp_token_diag(tok_at(toks, pos), "Expect variable name."@), pos))
    } else {
        let name = tok_at(toks, pos);
        if kind_at(toks, pos + 1) == TokenKind::Equal {
            match sp_expression(toks, pos + 2) {
                Ok((e, p2)) => {
                    if kind_at(toks, p2) == TokenKind::Semicolon {
                        Ok((DeclV::VarDecl(name, Some(e)), p2 + 1))
                    } else {
                        Err(
                            (
                                sp_token_diag(
                                    tok_at(toks, p2),
                                    "Expect ';' after variable declaration."@,
                                ),
                                p2,
                            ),
                        )
                    }
                },
                Err(er) => Err(er),
            }
        } else if kind_at(toks, pos + 1) == TokenKind::Semicolon {
            Ok((DeclV::VarDecl(name, None), pos + 2))
        } else {
            Err(
                (
                    sp_token_diag(
                        tok_at(toks, pos + 1),
                        "Expect ';' after variable declaration."@,
                    ),
                    pos + 1,
                ),
            )
        }
    }
}

/// What a run of declarations inside a block produces: the declarations
/// that parsed, the diagnostics of those that were recovered, and the
/// position where a closing brace or end of input stopped the run.
pub struct BlockRest {
    pub decls: Seq<DeclV>,
    pub diags: Seq<DiagnosticV>,
    pub pos: int,
}

/// What a statement-level rule produces: its outcome, preceded by the
/// diagnostics already recovered inside it (only a block has any).
pub struct StRes {
    pub result: SRes,
    pub pre: Seq<DiagnosticV>,
}

/// What one declaration produces: the declaration if it parsed (a failed
/// one is dropped, not retried), the diagnostics it reported, and the
/// position where parsing resumes.
pub struct DeclRes {
    pub decl: Option<DeclV>,
    pub diags: Seq<DiagnosticV>,
    pub pos: int,
}

/// A declaration's result, as a sequence of zero or one.
pub open spec fn opt_decl(o: Option<DeclV>) -> Seq<DeclV> {
    match o {
        Some(d) => seq![d],
        None => Seq::empty(),
    }
}

/// `statement := "print" expression ";" | "{" declaration* "}"
///             | expression ";"`.
pub open spec fn sp_statement(toks: Seq<TokenV>, pos: int) -> StRes
    decreases rem_toks(toks, pos), 20int,
{
    if kind_at(toks, pos) == TokenKind::Print {
        StRes { result: sp_print_statement(toks, pos + 1), pre: Seq::empty() }
    } else if kind_at(toks, pos) == TokenKind::LeftBrace {
        let b = sp_block_items(toks, pos + 1);
        if kind_at(toks, b.pos) == TokenKind::RightBrace {
            StRes { result: Ok((StmtV::Block(b.decls), b.pos + 1)), pre: b.diags }
        } else {
            StRes {
                result: Err(
                    (sp_token_diag(tok_at(toks, b.pos), "Expect '}' after block."@), b.pos),
                ),
                pre: b.diags,
            }
        }
    } else {
        StRes { result: sp_expression_statement(toks, pos), pre: Seq::empty() }
    }
}

/// The declarations inside a block, up to the closing brace or end of
/// input; each recovers independently.
pub open spec fn sp_block_items(toks: Seq<TokenV>, pos: int) -> BlockRest
    decreases rem_toks(toks, pos), 23int,
{
    if at_end(toks, pos) || kind_at(toks, pos) == TokenKind::RightBrace {
        BlockRest { decls: Seq::empty(), diags: Seq::empty(), pos }
    } else {
        let d = sp_declaration(toks, pos);
        let rest = sp_block_items(toks, step_pos(d.pos, pos + 1, toks.len() as int));
        BlockRest {
            decls: opt_decl(d.decl) + rest.decls,
            diags: d.diags + rest.diags,
            pos: rest.pos,
        }
    }
}

/// `declaration := "var" ... | statement`, with recovery: a parse error
/// inside one declaration is reported and the parser synchronizes, so
/// later declarations still parse.
pub open spec fn sp_declaration(toks: Seq<TokenV>, pos: int) -> DeclRes
    decreases rem_toks(toks, pos), 22int,
{
    if kind_at(toks, pos) == TokenKind::Var {
        match sp_var_declaration(toks, pos + 1) {
            Ok((d, p2)) => DeclRes { decl: Some(d), diags: Seq::empty(), pos: p2 },
            Err((dg, pe)) => DeclRes {
                decl: None,
                diags: seq![dg],
                pos: sp_synchronize(toks, pe),
            },
        }
    } else {
        let st = sp_statement(toks, pos);
        match st.result {
            Ok((s, p2)) => DeclRes { decl: Some(DeclV::Stmt(s)), diags: st.pre, pos: p2 },
            Err((dg, pe)) => DeclRes {
                decl: None,
                diags: st.pre + seq![dg],
                pos: sp_synchronize(toks, pe),
            },
        }
    }
}

/// What parsing a whole token stream produces.
pub struct ParseRest {
    pub decls: Seq<DeclV>,
    pub diags: Seq<DiagnosticV>,
    pub pos: int,
}

/// Parsing from a position to end of input: each top-level declaration
/// parses independently, failed ones are dropped and reported.
#[verifier::rlimit(80)]
pub open spec fn sp_parse_from(toks: Seq<TokenV>, pos: int) -> ParseRest
    decreases rem_toks(toks, pos), 25int,
{
    if at_end(toks, pos) {
        ParseRest { decls: Seq::empty(), diags: Seq::empty(), pos }
    } else {
        let d = sp_declaration(toks, pos);
        let rest = sp_parse_from(toks, step_pos(d.pos, pos + 1, toks.len() as int));
        ParseRest {
            decls: opt_decl(d.decl) + rest.decls,
            diags: d.diags + rest.diags,
            pos: rest.pos,
        }
    }
}

/// The meaning of the parser on a whole token stream.
pub open spec fn sp_parse(toks: Seq<TokenV>) -> ParseRest {
    sp_parse_from(toks, 0)
}

/// Turns a token stream into a sequence of declarations by
/// precedence-climbing recursive descent, recovering from a parse error
/// inside one declaration so that later declarations still parse.
pub struct Parser {
    pub tokens: Vec<Token>,
    pub current: usize,
    pub diagnostics: Vec<Diagnostic>,
}

impl Parser {
    /// The model of the token stream being parsed.
    pub open spec fn toks(&self) -> Seq<TokenV> {
        toks_view(self.tokens@)
    }

    /// A fresh parser over the given tokens.
    pub fn new(tokens: Vec<Token>) -> (r: Parser)
        ensures
            r.tokens == tokens,
            r.current == 0,
            r.diagnostics@ == Seq::<Diagnostic>::empty(),
    {
        Parser { tokens, current: 0, diagnostics: Vec::new() }
    }

    /// The tag of the token under the cursor.
    fn peek_kind(&self) -> (k: TokenKind)
        requires
            self.current < self.tokens@.len(),
        ensures
            k == kind_at(self.toks(), self.current as int),
    {
        let k = self.tokens[self.current].kind();
        proof {
            assert(tok_at(self.toks(), self.current as int) == self.tokens@[self.current as int]@);
        }
        k
    }

    /// Whether the cursor stands at end of input.
    fn is_done(&self) -> (r: bool)
        requires
            self.current < self.tokens@.len(),
        ensures
            r == at_end(self.toks(), self.current as int),
    {
        self.peek_kind() == TokenKind::Eof
    }

    /// Whether the token under the cursor has the given tag; matching is
    /// by tag only.
    fn check(&self, kind: TokenKind) -> (r: bool)
        requires
            self.current < self.tokens@.len(),
        ensures
            r == (kind_at(self.toks(), self.current as int) == kind && kind != TokenKind::Eof),
    {
        let k = self.peek_kind();
        k == kind && !(k == TokenKind::Eof)
    }

    /// Consumes and returns the token under the cursor.
    fn advance_token(&mut self) -> (t: Token)
        requires
            tokens_wf(old(self).toks()),
            old(self).current < old(self).tokens@.len(),
            kind_at(old(self).toks(), old(self).current as int) != TokenKind::Eof,
        ensures
            final(self).tokens == old(self).tokens,
            final(self).diagnostics == old(self).diagnostics,
            final(self).current == old(self).current + 1,
            final(self).current < final(self).tokens@.len(),
            t@ == tok_at(old(self).toks(), old(self).current as int),
    {
        proof {
            assert(tok_at(self.toks(), self.current as int) == self.tokens@[self.current as int]@);
            if self.current as int == self.tokens@.len() - 1 {
                assert(kind_at(self.toks(), self.current as int) == TokenKind::Eof);
            }
        }
        let _n = self.tokens.len();
        let t = self.tokens[self.current].duplicate();
        self.current = self.current + 1;
        t
    }

    /// Consumes the token under the cursor when its tag matches.
    fn match_kind(&mut self, kind: TokenKind) -> (r: bool)
        requires
            tokens_wf(old(self).toks()),
            old(self).current < old(self).tokens@.len(),
        ensures
            final(self).tokens == old(self).tokens,
            final(self).diagnostics == old(self).diagnostics,
            r == (kind_at(old(self).toks(), old(self).current as int) == kind && kind
                != TokenKind::Eof),
            final(self).current == old(self).current + (if r {
                1int
            } else {
                0int
            }),
            final(self).current < final(self).tokens@.len(),
    {
        if self.check(kind) {
            let _ = self.advance_token();
            true
        } else {
            false
        }
    }

    /// The diagnostic for the token under the cursor: located " at end"
    /// for end-of-input, else " at '<lexeme>'".
    fn diag_here(&self, message: &str) -> (d: Diagnostic)
        requires
            self.current < self.tokens@.len(),
        ensures
            d@ == sp_token_diag(tok_at(self.toks(), self.current as int), message@),
    {
        proof {
            assert(tok_at(self.toks(), self.current as int) == self.tokens@[self.current as int]@);
        }
        let t = &self.tokens[self.current];
        let location = if t.kind() == TokenKind::Eof {
            String::from_str(" at end")
        } else {
            let mut l = String::from_str(" at '");
            l.append(t.lexeme.as_str());
            l.append("'");
            l
        };
        Diagnostic { line: t.line, location, message: message.to_owned() }
    }

    /// Consumes a token of the expected tag or reports the given message
    /// at the offending token.
    fn consume_kind(&mut self, kind: TokenKind, message: &str) -> (r: Result<Token, Diagnostic>)
        requires
            tokens_wf(old(self).toks()),
            old(self).current < old(self).tokens@.len(),
            kind != TokenKind::Eof,
        ensures
            final(self).tokens == old(self).tokens,
            final(self).diagnostics == old(self).diagnostics,
            final(self).current < final(self).tokens@.len(),
            ({
                if kind_at(old(self).toks(), old(self).current as int) == kind {
                    &&& r is Ok
                    &&& r->Ok_0@ == tok_at(old(self).toks(), old(self).current as int)
                    &&& final(self).current == old(self).current + 1
                } else {
                    &&& r is Err
                    &&& r->Err_0@ == sp_token_diag(
                        tok_at(old(self).toks(), old(self).current as int),
                        message@,
                    )
                    &&& final(self).current == old(self).current
                }
            }),
    {
        if self.check(kind) {
            Ok(self.advance_token())
        } else {
            Err(self.diag_here(message))
        }
    }

    /// `primary := NUMBER | STRING | "true" | "false" | "nil" | IDENT
    ///            | "(" expression ")"`.
    #[verifier::loop_isolation(false)]
    fn primary(&mut self) -> (r: Result<Expr, Diagnostic>)
        requires
            tokens_wf(old(self).toks()),
            old(self).current < old(self).tokens@.len(),
        ensures
            final(self).tokens == old(self).tokens,
            final(self).diagnostics == old(self).diagnostics,
            old(self).current <= final(self).current < final(self).tokens@.len(),
            ({
                let sp = sp_primary(old(self).toks(), old(self).current as int);
                match r {
                    Ok(e) => sp == Ok::<(ExprV, int), (DiagnosticV, int)>(
                        (view_expr(e), final(self).current as int),
                    ) && final(self).current > old(self).current,
                    Err(d) => sp == Err::<(ExprV, int), (DiagnosticV, int)>(
                        (d@, final(self).current as int),
                    ),
                }
            }),
        decreases rem_toks(self.toks(), self.current as int), 2int,
    {
        if self.match_kind(TokenKind::False) {
            return Ok(Expr::Literal(Literal::False));
        }
        if self.match_kind(TokenKind::True) {
            return Ok(Expr::Literal(Literal::True));
        }
        if self.match_kind(TokenKind::Nil) {
            return Ok(Expr::Literal(Literal::Nil));
        }
        if self.check(TokenKind::Number) || self.check(TokenKind::StrLit) {
            let t = self.advance_token();
            let lit = match t.token_type {
                TokenType::Number(n) => Literal::Number(n),
                TokenType::String(s) => Literal::String(s),
                _ => Literal::Nil,
            };
            return Ok(Expr::Literal(lit));
        }
        if self.match_kind(TokenKind::LeftParen) {
            let e = match self.expression() {
                Ok(e) => e,
                Err(d) => return Err(d),
            };
            match self.consume_kind(TokenKind::RightParen, "Expect ')' after expression.") {
                Ok(_) => {
                    return Ok(Expr::Grouping { expression: Box::new(e) });
                },
                Err(d) => {
                    return Err(d);
                },
            }
        }
        if self.check(TokenKind::Identifier) {
            let token = self.advance_token();
            return Ok(Expr::Variable { token });
        }
        Err(self.diag_here("Expect expression."))
    }

    /// `unary := ("!" | "-") unary | primary`.
    #[verifier::loop_isolation(false)]
    fn unary(&mut self) -> (r: Result<Expr, Diagnostic>)
        requires
            tokens_wf(old(self).toks()),
            old(self).current < old(self).tokens@.len(),
        ensures
            final(self).tokens == old(self).tokens,
            final(self).diagnostics == old(self).diagnostics,
            old(self).current <= final(self).current < final(self).tokens@.len(),
            ({
                let sp = sp_unary(old(self).toks(), old(self).current as int);
                match r {
                    Ok(e) => sp == Ok::<(ExprV, int), (DiagnosticV, int)>(
                        (view_expr(e), final(self).current as int),
                    ) && final(self).current > old(self).current,
                    Err(d) => sp == Err::<(ExprV, int), (DiagnosticV, int)>(
                        (d@, final(self).current as int),
                    ),
                }
            }),
        decreases rem_toks(self.toks(), self.current as int), 4int,
    {
        let k = self.peek_kind();
        if k == TokenKind::Bang || k == TokenKind::Minus {
            let op = if k == TokenKind::Bang {
                UnOp::Bang
            } else {
                UnOp::Minus
            };
            let _ = self.advance_token();
            match self.unary() {
                Ok(e) => Ok(Expr::Unary { operator: op, right: Box::new(e) }),
                Err(d) => Err(d),
            }
        } else {
            self.primary()
        }
    }

    /// `factor := unary ( ("*" | "/") unary )*`, folded to the left.
    #[verifier::loop_isolation(false)]
    fn factor(&mut self) -> (r: Result<Expr, Diagnostic>)
        requires
            tokens_wf(old(self).toks()),
            old(self).current < old(self).tokens@.len(),
        ensures
            final(self).tokens == old(self).tokens,
            final(self).diagnostics == old(self).diagnostics,
            old(self).current <= final(self).current < final(self).tokens@.len(),
            ({
                let sp = sp_factor(old(self).toks(), old(self).current as int);
                match r {
                    Ok(e) => sp == Ok::<(ExprV, int), (DiagnosticV, int)>(
                        (view_expr(e), final(self).current as int),
                    ) && final(self).current > old(self).current,
                    Err(d) => sp == Err::<(ExprV, int), (DiagnosticV, int)>(
                        (d@, final(self).current as int),
                    ),
                }
            }),
        decreases rem_toks(self.toks(), self.current as int), 6int,
    {
        let ghost toks = self.toks();
        let ghost pos0 = self.current as int;
        let mut left = match self.unary() {
            Ok(e) => e,
            Err(d) => return Err(d),
        };
        proof {
            assert(step_pos(self.current as int, pos0, toks.len() as int) == self.current as int);
        }
        while self.check(TokenKind::Slash) || self.check(TokenKind::Star)
            invariant
                self.tokens == old(self).tokens,
                self.diagnostics == old(self).diagnostics,
                pos0 < self.current < self.tokens@.len(),
                sp_factor_rest(toks, self.current as int, view_expr(left)) == sp_factor(
                    toks,
                    pos0,
                ),
            decreases toks.len() - self.current,
        {
            let k = self.peek_kind();
            let op = if k == TokenKind::Slash {
                BinOp::Slash
            } else {
                BinOp::Star
            };
            let ghost p_op = self.current as int;
            let _ = self.advance_token();
            let right = match self.unary() {
                Ok(e) => e,
                Err(d) => return Err(d),
            };
            proof {
                assert(step_pos(self.current as int, p_op + 1, toks.len() as int)
                    == self.current as int);
            }
            left = Expr::Binary { left: Box::new(left), operator: op, right: Box::new(right) };
        }
        Ok(left)
    }

    /// `term := factor ( ("+" | "-") factor )*`, folded to the left.
    #[verifier::loop_isolation(false)]
    fn term(&mut self) -> (r: Result<Expr, Diagnostic>)
        requires
            tokens_wf(old(self).toks()),
            old(self).current < old(self).tokens@.len(),
        ensures
            final(self).tokens == old(self).tokens,
            final(self).diagnostics == old(self).diagnostics,
            old(self).current <= final(self).current < final(self).tokens@.len(),
            ({
                let sp = sp_term(old(self).toks(), old(self).current as int);
                match r {
                    Ok(e) => sp == Ok::<(ExprV, int), (DiagnosticV, int)>(
                        (view_expr(e), final(self).current as int),
                    ) && final(self).current > old(self).current,
                    Err(d) => sp == Err::<(ExprV, int), (DiagnosticV, int)>(
                        (d@, final(self).current as int),
                    ),
                }
            }),
        decreases rem_toks(self.toks(), self.current as int), 8int,
    {
        let ghost toks = self.toks();
        let ghost pos0 = self.current as int;
        let mut left = match self.factor() {
            Ok(e) => e,
            Err(d) => return Err(d),
        };
        proof {
            assert(step_pos(self.current as int, pos0, toks.len() as int) == self.current as int);
        }
        while self.check(TokenKind::Plus) || self.check(TokenKind::Minus)
            invariant
                self.tokens == old(self).tokens,
                self.diagnostics == old(self).diagnostics,
                pos0 < self.current < self.tokens@.len(),
                sp_term_rest(toks, self.current as int, view_expr(left)) == sp_term(toks, pos0),
            decreases toks.len() - self.current,
        {
            let k = self.peek_kind();
            let op = if k == TokenKind::Plus {
                BinOp::Plus
            } else {
                BinOp::Minus
            };
            let ghost p_op = self.current as int;
            let _ = self.advance_token();
            let right = match self.factor() {
                Ok(e) => e,
                Err(d) => return Err(d),
            };
            proof {
                assert(step_pos(self.current as int, p_op + 1, toks.len() as int)
                    == self.current as int);
            }
            left = Expr::Binary { left: Box::new(left), operator: op, right: Box::new(right) };
        }
        Ok(left)
    }

    /// `comparison := term ( ("<" | "<=" | ">" | ">=") term )*`.
    #[verifier::loop_isolation(false)]
    #[verifier::rlimit(80)]
    fn comparison(&mut self) -> (r: Result<Expr, Diagnostic>)
        requires
            tokens_wf(old(self).toks()),
            old(self).current < old(self).tokens@.len(),
        ensures
            final(self).tokens == old(self).tokens,
            final(self).diagnostics == old(self).diagnostics,
            old(self).current <= final(self).current < final(self).tokens@.len(),
            ({
                let sp = sp_comparison(old(self).toks(), old(self).current as int);
                match r {
                    Ok(e) => sp == Ok::<(ExprV, int), (DiagnosticV, int)>(
                        (view_expr(e), final(self).current as int),
                    ) && final(self).current > old(self).current,
                    Err(d) => sp == Err::<(ExprV, int), (DiagnosticV, int)>(
                        (d@, final(self).current as int),
                    ),
                }
            }),
        decreases rem_toks(self.toks(), self.current as int), 10int,
    {
        let ghost toks = self.toks();
        let ghost pos0 = self.current as int;
        let mut left = match self.term() {
            Ok(e) => e,
            Err(d) => return Err(d),
        };
        proof {
            assert(step_pos(self.current as int, pos0, toks.len() as int) == self.current as int);
        }
        while self.check(TokenKind::Greater) || self.check(TokenKind::GreaterEqual) || self.check(
            TokenKind::Less,
        ) || self.check(TokenKind::LessEqual)
            invariant
                self.tokens == old(self).tokens,
                self.diagnostics == old(self).diagnostics,
                pos0 < self.current < self.tokens@.len(),
                sp_comparison_rest(toks, self.current as int, view_expr(left)) == sp_comparison(
                    toks,
                    pos0,
                ),
            decreases toks.len() - self.current,
        {
            let k = self.peek_kind();
            let op = if k == TokenKind::Greater {
                BinOp::Greater
            } else if k == TokenKind::GreaterEqual {
                BinOp::GreaterEqual
            } else if k == TokenKind::Less {
                BinOp::Less
            } else {
                BinOp::LessEqual
            };
            let ghost p_op = self.current as int;
            let _ = self.advance_token();
            let right = match self.term() {
                Ok(e) => e,
                Err(d) => return Err(d),
            };
            proof {
                assert(step_pos(self.current as int, p_op + 1, toks.len() as int)
                    == self.current as int);
            }
            left = Expr::Binary { left: Box::new(left), operator: op, right: Box::new(right) };
        }
        Ok(left)
    }

    /// `equality := comparison ( ("==" | "!=") comparison )*`.
    #[verifier::loop_isolation(false)]
    #[verifier::rlimit(80)]
    fn equality(&mut self) -> (r: Result<Expr, Diagnostic>)
        requires
            tokens_wf(old(self).toks()),
            old(self).current < old(self).tokens@.len(),
        ensures
            final(self).tokens == old(self).tokens,
            final(self).diagnostics == old(self).diagnostics,
            old(self).current <= final(self).current < final(self).tokens@.len(),
            ({
                let sp = sp_equality(old(self).toks(), old(self).current as int);
                match r {
                    Ok(e) => sp == Ok::<(ExprV, int), (DiagnosticV, int)>(
                        (view_expr(e), final(self).current as int),
                    ) && final(self).current > old(self).current,
                    Err(d) => sp == Err::<(ExprV, int), (DiagnosticV, int)>(
                        (d@, final(self).current as int),
                    ),
                }
            }),
        decreases rem_toks(self.toks(), self.current as int), 12int,
    {
        let ghost toks = self.toks();
        let ghost pos0 = self.current as int;
        let mut left = match self.comparison() {
            Ok(e) => e,
            Err(d) => return Err(d),
        };
        proof {
            assert(step_pos(self.current as int, pos0, toks.len() as int) == self.current as int);
        }
        while self.check(TokenKind::BangEqual) || self.check(TokenKind::EqualEqual)
            invariant
                self.tokens == old(self).tokens,
                self.diagnostics == old(self).diagnostics,
                pos0 < self.current < self.tokens@.len(),
                sp_equality_rest(toks, self.current as int, view_expr(left)) == sp_equality(
                    toks,
                    pos0,
                ),
            decreases toks.len() - self.current,
        {
            let k = self.peek_kind();
            let op = if k == TokenKind::BangEqual {
                BinOp::BangEqual
            } else {
                BinOp::EqualEqual
            };
            let ghost p_op = self.current as int;
            let _ = self.advance_token();
            let right = match self.comparison() {
                Ok(e) => e,
                Err(d) => return Err(d),
            };
            proof {
                assert(step_pos(self.current as int, p_op + 1, toks.len() as int)
                    == self.current as int);
            }
            left = Expr::Binary { left: Box::new(left), operator: op, right: Box::new(right) };
        }
        Ok(left)
    }

    /// Assignment: lowest precedence, right-associative, valid only when
    /// the left operand parsed as a variable.
    #[verifier::loop_isolation(false)]
    #[verifier::rlimit(80)]
    fn assignment(&mut self) -> (r: Result<Expr, Diagnostic>)
        requires
            tokens_wf(old(self).toks()),
            old(self).current < old(self).tokens@.len(),
        ensures
            final(self).tokens == old(self).tokens,
            final(self).diagnostics == old(self).diagnostics,
            old(self).current <= final(self).current < final(self).tokens@.len(),
            ({
                let sp = sp_assignment(old(self).toks(), old(self).current as int);
                match r {
                    Ok(e) => sp == Ok::<(ExprV, int), (DiagnosticV, int)>(
                        (view_expr(e), final(self).current as int),
                    ) && final(self).current > old(self).current,
                    Err(d) => sp == Err::<(ExprV, int), (DiagnosticV, int)>(
                        (d@, final(self).current as int),
                    ),
                }
            }),
        decreases rem_toks(self.toks(), self.current as int), 14int,
    {
        let expr = match self.equality() {
            Ok(e) => e,
            Err(d) => return Err(d),
        };
        if self.check(TokenKind::Equal) {
            match expr {
                Expr::Variable { token } => {
                    let _ = self.advance_token();
                    let value = match self.assignment() {
                        Ok(v) => v,
                        Err(d) => return Err(d),
                    };
                    Ok(Expr::Assign { token, value: Box::new(value) })
                },
                _ => {
                    let d = self.diag_here("Invalid assignment target.");
                    Err(d)
                },
            }
        } else {
            Ok(expr)
        }
    }

    /// `expression := assignment`.
    #[verifier::loop_isolation(false)]
    fn expression(&mut self) -> (r: Result<Expr, Diagnostic>)
        requires
            tokens_wf(old(self).toks()),
            old(self).current < old(self).tokens@.len(),
        ensures
            final(self).tokens == old(self).tokens,
            final(self).diagnostics == old(self).diagnostics,
            old(self).current <= final(self).current < final(self).tokens@.len(),
            ({
                let sp = sp_expression(old(self).toks(), old(self).current as int);
                match r {
                    Ok(e) => sp == Ok::<(ExprV, int), (DiagnosticV, int)>(
                        (view_expr(e), final(self).current as int),
                    ) && final(self).current > old(self).current,
                    Err(d) => sp == Err::<(ExprV, int), (DiagnosticV, int)>(
                        (d@, final(self).current as int),
                    ),
                }
            }),
        decreases rem_toks(self.toks(), self.current as int), 16int,
    {
        self.assignment()
    }

    /// `print` statement body, after the keyword.
    #[verifier::loop_isolation(false)]
    fn print_statement(&mut self) -> (r: Result<Stmt, Diagnostic>)
        requires
            tokens_wf(old(self).toks()),
            old(self).current < old(self).tokens@.len(),
        ensures
            final(self).tokens == old(self).tokens,
            final(self).diagnostics == old(self).diagnostics,
            old(self).current <= final(self).current < final(self).tokens@.len(),
            ({
                let sp = sp_print_statement(old(self).toks(), old(self).current as int);
                match r {
                    Ok(s) => sp == Ok::<(StmtV, int), (DiagnosticV, int)>(
                        (view_stmt(s), final(self).current as int),
                    ) && final(self).current > old(self).current,
                    Err(d) => sp == Err::<(StmtV, int), (DiagnosticV, int)>(
                        (d@, final(self).current as int),
                    ),
                }
            }),
        decreases rem_toks(self.toks(), self.current as int), 18int,
    {
        let value = match self.expression() {
            Ok(e) => e,
            Err(d) => return Err(d),
        };
        match self.consume_kind(TokenKind::Semicolon, "Expect ';' after value.") {
            Ok(_) => Ok(Stmt::PrintStmt(value)),
            Err(d) => Err(d),
        }
    }

    /// Expression statement body.
    #[verifier::loop_isolation(false)]
    fn expression_statement(&mut self) -> (r: Result<Stmt, Diagnostic>)
        requires
            tokens_wf(old(self).toks()),
            old(self).current < old(self).tokens@.len(),
        ensures
            final(self).tokens == old(self).tokens,
            final(self).diagnostics == old(self).diagnostics,
            old(self).current <= final(self).current < final(self).tokens@.len(),
            ({
                let sp = sp_expression_statement(old(self).toks(), old(self).current as int);
                match r {
                    Ok(s) => sp == Ok::<(StmtV, int), (DiagnosticV, int)>(
                        (view_stmt(s), final(self).current as int),
                    ) && final(self).current > old(self).current,
                    Err(d) => sp == Err::<(StmtV, int), (DiagnosticV, int)>(
                        (d@, final(self).current as int),
                    ),
                }
            }),
        decreases rem_toks(self.toks(), self.current as int), 18int,
    {
        let value = match self.expression() {
            Ok(e) => e,
            Err(d) => return Err(d),
        };
        match self.consume_kind(TokenKind::Semicolon, "Expect ';' after expression.") {
            Ok(_) => Ok(Stmt::ExprStmt(value)),
            Err(d) => Err(d),
        }
    }

    /// Variable declaration body, after the `var` keyword.
    #[verifier::loop_isolation(false)]
    fn var_declaration(&mut self) -> (r: Result<Decl, Diagnostic>)
        requires
            tokens_wf(old(self).toks()),
            old(self).current < old(self).tokens@.len(),
        ensures
            final(self).tokens == old(self).tokens,
            final(self).diagnostics == old(self).diagnostics,
            old(self).current <= final(self).current < final(self).tokens@.len(),
            ({
                let sp = sp_var_declaration(old(self).toks(), old(self).current as int);
                match r {
                    Ok(d) => sp == Ok::<(DeclV, int), (DiagnosticV, int)>(
                        (view_decl(d), final(self).current as int),
                    ) && final(self).current > old(self).current,
                    Err(d) => sp == Err::<(DeclV, int), (DiagnosticV, int)>(
                        (d@, final(self).current as int),
                    ),
                }
            }),
        decreases rem_toks(self.toks(), self.current as int), 18int,
    {
        let token = match self.consume_kind(TokenKind::Identifier, "Expect variable name.") {
            Ok(t) => t,
            Err(d) => return Err(d),
        };
        let initializer = if self.match_kind(TokenKind::Equal) {
            match self.expression() {
                Ok(e) => Some(e),
                Err(d) => return Err(d),
            }
        } else {
            None
        };
        match self.consume_kind(TokenKind::Semicolon, "Expect ';' after variable declaration.") {
            Ok(_) => Ok(Decl::VarDecl { identifier: token, initializer }),
            Err(d) => Err(d),
        }
    }

    /// Error recovery: discards tokens until a statement boundary, so
    /// the parser resumes at the next plausible statement.
    #[verifier::loop_isolation(false)]
    fn synchronize(&mut self)
        requires
            tokens_wf(old(self).toks()),
            old(self).current < old(self).tokens@.len(),
        ensures
            final(self).tokens == old(self).tokens,
            final(self).diagnostics == old(self).diagnostics,
            old(self).current <= final(self).current < final(self).tokens@.len(),
            final(self).current as int == sp_synchronize(old(self).toks(), old(self).current as int),
            !at_end(old(self).toks(), old(self).current as int) ==> final(self).current > old(
                self,
            ).current,
    {
        let ghost toks = self.toks();
        let ghost pos0 = self.current as int;
        if self.is_done() {
            return ;
        }
        let _ = self.advance_token();
        while !self.is_done()
            invariant
                self.tokens == old(self).tokens,
                self.diagnostics == old(self).diagnostics,
                pos0 < self.current < self.tokens@.len(),
                sp_sync_scan(toks, self.current as int) == sp_sync_scan(toks, pos0 + 1),
            decreases toks.len() - self.current,
        {
            let prev_kind = self.tokens[self.current - 1].kind();
            proof {
                assert(self.tokens@[self.current as int - 1]@ == tok_at(
                    toks,
                    self.current as int - 1,
                ));
            }
            if prev_kind == TokenKind::Semicolon {
                return ;
            }
            let k = self.peek_kind();
            if k == TokenKind::Class || k == TokenKind::Fun || k == TokenKind::Var || k
                == TokenKind::For || k == TokenKind::If || k == TokenKind::While || k
                == TokenKind::Print || k == TokenKind::Return {
                return ;
            }
            let _ = self.advance_token();
        }
    }

    /// `statement := "print" expression ";" | "{" declaration* "}"
    ///             | expression ";"`.
    #[verifier::loop_isolation(false)]
    #[verifier::rlimit(80)]
    fn statement(&mut self) -> (r: Result<Stmt, Diagnostic>)
        requires
            tokens_wf(old(self).toks()),
            old(self).current < old(self).tokens@.len(),
        ensures
            final(self).tokens == old(self).tokens,
            old(self).current <= final(self).current < final(self).tokens@.len(),
            ({
                let st = sp_statement(old(self).toks(), old(self).current as int);
                &&& diags_view(final(self).diagnostics@) == diags_view(old(self).diagnostics@)
                    + st.pre
                &&& match r {
                    Ok(s) => st.result == Ok::<(StmtV, int), (DiagnosticV, int)>(
                        (view_stmt(s), final(self).current as int),
                    ) && final(self).current > old(self).current,
                    Err(d) => st.result == Err::<(StmtV, int), (DiagnosticV, int)>(
                        (d@, final(self).current as int),
                    ),
                }
            }),
        decreases rem_toks(self.toks(), self.current as int), 20int,
    {
        let ghost toks = self.toks();
        let ghost pos0 = self.current as int;
        proof {
            assert(diags_view(self.diagnostics@) + Seq::<DiagnosticV>::empty() =~= diags_view(
                self.diagnostics@,
            ));
        }
        if self.match_kind(TokenKind::Print) {
            return self.print_statement();
        }
        if self.match_kind(TokenKind::LeftBrace) {
            let ghost b = sp_block_items(toks, self.current as int);
            let mut decls: Vec<Decl> = Vec::new();
            proof {
                assert(view_decls(decls@) =~= Seq::<DeclV>::empty());
                assert(Seq::<DeclV>::empty() + b.decls =~= b.decls);
                assert(Seq::<DiagnosticV>::empty() + b.diags =~= b.diags);
            }
            while !self.is_done() && !self.check(TokenKind::RightBrace)
                invariant
                    self.tokens == old(self).tokens,
                    pos0 < self.current < self.tokens@.len(),
                    b.decls == view_decls(decls@) + sp_block_items(
                        toks,
                        self.current as int,
                    ).decls,
                    diags_view(old(self).diagnostics@) + b.diags == diags_view(
                        self.diagnostics@,
                    ) + sp_block_items(toks, self.current as int).diags,
                    b.pos == sp_block_items(toks, self.current as int).pos,
                decreases toks.len() - self.current,
            {
                let ghost cur0 = self.current as int;
                let ghost dgs0 = diags_view(self.diagnostics@);
                let ghost dcs0 = view_decls(decls@);
                let ghost raw0 = decls@;
                match self.declaration() {
                    Some(d) => {
                        let ghost dv = view_decl(d);
                        decls.push(d);
                        proof {
                            assert(decls@.drop_last() =~= raw0);
                            assert(view_decls(decls@) == view_decls(raw0).push(dv));
                            assert(view_decls(raw0).push(dv) =~= view_decls(raw0) + seq![dv]);
                        }
                    },
                    None => {},
                }
                proof {
                    let dstep = sp_declaration(toks, cur0);
                    assert(step_pos(dstep.pos, cur0 + 1, toks.len() as int)
                        == self.current as int);
                    let rest = sp_block_items(toks, self.current as int);
                    assert(view_decls(decls@) == dcs0 + opt_decl(dstep.decl));
                    assert((dcs0 + opt_decl(dstep.decl)) + rest.decls =~= dcs0 + (opt_decl(
                        dstep.decl,
                    ) + rest.decls));
                    assert((dgs0 + dstep.diags) + rest.diags =~= dgs0 + (dstep.diags
                        + rest.diags));
                }
            }
            proof {
                assert(b.pos == self.current as int);
                assert(b.decls =~= view_decls(decls@));
                assert(diags_view(old(self).diagnostics@) + b.diags =~= diags_view(
                    self.diagnostics@,
                ));
            }
            match self.consume_kind(TokenKind::RightBrace, "Expect '}' after block.") {
                Ok(_) => {
                    return Ok(Stmt::Block(decls));
                },
                Err(d) => {
                    return Err(d);
                },
            }
        }
        self.expression_statement()
    }

    /// `declaration := "var" ... | statement`, with recovery: a failed
    /// declaration is reported, the parser synchronizes, and the
    /// declaration is dropped.
    #[verifier::loop_isolation(false)]
    #[verifier::rlimit(80)]
    pub fn declaration(&mut self) -> (r: Option<Decl>)
        requires
            tokens_wf(old(self).toks()),
            old(self).current < old(self).tokens@.len(),
        ensures
            final(self).tokens == old(self).tokens,
            old(self).current <= final(self).current < final(self).tokens@.len(),
            ({
                let dr = sp_declaration(old(self).toks(), old(self).current as int);
                &&& match r {
                    Some(d) => dr.decl == Some(view_decl(d)),
                    None => dr.decl is None,
                }
                &&& diags_view(final(self).diagnostics@) == diags_view(old(self).diagnostics@)
                    + dr.diags
                &&& final(self).current as int == dr.pos
            }),
            !at_end(old(self).toks(), old(self).current as int) ==> final(self).current > old(
                self,
            ).current,
        decreases rem_toks(self.toks(), self.current as int), 22int,
    {
        let ghost toks = self.toks();
        let ghost pos0 = self.current as int;
        let ghost dgs0 = diags_view(self.diagnostics@);
        proof {
            assert(dgs0 + Seq::<DiagnosticV>::empty() =~= dgs0);
        }
        if self.match_kind(TokenKind::Var) {
            match self.var_declaration() {
                Ok(d) => Some(d),
                Err(dg) => {
                    let ghost dgv = dg@;
                    self.diagnostics.push(dg);
                    proof {
                        assert(diags_view(self.diagnostics@) =~~= dgs0 + seq![dgv]);
                    }
                    self.synchronize();
                    None
                },
            }
        } else {
            match self.statement() {
                Ok(s) => Some(Decl::Stmt(s)),
                Err(dg) => {
                    let ghost st = sp_statement(toks, pos0);
                    let ghost dgv = dg@;
                    let ghost dgs_mid = diags_view(self.diagnostics@);
                    self.diagnostics.push(dg);
                    proof {
                        assert(diags_view(self.diagnostics@) =~~= dgs_mid + seq![dgv]);
                        assert((dgs0 + st.pre) + seq![dgv] =~= dgs0 + (st.pre + seq![dgv]));
                    }
                    self.synchronize();
                    None
                },
            }
        }
    }

    /// Parses the token stream into the declarations that parsed; each
    /// top-level declaration parses independently and a failed one is
    /// reported and dropped, never silently kept.
    #[verifier::loop_isolation(false)]
    #[verifier::rlimit(80)]
    pub fn parse(&mut self) -> (statements: Vec<Decl>)
        requires
            tokens_wf(old(self).toks()),
            old(self).current < old(self).tokens@.len(),
        ensures
            final(self).tokens == old(self).tokens,
            final(self).current < final(self).tokens@.len(),
            ({
                let pr = sp_parse_from(old(self).toks(), old(self).current as int);
                &&& view_decls(statements@) == pr.decls
                &&& diags_view(final(self).diagnostics@) == diags_view(old(self).diagnostics@)
                    + pr.diags
                &&& final(self).current as int == pr.pos
            }),
    {
        let ghost toks = self.toks();
        let ghost pos0 = self.current as int;
        let ghost pr = sp_parse_from(toks, pos0);
        let mut statements: Vec<Decl> = Vec::new();
        proof {
            assert(view_decls(statements@) =~= Seq::<DeclV>::empty());
            assert(Seq::<DeclV>::empty() + pr.decls =~= pr.decls);
            assert(Seq::<DiagnosticV>::empty() + pr.diags =~= pr.diags);
        }
        while !self.is_done()
            invariant
                self.tokens == old(self).tokens,
                self.current < self.tokens@.len(),
                pr.decls == view_decls(statements@) + sp_parse_from(
                    toks,
                    self.current as int,
                ).decls,
                diags_view(old(self).diagnostics@) + pr.diags == diags_view(self.diagnostics@)
                    + sp_parse_from(toks, self.current as int).diags,
                pr.pos == sp_parse_from(toks, self.current as int).pos,
            decreases toks.len() - self.current,
        {
            let ghost cur0 = self.current as int;
            let ghost dgs0 = diags_view(self.diagnostics@);
            let ghost dcs0 = view_decls(statements@);
            let ghost raw0 = statements@;
            match self.declaration() {
                Some(d) => {
                    let ghost dv = view_decl(d);
                    statements.push(d);
                    proof {
                        assert(statements@.drop_last() =~= raw0);
                        assert(view_decls(statements@) == view_decls(raw0).push(dv));
                        assert(view_decls(raw0).push(dv) =~= view_decls(raw0) + seq![dv]);
                    }
                },
                None => {},
            }
            proof {
                let dstep = sp_declaration(toks, cur0);
                assert(step_pos(dstep.pos, cur0 + 1, toks.len() as int) == self.current as int);
                let rest = sp_parse_from(toks, self.current as int);
                assert(view_decls(statements@) == dcs0 + opt_decl(dstep.decl));
                assert((dcs0 + opt_decl(dstep.decl)) + rest.decls =~= dcs0 + (opt_decl(
                    dstep.decl,
                ) + rest.decls));
                assert((dgs0 + dstep.diags) + rest.diags =~= dgs0 + (dstep.diags + rest.diags));
            }
        }
        proof {
            assert(view_decls(statements@) + Seq::<DeclV>::empty() =~= view_decls(statements@));
            assert(diags_view(self.diagnostics@) + Seq::<DiagnosticV>::empty() =~= diags_view(
                self.diagnostics@,
            ));
        }
        statements
    }
}

} // verus!
