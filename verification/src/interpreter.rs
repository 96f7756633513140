use crate::ast::{view_decl, view_decls, view_expr, BinOp, Decl, DeclV, Expr, ExprV, Literal,
    LiteralV, Stmt, StmtV, UnOp};
use crate::environment::{env_assign, env_define, env_lookup, env_pop, undefined_assign_message,
    undefined_get_message, EnvV, Environment};
use crate::render::{dec_int, i64_to_string};
use vstd::prelude::*;

verus! {

/// A runtime value: plain data, copied freely, no reference identity.
#[derive(Debug, PartialEq, Eq, Clone)]
pub enum Value {
    String(String),
    Number(i64),
    Boolean(bool),
    Nil,
}

/// Mathematical model of a runtime value.
pub enum ValueV {
    Str(Seq<char>),
    Num(i64),
    Bool(bool),
    Nil,
}

impl View for Value {
    type V = ValueV;

    open spec fn view(&self) -> ValueV {
        match self {
            Value::String(s) => ValueV::Str(s@),
            Value::Number(n) => ValueV::Num(*n),
            Value::Boolean(b) => ValueV::Bool(*b),
            Value::Nil => ValueV::Nil,
        }
    }
}

impl Value {
    /// An owned copy of this value with the same model.
    pub fn duplicate(&self) -> (r: Value)
        ensures
            r@ == self@,
    {
        match self {
            Value::String(s) => Value::String(s.clone()),
            Value::Number(n) => Value::Number(*n),
            Value::Boolean(b) => Value::Boolean(*b),
            Value::Nil => Value::Nil,
        }
    }

    /// Full value-and-kind equality: values of different kinds are never
    /// equal, values of the same kind compare their contents.
    pub fn same_value(&self, other: &Value) -> (r: bool)
        ensures
            r == (self@ == other@),
    {
        match (self, other) {
            (Value::String(a), Value::String(b)) => *a == *b,
            (Value::Number(a), Value::Number(b)) => *a == *b,
            (Value::Boolean(a), Value::Boolean(b)) => *a == *b,
            (Value::Nil, Value::Nil) => true,
            _ => false,
        }
    }
}

/// The display form of a value: a number as its plain decimal literal, a
/// string as its raw contents, a boolean as `true`/`false`, nil as `nil`.
pub open spec fn sp_display(v: ValueV) -> Seq<char> {
    match v {
        ValueV::Str(s) => s,
        ValueV::Num(n) => dec_int(n as int),
        ValueV::Bool(b) => if b {
            "true"@
        } else {
            "false"@
        },
        ValueV::Nil => "nil"@,
    }
}

impl Value {
    /// The display form of this value, as written by a `print` statement.
    pub fn display(&self) -> (r: String)
        ensures
            r@ == sp_display(self@),
    {
        match self {
            Value::String(s) => s.clone(),
            Value::Number(n) => i64_to_string(*n),
            Value::Boolean(b) => {
                if *b {
                    String::from_str("true")
                } else {
                    String::from_str("false")
                }
            },
            Value::Nil => String::from_str("nil"),
        }
    }
}

/// An error raised during evaluation; it carries only a message.
#[derive(Debug)]
pub struct RuntimeError {
    pub message: String,
}

/// Truthiness: nil and false are falsy; every other value, a number or a
/// string whatever its content included, is truthy.
pub open spec fn sp_truthy(v: ValueV) -> bool {
    match v {
        ValueV::Nil => false,
        ValueV::Bool(b) => b,
        _ => true,
    }
}

/// Law: nil and false are the only falsy values; a number is truthy
/// regardless of its value, and so is every string.
pub proof fn lemma_truthiness()
    ensures
        !sp_truthy(ValueV::Nil),
        forall|b: bool| sp_truthy(ValueV::Bool(b)) == b,
        forall|n: i64| sp_truthy(ValueV::Num(n)),
        forall|s: Seq<char>| sp_truthy(ValueV::Str(s)),
{
}

/// The message raised by a numeric operator on a non-numeric operand.
pub open spec fn number_operand_message() -> Seq<char> {
    "Operand must be a number!"@
}

/// The message raised by a non-equality operator on a mismatched pair.
pub open spec fn operand_pair_message() -> Seq<char> {
    "Operands must be two numbers or two strings."@
}

/// The message raised by a division whose quotient does not exist.
pub open spec fn division_message() -> Seq<char> {
    "Division by 0 encountered"@
}

/// The value a literal evaluates to.
pub open spec fn sp_literal_value(l: LiteralV) -> ValueV {
    match l {
        LiteralV::Number(n) => ValueV::Num(n),
        LiteralV::StrLit(s) => ValueV::Str(s),
        LiteralV::True => ValueV::Bool(true),
        LiteralV::False => ValueV::Bool(false),
        LiteralV::Nil => ValueV::Nil,
    }
}

/// Arithmetic negation, wrapping on the one value with no negation.
pub open spec fn wrap_neg(n: i64) -> i64 {
    if n == i64::MIN {
        i64::MIN
    } else {
        (-n) as i64
    }
}

/// The result of a unary operator: minus negates a number and rejects
/// everything else; bang negates truthiness.
pub open spec fn sp_unary(op: UnOp, v: ValueV) -> Result<ValueV, Seq<char>> {
    match op {
        UnOp::Minus => match v {
            ValueV::Num(n) => Ok(ValueV::Num(wrap_neg(n))),
            _ => Err(number_operand_message()),
        },
        UnOp::Bang => Ok(ValueV::Bool(!sp_truthy(v))),
    }
}

/// The result of a binary operator, dispatched on the operand-type pair:
/// two numbers compare and do wrapping arithmetic, with division failing
/// when no quotient exists; two strings compare by value and concatenate
/// under plus; any other pair admits only the equality operators, which
/// compare full value and kind.
pub open spec fn sp_binary(op: BinOp, l: ValueV, r: ValueV) -> Result<ValueV, Seq<char>> {
    match (l, r) {
        (ValueV::Num(a), ValueV::Num(b)) => match op {
            BinOp::EqualEqual => Ok(ValueV::Bool(a == b)),
            BinOp::BangEqual => Ok(ValueV::Bool(a != b)),
            BinOp::Less => Ok(ValueV::Bool(a < b)),
            BinOp::LessEqual => Ok(ValueV::Bool(a <= b)),
            BinOp::Greater => Ok(ValueV::Bool(a > b)),
            BinOp::GreaterEqual => Ok(ValueV::Bool(a >= b)),
            BinOp::Plus => Ok(ValueV::Num(vstd::wrapping::i64_specs::wrapping_add(a, b))),
            BinOp::Minus => Ok(ValueV::Num(vstd::wrapping::i64_specs::wrapping_sub(a, b))),
            BinOp::Star => Ok(ValueV::Num(vstd::wrapping::i64_specs::wrapping_mul(a, b))),
            BinOp::Slash => match a.checked_div(b) {
                Some(q) => Ok(ValueV::Num(q)),
                None => Err(division_message()),
            },
        },
        (ValueV::Str(a), ValueV::Str(b)) => match op {
            BinOp::EqualEqual => Ok(ValueV::Bool(a == b)),
            BinOp::BangEqual => Ok(ValueV::Bool(a != b)),
            BinOp::Plus => Ok(ValueV::Str(a + b)),
            _ => Err(number_operand_message()),
        },
        _ => match op {
            BinOp::EqualEqual => Ok(ValueV::Bool(l == r)),
            BinOp::BangEqual => Ok(ValueV::Bool(l != r)),
            _ => Err(operand_pair_message()),
        },
    }
}

/// What evaluating an expression yields: a value or an error message,
/// together with the scope chain it leaves behind. Assignments made
/// before a later error persist.
pub struct EvalOut {
    pub result: Result<ValueV, Seq<char>>,
    pub env: EnvV,
}

/// The meaning of an expression: operands evaluate left to right, the
/// left fully before the right; a variable reads the nearest binding; an
/// assignment writes the nearest binding and yields the assigned value.
pub open spec fn sp_eval(e: ExprV, env: EnvV) -> EvalOut
    decreases e,
{
    match e {
        ExprV::Literal(l) => EvalOut { result: Ok(sp_literal_value(l)), env },
        ExprV::Grouping(inner) => sp_eval(*inner, env),
        ExprV::Unary(op, right) => {
            let r = sp_eval(*right, env);
            match r.result {
                Ok(v) => EvalOut { result: sp_unary(op, v), env: r.env },
                Err(m) => r,
            }
        },
        ExprV::Binary(left, op, right) => {
            let lr = sp_eval(*left, env);
            match lr.result {
                Ok(lv) => {
                    let rr = sp_eval(*right, lr.env);
                    match rr.result {
                        Ok(rv) => EvalOut { result: sp_binary(op, lv, rv), env: rr.env },
                        Err(m) => rr,
                    }
                },
                Err(m) => lr,
            }
        },
        ExprV::Variable(t) => match env_lookup(env, t.lexeme) {
            Some(v) => EvalOut { result: Ok(v), env },
            None => EvalOut { result: Err(undefined_get_message(t.lexeme)), env },
        },
        ExprV::Assign(t, value) => {
            let r = sp_eval(*value, env);
            match r.result {
                Ok(v) => match env_assign(r.env, t.lexeme, v) {
                    Some(e2) => EvalOut { result: Ok(v), env: e2 },
                    None => EvalOut { result: Err(undefined_assign_message(t.lexeme)), env: r.env },
                },
                Err(m) => r,
            }
        },
    }
}

/// What executing declarations yields: the first error message if one
/// was raised, the scope chain left behind, and the lines printed.
pub struct StepOut {
    pub err: Option<Seq<char>>,
    pub env: EnvV,
    pub out: Seq<Seq<char>>,
}

/// The meaning of one declaration: an expression statement evaluates and
/// discards; a print statement evaluates and emits the display form; a
/// variable declaration evaluates the initializer (nil when absent) and
/// defines the name in the current frame; a block runs its declarations
/// in a fresh frame that is dropped on every exit path, an error
/// included.
pub open spec fn sp_exec_decl(d: DeclV, env: EnvV) -> StepOut
    decreases d, 0nat,
{
    match d {
        DeclV::VarDecl(t, init) => match init {
            Some(e) => {
                let r = sp_eval(e, env);
                match r.result {
                    Ok(v) => StepOut {
                        err: None,
                        env: env_define(r.env, t.lexeme, v),
                        out: Seq::empty(),
                    },
                    Err(m) => StepOut { err: Some(m), env: r.env, out: Seq::empty() },
                }
            },
            None => StepOut {
                err: None,
                env: env_define(env, t.lexeme, ValueV::Nil),
                out: Seq::empty(),
            },
        },
        DeclV::Stmt(StmtV::ExprStmt(e)) => {
            let r = sp_eval(e, env);
            match r.result {
                Ok(v) => StepOut { err: None, env: r.env, out: Seq::empty() },
                Err(m) => StepOut { err: Some(m), env: r.env, out: Seq::empty() },
            }
        },
        DeclV::Stmt(StmtV::PrintStmt(e)) => {
            let r = sp_eval(e, env);
            match r.result {
                Ok(v) => StepOut { err: None, env: r.env, out: seq![sp_display(v)] },
                Err(m) => StepOut { err: Some(m), env: r.env, out: Seq::empty() },
            }
        },
        DeclV::Stmt(StmtV::Block(ds)) => {
            let s = sp_exec_decls(ds, env.push(Seq::empty()));
            StepOut { err: s.err, env: env_pop(s.env), out: s.out }
        },
    }
}

/// The meaning of a sequence of declarations run in order, stopping at
/// the first error.
pub open spec fn sp_exec_decls(ds: Seq<DeclV>, env: EnvV) -> StepOut
    decreases ds, 1nat,
{
    if ds.len() == 0 {
        StepOut { err: None, env, out: Seq::empty() }
    } else {
        let s1 = sp_exec_decl(ds[0], env);
        match s1.err {
            Some(m) => s1,
            None => {
                let s2 = sp_exec_decls(ds.drop_first(), s1.env);
                StepOut { err: s2.err, env: s2.env, out: s1.out + s2.out }
            },
        }
    }
}

/// What interpreting a whole program yields: every error message raised
/// (one top-level declaration's failure does not stop the next), the
/// final scope chain, and the lines printed.
pub struct RunOut {
    pub errors: Seq<Seq<char>>,
    pub env: EnvV,
    pub out: Seq<Seq<char>>,
}

/// The meaning of a program: each top-level declaration runs
/// independently; an error is recorded and execution proceeds with the
/// next declaration.
pub open spec fn sp_interpret(ds: Seq<DeclV>, env: EnvV) -> RunOut
    decreases ds.len(),
{
    if ds.len() == 0 {
        RunOut { errors: Seq::empty(), env, out: Seq::empty() }
    } else {
        let s1 = sp_exec_decl(ds[0], env);
        let rest = sp_interpret(ds.drop_first(), s1.env);
        RunOut {
            errors: (match s1.err {
                Some(m) => seq![m],
                None => Seq::empty(),
            }) + rest.errors,
            env: rest.env,
            out: s1.out + rest.out,
        }
    }
}

/// Evaluation never changes how many frames the chain holds.
pub proof fn lemma_eval_depth(e: ExprV, env: EnvV)
    ensures
        sp_eval(e, env).env.len() == env.len(),
    decreases e,
{
    match e {
        ExprV::Literal(l) => {},
        ExprV::Grouping(inner) => {
            lemma_eval_depth(*inner, env);
        },
        ExprV::Unary(op, right) => {
            lemma_eval_depth(*right, env);
        },
        ExprV::Binary(left, op, right) => {
            lemma_eval_depth(*left, env);
            lemma_eval_depth(*right, sp_eval(*left, env).env);
        },
        ExprV::Variable(t) => {},
        ExprV::Assign(t, value) => {
            lemma_eval_depth(*value, env);
            let r = sp_eval(*value, env);
            if r.result is Ok {
                let v = r.result->Ok_0;
                if env_assign(r.env, t.lexeme, v) is Some {
                    crate::environment::lemma_assign_len(
                        r.env,
                        t.lexeme,
                        v,
                        env_assign(r.env, t.lexeme, v)->Some_0,
                    );
                }
            }
        },
    }
}

/// Executing a declaration never changes how many frames the chain holds:
/// a block's frame is dropped on every exit path.
pub proof fn lemma_exec_decl_depth(d: DeclV, env: EnvV)
    ensures
        sp_exec_decl(d, env).env.len() == env.len(),
    decreases d, 0nat,
{
    match d {
        DeclV::VarDecl(t, init) => match init {
            Some(e) => {
                lemma_eval_depth(e, env);
            },
            None => {},
        },
        DeclV::Stmt(StmtV::ExprStmt(e)) => {
            lemma_eval_depth(e, env);
        },
        DeclV::Stmt(StmtV::PrintStmt(e)) => {
            lemma_eval_depth(e, env);
        },
        DeclV::Stmt(StmtV::Block(ds)) => {
            lemma_exec_decls_depth(ds, env.push(Seq::empty()));
        },
    }
}

/// Executing a sequence of declarations never changes the frame count.
pub proof fn lemma_exec_decls_depth(ds: Seq<DeclV>, env: EnvV)
    ensures
        sp_exec_decls(ds, env).env.len() == env.len(),
    decreases ds, 1nat,
{
    if ds.len() > 0 {
        lemma_exec_decl_depth(ds[0], env);
        let s1 = sp_exec_decl(ds[0], env);
        if s1.err is None {
            lemma_exec_decls_depth(ds.drop_first(), s1.env);
        }
    }
}

/// Interpreting a program never changes how many frames the chain holds.
pub proof fn lemma_interpret_depth(ds: Seq<DeclV>, env: EnvV)
    ensures
        sp_interpret(ds, env).env.len() == env.len(),
    decreases ds.len(),
{
    if ds.len() > 0 {
        lemma_exec_decl_depth(ds[0], env);
        lemma_interpret_depth(ds.drop_first(), sp_exec_decl(ds[0], env).env);
    }
}

/// The model of a vector of printed lines.
pub open spec fn lines_view(v: Seq<String>) -> Seq<Seq<char>> {
    v.map_values(|s: String| s@)
}

fn number_operand_error() -> (r: RuntimeError)
    ensures
        r.message@ == number_operand_message(),
{
    RuntimeError { message: String::from_str("Operand must be a number!") }
}

fn operand_pair_error() -> (r: RuntimeError)
    ensures
        r.message@ == operand_pair_message(),
{
    RuntimeError { message: String::from_str("Operands must be two numbers or two strings.") }
}

fn division_error() -> (r: RuntimeError)
    ensures
        r.message@ == division_message(),
{
    RuntimeError { message: String::from_str("Division by 0 encountered") }
}

/// Walks the tree of statements and expressions, executing them directly
/// against a chain of lexical scopes, and collects the printed lines and
/// the runtime errors instead of writing to process streams.
pub struct Interpreter {
    pub environment: Environment,
    pub output: Vec<String>,
    pub errors: Vec<String>,
}

impl Interpreter {
    /// A fresh interpreter: a global frame, nothing printed, no errors.
    pub fn new() -> (r: Interpreter)
        ensures
            r.environment@.len() == 1,
            r.environment@ == seq![Seq::<(Seq<char>, ValueV)>::empty()],
            r.output@ == Seq::<String>::empty(),
            r.errors@ == Seq::<String>::empty(),
    {
        Interpreter { environment: Environment::new(), output: Vec::new(), errors: Vec::new() }
    }

    /// Truthiness of a value: nil and false are falsy, all else truthy.
    pub fn is_truthy(&self, value: &Value) -> (r: bool)
        ensures
            r == sp_truthy(value@),
    {
        match value {
            Value::Nil => false,
            Value::Boolean(b) => *b,
            _ => true,
        }
    }

    /// Computes an expression's value against the current scope chain.
    /// The result and the chain it leaves behind are exactly what the
    /// expression means under `sp_eval`.
    #[verifier::loop_isolation(false)]
    pub fn evaluate(&mut self, expression: &Expr) -> (r: Result<Value, RuntimeError>)
        ensures
            ({
                let o = sp_eval(view_expr(*expression), old(self).environment@);
                &&& final(self).environment@ == o.env
                &&& final(self).output@ == old(self).output@
                &&& final(self).errors@ == old(self).errors@
                &&& match r {
                    Ok(v) => o.result == Ok::<ValueV, Seq<char>>(v@),
                    Err(er) => o.result == Err::<ValueV, Seq<char>>(er.message@),
                }
            }),
        decreases expression,
    {
        match expression {
            Expr::Literal(l) => Ok(
                match l {
                    Literal::Number(n) => Value::Number(*n),
                    Literal::String(s) => Value::String(s.clone()),
                    Literal::True => Value::Boolean(true),
                    Literal::False => Value::Boolean(false),
                    Literal::Nil => Value::Nil,
                },
            ),
            Expr::Grouping { expression: inner } => self.evaluate(&**inner),
            Expr::Unary { operator, right } => {
                let value = match self.evaluate(&**right) {
                    Ok(v) => v,
                    Err(er) => return Err(er),
                };
                match operator {
                    UnOp::Minus => match value {
                        Value::Number(v) => {
                            if v == i64::MIN {
                                Ok(Value::Number(v))
                            } else {
                                Ok(Value::Number(-v))
                            }
                        },
                        _ => Err(number_operand_error()),
                    },
                    UnOp::Bang => {
                        let t = self.is_truthy(&value);
                        Ok(Value::Boolean(!t))
                    },
                }
            },
            Expr::Binary { left, operator, right } => {
                let left_value = match self.evaluate(&**left) {
                    Ok(v) => v,
                    Err(er) => return Err(er),
                };
                let right_value = match self.evaluate(&**right) {
                    Ok(v) => v,
                    Err(er) => return Err(er),
                };
                match (&left_value, &right_value) {
                    (Value::Number(a), Value::Number(b)) => match operator {
                        BinOp::EqualEqual => Ok(Value::Boolean(*a == *b)),
                        BinOp::BangEqual => Ok(Value::Boolean(*a != *b)),
                        BinOp::Less => Ok(Value::Boolean(*a < *b)),
                        BinOp::LessEqual => Ok(Value::Boolean(*a <= *b)),
                        BinOp::Greater => Ok(Value::Boolean(*a > *b)),
                        BinOp::GreaterEqual => Ok(Value::Boolean(*a >= *b)),
                        BinOp::Plus => Ok(Value::Number(a.wrapping_add(*b))),
                        BinOp::Minus => Ok(Value::Number(a.wrapping_sub(*b))),
                        BinOp::Star => Ok(Value::Number(a.wrapping_mul(*b))),
                        BinOp::Slash => match a.checked_div(*b) {
                            Some(q) => Ok(Value::Number(q)),
                            None => Err(division_error()),
                        },
                    },
                    (Value::String(a), Value::String(b)) => match operator {
                        BinOp::EqualEqual => Ok(Value::Boolean(*a == *b)),
                        BinOp::BangEqual => Ok(Value::Boolean(!(*a == *b))),
                        BinOp::Plus => {
                            let mut s = a.clone();
                            s.append(b.as_str());
                            Ok(Value::String(s))
                        },
                        _ => Err(number_operand_error()),
                    },
                    _ => match operator {
                        BinOp::EqualEqual => Ok(
                            Value::Boolean(left_value.same_value(&right_value)),
                        ),
                        BinOp::BangEqual => {
                            let eq = left_value.same_value(&right_value);
                            Ok(Value::Boolean(!eq))
                        },
                        _ => Err(operand_pair_error()),
                    },
                }
            },
            Expr::Variable { token } => self.environment.get(token),
            Expr::Assign { token, value } => {
                let v = match self.evaluate(&**value) {
                    Ok(v) => v,
                    Err(er) => return Err(er),
                };
                match self.environment.assign(token.lexeme.as_str(), v.duplicate()) {
                    Ok(()) => Ok(v),
                    Err(er) => Err(er),
                }
            },
        }
    }

    /// Runs one declaration for its side effects. Printed lines go to
    /// `output`; the scope chain and the output afterwards are exactly
    /// what the declaration means under `sp_exec_decl`, and the result
    /// reports the error message it raised, if any.
    #[verifier::loop_isolation(false)]
    pub fn execute(&mut self, statement: &Decl) -> (r: Result<(), RuntimeError>)
        requires
            old(self).environment@.len() >= 1,
        ensures
            ({
                let s = sp_exec_decl(view_decl(*statement), old(self).environment@);
                &&& final(self).environment@ == s.env
                &&& lines_view(final(self).output@) == lines_view(old(self).output@) + s.out
                &&& final(self).errors@ == old(self).errors@
                &&& match r {
                    Ok(()) => s.err is None,
                    Err(er) => s.err == Some(er.message@),
                }
            }),
        decreases statement,
    {
        match statement {
            Decl::Stmt(Stmt::ExprStmt(expr)) => {
                let ghost s = sp_exec_decl(view_decl(*statement), self.environment@);
                proof {
                    assert(lines_view(self.output@) + s.out =~= lines_view(self.output@));
                }
                match self.evaluate(expr) {
                    Ok(_) => Ok(()),
                    Err(er) => Err(er),
                }
            },
            Decl::Stmt(Stmt::PrintStmt(expr)) => {
                match self.evaluate(expr) {
                    Ok(v) => {
                        let line = v.display();
                        self.output.push(line);
                        proof {
                            assert(lines_view(self.output@) =~= lines_view(old(self).output@)
                                + seq![sp_display(v@)]);
                        }
                        Ok(())
                    },
                    Err(er) => {
                        proof {
                            assert(lines_view(self.output@) + Seq::<Seq<char>>::empty()
                                =~= lines_view(self.output@));
                        }
                        Err(er)
                    },
                }
            },
            Decl::VarDecl { identifier, initializer } => {
                proof {
                    assert(lines_view(old(self).output@) + Seq::<Seq<char>>::empty()
                        =~= lines_view(old(self).output@));
                }
                match initializer {
                    Some(expr) => {
                        proof {
                            lemma_eval_depth(view_expr(*expr), self.environment@);
                        }
                        let value = match self.evaluate(expr) {
                            Ok(v) => v,
                            Err(er) => return Err(er),
                        };
                        self.environment.define(identifier.lexeme.as_str(), Some(value));
                        Ok(())
                    },
                    None => {
                        self.environment.define(identifier.lexeme.as_str(), None);
                        Ok(())
                    },
                }
            },
            Decl::Stmt(Stmt::Block(decls)) => {
                let ghost ds = view_decls(decls@);
                let ghost env0 = self.environment@;
                let ghost target = sp_exec_decls(ds, env0.push(Seq::empty()));
                proof {
                    crate::ast::lemma_view_decls_index(decls@);
                }
                self.environment.push_frame();
                let mut i: usize = 0;
                proof {
                    assert(ds.skip(0) =~= ds);
                }
                while i < decls.len()
                    invariant
                        i <= decls.len(),
                        self.environment@.len() == env0.len() + 1,
                        self.errors@ == old(self).errors@,
                        target == ({
                            let s = sp_exec_decls(ds.skip(i as int), self.environment@);
                            StepOut {
                                err: s.err,
                                env: s.env,
                                out: target.out,
                            }
                        }),
                        lines_view(old(self).output@) + target.out == lines_view(self.output@)
                            + sp_exec_decls(ds.skip(i as int), self.environment@).out,
                    decreases decls.len() - i,
                {
                    let ghost env_i = self.environment@;
                    let ghost out_i = self.output@;
                    let ghost rest = ds.skip(i as int);
                    proof {
                        assert(rest[0] == ds[i as int]);
                        assert(rest.drop_first() =~= ds.skip(i as int + 1));
                        lemma_exec_decl_depth(ds[i as int], env_i);
                    }
                    match self.execute(&decls[i]) {
                        Ok(()) => {
                            proof {
                                let s1 = sp_exec_decl(ds[i as int], env_i);
                                let s2 = sp_exec_decls(ds.skip(i as int + 1), s1.env);
                                assert(lines_view(out_i) + (s1.out + s2.out) =~~= (lines_view(
                                    out_i,
                                ) + s1.out) + s2.out);
                            }
                        },
                        Err(er) => {
                            proof {
                                assert(sp_exec_decls(rest, env_i) == sp_exec_decl(
                                    ds[i as int],
                                    env_i,
                                ));
                                assert(lines_view(self.output@) + Seq::<Seq<char>>::empty()
                                    =~= lines_view(self.output@));
                            }
                            self.environment.pop_frame();
                            return Err(er);
                        },
                    }
                    i = i + 1;
                }
                proof {
                    assert(ds.skip(i as int) =~= Seq::<DeclV>::empty());
                    assert(lines_view(self.output@) + Seq::<Seq<char>>::empty() =~= lines_view(
                        self.output@,
                    ));
                }
                self.environment.pop_frame();
                Ok(())
            },
        }
    }

    /// Runs a program: each top-level declaration executes independently;
    /// a runtime error is recorded in `errors` and execution proceeds
    /// with the next declaration. Output, errors and the final scope
    /// chain are exactly what the program means under `sp_interpret`.
    #[verifier::loop_isolation(false)]
    pub fn interpret(&mut self, statements: Vec<Decl>)
        requires
            old(self).environment@.len() >= 1,
        ensures
            ({
                let r = sp_interpret(view_decls(statements@), old(self).environment@);
                &&& final(self).environment@ == r.env
                &&& lines_view(final(self).output@) == lines_view(old(self).output@) + r.out
                &&& lines_view(final(self).errors@) == lines_view(old(self).errors@) + r.errors
            }),
    {
        let ghost ds = view_decls(statements@);
        let ghost env0 = self.environment@;
        let ghost target = sp_interpret(ds, env0);
        proof {
            crate::ast::lemma_view_decls_index(statements@);
        }
        let mut i: usize = 0;
        proof {
            assert(ds.skip(0) =~= ds);
        }
        while i < statements.len()
            invariant
                i <= statements.len(),
                self.environment@.len() >= 1,
                target == ({
                    let r = sp_interpret(ds.skip(i as int), self.environment@);
                    RunOut { errors: target.errors, env: r.env, out: target.out }
                }),
                lines_view(old(self).output@) + target.out == lines_view(self.output@)
                    + sp_interpret(ds.skip(i as int), self.environment@).out,
                lines_view(old(self).errors@) + target.errors == lines_view(self.errors@)
                    + sp_interpret(ds.skip(i as int), self.environment@).errors,
            decreases statements.len() - i,
        {
            let ghost env_i = self.environment@;
            let ghost out_i = self.output@;
            let ghost errs_i = self.errors@;
            let ghost rest = ds.skip(i as int);
            proof {
                assert(rest[0] == ds[i as int]);
                assert(rest.drop_first() =~= ds.skip(i as int + 1));
                lemma_exec_decl_depth(ds[i as int], env_i);
            }
            let ghost s1 = sp_exec_decl(ds[i as int], env_i);
            match self.execute(&statements[i]) {
                Ok(()) => {
                    proof {
                        let r2 = sp_interpret(ds.skip(i as int + 1), s1.env);
                        assert(Seq::<Seq<char>>::empty() + r2.errors =~= r2.errors);
                        assert(lines_view(out_i) + (s1.out + r2.out) =~~= (lines_view(out_i)
                            + s1.out) + r2.out);
                    }
                },
                Err(er) => {
                    let ghost msg = er.message@;
                    self.errors.push(er.message);
                    proof {
                        let r2 = sp_interpret(ds.skip(i as int + 1), s1.env);
                        assert(lines_view(self.errors@) =~~= lines_view(errs_i) + seq![msg]);
                        assert(lines_view(errs_i) + (seq![msg] + r2.errors) =~~= (lines_view(
                            errs_i,
                        ) + seq![msg]) + r2.errors);
                        assert(lines_view(out_i) + (s1.out + r2.out) =~~= (lines_view(out_i)
                            + s1.out) + r2.out);
                    }
                },
            }
            i = i + 1;
        }
        proof {
            assert(ds.skip(i as int) =~= Seq::<DeclV>::empty());
            assert(lines_view(self.output@) + Seq::<Seq<char>>::empty() =~= lines_view(
                self.output@,
            ));
            assert(lines_view(self.errors@) + Seq::<Seq<char>>::empty() =~= lines_view(
                self.errors@,
            ));
        }
    }
}

} // verus!
