pub mod ast;
pub mod diagnostic;
pub mod environment;
pub mod interpreter;
pub mod parser;
pub mod relex;
pub mod render;
pub mod scanner;
pub mod token;

use crate::diagnostic::{diags_view, Diagnostic, DiagnosticV};
use crate::environment::EnvV;
use crate::interpreter::{lines_view, sp_interpret, Interpreter};
use crate::parser::{sp_parse, sp_token_diag, tokens_wf, Parser};
use crate::render::{dec_nat, u64_to_string};
use crate::scanner::{sp_scan, toks_view, Scanner};
use crate::token::Token;
use vstd::prelude::*;

verus! {

/// One rendered diagnostic line: `[line N] Error<location>: <message>`.
pub open spec fn sp_report(line: u64, location: Seq<char>, message: Seq<char>) -> Seq<char> {
    "[line "@ + dec_nat(line as nat) + "] Error"@ + location + ": "@ + message
}

/// One rendered runtime-error line, prefixed so the two error phases
/// stay distinguishable in output.
pub open spec fn sp_runtime_error(message: Seq<char>) -> Seq<char> {
    "Runtime error: "@ + message
}

/// Structured diagnostics, rendered.
pub open spec fn render_diags(ds: Seq<DiagnosticV>) -> Seq<Seq<char>> {
    ds.map_values(|d: DiagnosticV| sp_report(d.line, d.location, d.message))
}

/// Runtime-error messages, rendered.
pub open spec fn render_errors(ms: Seq<Seq<char>>) -> Seq<Seq<char>> {
    ms.map_values(|m: Seq<char>| sp_runtime_error(m))
}

/// What running one chunk of source does: the lines a `print` statement
/// wrote, the diagnostic lines of all three phases in the order they
/// arose, the raw runtime-error messages, and the scope chain left for
/// the next chunk.
pub struct LoxStep {
    pub output: Seq<Seq<char>>,
    pub diagnostics: Seq<Seq<char>>,
    pub runtime_errors: Seq<Seq<char>>,
    pub env: EnvV,
}

/// The meaning of the whole pipeline on one chunk of source: scan, then
/// parse, then interpret, with diagnostics flowing out of each phase.
pub open spec fn sp_run(src: Seq<char>, env: EnvV) -> LoxStep {
    let sc = sp_scan(src);
    let pr = sp_parse(sc.toks);
    let ir = sp_interpret(pr.decls, env);
    LoxStep {
        output: ir.out,
        diagnostics: render_diags(sc.diags) + render_diags(pr.diags) + render_errors(ir.errors),
        runtime_errors: ir.errors,
        env: ir.env,
    }
}

/// Renders a run of structured diagnostics onto the end of a sink.
#[verifier::loop_isolation(false)]
fn append_reports(sink: &mut Vec<String>, ds: &Vec<Diagnostic>)
    ensures
        lines_view(final(sink)@) == lines_view(old(sink)@) + render_diags(diags_view(ds@)),
{
    let ghost target = render_diags(diags_view(ds@));
    let ghost lv0 = lines_view(sink@);
    let mut i: usize = 0;
    proof {
        assert(lv0 + target.take(0) =~= lv0);
    }
    while i < ds.len()
        invariant
            i <= ds.len(),
            lines_view(sink@) == lv0 + target.take(i as int),
        decreases ds.len() - i,
    {
        let d = &ds[i];
        let line = Lox::report(d.line, d.location.as_str(), d.message.as_str());
        let ghost pre = sink@;
        sink.push(line);
        proof {
            assert(diags_view(ds@)[i as int] == ds@[i as int]@);
            assert(target[i as int] == line@);
            assert(lines_view(sink@) =~~= lines_view(pre).push(line@));
            assert(target.take(i as int + 1) =~= target.take(i as int).push(
                target[i as int],
            ));
            assert(lines_view(pre).push(line@) =~~= lv0 + target.take(i as int + 1));
        }
        i = i + 1;
    }
    proof {
        assert(target.take(ds@.len() as int) =~= target);
    }
}

/// Renders the runtime-error messages gathered after position `from`.
#[verifier::loop_isolation(false)]
fn append_runtime_errors(sink: &mut Vec<String>, msgs: &Vec<String>, from: usize)
    requires
        from <= msgs@.len(),
    ensures
        lines_view(final(sink)@) == lines_view(old(sink)@) + render_errors(
            lines_view(msgs@).skip(from as int),
        ),
{
    let ghost target = render_errors(lines_view(msgs@).skip(from as int));
    let ghost lv0 = lines_view(sink@);
    let mut i: usize = from;
    proof {
        assert(lv0 + target.take(0) =~= lv0);
    }
    while i < msgs.len()
        invariant
            from <= i <= msgs.len(),
            lines_view(sink@) == lv0 + target.take(i as int - from),
        decreases msgs.len() - i,
    {
        let line = Lox::runtime_error(msgs[i].as_str());
        let ghost pre = sink@;
        sink.push(line);
        proof {
            assert(lines_view(msgs@)[i as int] == msgs@[i as int]@);
            assert(lines_view(msgs@).skip(from as int)[i as int - from] == msgs@[i as int]@);
            assert(target[i as int - from] == line@);
            assert(lines_view(sink@) =~~= lines_view(pre).push(line@));
            assert(target.take(i as int - from + 1) =~= target.take(i as int - from).push(
                target[i as int - from],
            ));
            assert(lines_view(pre).push(line@) =~~= lv0 + target.take(i as int - from + 1));
        }
        i = i + 1;
    }
    proof {
        assert(target.take(msgs@.len() as int - from) =~= target);
    }
}

/// The front door of the interpreter: runs one chunk of source at a
/// time against one persistent interpreter, collecting printed lines
/// and rendered diagnostics instead of writing to process streams.
pub struct Lox {
    pub interpreter: Interpreter,
    pub diagnostics: Vec<String>,
}

impl Lox {
    /// A fresh session: a global frame, no output, no diagnostics.
    pub fn new() -> (r: Lox)
        ensures
            r.interpreter.environment@.len() == 1,
            r.interpreter.output@ == Seq::<String>::empty(),
            r.interpreter.errors@ == Seq::<String>::empty(),
            r.diagnostics@ == Seq::<String>::empty(),
    {
        let interpreter = Interpreter::new();
        Lox { interpreter, diagnostics: Vec::new() }
    }

    /// Runs one chunk of source: scans, parses, and interprets it.
    /// Printed lines land in the interpreter's output, diagnostics of
    /// all three phases land here, rendered; the scope chain persists
    /// to the next chunk. The whole effect is exactly `sp_run`.
    #[verifier::loop_isolation(false)]
    pub fn run(&mut self, source: &str)
        requires
            old(self).interpreter.environment@.len() >= 1,
        ensures
            ({
                let st = sp_run(source@, old(self).interpreter.environment@);
                &&& final(self).interpreter.environment@ == st.env
                &&& final(self).interpreter.environment@.len() == old(
                    self,
                ).interpreter.environment@.len()
                &&& lines_view(final(self).interpreter.output@) == lines_view(
                    old(self).interpreter.output@,
                ) + st.output
                &&& lines_view(final(self).interpreter.errors@) == lines_view(
                    old(self).interpreter.errors@,
                ) + st.runtime_errors
                &&& lines_view(final(self).diagnostics@) == lines_view(old(self).diagnostics@)
                    + st.diagnostics
            }),
    {
        let ghost src = source@;
        let ghost env0 = self.interpreter.environment@;
        let ghost sc = sp_scan(src);
        let ghost pr = sp_parse(sc.toks);
        let ghost ir = sp_interpret(pr.decls, env0);
        let mut scanner = Scanner::new(source);
        let tokens = scanner.scan_tokens();
        append_reports(&mut self.diagnostics, &scanner.diagnostics);
        proof {
            assert(tokens_wf(toks_view(tokens@)));
        }
        let mut parser = Parser::new(tokens);
        let statements = parser.parse();
        append_reports(&mut self.diagnostics, &parser.diagnostics);
        let ghost diags_before = diags_view(parser.diagnostics@);
        proof {
            assert(Seq::<DiagnosticV>::empty() + pr.diags =~= pr.diags);
            crate::interpreter::lemma_interpret_depth(pr.decls, env0);
        }
        let errors_before = self.interpreter.errors.len();
        self.interpreter.interpret(statements);
        proof {
            assert(lines_view(self.interpreter.errors@).skip(errors_before as int) =~= ir.errors);
        }
        append_runtime_errors(&mut self.diagnostics, &self.interpreter.errors, errors_before);
        proof {
            assert((lines_view(old(self).diagnostics@) + render_diags(sc.diags)) + render_diags(
                pr.diags,
            ) =~= lines_view(old(self).diagnostics@) + (render_diags(sc.diags) + render_diags(
                pr.diags,
            )));
            assert((lines_view(old(self).diagnostics@) + (render_diags(sc.diags) + render_diags(
                pr.diags,
            ))) + render_errors(ir.errors) =~= lines_view(old(self).diagnostics@) + ((render_diags(
                sc.diags,
            ) + render_diags(pr.diags)) + render_errors(ir.errors)));
        }
    }

    /// Renders a diagnostic line for the error stream.
    pub fn report(line: u64, location: &str, message: &str) -> (r: String)
        ensures
            r@ == sp_report(line, location@, message@),
    {
        let mut s = String::from_str("[line ");
        let n = u64_to_string(line);
        s.append(n.as_str());
        s.append("] Error");
        s.append(location);
        s.append(": ");
        s.append(message);
        s
    }

    /// Renders a line-scoped diagnostic, with an empty location.
    pub fn error(line: u64, message: &str) -> (r: String)
        ensures
            r@ == sp_report(line, Seq::empty(), message@),
    {
        let r = Self::report(line, "", message);
        proof {
            reveal_strlit("");
            assert(""@ =~= Seq::<char>::empty());
        }
        r
    }

    /// Renders a token-scoped diagnostic: located " at end" when the
    /// offending token is end-of-input, else " at '<lexeme>'".
    pub fn token_error(token: &Token, message: &str) -> (r: String)
        ensures
            r@ == ({
                let d = sp_token_diag(token@, message@);
                sp_report(d.line, d.location, d.message)
            }),
    {
        let location = if token.kind() == crate::token::TokenKind::Eof {
            String::from_str(" at end")
        } else {
            let mut l = String::from_str(" at '");
            l.append(token.lexeme.as_str());
            l.append("'");
            l
        };
        Self::report(token.line, location.as_str(), message)
    }

    /// Renders a runtime-error line for the error stream.
    pub fn runtime_error(message: &str) -> (r: String)
        ensures
            r@ == sp_runtime_error(message@),
    {
        let mut s = String::from_str("Runtime error: ");
        s.append(message);
        s
    }
}

} // verus!
