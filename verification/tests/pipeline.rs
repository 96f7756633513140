use crafting_interpreter::ast::{expr_text, Decl, Stmt};
use crafting_interpreter::environment::Environment;
use crafting_interpreter::interpreter::{Interpreter, Value};
use crafting_interpreter::parser::Parser;
use crafting_interpreter::scanner::Scanner;
use crafting_interpreter::token::{Token, TokenKind, TokenType};
use crafting_interpreter::Lox;

fn run_source(source: &str) -> (Vec<String>, Vec<String>) {
    let mut lox = Lox::new();
    lox.run(source);
    (lox.interpreter.output.clone(), lox.diagnostics.clone())
}

fn scan_kinds(source: &str) -> Vec<TokenKind> {
    let mut scanner = Scanner::new(source);
    let tokens = scanner.scan_tokens();
    assert!(scanner.diagnostics.is_empty(), "well-formed input must scan clean");
    tokens.iter().map(|t| t.kind()).collect()
}

#[test]
fn lexer_idempotent_on_well_formed_input() {
    let source = "var a1 = 10.5 + (2 * 3); print a1 <= \"s\"; a1 = !true; // note\n";
    let mut scanner = Scanner::new(source);
    let tokens = scanner.scan_tokens();
    assert!(scanner.diagnostics.is_empty());
    let kinds: Vec<TokenKind> = tokens.iter().map(|t| t.kind()).collect();
    let lexemes: Vec<String> = tokens
        .iter()
        .filter(|t| t.kind() != TokenKind::Eof)
        .map(|t| t.lexeme.clone())
        .collect();
    let rebuilt = lexemes.join(" ");
    let rekinds = scan_kinds(&rebuilt);
    assert_eq!(kinds, rekinds);
}

#[test]
fn precedence_parses_star_under_plus() {
    let mut scanner = Scanner::new("1 + 2 * 3;");
    let tokens = scanner.scan_tokens();
    let mut parser = Parser::new(tokens);
    let statements = parser.parse();
    assert!(parser.diagnostics.is_empty());
    assert_eq!(statements.len(), 1);
    match &statements[0] {
        Decl::Stmt(Stmt::ExprStmt(e)) => {
            assert_eq!(expr_text(e), "(+ 1 (* 2 3))");
        }
        other => panic!("expected an expression statement, got {:?}", other),
    }
}

#[test]
fn precedence_evaluates_to_seven() {
    let (output, diagnostics) = run_source("print 1 + 2 * 3;");
    assert!(diagnostics.is_empty());
    assert_eq!(output, vec!["7".to_string()]);
}

#[test]
fn subtraction_is_left_associative() {
    let (output, diagnostics) = run_source("print 10 - 2 - 3;");
    assert!(diagnostics.is_empty());
    assert_eq!(output, vec!["5".to_string()]);
}

#[test]
fn block_scoping_shadows_and_restores() {
    let (output, diagnostics) = run_source("var a = 1; { var a = 2; print a; } print a;");
    assert!(diagnostics.is_empty());
    assert_eq!(output, vec!["2".to_string(), "1".to_string()]);
}

#[test]
fn undefined_assignment_is_a_runtime_error() {
    let (output, diagnostics) = run_source("a = 5;");
    assert!(output.is_empty());
    assert_eq!(diagnostics, vec!["Runtime error: Undefined variable 'a'".to_string()]);
}

#[test]
fn division_by_zero_is_a_runtime_error() {
    let (output, diagnostics) = run_source("print 10 / 0;");
    assert!(output.is_empty());
    assert_eq!(diagnostics, vec!["Runtime error: Division by 0 encountered".to_string()]);
}

#[test]
fn string_concatenation() {
    let (output, diagnostics) = run_source("print \"foo\" + \"bar\";");
    assert!(diagnostics.is_empty());
    assert_eq!(output, vec!["foobar".to_string()]);
}

#[test]
fn string_plus_number_is_a_type_error() {
    let (output, diagnostics) = run_source("print \"foo\" + 1;");
    assert!(output.is_empty());
    assert_eq!(
        diagnostics,
        vec!["Runtime error: Operands must be two numbers or two strings.".to_string()]
    );
}

#[test]
fn two_strings_under_star_reuse_the_numeric_message() {
    let (output, diagnostics) = run_source("print \"a\" * \"b\";");
    assert!(output.is_empty());
    assert_eq!(diagnostics, vec!["Runtime error: Operand must be a number!".to_string()]);
}

#[test]
fn truthiness_of_nil_and_zero() {
    let (output, diagnostics) = run_source("print !nil; print !0; print !false; print !\"\";");
    assert!(diagnostics.is_empty());
    assert_eq!(
        output,
        vec!["true".to_string(), "false".to_string(), "true".to_string(), "false".to_string()]
    );
}

#[test]
fn recovery_reports_two_independent_errors() {
    let (output, diagnostics) = run_source("1 +; 2 *; print 3;");
    assert_eq!(output, vec!["3".to_string()]);
    assert_eq!(
        diagnostics,
        vec![
            "[line 1] Error at ';': Expect expression.".to_string(),
            "[line 1] Error at ';': Expect expression.".to_string(),
        ]
    );
}

#[test]
fn mixed_kinds_compare_unequal_but_support_equality() {
    let (output, diagnostics) = run_source("print 1 == \"1\"; print nil == nil; print 1 != nil;");
    assert!(diagnostics.is_empty());
    assert_eq!(output, vec!["false".to_string(), "true".to_string(), "true".to_string()]);
}

#[test]
fn mixed_kinds_reject_ordering() {
    let (output, diagnostics) = run_source("print 1 < nil;");
    assert!(output.is_empty());
    assert_eq!(
        diagnostics,
        vec!["Runtime error: Operands must be two numbers or two strings.".to_string()]
    );
}

#[test]
fn unary_minus_requires_a_number() {
    let (_, diagnostics) = run_source("print -\"x\";");
    assert_eq!(diagnostics, vec!["Runtime error: Operand must be a number!".to_string()]);
}

#[test]
fn undefined_variable_read() {
    let (output, diagnostics) = run_source("print ghosttown;");
    assert!(output.is_empty());
    assert_eq!(diagnostics, vec!["Runtime error: Undefined variable ghosttown.".to_string()]);
}

#[test]
fn unterminated_string_is_reported() {
    let (output, diagnostics) = run_source("\"abc");
    assert!(output.is_empty());
    assert_eq!(diagnostics, vec!["[line 1] Error: Unterminated string.".to_string()]);
}

#[test]
fn unexpected_character_is_skipped_and_reported() {
    let (output, diagnostics) = run_source("print @ 1;");
    assert_eq!(output, vec!["1".to_string()]);
    assert_eq!(diagnostics, vec!["[line 1] Error: Unexpected character".to_string()]);
}

#[test]
fn newlines_advance_the_line_counter() {
    let (_, diagnostics) = run_source("\n\n@");
    assert_eq!(diagnostics[0], "[line 3] Error: Unexpected character".to_string());
}

#[test]
fn fractional_literal_collapses_to_its_integer_part() {
    let (output, diagnostics) = run_source("print 3.5;");
    assert!(diagnostics.is_empty());
    assert_eq!(output, vec!["3".to_string()]);
}

#[test]
fn trailing_dot_stops_before_the_dot() {
    let mut scanner = Scanner::new("3.;");
    let tokens = scanner.scan_tokens();
    let kinds: Vec<TokenKind> = tokens.iter().map(|t| t.kind()).collect();
    assert_eq!(
        kinds,
        vec![TokenKind::Number, TokenKind::Dot, TokenKind::Semicolon, TokenKind::Eof]
    );
}

#[test]
fn oversized_literal_saturates() {
    let (output, diagnostics) = run_source("print 99999999999999999999;");
    assert!(diagnostics.is_empty());
    assert_eq!(output, vec!["9223372036854775807".to_string()]);
}

#[test]
fn addition_wraps_at_the_boundary() {
    let (output, diagnostics) = run_source("print 9223372036854775807 + 1;");
    assert!(diagnostics.is_empty());
    assert_eq!(output, vec!["-9223372036854775808".to_string()]);
}

#[test]
fn assignment_is_an_expression_and_yields_its_value() {
    let (output, diagnostics) = run_source("var a = 1; print a = 41 + 1; print a;");
    assert!(diagnostics.is_empty());
    assert_eq!(output, vec!["42".to_string(), "42".to_string()]);
}

#[test]
fn assignment_reaches_the_nearest_defining_frame() {
    let (output, diagnostics) = run_source("var a = 1; { a = 2; } print a;");
    assert!(diagnostics.is_empty());
    assert_eq!(output, vec!["2".to_string()]);
}

#[test]
fn invalid_assignment_target_is_reported() {
    let (output, diagnostics) = run_source("1 = 2;");
    assert!(output.is_empty());
    assert_eq!(
        diagnostics,
        vec!["[line 1] Error at '=': Invalid assignment target.".to_string()]
    );
}

#[test]
fn error_inside_block_aborts_the_block_but_not_the_program() {
    let (output, diagnostics) =
        run_source("{ print 1; print 1 / 0; print 2; } print 3;");
    assert_eq!(output, vec!["1".to_string(), "3".to_string()]);
    assert_eq!(diagnostics, vec!["Runtime error: Division by 0 encountered".to_string()]);
}

#[test]
fn keywords_lex_as_keywords_and_identifiers_as_identifiers() {
    let kinds = scan_kinds("var varx true trueish");
    assert_eq!(
        kinds,
        vec![
            TokenKind::Var,
            TokenKind::Identifier,
            TokenKind::True,
            TokenKind::Identifier,
            TokenKind::Eof
        ]
    );
}

#[test]
fn comments_and_whitespace_produce_no_tokens() {
    let kinds = scan_kinds("  // everything here is ignored\n\t ;");
    assert_eq!(kinds, vec![TokenKind::Semicolon, TokenKind::Eof]);
}

#[test]
fn two_character_operators_win_greedily() {
    let kinds = scan_kinds("! != = == < <= > >=");
    assert_eq!(
        kinds,
        vec![
            TokenKind::Bang,
            TokenKind::BangEqual,
            TokenKind::Equal,
            TokenKind::EqualEqual,
            TokenKind::Less,
            TokenKind::LessEqual,
            TokenKind::Greater,
            TokenKind::GreaterEqual,
            TokenKind::Eof
        ]
    );
}

#[test]
fn environment_define_get_assign() {
    let mut env = Environment::new();
    let tok = |name: &str| Token::new(TokenType::Identifier(name.to_string()), name.to_string(), 1);
    env.define("x", Some(Value::Number(5)));
    assert_eq!(env.get(&tok("x")).unwrap(), Value::Number(5));
    env.define("x", Some(Value::Number(6)));
    assert_eq!(env.get(&tok("x")).unwrap(), Value::Number(6));
    assert!(env.assign("x", Value::Number(7)).is_ok());
    assert_eq!(env.get(&tok("x")).unwrap(), Value::Number(7));
    let err = env.assign("y", Value::Nil).unwrap_err();
    assert_eq!(err.message, "Undefined variable 'y'");
    let err = env.get(&tok("z")).unwrap_err();
    assert_eq!(err.message, "Undefined variable z.");
    env.define("n", None);
    assert_eq!(env.get(&tok("n")).unwrap(), Value::Nil);
}

#[test]
fn environment_shadowing_across_frames() {
    let mut env = Environment::new();
    let tok = |name: &str| Token::new(TokenType::Identifier(name.to_string()), name.to_string(), 1);
    env.define("a", Some(Value::Number(1)));
    env.push_frame();
    env.define("a", Some(Value::Number(2)));
    assert_eq!(env.get(&tok("a")).unwrap(), Value::Number(2));
    env.pop_frame();
    assert_eq!(env.get(&tok("a")).unwrap(), Value::Number(1));
}

#[test]
fn value_display_forms() {
    assert_eq!(Value::Number(0).display(), "0");
    assert_eq!(Value::Number(-45).display(), "-45");
    assert_eq!(Value::Number(i64::MIN).display(), "-9223372036854775808");
    assert_eq!(Value::String("raw text".to_string()).display(), "raw text");
    assert_eq!(Value::Boolean(true).display(), "true");
    assert_eq!(Value::Boolean(false).display(), "false");
    assert_eq!(Value::Nil.display(), "nil");
}

#[test]
fn report_and_error_rendering() {
    assert_eq!(Lox::report(7, " at 'x'", "boom"), "[line 7] Error at 'x': boom");
    assert_eq!(Lox::error(120, "bad"), "[line 120] Error: bad");
    assert_eq!(Lox::runtime_error("oops"), "Runtime error: oops");
    let eof = Token::new(TokenType::Eof, String::new(), 4);
    assert_eq!(Lox::token_error(&eof, "stop"), "[line 4] Error at end: stop");
    let plus = Token::new(TokenType::Plus, "+".to_string(), 2);
    assert_eq!(Lox::token_error(&plus, "bad"), "[line 2] Error at '+': bad");
}

#[test]
fn truthiness_helper() {
    let interp = Interpreter::new();
    assert!(!interp.is_truthy(&Value::Nil));
    assert!(!interp.is_truthy(&Value::Boolean(false)));
    assert!(interp.is_truthy(&Value::Boolean(true)));
    assert!(interp.is_truthy(&Value::Number(0)));
    assert!(interp.is_truthy(&Value::String(String::new())));
}

#[test]
fn grouping_overrides_precedence() {
    let (output, diagnostics) = run_source("print (1 + 2) * 3;");
    assert!(diagnostics.is_empty());
    assert_eq!(output, vec!["9".to_string()]);
}

#[test]
fn ast_text_of_grouping_and_unary() {
    let mut scanner = Scanner::new("-(1 + x);");
    let tokens = scanner.scan_tokens();
    let mut parser = Parser::new(tokens);
    let statements = parser.parse();
    assert!(parser.diagnostics.is_empty());
    match &statements[0] {
        Decl::Stmt(Stmt::ExprStmt(e)) => {
            assert_eq!(expr_text(e), "(- (group (+ 1 x)))");
        }
        other => panic!("expected an expression statement, got {:?}", other),
    }
}

#[test]
fn session_state_persists_across_runs() {
    let mut lox = Lox::new();
    lox.run("var a = 40;");
    lox.run("print a + 2;");
    assert!(lox.diagnostics.is_empty());
    assert_eq!(lox.interpreter.output, vec!["42".to_string()]);
}

#[test]
fn multiline_string_tracks_lines() {
    let (output, diagnostics) = run_source("print \"a\nb\"; print @;");
    assert_eq!(output[0], "a\nb");
    assert_eq!(diagnostics[0], "[line 2] Error: Unexpected character".to_string());
}
