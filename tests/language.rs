use wolff::ast::{AstPrinter, Stmt};
use wolff::interpreter::AstInterpreter;
use wolff::lexer::tokenize;
use wolff::parser::Parser;
use wolff::runner::{run_source, SourceError};

fn text(v: &[char]) -> String {
    v.iter().collect()
}

fn run(src: &str) -> (Vec<String>, Result<(), SourceError>) {
    let mut interpreter = AstInterpreter::new();
    let r = run_source(&src.to_string(), &mut interpreter);
    let out = interpreter.take_output().iter().map(|l| text(l)).collect();
    (out, r)
}

fn output(src: &str) -> Vec<String> {
    let (out, r) = run(src);
    assert!(r.is_ok(), "program failed: {}", src);
    out
}

fn runtime_error(src: &str) -> (Vec<String>, String) {
    match run(src) {
        (out, Err(SourceError::Runtime(e))) => (out, text(&e.message)),
        _ => panic!("expected a runtime error: {}", src),
    }
}

fn syntax_errors(src: &str) -> Vec<String> {
    match run(src) {
        (out, Err(SourceError::Syntax(es))) => {
            assert!(out.is_empty());
            es.iter().map(|e| text(&e.message)).collect()
        }
        _ => panic!("expected syntax errors: {}", src),
    }
}

fn lines(v: &[&str]) -> Vec<String> {
    v.iter().map(|s| s.to_string()).collect()
}

#[test]
fn declare_then_print() {
    assert_eq!(output("var x = 1; print x;"), lines(&["1"]));
}

#[test]
fn inner_declaration_shadows_outer() {
    assert_eq!(output("{ var x = 1; { var x = 2; print x; } print x; }"), lines(&["2", "1"]));
}

#[test]
fn assigning_undeclared_name_fails() {
    let (out, message) = runtime_error("x = 1;");
    assert!(out.is_empty());
    assert_eq!(message, "The variable x is not defined.");
}

#[test]
fn multiplication_binds_tighter() {
    assert_eq!(output("print 1 + 2 * 3;"), lines(&["7"]));
}

#[test]
fn text_concatenation_and_repetition() {
    assert_eq!(output("print \"a\" + \"b\";"), lines(&["ab"]));
    assert_eq!(output("print 3 * \"ab\";"), lines(&["ababab"]));
    assert_eq!(output("print 0 * \"ab\";"), lines(&[""]));
    assert_eq!(output("print 2.9 * \"ab\";"), lines(&["abab"]));
}

#[test]
fn bang_truthiness() {
    assert_eq!(output("print !nil;"), lines(&["true"]));
    assert_eq!(output("print !1;"), lines(&["false"]));
    assert_eq!(output("print !false;"), lines(&["true"]));
    assert_eq!(output("print !\"\";"), lines(&["false"]));
}

#[test]
fn if_condition_must_be_boolean() {
    let (out, message) = runtime_error("if 1 print \"x\";");
    assert!(out.is_empty());
    assert_eq!(message, "If condition must evaluate to a boolean value");
    assert_eq!(output("if !1 print \"x\"; else print \"y\";"), lines(&["y"]));
    assert_eq!(output("if false print \"x\";"), lines(&[]));
}

#[test]
fn unterminated_string_runs_nothing() {
    match run("print 1; \"abc") {
        (out, Err(SourceError::Lexical(es))) => {
            assert!(out.is_empty());
            assert_eq!(es.len(), 1);
        }
        _ => panic!("expected a lexical error"),
    }
    assert!(tokenize(&"\"abc".to_string()).is_err());
}

#[test]
fn parser_reports_each_malformed_statement() {
    assert_eq!(
        syntax_errors("var = 1; var = 2;"),
        lines(&["Expected variable name", "Expected variable name"])
    );
    assert_eq!(
        syntax_errors("print (1; print 2 print 3;"),
        lines(&["Expected ')' after expression.", "Expected ; after statement."])
    );
}

#[test]
fn operator_runs_take_parentheses() {
    match run("print -(1);") {
        (_, Err(SourceError::Lexical(es))) => assert_eq!(es.len(), 1),
        _ => panic!("expected a lexical error"),
    }
    assert_eq!(output("print - (1);"), lines(&["-1"]));
}

#[test]
fn recovery_skips_to_statement_keywords_only() {
    assert_eq!(syntax_errors("var = 1 λ print 2;"), lines(&["Expected variable name"]));
    assert_eq!(
        syntax_errors("var = 1 while print 2;"),
        lines(&["Expected variable name", "Expected expression"])
    );
}

#[test]
fn other_syntax_errors() {
    assert_eq!(syntax_errors("1 = 2;"), lines(&["Invalid l-value for assignment"]));
    assert_eq!(syntax_errors("var x;"), lines(&["Variable can't be declared but not initialized"]));
    assert_eq!(syntax_errors("{ print 1;"), lines(&["Expected '}' after a block"]));
    assert_eq!(syntax_errors("print;"), lines(&["Expected expression"]));
}

#[test]
fn and_or_short_circuit() {
    assert_eq!(output("print false and (\"a\" - \"b\");"), lines(&["false"]));
    assert_eq!(output("print true or undefined;"), lines(&["true"]));
    let (_, message) = runtime_error("print true and (\"a\" - \"b\");");
    assert_eq!(message, "Illegal use of - between operands");
    let (_, message) = runtime_error("print false or undefined;");
    assert_eq!(message, "The variable undefined is not defined.");
    assert_eq!(output("print nil or 2;"), lines(&["2"]));
    assert_eq!(output("print 1 and nil;"), lines(&["nil"]));
}

#[test]
fn printer_shows_precedence() {
    let tokens = tokenize(&"1 + 2 * 3;".to_string()).ok().unwrap();
    let mut parser = Parser::new(&tokens);
    let results = parser.parse();
    assert_eq!(results.len(), 1);
    match &results[0] {
        Ok(Stmt::Expression { expression }) => {
            assert_eq!(text(&AstPrinter.print_expr(expression)), "(Plus 1 (Star 2 3))");
        }
        _ => panic!("expected an expression statement"),
    }
}

#[test]
fn printer_forms() {
    let tokens = tokenize(&"var a = - (\"s\" == nil) or !b; { a = true; }".to_string()).ok().unwrap();
    let mut parser = Parser::new(&tokens);
    let printed: Vec<String> = parser
        .parse()
        .iter()
        .map(|r| match r {
            Ok(s) => text(&AstPrinter.print_stmt(s)),
            Err(_) => panic!("unexpected syntax error"),
        })
        .collect();
    assert_eq!(
        printed,
        lines(&["(declare a (or (- (group (EqualEqual \"s\" nil))) (! b)))", "(block (expr_stmt (assign a true)))"])
    );
}

#[test]
fn arithmetic_is_exact() {
    assert_eq!(output("print 7 / 2;"), lines(&["3.5"]));
    assert_eq!(output("print 1 / 3;"), lines(&["0.3333333333333333"]));
    assert_eq!(output("print 0.1 + 0.2;"), lines(&["0.3"]));
    assert_eq!(output("print -2.50;"), lines(&["-2.5"]));
    assert_eq!(output("print 10 - 4 - 3;"), lines(&["3"]));
    assert_eq!(output("print 1.5 * 4;"), lines(&["6"]));
}

#[test]
fn fractions_stay_in_lowest_terms() {
    assert_eq!(
        output("var x = 1.5; print x * x * x * x * x * x * x * x * x * x * x * x * x * x * x * x * x * x * x * x;"),
        lines(&["3325.2567300796508789"])
    );
    assert_eq!(output("print 0.25 * 4; print 1.000 == 1;"), lines(&["1", "true"]));
}

#[test]
fn arithmetic_errors() {
    let (_, message) = runtime_error("print 1 / 0;");
    assert_eq!(message, "Division by zero");
    let (_, message) = runtime_error("print 9223372036854775807 + 1;");
    assert_eq!(message, "Number out of range");
    let (_, message) = runtime_error("print -\"a\";");
    assert_eq!(message, "Illegal use of - for operand");
    let (_, message) = runtime_error("print \"ab\" * 2;");
    assert_eq!(message, "Illegal use of * between operands");
}

#[test]
fn comparisons_and_equality() {
    assert_eq!(output("print 1 < 2; print 2 <= 2; print 3 > 4; print 3 >= 4;"), lines(&["true", "true", "false", "false"]));
    assert_eq!(output("print \"ab\" < \"b\"; print \"b\" > \"ab\"; print \"a\" <= \"a\";"), lines(&["true", "true", "true"]));
    assert_eq!(output("print 1 == \"1\"; print nil == nil; print 0.5 == 1 / 2; print 1 != 2;"), lines(&["false", "true", "true", "true"]));
    let (_, message) = runtime_error("print 1 < \"a\";");
    assert_eq!(message, "Illegal use of < between operands");
}

#[test]
fn scopes_and_assignment() {
    assert_eq!(output("var a = 1; { a = 2; } print a;"), lines(&["2"]));
    assert_eq!(output("var a = 1; var b = a = 3; print a; print b;"), lines(&["3", "3"]));
    let (_, message) = runtime_error("{ var a = 1; } print a;");
    assert_eq!(message, "The variable a is not defined.");
}

#[test]
fn runtime_error_stops_the_program() {
    let (out, message) = runtime_error("print 1; print y; print 2;");
    assert_eq!(out, lines(&["1"]));
    assert_eq!(message, "The variable y is not defined.");
    match run("print 1;\nprint  y;") {
        (_, Err(SourceError::Runtime(e))) => assert_eq!(text(&e.to_text()), "1:8 The variable y is not defined."),
        _ => panic!("expected a runtime error"),
    }
}

#[test]
fn declarations_persist_across_runs() {
    let mut interpreter = AstInterpreter::new();
    assert!(run_source(&"var a = 5;".to_string(), &mut interpreter).is_ok());
    assert!(run_source(&"print a * 2;".to_string(), &mut interpreter).is_ok());
    let out: Vec<String> = interpreter.take_output().iter().map(|l| text(l)).collect();
    assert_eq!(out, lines(&["10"]));
}
