use lox_ast::error::ErrorKind;
use lox_ast::error::LoxError;
use lox_ast::interpreter::Interpreter;
use lox_ast::interpreter::Request;
use lox_ast::number::Number;
use lox_ast::numerals::numerals;
use lox_ast::numerals::with_numbers;
use lox_ast::operators::Arithmetic;
use lox_ast::parser::Parser;
use lox_ast::scanner::Scanner;
use lox_ast::stmt::Stmt;
use lox_ast::token::Token;

fn as_float(n: Number) -> f64 {
    f64::from_bits(n.to_bits())
}

fn tokens_of(source: &str) -> Vec<Token> {
    let mut scanner = Scanner::new(source.to_string());
    let scanned = scanner.scan_tokens().expect("the source scans");
    let values: Vec<Number> = numerals(scanned)
        .iter()
        .map(|text| Number::from_bits(text.parse::<f64>().unwrap().to_bits()))
        .collect();
    with_numbers(scanned, &values).expect("one value for each numeral")
}

fn parse(source: &str) -> Vec<Stmt> {
    let tokens = tokens_of(source);
    let mut parser = Parser::new(&tokens);
    let statements = parser.parse().expect("the source parses");
    assert!(parser.success());
    statements
}

/// Runs a program as a host would; hands back the evaluator, the lines
/// printed, and the runtime error if there was one.
fn run_in(terp: Interpreter, source: &str) -> (Interpreter, Vec<String>, Option<LoxError>) {
    let statements = parse(source);
    let mut output = Vec::new();
    let mut failure = None;
    let mut execution = terp.interpret(&statements);
    let mut request = execution.step();
    loop {
        request = match request {
            Request::Continue => execution.step(),
            Request::Print(text) => {
                output.push(text);
                execution.step()
            }
            Request::Compute { operation, left, right } => {
                let (l, r) = (as_float(left), as_float(right));
                let result = match operation {
                    Arithmetic::Add => l + r,
                    Arithmetic::Subtract => l - r,
                    Arithmetic::Multiply => l * r,
                    Arithmetic::Divide => l / r,
                };
                execution.supply_number(Number::from_bits(result.to_bits()));
                execution.step()
            }
            Request::Format(n) => execution.supply_text(format!("{}", as_float(n))),
            Request::Finished => break,
            Request::Failed(e) => {
                failure = Some(e);
                break;
            }
        }
    }
    assert!(execution.is_done());
    let terp = execution.finish();
    assert_eq!(terp.loop_nest_depth(), 0);
    assert_eq!(terp.current_scope(), 0);
    assert_eq!(terp.environment().len(), 1);
    (terp, output, failure)
}

fn run(source: &str) -> (Vec<String>, Option<LoxError>) {
    let (_, output, failure) = run_in(Interpreter::new(), source);
    (output, failure)
}

fn output_of(source: &str) -> Vec<String> {
    let (output, failure) = run(source);
    assert!(failure.is_none(), "unexpected runtime error: {:?}", failure);
    output
}

#[test]
fn prints_arithmetic_with_precedence() {
    assert_eq!(output_of("print 1 + 2 * 3;"), vec!["7"]);
}

#[test]
fn concatenates_strings_from_variables() {
    assert_eq!(output_of("var a = \"hi \"; var b = \"there\"; print a + b;"), vec!["hi there"]);
}

#[test]
fn block_shadows_and_restores() {
    assert_eq!(output_of("var a = 1; { var a = 2; print a; } print a;"), vec!["2", "1"]);
}

#[test]
fn for_loop_counts() {
    assert_eq!(output_of("for (var i = 0; i < 3; i = i + 1) print i;"), vec!["0", "1", "2"]);
}

#[test]
fn break_leaves_the_loop() {
    assert_eq!(
        output_of("var i = 0; while (i < 5) { if (i == 3) break; print i; i = i + 1; }"),
        vec!["0", "1", "2"]
    );
}

#[test]
fn string_plus_number_concatenates() {
    assert_eq!(output_of("print \"a\" + 1;"), vec!["a1"]);
    assert_eq!(output_of("print 1 + \"a\";"), vec!["1a"]);
    assert_eq!(output_of("print \"a\" + 1.5 == \"a1.5\";"), vec!["true"]);
}

#[test]
fn number_minus_string_is_illegal() {
    let (output, failure) = run("print 1 - \"a\";");
    assert!(output.is_empty());
    let error = failure.expect("a runtime error");
    assert_eq!(error.kind, ErrorKind::Runtime);
    assert_eq!(error.message, "Illegal expression.");
    assert_eq!(error.token.as_ref().unwrap().lexeme, "-");
    assert_eq!(error.line, 1);
}

#[test]
fn undefined_variable_is_a_runtime_error() {
    let (output, failure) = run("print undefined;");
    assert!(output.is_empty());
    let error = failure.expect("a runtime error");
    assert_eq!(error.kind, ErrorKind::Runtime);
    assert_eq!(error.message, "Undefined variable 'undefined'.");
    assert_eq!(error.describe(), "[line 1] Error  at 'undefined': Undefined variable 'undefined'.");
}

#[test]
fn false_and_skips_the_right_operand() {
    assert_eq!(output_of("print false and undefined;"), vec!["false"]);
    assert_eq!(output_of("print nil and undefined;"), vec!["nil"]);
    let (_, failure) = run("print true and undefined;");
    assert_eq!(failure.unwrap().message, "Undefined variable 'undefined'.");
}

#[test]
fn true_or_skips_the_right_operand() {
    assert_eq!(output_of("print true or undefined;"), vec!["true"]);
    assert_eq!(output_of("print 0 or undefined;"), vec!["0"]);
    assert_eq!(output_of("print \"\" or undefined;"), vec![""]);
    let (_, failure) = run("print false or undefined;");
    assert_eq!(failure.unwrap().message, "Undefined variable 'undefined'.");
}

#[test]
fn logical_operators_keep_the_operand() {
    assert_eq!(output_of("print nil or \"yes\";"), vec!["yes"]);
    assert_eq!(output_of("print 1 and 2;"), vec!["2"]);
}

#[test]
fn nil_equals_only_nil() {
    assert_eq!(output_of("print nil == nil;"), vec!["true"]);
    assert_eq!(output_of("print nil != nil;"), vec!["false"]);
    assert_eq!(output_of("print nil == 0;"), vec!["false"]);
    assert_eq!(output_of("print nil == false;"), vec!["false"]);
    assert_eq!(output_of("print nil == \"nil\";"), vec!["false"]);
    assert_eq!(output_of("print nil != 1;"), vec!["true"]);
}

#[test]
fn only_nil_and_false_are_falsey() {
    assert_eq!(output_of("if (nil) print 1; else print 2;"), vec!["2"]);
    assert_eq!(output_of("if (false) print 1; else print 2;"), vec!["2"]);
    assert_eq!(output_of("if (0) print 1; else print 2;"), vec!["1"]);
    assert_eq!(output_of("if (\"\") print 1; else print 2;"), vec!["1"]);
    assert_eq!(output_of("if (true) print 1; else print 2;"), vec!["1"]);
    assert_eq!(output_of("print !nil; print !0; print !\"\"; print !false;"), vec![
        "true", "false", "false", "true"
    ]);
}

#[test]
fn declared_literal_reads_back() {
    assert_eq!(output_of("var x = 12.5; print x;"), vec!["12.5"]);
    assert_eq!(output_of("var x = \"text\"; print x;"), vec!["text"]);
    assert_eq!(output_of("var x = true; print x;"), vec!["true"]);
    assert_eq!(output_of("var x = nil; print x;"), vec!["nil"]);
    assert_eq!(output_of("var x; print x;"), vec!["nil"]);
}

#[test]
fn division_by_zero_is_no_error() {
    assert_eq!(output_of("print 1 / 0;"), vec!["inf"]);
    assert_eq!(output_of("print -1 / 0;"), vec!["-inf"]);
    assert_eq!(output_of("print 0 / 0 == 0 / 0;"), vec!["false"]);
}

#[test]
fn unary_minus_of_a_non_number_is_nil() {
    assert_eq!(output_of("print -\"a\";"), vec!["nil"]);
    assert_eq!(output_of("print -true;"), vec!["nil"]);
    assert_eq!(output_of("print -(3);"), vec!["-3"]);
}

#[test]
fn comparisons_follow_ieee() {
    assert_eq!(output_of("print 0 == -0;"), vec!["true"]);
    assert_eq!(output_of("print -1 < 1; print -2 < -1; print -1 < -2; print 1 <= 1;"), vec![
        "true", "true", "false", "true"
    ]);
    assert_eq!(output_of("print 2 > 1; print 1 >= 2; print 0.5 < 0.25;"), vec![
        "true", "false", "false"
    ]);
}

#[test]
fn break_outside_a_loop_is_a_runtime_error() {
    let (output, failure) = run("print 1; break; print 2;");
    assert_eq!(output, vec!["1"]);
    assert_eq!(failure.unwrap().message, "break outside of while/for loop");
}

#[test]
fn break_leaves_only_the_innermost_loop() {
    let source = "var i = 0; while (i < 2) { var j = 0; while (true) { if (j == 2) break; \
                  print j; j = j + 1; } i = i + 1; } print i;";
    assert_eq!(output_of(source), vec!["0", "1", "0", "1", "2"]);
}

#[test]
fn break_inside_nested_blocks_restores_the_scope() {
    let source = "var a = \"outer\"; while (true) { var a = \"loop\"; { var a = \"inner\"; \
                  { break; } } } print a;";
    assert_eq!(output_of(source), vec!["outer"]);
}

#[test]
fn assignment_writes_through_to_the_enclosing_scope() {
    assert_eq!(output_of("var a = 1; { a = 2; } print a;"), vec!["2"]);
    assert_eq!(output_of("var a = 1; print a = 5; print a;"), vec!["5", "5"]);
}

#[test]
fn assignment_to_an_unknown_name_fails() {
    let (output, failure) = run("a = 1; print 2;");
    assert!(output.is_empty());
    assert_eq!(failure.unwrap().message, "Undefined variable 'a'.");
}

#[test]
fn first_runtime_error_stops_the_program() {
    let (output, failure) = run("print 1; { var x = 1; print y; } print 3;");
    assert_eq!(output, vec!["1"]);
    assert!(failure.is_some());
}

#[test]
fn globals_outlive_a_run_and_blocks_do_not() {
    let (terp, output, failure) = run_in(Interpreter::new(), "var a = 1; { var b = 2; }");
    assert!(output.is_empty() && failure.is_none());
    let (terp, output, _) = run_in(terp, "print a;");
    assert_eq!(output, vec!["1"]);
    let (terp, _, failure) = run_in(terp, "print b;");
    assert_eq!(failure.unwrap().message, "Undefined variable 'b'.");
    // a runtime error inside a block and a loop leaves the evaluator as before
    let (terp, _, failure) = run_in(terp, "while (true) { { print nothing; } }");
    assert!(failure.is_some());
    let (_, output, _) = run_in(terp, "print a;");
    assert_eq!(output, vec!["1"]);
}

#[test]
fn for_without_clauses_runs_until_break() {
    assert_eq!(output_of("var i = 0; for (;;) { i = i + 1; if (i > 2) break; } print i;"), vec![
        "3"
    ]);
    assert_eq!(output_of("var i = 0; for (; i < 2;) i = i + 1; print i;"), vec!["2"]);
    assert_eq!(output_of("var i; for (i = 0; i < 2; i = i + 1) {} print i;"), vec!["2"]);
}

#[test]
fn grouping_overrides_precedence() {
    assert_eq!(output_of("print (1 + 2) * 3;"), vec!["9"]);
    assert_eq!(output_of("print 8 - 3 - 2;"), vec!["3"]);
    assert_eq!(output_of("print 8 / 4 / 2;"), vec!["1"]);
    assert_eq!(output_of("print !true == false;"), vec!["true"]);
}

#[test]
fn comparing_values_of_other_kinds_is_illegal() {
    assert_eq!(run("print 1 == nil;").1.unwrap().message, "Illegal expression.");
    assert_eq!(run("print true == 1;").1.unwrap().message, "Illegal expression.");
    assert_eq!(run("print \"a\" < \"b\";").1.unwrap().message, "Illegal expression.");
    assert_eq!(run("print true + true;").1.unwrap().message, "Illegal expression.");
    assert_eq!(output_of("print true == true; print true != false;"), vec!["true", "true"]);
}
