use lox_ast::error::ErrorKind;
use lox_ast::error::LoxError;
use lox_ast::expr::Expr;
use lox_ast::literal::Literal;
use lox_ast::number::Number;
use lox_ast::numerals::numerals;
use lox_ast::numerals::with_numbers;
use lox_ast::parser::Parser;
use lox_ast::scanner::Scanner;
use lox_ast::stmt::Stmt;
use lox_ast::token::Token;
use lox_ast::token_type::TokenType;

fn scan(source: &str) -> Vec<Token> {
    let mut scanner = Scanner::new(source.to_string());
    let scanned = scanner.scan_tokens().expect("the source scans");
    let values: Vec<Number> = numerals(scanned)
        .iter()
        .map(|text| Number::from_bits(text.parse::<f64>().unwrap().to_bits()))
        .collect();
    with_numbers(scanned, &values).unwrap()
}

fn expr_text(e: &Expr) -> String {
    match e {
        Expr::Assign(a) => format!("(= {} {})", a.name.lexeme, expr_text(&a.value)),
        Expr::Binary(b) => {
            format!("({} {} {})", b.operator.lexeme, expr_text(&b.left), expr_text(&b.right))
        }
        Expr::Grouping(g) => format!("(group {})", expr_text(&g.expression)),
        Expr::Literal(l) => match &l.value {
            None => "none".to_string(),
            Some(Literal::Nil) => "nil".to_string(),
            Some(Literal::Bool(b)) => format!("{}", b),
            Some(Literal::Number(n)) => format!("{}", f64::from_bits(n.to_bits())),
            Some(Literal::String(s)) => format!("{:?}", s),
        },
        Expr::Logical(l) => {
            format!("[{} {} {}]", l.operator.lexeme, expr_text(&l.left), expr_text(&l.right))
        }
        Expr::Unary(u) => format!("({} {})", u.operator.lexeme, expr_text(&u.right)),
        Expr::Variable(v) => v.name.lexeme.clone(),
    }
}

fn stmt_text(s: &Stmt) -> String {
    match s {
        Stmt::Block(b) => {
            let inner: Vec<String> = b.statements.iter().map(stmt_text).collect();
            format!("{{{}}}", inner.join(" "))
        }
        Stmt::Break(_) => "break;".to_string(),
        Stmt::Expression(e) => format!("{};", expr_text(&e.expression)),
        Stmt::If(i) => match &i.else_branch {
            Some(e) => format!(
                "if {} {} else {}",
                expr_text(&i.condition),
                stmt_text(&i.then_branch),
                stmt_text(e)
            ),
            None => format!("if {} {}", expr_text(&i.condition), stmt_text(&i.then_branch)),
        },
        Stmt::Print(p) => format!("print {};", expr_text(&p.expression)),
        Stmt::Var(v) => match &v.initializer {
            Some(e) => format!("var {} = {};", v.name.lexeme, expr_text(e)),
            None => format!("var {};", v.name.lexeme),
        },
        Stmt::While(w) => format!("while {} {}", expr_text(&w.condition), stmt_text(&w.body)),
    }
}

fn parsed(source: &str) -> String {
    let tokens = scan(source);
    let mut parser = Parser::new(&tokens);
    let statements = parser.parse().expect("the source parses");
    assert!(parser.success());
    assert!(parser.errors().is_empty());
    let texts: Vec<String> = statements.iter().map(stmt_text).collect();
    texts.join(" ")
}

fn parse_error(source: &str) -> LoxError {
    let tokens = scan(source);
    let mut parser = Parser::new(&tokens);
    let error = parser.parse().err().expect("a parse error");
    assert!(!parser.success());
    assert_eq!(error.kind, ErrorKind::Parse);
    assert_eq!(parser.errors().first().unwrap().message, error.message);
    error
}

#[test]
fn empty_program_has_no_statements() {
    assert_eq!(parsed(""), "");
    assert_eq!(parsed("// only a comment\n"), "");
}

#[test]
fn binary_operators_associate_to_the_left() {
    assert_eq!(parsed("1 - 2 - 3;"), "(- (- 1 2) 3);");
    assert_eq!(parsed("1 / 2 * 3;"), "(* (/ 1 2) 3);");
    assert_eq!(parsed("a == b != c;"), "(!= (== a b) c);");
    assert_eq!(parsed("a < b <= c > d >= e;"), "(>= (> (<= (< a b) c) d) e);");
    assert_eq!(parsed("a or b or c;"), "[or [or a b] c];");
}

#[test]
fn precedence_cascade() {
    assert_eq!(parsed("1 + 2 * 3;"), "(+ 1 (* 2 3));");
    assert_eq!(parsed("1 * 2 + 3;"), "(+ (* 1 2) 3);");
    assert_eq!(parsed("1 + 2 < 3 == true;"), "(== (< (+ 1 2) 3) true);");
    assert_eq!(parsed("a or b and c == d;"), "[or a [and b (== c d)]];");
    assert_eq!(parsed("-a * !b;"), "(* (- a) (! b));");
    assert_eq!(parsed("!!a;"), "(! (! a));");
    assert_eq!(parsed("(1 + 2) * 3;"), "(* (group (+ 1 2)) 3);");
    assert_eq!(parsed("a = b or c;"), "(= a [or b c]);");
}

#[test]
fn assignment_associates_to_the_right() {
    assert_eq!(parsed("a = b = 3;"), "(= a (= b 3));");
}

#[test]
fn primaries() {
    assert_eq!(parsed("true; false; nil; 1.5; \"s\"; x;"), "true; false; nil; 1.5; \"s\"; x;");
}

#[test]
fn statements() {
    assert_eq!(parsed("print 1;"), "print 1;");
    assert_eq!(parsed("var a;"), "var a;");
    assert_eq!(parsed("var a = 1 + 2;"), "var a = (+ 1 2);");
    assert_eq!(parsed("{ var a = 1; print a; }"), "{var a = 1; print a;}");
    assert_eq!(parsed("{}"), "{}");
    assert_eq!(parsed("{{}}"), "{{}}");
    assert_eq!(parsed("if (a) print 1;"), "if a print 1;");
    assert_eq!(parsed("if (a) print 1; else print 2;"), "if a print 1; else print 2;");
    assert_eq!(parsed("while (a) { break; }"), "while a {break;}");
}

#[test]
fn else_binds_to_the_nearest_if() {
    assert_eq!(parsed("if (a) if (b) 1; else 2;"), "if a if b 1; else 2;");
}

#[test]
fn for_is_written_with_while() {
    assert_eq!(
        parsed("for (var i = 0; i < 3; i = i + 1) print i;"),
        "{var i = 0; while (< i 3) {print i; (= i (+ i 1));}}"
    );
    assert_eq!(parsed("for (;;) print 1;"), "while true print 1;");
    assert_eq!(parsed("for (i = 0;;) print 1;"), "{(= i 0); while true print 1;}");
    assert_eq!(parsed("for (; i < 2;) print 1;"), "while (< i 2) print 1;");
    assert_eq!(parsed("for (;; i = 1) {}"), "while true {{} (= i 1);}");
}

#[test]
fn tokens_carry_over_into_the_tree() {
    let tokens = scan("x\n= 1;");
    let mut parser = Parser::new(&tokens);
    let statements = parser.parse().unwrap();
    match &statements[0] {
        Stmt::Expression(e) => match &e.expression {
            Expr::Assign(a) => {
                assert_eq!(a.name.token_type, TokenType::Identifier);
                assert_eq!(a.name.line, 1);
                assert_eq!(
                    expr_text(&a.value),
                    "1"
                );
            }
            other => panic!("not an assignment: {:?}", other),
        },
        other => panic!("not an expression statement: {:?}", other),
    }
}

#[test]
fn expected_token_errors() {
    assert_eq!(parse_error("print 1").message, "Expect ';' after value.");
    assert_eq!(parse_error("1 + 2").message, "Expect ';' after value.");
    assert_eq!(parse_error("var 1;").message, "Expect variable name.");
    assert_eq!(parse_error("var a = 1").message, "Expect ';' after variable declaration.");
    assert_eq!(parse_error("(1 + 2;").message, "Expect ')' after expression.");
    assert_eq!(parse_error("{ print 1;").message, "Expect '}' after block.");
    assert_eq!(parse_error("if a) 1;").message, "Expect '(' after 'if'.");
    assert_eq!(parse_error("if (a 1;").message, "Expect ')' after 'if'.");
    assert_eq!(parse_error("while a) 1;").message, "Expect '(' after 'while'.");
    assert_eq!(parse_error("while (a 1;").message, "Expect ')' after 'while'.");
    assert_eq!(parse_error("for i;;) 1;").message, "Expect '(' after 'for'.");
    assert_eq!(parse_error("for (;a) 1;").message, "Expect ';' after loop condition.");
    assert_eq!(parse_error("for (;;a 1;").message, "Expect ')' after for clauses.");
    assert_eq!(parse_error("break").message, "Expect ';' after 'break'.");
    assert_eq!(parse_error("+;").message, "Expect expression.");
    assert_eq!(parse_error("print ;").message, "Expect expression.");
    assert_eq!(parse_error("class A {}").message, "Expect expression.");
}

#[test]
fn error_at_the_end_of_input() {
    let error = parse_error("print 1 +");
    assert_eq!(error.message, "Expect expression.");
    assert_eq!(error.token.as_ref().unwrap().token_type, TokenType::Eof);
    assert_eq!(error.location(), " at end");
    assert_eq!(error.describe(), "[line 1] Error  at end: Expect expression.");
}

#[test]
fn error_names_the_token_and_its_line() {
    let error = parse_error("print 1;\nprint (2 3);");
    assert_eq!(error.message, "Expect ')' after expression.");
    assert_eq!(error.line, 2);
    assert_eq!(error.token.as_ref().unwrap().lexeme, "3");
    assert_eq!(error.report(error.location()), "[line 2] Error  at '3': Expect ')' after expression.");
}

#[test]
fn invalid_assignment_target_is_recorded_and_parsing_goes_on() {
    let tokens = scan("1 = 2; print 3; (a) = 4;");
    let mut parser = Parser::new(&tokens);
    let statements = parser.parse().expect("parsing goes on");
    assert!(!parser.success());
    let texts: Vec<String> = statements.iter().map(stmt_text).collect();
    assert_eq!(texts, vec!["1;", "print 3;", "(group a);"]);
    assert_eq!(parser.errors().len(), 2);
    assert_eq!(parser.errors()[0].message, "Invalid assignment target.");
    assert_eq!(parser.errors()[0].token.as_ref().unwrap().token_type, TokenType::Equal);
    assert_eq!(parser.errors()[1].message, "Invalid assignment target.");
}

#[test]
fn parsing_goes_on_after_an_error() {
    // the first error is handed out; the errors of later declarations are recorded too
    let tokens = scan("print (1; print 2; (3; print 4");
    let mut parser = Parser::new(&tokens);
    let error = parser.parse().err().unwrap();
    assert_eq!(error.message, "Expect ')' after expression.");
    assert_eq!(error.token.as_ref().unwrap().lexeme, ";");
    assert!(!parser.success());
    let messages: Vec<&str> = parser.errors().iter().map(|e| e.message.as_str()).collect();
    assert_eq!(messages, vec![
        "Expect ')' after expression.",
        "Expect ')' after expression.",
        "Expect ';' after value.",
    ]);
    // everything was read
    assert!(parser.parse().unwrap().is_empty());
}

#[test]
fn synchronizing_drops_tokens_up_to_a_statement_boundary() {
    // up to and including the next `;`
    let tokens = scan("print (1 2 3; print 2;");
    let mut parser = Parser::new(&tokens);
    assert!(parser.print_statement().is_err());
    let tokens = scan("(1 2 3; print 2;");
    let mut parser = Parser::new(&tokens);
    assert!(parser.parse().is_err());
    assert_eq!(parser.errors().len(), 1);

    // or up to the next token that starts a statement
    let tokens = scan("1 + + 2 var a = ; print a;");
    let mut parser = Parser::new(&tokens);
    let error = parser.parse().err().unwrap();
    assert_eq!(error.message, "Expect expression.");
    assert_eq!(error.token.as_ref().unwrap().lexeme, "+");
    let places: Vec<&str> = parser
        .errors()
        .iter()
        .map(|e| e.token.as_ref().unwrap().lexeme.as_str())
        .collect();
    assert_eq!(places, vec!["+", ";"]);
}

#[test]
fn parsing_never_passes_eof() {
    for source in ["", "print", "(", "{", "{ {", "1 +", "var", "for (", "if (a) {", "1 = ", "a = ="] {
        let tokens = scan(source);
        let mut parser = Parser::new(&tokens);
        let _ = parser.parse();
        // whatever happened before, another call finds `Eof` and stops there
        let _ = parser.parse();
        let again = parser.parse();
        assert!(again.map(|v| v.is_empty()).unwrap_or(true), "source {:?}", source);
    }
}

#[test]
fn public_entry_points() {
    let tokens = scan("a = 1 + 2");
    let mut parser = Parser::new(&tokens);
    assert_eq!(expr_text(&parser.assignment().unwrap()), "(= a (+ 1 2))");

    let tokens = scan("1 + 2;");
    let mut parser = Parser::new(&tokens);
    assert_eq!(stmt_text(&parser.expression_statement().unwrap()), "(+ 1 2);");

    // `print_statement` parses what follows the `print`
    let tokens = scan("1 + 2;");
    let mut parser = Parser::new(&tokens);
    assert_eq!(stmt_text(&parser.print_statement().unwrap()), "print (+ 1 2);");
}

#[test]
fn number_token_without_a_value_makes_a_literal_without_one() {
    let mut scanner = Scanner::new("1;".to_string());
    let tokens = scanner.scan_tokens().unwrap();
    let mut parser = Parser::new(tokens);
    let statements = parser.parse().unwrap();
    assert_eq!(stmt_text(&statements[0]), "none;");
}
