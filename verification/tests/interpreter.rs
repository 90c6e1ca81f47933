use lox_ast::error::LoxError;
use lox_ast::expr::BinaryExpr;
use lox_ast::expr::Expr;
use lox_ast::expr::LiteralExpr;
use lox_ast::expr::UnaryExpr;
use lox_ast::expr::VariableExpr;
use lox_ast::interpreter::Interpreter;
use lox_ast::interpreter::Request;
use lox_ast::literal::Literal;
use lox_ast::number::Number;
use lox_ast::operators::Arithmetic;
use lox_ast::stmt::Stmt;
use lox_ast::stmt::VarStmt;
use lox_ast::token::Token;
use lox_ast::token_type::TokenType;

fn number(x: f64) -> Literal {
    Literal::Number(Number::from_bits(x.to_bits()))
}

fn float(n: Number) -> f64 {
    f64::from_bits(n.to_bits())
}

/// Runs `statements` to the end, doing the host's part; hands back the
/// evaluator, the lines printed, and the runtime error if there was one.
fn run(terp: Interpreter, statements: &[Stmt]) -> (Interpreter, Vec<String>, Option<LoxError>) {
    let mut printed = Vec::new();
    let mut failure = None;
    let mut execution = terp.interpret(statements);
    let mut request = execution.step();
    loop {
        request = match request {
            Request::Continue => execution.step(),
            Request::Print(text) => {
                printed.push(text);
                execution.step()
            }
            Request::Compute { operation, left, right } => {
                let (l, r) = (float(left), float(right));
                let result = match operation {
                    Arithmetic::Add => l + r,
                    Arithmetic::Subtract => l - r,
                    Arithmetic::Multiply => l * r,
                    Arithmetic::Divide => l / r,
                };
                execution.supply_number(Number::from_bits(result.to_bits()));
                execution.step()
            }
            Request::Format(n) => execution.supply_text(format!("{}", float(n))),
            Request::Finished => break,
            Request::Failed(e) => {
                failure = Some(e);
                break;
            }
        }
    }
    (execution.finish(), printed, failure)
}

/// The value of `expr` in a fresh evaluator, or the runtime error.
fn evaluate(expr: Expr) -> Result<Literal, LoxError> {
    evaluate_in(Interpreter::new(), expr).1
}

/// Evaluates `expr` as the initializer of a variable, and reads the variable.
fn evaluate_in(terp: Interpreter, expr: Expr) -> (Interpreter, Result<Literal, LoxError>) {
    let result = Token::new(TokenType::Identifier, "the result".to_string(), None, 0);
    let program = vec![Stmt::Var(VarStmt { name: result.dup(), initializer: Some(expr) })];
    let (terp, printed, failure) = run(terp, &program);
    assert!(printed.is_empty());
    match failure {
        Some(e) => (terp, Err(e)),
        None => {
            let value = terp.environment().get(terp.current_scope(), &result);
            (terp, Ok(value.unwrap()))
        }
    }
}

fn make_literal(o: Literal) -> Box<Expr> {
    Box::new(Expr::Literal(LiteralExpr { value: Some(o) }))
}

fn make_literal_string(s: &str) -> Box<Expr> {
    make_literal(Literal::String(s.to_string()))
}

#[test]
fn test_unary_minus() {
    let unary_expr = UnaryExpr {
        operator: Token::new(TokenType::Minus, "-".to_string(), None, 123),
        right: make_literal(number(123.0)),
    };
    let result = evaluate(Expr::Unary(unary_expr));
    assert!(result.is_ok());
    assert_eq!(result.ok(), Some(number(-123.0)));
}

#[test]
fn test_unary_not() {
    let unary_expr = UnaryExpr {
        operator: Token::new(TokenType::Bang, "!".to_string(), None, 123),
        right: make_literal(Literal::Bool(false)),
    };
    let result = evaluate(Expr::Unary(unary_expr));
    assert!(result.is_ok());
    assert_eq!(result.ok(), Some(Literal::Bool(true)));
}

#[test]
fn test_subtraction() {
    let binary_expr = BinaryExpr {
        left: make_literal(number(15.0)),
        operator: Token::new(TokenType::Minus, "-".to_string(), None, 123),
        right: make_literal(number(7.0)),
    };
    let result = evaluate(Expr::Binary(binary_expr));
    assert!(result.is_ok());
    assert_eq!(result.ok(), Some(number(8.0)));
}

#[test]
fn test_multiplication() {
    let binary_expr = BinaryExpr {
        left: make_literal(number(15.0)),
        operator: Token::new(TokenType::Star, "*".to_string(), None, 123),
        right: make_literal(number(7.0)),
    };
    let result = evaluate(Expr::Binary(binary_expr));
    assert!(result.is_ok());
    assert_eq!(result.ok(), Some(number(105.0)));
}

#[test]
fn test_division() {
    let binary_expr = BinaryExpr {
        left: make_literal(number(21.0)),
        operator: Token::new(TokenType::Slash, "/".to_string(), None, 123),
        right: make_literal(number(7.0)),
    };
    let result = evaluate(Expr::Binary(binary_expr));
    assert!(result.is_ok());
    assert_eq!(result.ok(), Some(number(3.0)));
}

#[test]
fn test_addition() {
    let binary_expr = BinaryExpr {
        left: make_literal(number(21.0)),
        operator: Token::new(TokenType::Plus, "+".to_string(), None, 123),
        right: make_literal(number(7.0)),
    };
    let result = evaluate(Expr::Binary(binary_expr));
    assert!(result.is_ok());
    assert_eq!(result.ok(), Some(number(28.0)));
}

#[test]
fn test_string_concatination() {
    let binary_expr = BinaryExpr {
        left: make_literal_string("hello, "),
        operator: Token::new(TokenType::Plus, "+".to_string(), None, 123),
        right: make_literal_string("world!"),
    };
    let result = evaluate(Expr::Binary(binary_expr));
    assert!(result.is_ok());
    assert_eq!(result.ok(), Some(Literal::String("hello, world!".to_string())));
}

#[test]
fn test_arithmetic_error_for_subtration() {
    let binary_expr = BinaryExpr {
        left: make_literal(number(15.0)),
        operator: Token::new(TokenType::Minus, "-".to_string(), None, 123),
        right: make_literal(Literal::Bool(true)),
    };
    let result = evaluate(Expr::Binary(binary_expr));
    assert!(result.is_err());
}

#[test]
fn test_arithmetic_error_for_greater() {
    let binary_expr = BinaryExpr {
        left: make_literal(number(15.0)),
        operator: Token::new(TokenType::Greater, ">".to_string(), None, 123),
        right: make_literal(Literal::Bool(true)),
    };
    let result = evaluate(Expr::Binary(binary_expr));
    assert!(result.is_err());
}

fn run_comparison_test(tok: &Token, cmps: Vec<bool>) {
    let nums = vec![14.0, 15.0, 16.0];

    for (c, nums) in cmps.iter().zip(nums) {
        let binary_expr = BinaryExpr {
            left: make_literal(number(nums)),
            operator: tok.dup(),
            right: make_literal(number(15.0)),
        };
        let result = evaluate(Expr::Binary(binary_expr));
        assert!(result.is_ok());
        assert_eq!(
            result.ok(),
            Some(Literal::Bool(*c)),
            "Testing {} {} 15.0",
            nums,
            tok.as_string()
        );
    }
}

#[test]
fn test_less_than() {
    run_comparison_test(
        &Token::new(TokenType::Less, "<".to_string(), None, 123),
        vec![true, false, false],
    );
}

#[test]
fn test_less_than_or_equal_to() {
    run_comparison_test(
        &Token::new(TokenType::LessEqual, "<=".to_string(), None, 123),
        vec![true, true, false],
    );
}

#[test]
fn test_greater_than() {
    run_comparison_test(
        &Token::new(TokenType::Greater, ">".to_string(), None, 123),
        vec![false, false, true],
    );
}

#[test]
fn test_greater_than_or_equal_to() {
    run_comparison_test(
        &Token::new(TokenType::GreaterEqual, ">=".to_string(), None, 123),
        vec![false, true, true],
    );
}

#[test]
fn test_equals_nums() {
    run_comparison_test(
        &Token::new(TokenType::EqualEqual, "==".to_string(), None, 123),
        vec![false, true, false],
    );
}

#[test]
fn test_not_equals_nums() {
    run_comparison_test(
        &Token::new(TokenType::BangEqual, "!=".to_string(), None, 123),
        vec![true, false, true],
    );
}

#[test]
fn test_not_equals_string() {
    let binary_expr = BinaryExpr {
        left: make_literal_string("hello"),
        operator: Token::new(TokenType::EqualEqual, "==".to_string(), None, 123),
        right: make_literal_string("hellx"),
    };
    let result = evaluate(Expr::Binary(binary_expr));
    assert!(result.is_ok());
    assert_eq!(result.ok(), Some(Literal::Bool(false)));
}

#[test]
fn test_equals_string() {
    let binary_expr = BinaryExpr {
        left: make_literal_string("world"),
        operator: Token::new(TokenType::EqualEqual, "==".to_string(), None, 123),
        right: make_literal_string("world"),
    };
    let result = evaluate(Expr::Binary(binary_expr));
    assert!(result.is_ok());
    assert_eq!(result.ok(), Some(Literal::Bool(true)));
}

#[test]
fn test_equals_nil() {
    let binary_expr = BinaryExpr {
        left: make_literal(Literal::Nil),
        operator: Token::new(TokenType::EqualEqual, "==".to_string(), None, 123),
        right: make_literal(Literal::Nil),
    };
    let result = evaluate(Expr::Binary(binary_expr));
    assert!(result.is_ok());
    assert_eq!(result.ok(), Some(Literal::Bool(true)));
}

#[test]
fn test_var_stmt_defined() {
    let name = Token::new(TokenType::Identifier, "foo".to_string(), None, 123);
    let var_stmt = VarStmt { name: name.dup(), initializer: Some(*make_literal(number(23.0))) };
    let (terp, _, failure) = run(Interpreter::new(), &[Stmt::Var(var_stmt)]);
    assert!(failure.is_none());
    assert_eq!(terp.environment().get(terp.current_scope(), &name).unwrap(), number(23.0));
}

#[test]
fn test_var_stmt_undefined() {
    let name = Token::new(TokenType::Identifier, "foo".to_string(), None, 123);
    let var_stmt = VarStmt { name: name.dup(), initializer: None };
    let (terp, _, failure) = run(Interpreter::new(), &[Stmt::Var(var_stmt)]);
    assert!(failure.is_none());
    assert_eq!(terp.environment().get(terp.current_scope(), &name).unwrap(), Literal::Nil);
}

#[test]
fn test_variable_expr() {
    let name = Token::new(TokenType::Identifier, "foo".to_string(), None, 123);
    let var_stmt = VarStmt { name: name.dup(), initializer: Some(*make_literal(number(23.0))) };
    let (terp, _, failure) = run(Interpreter::new(), &[Stmt::Var(var_stmt)]);
    assert!(failure.is_none());

    let var_expr = VariableExpr { name: name.dup() };
    assert_eq!(evaluate_in(terp, Expr::Variable(var_expr)).1.unwrap(), number(23.0));
}

#[test]
fn test_undefined_variable_expr() {
    let name = Token::new(TokenType::Identifier, "foo".to_string(), None, 123);
    let var_expr = VariableExpr { name: name.dup() };
    assert!(evaluate(Expr::Variable(var_expr)).is_err());
}
