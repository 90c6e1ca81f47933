use lox_ast::error::ErrorKind;
use lox_ast::error::LoxError;
use lox_ast::literal::Literal;
use lox_ast::number::Number;
use lox_ast::operators::apply_binary;
use lox_ast::operators::apply_unary;
use lox_ast::operators::short_circuits;
use lox_ast::operators::Applied;
use lox_ast::operators::Arithmetic;
use lox_ast::text::chars_of;
use lox_ast::text::push_decimal;
use lox_ast::text::string_of;
use lox_ast::token::Token;
use lox_ast::token_type::TokenType;

fn num(x: f64) -> Literal {
    Literal::Number(Number::from_bits(x.to_bits()))
}

fn text(s: &str) -> Literal {
    Literal::String(s.to_string())
}

fn value(applied: Applied) -> Literal {
    match applied {
        Applied::Value(v) => v,
        other => panic!("no value: {:?}", other),
    }
}

fn illegal(applied: Applied) -> bool {
    matches!(applied, Applied::Illegal)
}

#[test]
fn literal_equality() {
    assert_eq!(Literal::Nil, Literal::Nil);
    assert_ne!(Literal::Nil, Literal::Bool(false));
    assert_ne!(Literal::Bool(true), Literal::Bool(false));
    assert_eq!(num(1.5), num(1.5));
    assert_ne!(num(1.5), num(2.5));
    assert_eq!(num(0.0), num(-0.0));
    assert_ne!(num(f64::NAN), num(f64::NAN));
    assert_eq!(text("a"), text("a"));
    assert_ne!(text("a"), text("b"));
    assert_ne!(text("1"), num(1.0));
    assert_ne!(text(""), Literal::Nil);
}

#[test]
fn literal_copies_are_equal() {
    for v in [Literal::Nil, Literal::Bool(true), num(2.0), text("abc")] {
        assert_eq!(v.dup(), v);
        assert_eq!(v.clone(), v);
    }
}

#[test]
fn truthiness() {
    assert!(!Literal::Nil.is_truthy());
    assert!(!Literal::Bool(false).is_truthy());
    assert!(Literal::Bool(true).is_truthy());
    assert!(num(0.0).is_truthy());
    assert!(num(f64::NAN).is_truthy());
    assert!(text("").is_truthy());
    assert!(text("false").is_truthy());
}

#[test]
fn arithmetic_is_asked_of_the_host() {
    for (op, operation) in [
        (TokenType::Plus, Arithmetic::Add),
        (TokenType::Minus, Arithmetic::Subtract),
        (TokenType::Star, Arithmetic::Multiply),
        (TokenType::Slash, Arithmetic::Divide),
    ] {
        match apply_binary(op, num(6.0), num(3.0)) {
            Applied::Compute { operation: o, left, right } => {
                assert_eq!(o, operation);
                assert_eq!(left.to_bits(), 6.0f64.to_bits());
                assert_eq!(right.to_bits(), 3.0f64.to_bits());
            }
            other => panic!("not asked: {:?}", other),
        }
    }
}

#[test]
fn comparisons_of_numbers() {
    assert_eq!(value(apply_binary(TokenType::Greater, num(2.0), num(1.0))), Literal::Bool(true));
    assert_eq!(value(apply_binary(TokenType::Greater, num(1.0), num(1.0))), Literal::Bool(false));
    assert_eq!(
        value(apply_binary(TokenType::GreaterEqual, num(1.0), num(1.0))),
        Literal::Bool(true)
    );
    assert_eq!(value(apply_binary(TokenType::Less, num(1.0), num(2.0))), Literal::Bool(true));
    assert_eq!(value(apply_binary(TokenType::LessEqual, num(3.0), num(2.0))), Literal::Bool(false));
    assert_eq!(value(apply_binary(TokenType::EqualEqual, num(2.0), num(2.0))), Literal::Bool(true));
    assert_eq!(value(apply_binary(TokenType::BangEqual, num(2.0), num(2.0))), Literal::Bool(false));
    assert!(illegal(apply_binary(TokenType::And, num(2.0), num(2.0))));
    assert!(illegal(apply_binary(TokenType::Bang, num(2.0), num(2.0))));
}

#[test]
fn strings_join_and_compare() {
    assert_eq!(value(apply_binary(TokenType::Plus, text("ab"), text("cd"))), text("abcd"));
    assert_eq!(value(apply_binary(TokenType::EqualEqual, text("a"), text("a"))), Literal::Bool(true));
    assert_eq!(value(apply_binary(TokenType::BangEqual, text("a"), text("a"))), Literal::Bool(false));
    assert_eq!(value(apply_binary(TokenType::BangEqual, text("a"), text("b"))), Literal::Bool(true));
    assert!(illegal(apply_binary(TokenType::Minus, text("a"), text("b"))));
    assert!(illegal(apply_binary(TokenType::Less, text("a"), text("b"))));
}

#[test]
fn a_number_and_a_string_join() {
    match apply_binary(TokenType::Plus, num(1.0), text("a")) {
        Applied::Join { text, number, number_first } => {
            assert_eq!(text, "a");
            assert_eq!(number.to_bits(), 1.0f64.to_bits());
            assert!(number_first);
        }
        other => panic!("not joined: {:?}", other),
    }
    match apply_binary(TokenType::Plus, text("a"), num(1.0)) {
        Applied::Join { text, number_first, .. } => {
            assert_eq!(text, "a");
            assert!(!number_first);
        }
        other => panic!("not joined: {:?}", other),
    }
    assert!(illegal(apply_binary(TokenType::Minus, num(1.0), text("a"))));
    assert!(illegal(apply_binary(TokenType::EqualEqual, text("a"), num(1.0))));
}

#[test]
fn booleans_and_nil_compare() {
    let t = || Literal::Bool(true);
    let f = || Literal::Bool(false);
    assert_eq!(value(apply_binary(TokenType::EqualEqual, t(), t())), t());
    assert_eq!(value(apply_binary(TokenType::EqualEqual, t(), f())), f());
    assert_eq!(value(apply_binary(TokenType::BangEqual, t(), f())), t());
    assert!(illegal(apply_binary(TokenType::Plus, t(), f())));
    assert_eq!(value(apply_binary(TokenType::EqualEqual, Literal::Nil, Literal::Nil)), t());
    assert_eq!(value(apply_binary(TokenType::BangEqual, Literal::Nil, Literal::Nil)), f());
    for other in [t(), f(), num(0.0), text("")] {
        assert_eq!(value(apply_binary(TokenType::EqualEqual, Literal::Nil, other.dup())), f());
        assert_eq!(value(apply_binary(TokenType::BangEqual, Literal::Nil, other.dup())), t());
        assert!(illegal(apply_binary(TokenType::Plus, Literal::Nil, other.dup())));
        // `nil` on the right of something else is no case of the table
        assert!(illegal(apply_binary(TokenType::EqualEqual, other, Literal::Nil)));
    }
    assert!(illegal(apply_binary(TokenType::EqualEqual, t(), num(1.0))));
}

#[test]
fn unary_operators() {
    assert_eq!(apply_unary(TokenType::Minus, num(2.0)), Some(num(-2.0)));
    assert_eq!(apply_unary(TokenType::Minus, text("a")), Some(Literal::Nil));
    assert_eq!(apply_unary(TokenType::Minus, Literal::Nil), Some(Literal::Nil));
    assert_eq!(apply_unary(TokenType::Bang, Literal::Nil), Some(Literal::Bool(true)));
    assert_eq!(apply_unary(TokenType::Bang, num(0.0)), Some(Literal::Bool(false)));
    assert_eq!(apply_unary(TokenType::Plus, num(0.0)), None);
}

#[test]
fn logical_operators_short_circuit() {
    assert!(short_circuits(TokenType::Or, &Literal::Bool(true)));
    assert!(!short_circuits(TokenType::Or, &Literal::Bool(false)));
    assert!(!short_circuits(TokenType::Or, &Literal::Nil));
    assert!(short_circuits(TokenType::Or, &num(0.0)));
    assert!(short_circuits(TokenType::And, &Literal::Bool(false)));
    assert!(short_circuits(TokenType::And, &Literal::Nil));
    assert!(!short_circuits(TokenType::And, &Literal::Bool(true)));
    assert!(!short_circuits(TokenType::And, &text("")));
}

#[test]
fn tokens() {
    let t = Token::new(TokenType::String, "\"a\"".to_string(), Some(text("a")), 3);
    assert!(t.is(TokenType::String));
    assert!(!t.is(TokenType::Number));
    assert_eq!(t.token_type(), TokenType::String);
    assert_eq!(t.as_string(), "\"a\"");
    let copy = t.dup();
    assert_eq!(copy.token_type, t.token_type);
    assert_eq!(copy.lexeme, t.lexeme);
    assert_eq!(copy.literal, t.literal);
    assert_eq!(copy.line, 3);
    let cloned = t.clone();
    assert_eq!(cloned.lexeme, t.lexeme);
    let eof = Token::eof(9);
    assert!(eof.is(TokenType::Eof));
    assert_eq!(eof.lexeme, "");
    assert!(eof.literal.is_none());
    assert_eq!(eof.line, 9);
}

#[test]
fn diagnostics() {
    let scan = LoxError::error(12, "Unexpected character.".to_string());
    assert_eq!(scan.kind, ErrorKind::Scan);
    assert_eq!(scan.location(), "");
    assert_eq!(scan.report("".to_string()), "[line 12] Error : Unexpected character.");
    assert_eq!(scan.describe(), "[line 12] Error : Unexpected character.");
    assert_eq!(scan.report(" at end".to_string()), "[line 12] Error  at end: Unexpected character.");

    let token = Token::new(TokenType::Identifier, "x".to_string(), None, 1024);
    let parse = LoxError::parse_error(&token, "Expect expression.");
    assert_eq!(parse.kind, ErrorKind::Parse);
    assert_eq!(parse.line, 1024);
    assert_eq!(parse.location(), " at 'x'");
    assert_eq!(parse.describe(), "[line 1024] Error  at 'x': Expect expression.");

    let runtime = LoxError::runtime_error(&Token::eof(0), "m".to_string());
    assert_eq!(runtime.kind, ErrorKind::Runtime);
    assert_eq!(runtime.location(), " at end");
    assert_eq!(runtime.describe(), "[line 0] Error  at end: m");

    let copy = parse.dup();
    assert_eq!(copy.message, parse.message);
    assert_eq!(copy.token.unwrap().lexeme, "x");
}

#[test]
fn decimal_numerals() {
    for n in [0usize, 7, 9, 10, 11, 99, 100, 101, 65535, 1234567890, usize::MAX] {
        let mut s = String::from("n=");
        push_decimal(&mut s, n);
        assert_eq!(s, format!("n={}", n));
    }
}

#[test]
fn strings_and_characters() {
    let chars = chars_of("h\u{e9}llo");
    assert_eq!(chars, vec!['h', '\u{e9}', 'l', 'l', 'o']);
    assert_eq!(string_of(&chars, 0, 5), "h\u{e9}llo");
    assert_eq!(string_of(&chars, 1, 3), "\u{e9}l");
    assert_eq!(string_of(&chars, 2, 2), "");
    assert!(chars_of("").is_empty());
}
