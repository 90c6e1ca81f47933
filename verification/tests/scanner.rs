use lox_ast::error::ErrorKind;
use lox_ast::literal::Literal;
use lox_ast::number::Number;
use lox_ast::numerals::numerals;
use lox_ast::numerals::with_numbers;
use lox_ast::scanner::Scanner;
use lox_ast::token_type::TokenType;

fn kinds(source: &str) -> Vec<TokenType> {
    let mut scanner = Scanner::new(source.to_string());
    let _ = scanner.scan_tokens();
    scanner.tokens().iter().map(|t| t.token_type()).collect()
}

fn lexemes(source: &str) -> Vec<String> {
    let mut scanner = Scanner::new(source.to_string());
    let _ = scanner.scan_tokens();
    scanner.tokens().iter().map(|t| t.as_string().clone()).collect()
}

fn lines(source: &str) -> Vec<usize> {
    let mut scanner = Scanner::new(source.to_string());
    let _ = scanner.scan_tokens();
    scanner.tokens().iter().map(|t| t.line).collect()
}

#[test]
fn empty_source_is_one_eof() {
    assert_eq!(kinds(""), vec![TokenType::Eof]);
    assert_eq!(lines(""), vec![1]);
}

#[test]
fn scans_punctuation() {
    assert_eq!(kinds("(){},.-+;/*"), vec![
        TokenType::LeftParen,
        TokenType::RightParen,
        TokenType::LeftBrace,
        TokenType::RightBrace,
        TokenType::Comma,
        TokenType::Dot,
        TokenType::Minus,
        TokenType::Plus,
        TokenType::SemiColon,
        TokenType::Slash,
        TokenType::Star,
        TokenType::Eof,
    ]);
}

#[test]
fn scans_one_and_two_character_operators() {
    assert_eq!(kinds("! != = == > >= < <="), vec![
        TokenType::Bang,
        TokenType::BangEqual,
        TokenType::Equal,
        TokenType::EqualEqual,
        TokenType::Greater,
        TokenType::GreaterEqual,
        TokenType::Less,
        TokenType::LessEqual,
        TokenType::Eof,
    ]);
    assert_eq!(kinds("!=="), vec![TokenType::BangEqual, TokenType::Equal, TokenType::Eof]);
    assert_eq!(lexemes("<=>"), vec!["<=", ">", ""]);
}

#[test]
fn scans_keywords_and_identifiers() {
    let source = "and class else false for fun if nil or print return super this true var while";
    assert_eq!(kinds(source), vec![
        TokenType::And,
        TokenType::Class,
        TokenType::Else,
        TokenType::False,
        TokenType::For,
        TokenType::Fun,
        TokenType::If,
        TokenType::Nil,
        TokenType::Or,
        TokenType::Print,
        TokenType::Return,
        TokenType::Super,
        TokenType::This,
        TokenType::True,
        TokenType::Var,
        TokenType::While,
        TokenType::Eof,
    ]);
    assert_eq!(kinds("break"), vec![TokenType::Break, TokenType::Eof]);
    assert_eq!(kinds("andy _and and_ And forest"), vec![
        TokenType::Identifier,
        TokenType::Identifier,
        TokenType::Identifier,
        TokenType::Identifier,
        TokenType::Identifier,
        TokenType::Eof,
    ]);
    assert_eq!(lexemes("a1_b2 c"), vec!["a1_b2", "c", ""]);
}

#[test]
fn scans_numbers() {
    assert_eq!(lexemes("12 3.25 7. .5 1.2.3"), vec![
        "12", "3.25", "7", ".", ".", "5", "1.2", ".", "3", ""
    ]);
    assert_eq!(kinds("7."), vec![TokenType::Number, TokenType::Dot, TokenType::Eof]);
    assert_eq!(kinds("12abc"), vec![TokenType::Number, TokenType::Identifier, TokenType::Eof]);
}

#[test]
fn number_tokens_get_their_values_from_the_host() {
    let mut scanner = Scanner::new("print 1.5 + 20;".to_string());
    let scanned = scanner.scan_tokens().unwrap();
    assert!(scanned.iter().all(|t| t.literal.is_none()));
    let texts = numerals(scanned);
    assert_eq!(texts, vec!["1.5", "20"]);
    let values: Vec<Number> =
        texts.iter().map(|t| Number::from_bits(t.parse::<f64>().unwrap().to_bits())).collect();
    let tokens = with_numbers(scanned, &values).unwrap();
    assert_eq!(tokens.len(), 6);
    assert_eq!(tokens[1].literal, Some(Literal::Number(Number::from_bits(1.5f64.to_bits()))));
    assert_eq!(tokens[3].literal, Some(Literal::Number(Number::from_bits(20f64.to_bits()))));
    assert_eq!(tokens[1].lexeme, "1.5");
    assert_eq!(tokens[3].line, 1);
    assert!(tokens[0].literal.is_none() && tokens[2].literal.is_none());
    assert_eq!(tokens[0].token_type, TokenType::Print);
    // one value too few, one too many
    assert!(with_numbers(scanned, &values[..1].to_vec()).is_none());
    let mut more = values.clone();
    more.push(Number::from_bits(0));
    assert!(with_numbers(scanned, &more).is_none());
}

#[test]
fn scans_strings_without_escapes() {
    let mut scanner = Scanner::new("\"a\\n b\" \"\"".to_string());
    let tokens = scanner.scan_tokens().unwrap();
    assert_eq!(tokens.len(), 3);
    assert_eq!(tokens[0].token_type, TokenType::String);
    assert_eq!(tokens[0].lexeme, "\"a\\n b\"");
    assert_eq!(tokens[0].literal, Some(Literal::String("a\\n b".to_string())));
    assert_eq!(tokens[1].literal, Some(Literal::String(String::new())));
}

#[test]
fn counts_lines() {
    assert_eq!(lines("a\nb\n\nc"), vec![1, 2, 4, 4]);
    assert_eq!(lines("\n\n"), vec![3]);
    // a string that spans lines stands on the line where it ends
    assert_eq!(lines("\"x\ny\" z\n"), vec![2, 2, 3]);
    // a comment ends before the line feed
    assert_eq!(lines("a // b\nc"), vec![1, 2, 2]);
}

#[test]
fn token_lines_stay_within_the_source() {
    for source in ["", "a", "\n", "a\n\"b\nc\"\n// d\n1.5\n", "\"open\n\n", "@\n#\n"] {
        let newlines = source.chars().filter(|c| *c == '\n').count();
        for line in lines(source) {
            assert!(1 <= line && line <= newlines + 1, "line {} in {:?}", line, source);
        }
    }
}

#[test]
fn skips_comments_and_blanks() {
    assert_eq!(kinds("// nothing here"), vec![TokenType::Eof]);
    assert_eq!(kinds("a // b\n/ c"), vec![
        TokenType::Identifier,
        TokenType::Slash,
        TokenType::Identifier,
        TokenType::Eof,
    ]);
    assert_eq!(lexemes(" \t\r a \t\r b \t\r "), lexemes("a b"));
    assert_eq!(kinds("  var  x=1 ; "), kinds("var x = 1;"));
    assert_eq!(lexemes(" print\t1;"), lexemes("print 1;"));
}

#[test]
fn unexpected_character_is_reported_and_scanning_goes_on() {
    let mut scanner = Scanner::new("a @ b\n# c".to_string());
    let error = scanner.scan_tokens().err().unwrap();
    // the last error is the one handed out
    assert_eq!(error.kind, ErrorKind::Scan);
    assert_eq!(error.message, "Unexpected character.");
    assert_eq!(error.line, 2);
    assert!(error.token.is_none());
    assert_eq!(error.describe(), "[line 2] Error : Unexpected character.");
    // all errors are kept, and no token stands for the bad characters
    assert_eq!(scanner.errors().len(), 2);
    assert_eq!(scanner.errors()[0].line, 1);
    let found: Vec<TokenType> = scanner.tokens().iter().map(|t| t.token_type()).collect();
    assert_eq!(found, vec![
        TokenType::Identifier,
        TokenType::Identifier,
        TokenType::Identifier,
        TokenType::Eof,
    ]);
}

#[test]
fn unterminated_string_is_a_scan_error() {
    let mut scanner = Scanner::new("print \"abc\ndef".to_string());
    let error = scanner.scan_tokens().err().unwrap();
    assert_eq!(error.message, "Unterminated string.");
    assert_eq!(error.line, 2);
    let found: Vec<TokenType> = scanner.tokens().iter().map(|t| t.token_type()).collect();
    assert_eq!(found, vec![TokenType::Print, TokenType::Eof]);
}

#[test]
fn non_ascii_text_is_read_by_characters() {
    let mut scanner = Scanner::new("\"h\u{e9}llo\" x".to_string());
    let tokens = scanner.scan_tokens().unwrap();
    assert_eq!(tokens[0].literal, Some(Literal::String("h\u{e9}llo".to_string())));
    assert_eq!(tokens[1].lexeme, "x");
    let mut scanner = Scanner::new("\u{e9}".to_string());
    assert_eq!(scanner.scan_tokens().err().unwrap().message, "Unexpected character.");
}

#[test]
fn a_second_scan_adds_another_eof() {
    let mut scanner = Scanner::new("a".to_string());
    assert_eq!(scanner.scan_tokens().unwrap().len(), 2);
    assert_eq!(scanner.scan_tokens().unwrap().len(), 3);
}
