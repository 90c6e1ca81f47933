//! The scanner: what the tokens of a source are, and the code that finds them.
use vstd::prelude::*;
use crate::error::ErrorKind;
use crate::error::ErrorView;
use crate::error::LoxError;
use crate::literal::Literal;
use crate::literal::Value;
use crate::text::chars_of;
use crate::text::string_of;
use crate::token::Token;
use crate::token::TokenView;
use crate::token_type::TokenType;

verus! {

// ---------------------------------------------------------------------------
// What scanning means
// ---------------------------------------------------------------------------
/// A decimal digit.
pub open spec fn is_digit(c: char) -> bool {
    '0' <= c && c <= '9'
}

/// A letter of the English alphabet, or an underscore.
pub open spec fn is_alpha(c: char) -> bool {
    ('a' <= c && c <= 'z') || ('A' <= c && c <= 'Z') || c == '_'
}

/// A letter, a digit, or an underscore.
pub open spec fn is_alpha_numeric(c: char) -> bool {
    is_alpha(c) || is_digit(c)
}

/// A space, a carriage return or a tab: skipped between tokens.
pub open spec fn is_blank(c: char) -> bool {
    c == ' ' || c == '\r' || c == '\t'
}

/// The classes of characters of which a lexeme takes the longest run.
#[derive(Clone, Copy)]
pub enum Run {
    /// Decimal digits.
    Digits,
    /// Letters, digits and the underscore.
    Word,
    /// Everything up to the end of the line.
    Comment,
    /// Everything up to the next double quote.
    Quoted,
}

impl Run {
    /// Whether `c` is of this class.
    pub open spec fn holds(self, c: char) -> bool {
        match self {
            Run::Digits => is_digit(c),
            Run::Word => is_alpha_numeric(c),
            Run::Comment => c != '\n',
            Run::Quoted => c != '"',
        }
    }
}

/// The end of the longest run of characters of class `run` that starts at
/// `pos`: the first position from `pos` on that holds another character, or
/// the end of the source.
pub open spec fn run_end(s: Seq<char>, pos: int, run: Run) -> int
    decreases s.len() - pos,
{
    if 0 <= pos < s.len() && run.holds(s[pos]) {
        run_end(s, pos + 1, run)
    } else {
        pos
    }
}

/// The number of line feeds among the first `pos` characters.
pub open spec fn newlines_upto(s: Seq<char>, pos: int) -> nat
    decreases pos,
{
    if pos <= 0 || pos > s.len() {
        0
    } else {
        newlines_upto(s, pos - 1) + if s[pos - 1] == '\n' {
            1nat
        } else {
            0nat
        }
    }
}

/// The line that position `pos` of the source is on; the first is line 1.
pub open spec fn line_at(s: Seq<char>, pos: int) -> nat {
    1 + newlines_upto(s, pos)
}

/// The reserved words, each with its kind.
pub open spec fn keyword_table() -> Seq<(Seq<char>, TokenType)> {
    seq![
        ("and"@, TokenType::And),
        ("break"@, TokenType::Break),
        ("class"@, TokenType::Class),
        ("else"@, TokenType::Else),
        ("false"@, TokenType::False),
        ("for"@, TokenType::For),
        ("fun"@, TokenType::Fun),
        ("if"@, TokenType::If),
        ("nil"@, TokenType::Nil),
        ("or"@, TokenType::Or),
        ("print"@, TokenType::Print),
        ("return"@, TokenType::Return),
        ("super"@, TokenType::Super),
        ("this"@, TokenType::This),
        ("true"@, TokenType::True),
        ("var"@, TokenType::Var),
        ("while"@, TokenType::While),
    ]
}

/// The kind of the first entry from index `from` on whose word is `text`.
pub open spec fn keyword_from(
    table: Seq<(Seq<char>, TokenType)>,
    text: Seq<char>,
    from: int,
) -> Option<TokenType>
    decreases table.len() - from,
{
    if from < 0 || from >= table.len() {
        None
    } else if table[from].0 == text {
        Some(table[from].1)
    } else {
        keyword_from(table, text, from + 1)
    }
}

/// The kind of a word: that of the reserved word it is, else `Identifier`.
pub open spec fn word_kind(text: Seq<char>) -> TokenType {
    match keyword_from(keyword_table(), text, 0) {
        Some(kind) => kind,
        None => TokenType::Identifier,
    }
}

/// What the scanner makes of the characters from one lexeme's start on.
pub struct Lexeme {
    /// Where the next lexeme starts.
    pub end: int,
    /// The token, where the characters form one.
    pub token: Option<TokenView>,
    /// The complaint, where they do not.
    pub error: Option<ErrorView>,
}

/// A token of kind `kind` that spans `s[start..end]` and denotes `literal`.
pub open spec fn token_of(
    s: Seq<char>,
    start: int,
    end: int,
    kind: TokenType,
    literal: Option<Value>,
) -> Lexeme {
    Lexeme {
        end,
        token: Some(
            TokenView { token_type: kind, lexeme: s.subrange(start, end), literal, line: line_at(s, end) },
        ),
        error: None,
    }
}

/// Characters up to `end` that form no token: blanks, a line feed, a comment.
pub open spec fn skipped(end: int) -> Lexeme {
    Lexeme { end, token: None, error: None }
}

/// A scan error found by the time the scanner stands at `end`.
pub open spec fn scan_error(s: Seq<char>, end: int, message: Seq<char>) -> Lexeme {
    Lexeme {
        end,
        token: None,
        error: Some(ErrorView { kind: ErrorKind::Scan, line: line_at(s, end), token: None, message }),
    }
}

/// `=` follows position `start`.
pub open spec fn equals_follows(s: Seq<char>, start: int) -> bool {
    start + 1 < s.len() && s[start + 1] == '='
}

/// A one- or two-character operator: `two` if `=` follows, else `one`.
pub open spec fn operator_at(s: Seq<char>, start: int, one: TokenType, two: TokenType) -> Lexeme {
    if equals_follows(s, start) {
        token_of(s, start, start + 2, two, None)
    } else {
        token_of(s, start, start + 1, one, None)
    }
}

/// Where the number that starts at `start` ends: after its digits, and after
/// a fraction if a dot and a digit follow them.
pub open spec fn number_end(s: Seq<char>, start: int) -> int {
    let whole = run_end(s, start, Run::Digits);
    if whole + 1 < s.len() && s[whole] == '.' && is_digit(s[whole + 1]) {
        run_end(s, whole + 1, Run::Digits)
    } else {
        whole
    }
}

/// The lexeme that starts at `start`.
///
/// A number token carries its digits and no value: reading a decimal numeral
/// as a binary64 number is the host's work.
pub open spec fn lexeme_at(s: Seq<char>, start: int) -> Lexeme
    recommends
        0 <= start < s.len(),
{
    let c = s[start];
    if c == '(' {
        token_of(s, start, start + 1, TokenType::LeftParen, None)
    } else if c == ')' {
        token_of(s, start, start + 1, TokenType::RightParen, None)
    } else if c == '{' {
        token_of(s, start, start + 1, TokenType::LeftBrace, None)
    } else if c == '}' {
        token_of(s, start, start + 1, TokenType::RightBrace, None)
    } else if c == ',' {
        token_of(s, start, start + 1, TokenType::Comma, None)
    } else if c == '.' {
        token_of(s, start, start + 1, TokenType::Dot, None)
    } else if c == '-' {
        token_of(s, start, start + 1, TokenType::Minus, None)
    } else if c == '+' {
        token_of(s, start, start + 1, TokenType::Plus, None)
    } else if c == ';' {
        token_of(s, start, start + 1, TokenType::SemiColon, None)
    } else if c == '*' {
        token_of(s, start, start + 1, TokenType::Star, None)
    } else if c == '!' {
        operator_at(s, start, TokenType::Bang, TokenType::BangEqual)
    } else if c == '=' {
        operator_at(s, start, TokenType::Equal, TokenType::EqualEqual)
    } else if c == '<' {
        operator_at(s, start, TokenType::Less, TokenType::LessEqual)
    } else if c == '>' {
        operator_at(s, start, TokenType::Greater, TokenType::GreaterEqual)
    } else if c == '/' {
        if start + 1 < s.len() && s[start + 1] == '/' {
            skipped(run_end(s, start + 2, Run::Comment))
        } else {
            token_of(s, start, start + 1, TokenType::Slash, None)
        }
    } else if is_blank(c) || c == '\n' {
        skipped(start + 1)
    } else if c == '"' {
        let close = run_end(s, start + 1, Run::Quoted);
        if close >= s.len() {
            scan_error(s, close, "Unterminated string."@)
        } else {
            token_of(
                s,
                start,
                close + 1,
                TokenType::String,
                Some(Value::Text(s.subrange(start + 1, close))),
            )
        }
    } else if is_digit(c) {
        token_of(s, start, number_end(s, start), TokenType::Number, None)
    } else if is_alpha(c) {
        let end = run_end(s, start, Run::Word);
        token_of(s, start, end, word_kind(s.subrange(start, end)), None)
    } else {
        scan_error(s, start + 1, "Unexpected character."@)
    }
}

/// The end-of-input token for a source `s`.
pub open spec fn eof_view(s: Seq<char>) -> TokenView {
    TokenView {
        token_type: TokenType::Eof,
        lexeme: Seq::empty(),
        literal: None,
        line: line_at(s, s.len() as int),
    }
}

/// The tokens of the lexemes from `pos` on, in source order.
pub open spec fn tokens_from(s: Seq<char>, pos: int) -> Seq<TokenView>
    decreases s.len() - pos,
{
    if pos < 0 || pos >= s.len() {
        Seq::empty()
    } else {
        let lexeme = lexeme_at(s, pos);
        let rest = if pos < lexeme.end <= s.len() {
            tokens_from(s, lexeme.end)
        } else {
            Seq::empty()
        };
        match lexeme.token {
            Some(t) => seq![t] + rest,
            None => rest,
        }
    }
}

/// The scan errors of the lexemes from `pos` on, in source order.
pub open spec fn errors_from(s: Seq<char>, pos: int) -> Seq<ErrorView>
    decreases s.len() - pos,
{
    if pos < 0 || pos >= s.len() {
        Seq::empty()
    } else {
        let lexeme = lexeme_at(s, pos);
        let rest = if pos < lexeme.end <= s.len() {
            errors_from(s, lexeme.end)
        } else {
            Seq::empty()
        };
        match lexeme.error {
            Some(e) => seq![e] + rest,
            None => rest,
        }
    }
}

/// The token stream of a source: its tokens in order, then `Eof`.
pub open spec fn scan(s: Seq<char>) -> Seq<TokenView> {
    tokens_from(s, 0).push(eof_view(s))
}

/// The views of a sequence of tokens.
pub open spec fn token_views(tokens: Seq<Token>) -> Seq<TokenView> {
    tokens.map_values(|t: Token| t@)
}

/// The views of a sequence of errors.
pub open spec fn error_views(errors: Seq<LoxError>) -> Seq<ErrorView> {
    errors.map_values(|e: LoxError| e@)
}


/// Every token stands on a line of the source: from line 1 up to one more
/// than the number of its line feeds.
pub open spec fn lines_in_range(tokens: Seq<TokenView>, s: Seq<char>) -> bool {
    forall|i: int|
        0 <= i < tokens.len() ==> 1 <= (#[trigger] tokens[i]).line <= newlines_upto(
            s,
            s.len() as int,
        ) + 1
}

// ---------------------------------------------------------------------------
// Facts about scanning
// ---------------------------------------------------------------------------
/// A run ends at or after its start, and inside the source.
pub proof fn lemma_run_end_bounds(s: Seq<char>, pos: int, run: Run)
    requires
        0 <= pos <= s.len(),
    ensures
        pos <= run_end(s, pos, run) <= s.len(),
        run_end(s, pos, run) < s.len() ==> !run.holds(s[run_end(s, pos, run)]),
        forall|i: int| pos <= i < run_end(s, pos, run) ==> run.holds(#[trigger] s[i]),
    decreases s.len() - pos,
{
    if pos < s.len() && run.holds(s[pos]) {
        lemma_run_end_bounds(s, pos + 1, run);
    }
}

/// Later positions have seen at least as many line feeds.
pub proof fn lemma_newlines_monotone(s: Seq<char>, a: int, b: int)
    requires
        0 <= a <= b <= s.len(),
    ensures
        newlines_upto(s, a) <= newlines_upto(s, b),
    decreases b - a,
{
    if a < b {
        lemma_newlines_monotone(s, a, b - 1);
    }
}

/// Every lexeme takes at least one character and ends inside the source.
pub proof fn lemma_lexeme_advances(s: Seq<char>, start: int)
    requires
        0 <= start < s.len(),
    ensures
        start < lexeme_at(s, start).end <= s.len(),
{
    let c = s[start];
    if c == '/' && start + 1 < s.len() && s[start + 1] == '/' {
        lemma_run_end_bounds(s, start + 2, Run::Comment);
    }
    if c == '"' {
        lemma_run_end_bounds(s, start + 1, Run::Quoted);
    }
    if is_digit(c) {
        lemma_run_end_bounds(s, start, Run::Digits);
        let whole = run_end(s, start, Run::Digits);
        if whole + 1 < s.len() {
            lemma_run_end_bounds(s, whole + 1, Run::Digits);
        }
    }
    if is_alpha(c) {
        lemma_run_end_bounds(s, start, Run::Word);
    }
}

/// The line of a token or of a scan error is a line of the source.
pub proof fn lemma_lexeme_line(s: Seq<char>, start: int)
    requires
        0 <= start < s.len(),
    ensures
        match lexeme_at(s, start).token {
            Some(t) => 1 <= t.line <= newlines_upto(s, s.len() as int) + 1,
            None => true,
        },
        match lexeme_at(s, start).error {
            Some(e) => 1 <= e.line <= newlines_upto(s, s.len() as int) + 1,
            None => true,
        },
{
    lemma_lexeme_advances(s, start);
    lemma_newlines_monotone(s, lexeme_at(s, start).end, s.len() as int);
}

/// The tokens from any lexeme's start on stand on lines of the source.
pub proof fn lemma_token_lines_from(s: Seq<char>, pos: int)
    requires
        0 <= pos <= s.len(),
    ensures
        lines_in_range(tokens_from(s, pos), s),
    decreases s.len() - pos,
{
    if pos < s.len() {
        lemma_lexeme_advances(s, pos);
        lemma_lexeme_line(s, pos);
        lemma_token_lines_from(s, lexeme_at(s, pos).end);
    }
}

/// Every token of a source, `Eof` included, stands on a line from 1 to one
/// more than the number of the source's line feeds.
pub proof fn lemma_token_lines(s: Seq<char>)
    ensures
        lines_in_range(scan(s), s),
{
    lemma_token_lines_from(s, 0);
}

/// A blank between two lexemes changes neither the tokens nor the errors
/// that follow it.
pub proof fn lemma_blank_is_skipped(s: Seq<char>, pos: int)
    requires
        0 <= pos < s.len(),
        is_blank(s[pos]),
    ensures
        tokens_from(s, pos) == tokens_from(s, pos + 1),
        errors_from(s, pos) == errors_from(s, pos + 1),
{
}


/// `s` with the blank `c` before it.
pub open spec fn indented(c: char, s: Seq<char>) -> Seq<char> {
    seq![c] + s
}

proof fn lemma_indented_newlines(c: char, s: Seq<char>, pos: int)
    requires
        is_blank(c),
        0 <= pos <= s.len(),
    ensures
        newlines_upto(indented(c, s), pos + 1) == newlines_upto(s, pos),
    decreases pos,
{
    let t = indented(c, s);
    if pos > 0 {
        lemma_indented_newlines(c, s, pos - 1);
        assert(t[pos] == s[pos - 1]);
    } else {
        assert(t[0] == c);
        assert(newlines_upto(t, 0) == 0);
    }
}

proof fn lemma_indented_run(c: char, s: Seq<char>, pos: int, run: Run)
    requires
        0 <= pos <= s.len(),
    ensures
        run_end(indented(c, s), pos + 1, run) == run_end(s, pos, run) + 1,
    decreases s.len() - pos,
{
    let t = indented(c, s);
    if pos < s.len() {
        assert(t[pos + 1] == s[pos]);
        if run.holds(s[pos]) {
            lemma_indented_run(c, s, pos + 1, run);
        }
    }
}

/// The lexeme that starts at a position of a source is the lexeme that
/// starts one position later once a blank stands before the source.
proof fn lemma_indented_lexeme(c: char, s: Seq<char>, pos: int)
    requires
        is_blank(c),
        0 <= pos < s.len(),
    ensures
        lexeme_at(indented(c, s), pos + 1).end == lexeme_at(s, pos).end + 1,
        lexeme_at(indented(c, s), pos + 1).token == lexeme_at(s, pos).token,
        lexeme_at(indented(c, s), pos + 1).error == lexeme_at(s, pos).error,
{
    let t = indented(c, s);
    assert(t.len() == s.len() + 1);
    assert(t[pos + 1] == s[pos]);
    if pos + 1 < s.len() {
        assert(t[pos + 2] == s[pos + 1]);
    }
    lemma_lexeme_advances(s, pos);
    let end = lexeme_at(s, pos).end;
    lemma_indented_newlines(c, s, end);
    assert(t.subrange(pos + 1, end + 1) =~= s.subrange(pos, end));
    let ch = s[pos];
    if ch == '/' && pos + 1 < s.len() && s[pos + 1] == '/' {
        lemma_run_end_bounds(s, pos + 2, Run::Comment);
        lemma_indented_run(c, s, pos + 2, Run::Comment);
    } else if ch == '"' {
        lemma_run_end_bounds(s, pos + 1, Run::Quoted);
        lemma_indented_run(c, s, pos + 1, Run::Quoted);
        let close = run_end(s, pos + 1, Run::Quoted);
        if close < s.len() {
            assert(t.subrange(pos + 2, close + 1) =~= s.subrange(pos + 1, close));
        }
    } else if is_digit(ch) {
        lemma_run_end_bounds(s, pos, Run::Digits);
        lemma_indented_run(c, s, pos, Run::Digits);
        let whole = run_end(s, pos, Run::Digits);
        if whole + 1 < s.len() {
            assert(t[whole + 1] == s[whole]);
            assert(t[whole + 2] == s[whole + 1]);
            lemma_indented_run(c, s, whole + 1, Run::Digits);
        }
    } else if is_alpha(ch) {
        lemma_run_end_bounds(s, pos, Run::Word);
        lemma_indented_run(c, s, pos, Run::Word);
    }
}

proof fn lemma_indented_from(c: char, s: Seq<char>, pos: int)
    requires
        is_blank(c),
        0 <= pos <= s.len(),
    ensures
        tokens_from(indented(c, s), pos + 1) == tokens_from(s, pos),
        errors_from(indented(c, s), pos + 1) == errors_from(s, pos),
    decreases s.len() - pos,
{
    let t = indented(c, s);
    assert(t.len() == s.len() + 1);
    if pos < s.len() {
        lemma_lexeme_advances(s, pos);
        lemma_indented_lexeme(c, s, pos);
        lemma_indented_from(c, s, lexeme_at(s, pos).end);
    }
}

/// Blanks before a source are discarded: the source scans to the same
/// tokens, on the same lines, and to the same errors, with or without a
/// space, a carriage return or a tab before it. So scanning what is left
/// once leading blanks are discarded gives what scanning gave before.
pub proof fn lemma_leading_blank_discarded(c: char, s: Seq<char>)
    requires
        is_blank(c),
    ensures
        scan(indented(c, s)) == scan(s),
        errors_from(indented(c, s), 0) == errors_from(s, 0),
{
    let t = indented(c, s);
    assert(t.len() == s.len() + 1);
    assert(t[0] == c);
    lemma_indented_from(c, s, 0);
    lemma_indented_newlines(c, s, s.len() as int);
    assert(eof_view(t) == eof_view(s));
}

// ---------------------------------------------------------------------------
// The scanner
// ---------------------------------------------------------------------------
/// Turns source text into tokens.
pub struct Scanner {
    source: Vec<char>,
    tokens: Vec<Token>,
    errors: Vec<LoxError>,
    start: usize,
    current: usize,
    line: usize,
    keywords: Vec<(String, TokenType)>,
}

/// What a `Scanner` holds: the source, how far it has read, and the tokens
/// and errors found so far.
pub struct ScannerView {
    pub source: Seq<char>,
    pub current: int,
    pub tokens: Seq<TokenView>,
    pub errors: Seq<ErrorView>,
}

impl View for Scanner {
    type V = ScannerView;

    closed spec fn view(&self) -> ScannerView {
        ScannerView {
            source: self.source@,
            current: self.current as int,
            tokens: token_views(self.tokens@),
            errors: error_views(self.errors@),
        }
    }
}

fn digit(c: char) -> (r: bool)
    ensures
        r == is_digit(c),
{
    c >= '0' && c <= '9'
}

fn alpha(c: char) -> (r: bool)
    ensures
        r == is_alpha(c),
{
    (c >= 'a' && c <= 'z') || (c >= 'A' && c <= 'Z') || c == '_'
}

fn alpha_numeric(c: char) -> (r: bool)
    ensures
        r == is_alpha_numeric(c),
{
    alpha(c) || digit(c)
}

fn in_run(run: Run, c: char) -> (r: bool)
    ensures
        r == run.holds(c),
{
    match run {
        Run::Digits => digit(c),
        Run::Word => alpha_numeric(c),
        Run::Comment => c != '\n',
        Run::Quoted => c != '"',
    }
}

impl Scanner {
    /// The scanner reads inside its source, knows the line it is on, and
    /// holds the table of reserved words.
    pub closed spec fn wf(&self) -> bool {
        &&& self.start <= self.current <= self.source.len() < usize::MAX
        &&& self.line == line_at(self.source@, self.current as int)
        &&& self.keywords.len() == keyword_table().len()
        &&& forall|i: int|
            0 <= i < self.keywords.len() ==> (#[trigger] self.keywords[i]).0@ == keyword_table()[i].0
                && self.keywords[i].1 == keyword_table()[i].1
    }

    /// A scanner at the start of `source`.
    pub fn new(source: String) -> (r: Scanner)
        requires
            source@.len() < usize::MAX,
        ensures
            r.wf(),
            r@ == (ScannerView {
                source: source@,
                current: 0,
                tokens: Seq::empty(),
                errors: Seq::empty(),
            }),
    {
        let mut keywords: Vec<(String, TokenType)> = Vec::new();
        keywords.push(("and".to_owned(), TokenType::And));
        keywords.push(("break".to_owned(), TokenType::Break));
        keywords.push(("class".to_owned(), TokenType::Class));
        keywords.push(("else".to_owned(), TokenType::Else));
        keywords.push(("false".to_owned(), TokenType::False));
        keywords.push(("for".to_owned(), TokenType::For));
        keywords.push(("fun".to_owned(), TokenType::Fun));
        keywords.push(("if".to_owned(), TokenType::If));
        keywords.push(("nil".to_owned(), TokenType::Nil));
        keywords.push(("or".to_owned(), TokenType::Or));
        keywords.push(("print".to_owned(), TokenType::Print));
        keywords.push(("return".to_owned(), TokenType::Return));
        keywords.push(("super".to_owned(), TokenType::Super));
        keywords.push(("this".to_owned(), TokenType::This));
        keywords.push(("true".to_owned(), TokenType::True));
        keywords.push(("var".to_owned(), TokenType::Var));
        keywords.push(("while".to_owned(), TokenType::While));
        let r = Scanner {
            source: chars_of(source.as_str()),
            tokens: Vec::new(),
            errors: Vec::new(),
            start: 0,
            current: 0,
            line: 1,
            keywords,
        };
        assert(r@.tokens =~= Seq::empty());
        assert(r@.errors =~= Seq::empty());
        r
    }

    /// The tokens found so far.
    pub fn tokens(&self) -> (r: &Vec<Token>)
        ensures
            token_views(r@) == self@.tokens,
    {
        &self.tokens
    }

    /// The scan errors found so far.
    pub fn errors(&self) -> (r: &Vec<LoxError>)
        ensures
            error_views(r@) == self@.errors,
    {
        &self.errors
    }

    fn is_at_end(&self) -> (r: bool)
        ensures
            r == (self.current >= self.source.len()),
    {
        self.current >= self.source.len()
    }

    fn peek(&self) -> (r: char)
        ensures
            self.current < self.source.len() ==> r == self.source[self.current as int],
            self.current >= self.source.len() ==> r == '\0',
    {
        if self.is_at_end() {
            return '\0';
        }
        self.source[self.current]
    }

    fn peek_next(&self) -> (r: char)
        ensures
            self.current + 1 < self.source.len() ==> r == self.source[self.current + 1],
            self.current + 1 >= self.source.len() ==> r == '\0',
    {
        if self.current >= self.source.len() || self.current + 1 >= self.source.len() {
            return '\0';
        }
        self.source[self.current + 1]
    }

    /// Whether only the position and the line differ from `old`.
    spec fn moved_from(&self, old: &Scanner) -> bool {
        &&& self.source == old.source
        &&& self.tokens == old.tokens
        &&& self.errors == old.errors
        &&& self.start == old.start
        &&& self.keywords == old.keywords
    }

    fn advance(&mut self) -> (r: char)
        requires
            old(self).wf(),
            old(self).current < old(self).source.len(),
        ensures
            final(self).wf(),
            final(self).moved_from(old(self)),
            final(self).current == old(self).current + 1,
            r == old(self).source[old(self).current as int],
    {
        let res = self.source[self.current];
        self.current += 1;
        if res == '\n' {
            proof {
                lemma_newlines_at_most(self.source@, self.current as int);
            }
            self.line += 1;
        }
        res
    }

    fn match_char(&mut self, expected: char) -> (r: bool)
        requires
            old(self).wf(),
            expected != '\n',
        ensures
            final(self).wf(),
            final(self).moved_from(old(self)),
            r == (old(self).current < old(self).source.len() && old(self).source[old(
                self,
            ).current as int] == expected),
            final(self).current == old(self).current + if r {
                1int
            } else {
                0int
            },
    {
        if self.is_at_end() {
            return false;
        }
        if self.source[self.current] != expected {
            return false;
        }
        self.current += 1;
        true
    }

    /// Reads on to the end of the longest run of class `run`.
    fn take_run(&mut self, run: Run)
        requires
            old(self).wf(),
        ensures
            final(self).wf(),
            final(self).moved_from(old(self)),
            final(self).current == run_end(old(self).source@, old(self).current as int, run),
    {
        while self.current < self.source.len() && in_run(run, self.source[self.current])
            invariant
                self.wf(),
                self.moved_from(old(self)),
                old(self).current <= self.current,
                run_end(self.source@, self.current as int, run) == run_end(
                    old(self).source@,
                    old(self).current as int,
                    run,
                ),
            decreases self.source.len() - self.current,
        {
            self.advance();
        }
    }

    /// Whether `self` is `old` with the token `t` added.
    spec fn emitted(&self, old: &Scanner, t: TokenView) -> bool {
        &&& self.source == old.source
        &&& self.errors == old.errors
        &&& self.start == old.start
        &&& self.current == old.current
        &&& self.line == old.line
        &&& self.keywords == old.keywords
        &&& token_views(self.tokens@) == token_views(old.tokens@).push(t)
    }

    /// The token of kind `kind` that spans the current lexeme.
    spec fn spanned(&self, kind: TokenType, literal: Option<Value>) -> TokenView {
        TokenView {
            token_type: kind,
            lexeme: self.source@.subrange(self.start as int, self.current as int),
            literal,
            line: line_at(self.source@, self.current as int),
        }
    }

    fn add_token(&mut self, token_type: TokenType)
        requires
            old(self).wf(),
        ensures
            final(self).wf(),
            final(self).emitted(old(self), old(self).spanned(token_type, None)),
    {
        self.add_token_object(token_type, None);
    }

    fn add_token_object(&mut self, token_type: TokenType, literal: Option<Literal>)
        requires
            old(self).wf(),
        ensures
            final(self).wf(),
            final(self).emitted(
                old(self),
                old(self).spanned(
                    token_type,
                    match literal {
                        Some(l) => Some(l@),
                        None => None,
                    },
                ),
            ),
    {
        let lexeme = string_of(&self.source, self.start, self.current);
        let token = Token::new(token_type, lexeme, literal, self.line);
        self.tokens.push(token);
        assert(token_views(self.tokens@) =~= token_views(old(self).tokens@).push(token@));
    }

    /// The kind of the reserved word `text`, if it is one.
    fn keyword(&self, text: &String) -> (r: Option<TokenType>)
        requires
            self.wf(),
        ensures
            r == keyword_from(keyword_table(), text@, 0),
    {
        let mut i: usize = 0;
        while i < self.keywords.len()
            invariant
                self.wf(),
                i <= self.keywords.len(),
                keyword_from(keyword_table(), text@, 0) == keyword_from(
                    keyword_table(),
                    text@,
                    i as int,
                ),
            decreases self.keywords.len() - i,
        {
            if self.keywords[i].0 == *text {
                return Some(self.keywords[i].1);
            }
            i += 1;
        }
        None
    }

    fn identifier(&mut self)
        requires
            old(self).wf(),
        ensures
            final(self).wf(),
            final(self).source == old(self).source,
            final(self).errors == old(self).errors,
            final(self).start == old(self).start,
            final(self).current == run_end(old(self).source@, old(self).current as int, Run::Word),
            token_views(final(self).tokens@) == token_views(old(self).tokens@).push(
                final(self).spanned(
                    word_kind(
                        final(self).source@.subrange(
                            final(self).start as int,
                            final(self).current as int,
                        ),
                    ),
                    None,
                ),
            ),
    {
        self.take_run(Run::Word);
        let text = string_of(&self.source, self.start, self.current);
        let token_type = match self.keyword(&text) {
            Some(kind) => kind,
            None => TokenType::Identifier,
        };
        self.add_token(token_type);
    }

    fn scan_number(&mut self)
        requires
            old(self).wf(),
            old(self).current == old(self).start + 1,
            is_digit(old(self).source[old(self).start as int]),
        ensures
            final(self).wf(),
            final(self).source == old(self).source,
            final(self).errors == old(self).errors,
            final(self).start == old(self).start,
            final(self).current == number_end(old(self).source@, old(self).start as int),
            token_views(final(self).tokens@) == token_views(old(self).tokens@).push(
                final(self).spanned(TokenType::Number, None),
            ),
    {
        assert(run_end(self.source@, self.start as int, Run::Digits) == run_end(
            self.source@,
            self.current as int,
            Run::Digits,
        ));
        self.take_run(Run::Digits);
        if self.peek() == '.' && digit(self.peek_next()) {
            // consume the "."
            self.advance();
            self.take_run(Run::Digits);
        }
        self.add_token(TokenType::Number);
    }

    fn scan_string(&mut self) -> (r: Result<(), LoxError>)
        requires
            old(self).wf(),
        ensures
            final(self).wf(),
            final(self).source == old(self).source,
            final(self).errors == old(self).errors,
            final(self).start == old(self).start,
            ({
                let s = old(self).source@;
                let close = run_end(s, old(self).current as int, Run::Quoted);
                if close >= s.len() {
                    &&& final(self).current == close
                    &&& final(self).tokens == old(self).tokens
                    &&& r is Err
                    &&& r->Err_0@ == scan_error(s, close, "Unterminated string."@).error->0
                } else {
                    &&& final(self).current == close + 1
                    &&& r is Ok
                    &&& token_views(final(self).tokens@) == token_views(old(self).tokens@).push(
                        final(self).spanned(
                            TokenType::String,
                            Some(Value::Text(s.subrange(old(self).current as int, close))),
                        ),
                    )
                }
            }),
    {
        let opening = self.current;
        self.take_run(Run::Quoted);
        proof {
            lemma_run_end_bounds(self.source@, opening as int, Run::Quoted);
        }
        if self.is_at_end() {
            return Err(LoxError::error(self.line, "Unterminated string.".to_owned()));
        }
        // the closing "

        self.advance();
        let value = string_of(&self.source, opening, self.current - 1);
        self.add_token_object(TokenType::String, Some(Literal::String(value)));
        Ok(())
    }

    /// Whether `self` is `old` after the lexeme `lexeme`, its error left aside.
    spec fn stepped(&self, old: &Scanner, lexeme: Lexeme) -> bool {
        &&& self.source == old.source
        &&& self.errors == old.errors
        &&& self.current == lexeme.end
        &&& token_views(self.tokens@) == match lexeme.token {
            Some(t) => token_views(old.tokens@).push(t),
            None => token_views(old.tokens@),
        }
    }

    /// Reads one lexeme.
    fn scan_token(&mut self) -> (r: Result<(), LoxError>)
        requires
            old(self).wf(),
            old(self).start == old(self).current,
            old(self).current < old(self).source.len(),
        ensures
            final(self).wf(),
            final(self).stepped(old(self), lexeme_at(old(self).source@, old(self).current as int)),
            match r {
                Ok(_) => lexeme_at(old(self).source@, old(self).current as int).error is None,
                Err(e) => lexeme_at(old(self).source@, old(self).current as int).error == Some(e@),
            },
    {
        let c = self.advance();
        match c {
            '(' => self.add_token(TokenType::LeftParen),
            ')' => self.add_token(TokenType::RightParen),
            '{' => self.add_token(TokenType::LeftBrace),
            '}' => self.add_token(TokenType::RightBrace),
            ',' => self.add_token(TokenType::Comma),
            '.' => self.add_token(TokenType::Dot),
            '-' => self.add_token(TokenType::Minus),
            '+' => self.add_token(TokenType::Plus),
            ';' => self.add_token(TokenType::SemiColon),
            '*' => self.add_token(TokenType::Star),
            '!' => {
                if self.match_char('=') {
                    self.add_token(TokenType::BangEqual);
                } else {
                    self.add_token(TokenType::Bang);
                }
            },
            '=' => {
                if self.match_char('=') {
                    self.add_token(TokenType::EqualEqual);
                } else {
                    self.add_token(TokenType::Equal);
                }
            },
            '<' => {
                if self.match_char('=') {
                    self.add_token(TokenType::LessEqual);
                } else {
                    self.add_token(TokenType::Less);
                }
            },
            '>' => {
                if self.match_char('=') {
                    self.add_token(TokenType::GreaterEqual);
                } else {
                    self.add_token(TokenType::Greater);
                }
            },
            '/' => {
                if self.match_char('/') {
                    // a comment runs to the end of the line
                    self.take_run(Run::Comment);
                } else {
                    self.add_token(TokenType::Slash);
                }
            },
            ' ' | '\r' | '\t' => {},
            '\n' => {},
            '"' => {
                return self.scan_string();
            },
            _ => {
                if digit(c) {
                    self.scan_number();
                } else if alpha(c) {
                    assert(run_end(self.source@, self.start as int, Run::Word) == run_end(
                        self.source@,
                        self.current as int,
                        Run::Word,
                    ));
                    self.identifier();
                } else {
                    return Err(LoxError::error(self.line, "Unexpected character.".to_owned()));
                }
            },
        }
        Ok(())
    }

    /// Reads the rest of the source: adds its tokens, then `Eof`, to the
    /// tokens found so far, and its scan errors to the errors found so far.
    /// Hands out the tokens if this call found no error, else the last error
    /// it found.
    pub fn scan_tokens(&mut self) -> (r: Result<&Vec<Token>, LoxError>)
        requires
            old(self).wf(),
        ensures
            final(self).wf(),
            final(self)@.source == old(self)@.source,
            final(self)@.current == old(self)@.source.len(),
            final(self)@.tokens == old(self)@.tokens + tokens_from(
                old(self)@.source,
                old(self)@.current,
            ).push(eof_view(old(self)@.source)),
            final(self)@.errors == old(self)@.errors + errors_from(
                old(self)@.source,
                old(self)@.current,
            ),
            lines_in_range(old(self)@.tokens, old(self)@.source) ==> lines_in_range(
                final(self)@.tokens,
                old(self)@.source,
            ),
            match r {
                Ok(tokens) => {
                    &&& errors_from(old(self)@.source, old(self)@.current).len() == 0
                    &&& token_views(tokens@) == final(self)@.tokens
                },
                Err(e) => {
                    &&& errors_from(old(self)@.source, old(self)@.current).len() > 0
                    &&& e@ == errors_from(old(self)@.source, old(self)@.current).last()
                },
            },
    {
        let mut had_error: Option<LoxError> = None;
        let ghost s = self.source@;
        let ghost from = self.current as int;
        let ghost found = Seq::<TokenView>::empty();
        let ghost failed = Seq::<ErrorView>::empty();
        while !self.is_at_end()
            invariant
                self.wf(),
                self.source@ == s,
                0 <= from <= self.current <= s.len(),
                token_views(self.tokens@) == token_views(old(self).tokens@) + found,
                error_views(self.errors@) == error_views(old(self).errors@) + failed,
                found + tokens_from(s, self.current as int) == tokens_from(s, from),
                failed + errors_from(s, self.current as int) == errors_from(s, from),
                match had_error {
                    Some(e) => failed.len() > 0 && e@ == failed.last(),
                    None => failed.len() == 0,
                },
            decreases s.len() - self.current,
        {
            self.start = self.current;
            let ghost here = self.current as int;
            let ghost lexeme = lexeme_at(s, here);
            let ghost tokens_before = token_views(self.tokens@);
            let ghost errors_before = error_views(self.errors@);
            proof {
                lemma_lexeme_advances(s, here);
            }
            match self.scan_token() {
                Ok(_) => {},
                Err(e) => {
                    self.errors.push(e.dup());
                    proof {
                        assert(error_views(self.errors@) =~= errors_before.push(e@));
                    }
                    had_error = Some(e);
                },
            }
            proof {
                let found_before = found;
                let failed_before = failed;
                match lexeme.token {
                    Some(t) => {
                        found = found.push(t);
                        assert(found_before + (seq![t] + tokens_from(s, lexeme.end)) =~= found
                            + tokens_from(s, lexeme.end));
                    },
                    None => {},
                }
                match lexeme.error {
                    Some(e) => {
                        failed = failed.push(e);
                        assert(failed_before + (seq![e] + errors_from(s, lexeme.end)) =~= failed
                            + errors_from(s, lexeme.end));
                    },
                    None => {},
                }
                assert(token_views(self.tokens@) =~= token_views(old(self).tokens@) + found);
                assert(error_views(self.errors@) =~= error_views(old(self).errors@) + failed);
            }
        }
        let eof = Token::eof(self.line);
        let ghost tokens_before = token_views(self.tokens@);
        self.tokens.push(eof);
        proof {
            assert(found =~= tokens_from(s, from));
            assert(failed =~= errors_from(s, from));
            assert(eof@ == eof_view(s));
            assert(token_views(self.tokens@) =~= tokens_before.push(eof@));
            lemma_token_lines_from(s, from);
            lemma_newlines_monotone(s, s.len() as int, s.len() as int);
            assert(token_views(self.tokens@) =~= token_views(old(self).tokens@) + tokens_from(
                s,
                from,
            ).push(eof_view(s)));
        }
        if let Some(e) = had_error {
            Err(e)
        } else {
            Ok(&self.tokens)
        }
    }
}

/// Among `pos` characters there are at most `pos` line feeds.
proof fn lemma_newlines_at_most(s: Seq<char>, pos: int)
    requires
        0 <= pos <= s.len(),
    ensures
        newlines_upto(s, pos) <= pos,
    decreases pos,
{
    if pos > 0 {
        lemma_newlines_at_most(s, pos - 1);
    }
}

} // verus!
