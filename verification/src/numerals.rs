//! Numerals: the link between the scanner, which finds them, the host,
//! which reads them, and the parser, which wants their values.
use vstd::prelude::*;
use crate::literal::Literal;
use crate::number::Number;
use crate::token::Token;
use crate::token_type::TokenType;

verus! {

/// How many `Number` tokens stand before position `upto`.
pub open spec fn numbers_before(tokens: Seq<Token>, upto: int) -> nat
    decreases upto,
{
    if upto <= 0 || upto > tokens.len() {
        0
    } else {
        numbers_before(tokens, upto - 1) + if tokens[upto - 1].token_type == TokenType::Number {
            1nat
        } else {
            0nat
        }
    }
}

/// `token`, denoting `value`.
pub open spec fn denoting(token: Token, value: Number) -> Token {
    Token {
        token_type: token.token_type,
        lexeme: token.lexeme,
        literal: Some(Literal::Number(value)),
        line: token.line,
    }
}

/// The numerals of a token sequence: the lexemes of its `Number` tokens, in
/// order. Each is a run of digits, or two runs with a dot between them. What
/// number a numeral denotes is for the host to say.
pub fn numerals(tokens: &Vec<Token>) -> (r: Vec<String>)
    ensures
        r.len() == numbers_before(tokens@, tokens.len() as int),
        forall|i: int|
            0 <= i < tokens.len() && tokens[i].token_type == TokenType::Number ==> numbers_before(
                tokens@,
                i,
            ) < r.len() && r[numbers_before(tokens@, i) as int] == (#[trigger] tokens[i]).lexeme,
{
    let mut out: Vec<String> = Vec::new();
    let mut i: usize = 0;
    while i < tokens.len()
        invariant
            i <= tokens.len(),
            out.len() == numbers_before(tokens@, i as int),
            forall|j: int|
                0 <= j < i && tokens[j].token_type == TokenType::Number ==> numbers_before(
                    tokens@,
                    j,
                ) < out.len() && out[numbers_before(tokens@, j) as int] == (
                #[trigger] tokens[j]).lexeme,
        decreases tokens.len() - i,
    {
        if tokens[i].is(TokenType::Number) {
            out.push(tokens[i].as_string().clone());
        }
        i += 1;
    }
    out
}

/// The tokens with the numbers that their numerals denote: the `Number`
/// tokens get, in order, the values of `values` as what they denote, and
/// every other token is as it was. There must be one value for each
/// numeral: else, `None`.
pub fn with_numbers(tokens: &Vec<Token>, values: &Vec<Number>) -> (r: Option<Vec<Token>>)
    ensures
        match r {
            Some(out) => {
                &&& values.len() == numbers_before(tokens@, tokens.len() as int)
                &&& out.len() == tokens.len()
                &&& forall|i: int|
                    0 <= i < tokens.len() ==> (#[trigger] out[i]) == if tokens[i].token_type
                        == TokenType::Number {
                        denoting(tokens[i], values[numbers_before(tokens@, i) as int])
                    } else {
                        tokens[i]
                    }
            },
            None => values.len() != numbers_before(tokens@, tokens.len() as int),
        },
{
    let mut out: Vec<Token> = Vec::new();
    let mut used: usize = 0;
    let mut i: usize = 0;
    while i < tokens.len()
        invariant
            i <= tokens.len(),
            used <= values.len(),
            used == numbers_before(tokens@, i as int),
            out.len() == i,
            forall|j: int|
                0 <= j < i && tokens[j].token_type == TokenType::Number ==> numbers_before(
                    tokens@,
                    j,
                ) < used,
            forall|j: int|
                0 <= j < i ==> (#[trigger] out[j]) == if tokens[j].token_type == TokenType::Number {
                    denoting(tokens[j], values[numbers_before(tokens@, j) as int])
                } else {
                    tokens[j]
                },
        decreases tokens.len() - i,
    {
        if tokens[i].is(TokenType::Number) {
            if used >= values.len() {
                proof {
                    lemma_numbers_grow(tokens@, i as int + 1, tokens.len() as int);
                }
                return None;
            }
            out.push(
                Token::new(
                    TokenType::Number,
                    tokens[i].as_string().clone(),
                    Some(Literal::Number(values[used])),
                    tokens[i].line,
                ),
            );
            used += 1;
        } else {
            out.push(tokens[i].dup());
        }
        i += 1;
    }
    if used == values.len() {
        Some(out)
    } else {
        None
    }
}

/// Later positions have at least as many `Number` tokens before them.
pub proof fn lemma_numbers_grow(tokens: Seq<Token>, a: int, b: int)
    requires
        0 <= a <= b <= tokens.len(),
    ensures
        numbers_before(tokens, a) <= numbers_before(tokens, b),
    decreases b - a,
{
    if a < b {
        lemma_numbers_grow(tokens, a, b - 1);
    }
}

} // verus!
