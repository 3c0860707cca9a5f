//! Lexical scanning: source text to a finite, ordered token sequence.
//!
//! The scan is total: it always terminates, never fails, turns unrecognized
//! characters into [`Token::Unknown`] rather than raising an error, and
//! always appends a terminating [`Token::EndOfFile`].  The whole behaviour
//! is captured by the character-level specification function [`scan_from`],
//! and `tokenize` is proved to return exactly `scan_from(code@, 0)`.

use crate::ast::SpecToken;
use crate::ast::Token;
use vstd::prelude::*;

verus! {

/// The characters skipped between tokens: space, tab, newline, carriage
/// return.
pub open spec fn is_whitespace_char(c: char) -> bool {
    c == ' ' || c == '\t' || c == '\n' || c == '\r'
}

/// The letters that may start an identifier.  The identifier alphabet is
/// ASCII: any other character is an unrecognized-input marker.
pub open spec fn is_letter_char(c: char) -> bool {
    ('a' <= c && c <= 'z') || ('A' <= c && c <= 'Z')
}

/// The decimal digits.
pub open spec fn is_digit_char(c: char) -> bool {
    '0' <= c && c <= '9'
}

/// The characters that may extend an identifier: letters, digits and the
/// underscore.
pub open spec fn is_identifier_char(c: char) -> bool {
    is_letter_char(c) || is_digit_char(c) || c == '_'
}

/// The numeric value of a decimal digit character.
pub open spec fn digit_value(c: char) -> int {
    c as int - 48
}

/// The first position at or after `i` whose character no longer extends an
/// identifier (or the end of the input).
pub open spec fn identifier_end(s: Seq<char>, i: int) -> int
    decreases s.len() - i,
{
    if i < s.len() && is_identifier_char(s[i]) {
        identifier_end(s, i + 1)
    } else {
        i
    }
}

/// The first position at or after `i` whose character is not a digit.
pub open spec fn number_end(s: Seq<char>, i: int) -> int
    decreases s.len() - i,
{
    if i < s.len() && is_digit_char(s[i]) {
        number_end(s, i + 1)
    } else {
        i
    }
}

/// The position of the first `"` at or after `i`, or the end of the input
/// when no closing quote follows.
pub open spec fn string_end(s: Seq<char>, i: int) -> int
    decreases s.len() - i,
{
    if i < s.len() {
        if s[i] == '"' {
            i
        } else {
            string_end(s, i + 1)
        }
    } else {
        i
    }
}

/// The value of a digit string, most significant digit first.
pub open spec fn digits_value(s: Seq<char>) -> int
    decreases s.len(),
{
    if s.len() == 0 {
        0
    } else {
        digits_value(s.drop_last()) * 10 + digit_value(s.last())
    }
}

/// Identifier text is checked against the keyword set; any other text is an
/// identifier.
pub open spec fn keyword_or_identifier(text: Seq<char>) -> SpecToken {
    if text == "let"@ {
        SpecToken::Let
    } else if text == "print"@ {
        SpecToken::Print
    } else if text == "if"@ {
        SpecToken::If
    } else if text == "else"@ {
        SpecToken::Else
    } else {
        SpecToken::Identifier(text)
    }
}

proof fn lemma_identifier_end_bounds(s: Seq<char>, i: int)
    requires
        i <= s.len(),
    ensures
        i <= identifier_end(s, i) <= s.len(),
    decreases s.len() - i,
{
    if i < s.len() && is_identifier_char(s[i]) {
        lemma_identifier_end_bounds(s, i + 1);
    }
}

proof fn lemma_number_end_bounds(s: Seq<char>, i: int)
    requires
        i <= s.len(),
    ensures
        i <= number_end(s, i) <= s.len(),
    decreases s.len() - i,
{
    if i < s.len() && is_digit_char(s[i]) {
        lemma_number_end_bounds(s, i + 1);
    }
}

proof fn lemma_string_end_bounds(s: Seq<char>, i: int)
    requires
        i <= s.len(),
    ensures
        i <= string_end(s, i) <= s.len(),
    decreases s.len() - i,
{
    if i < s.len() && s[i] != '"' {
        lemma_string_end_bounds(s, i + 1);
    }
}

/// The token sequence produced by scanning `s` from position `i` onwards,
/// with one character of lookahead, ending in `EndOfFile`.
pub open spec fn scan_from(s: Seq<char>, i: int) -> Seq<SpecToken>
    decreases s.len() - i,
    via scan_from_decreases
{
    if !(0 <= i < s.len()) {
        seq![SpecToken::EndOfFile]
    } else {
        let c = s[i];
        if is_whitespace_char(c) {
            scan_from(s, i + 1)
        } else if c == '=' {
            if i + 1 < s.len() && s[i + 1] == '=' {
                seq![SpecToken::EqualEqual] + scan_from(s, i + 2)
            } else {
                seq![SpecToken::Equal] + scan_from(s, i + 1)
            }
        } else if c == '!' {
            if i + 1 < s.len() && s[i + 1] == '=' {
                seq![SpecToken::NotEqual] + scan_from(s, i + 2)
            } else {
                seq![SpecToken::Unknown] + scan_from(s, i + 1)
            }
        } else if c == '+' {
            seq![SpecToken::Plus] + scan_from(s, i + 1)
        } else if c == '-' {
            seq![SpecToken::Minus] + scan_from(s, i + 1)
        } else if c == '*' {
            seq![SpecToken::Asterisk] + scan_from(s, i + 1)
        } else if c == '/' {
            seq![SpecToken::Slash] + scan_from(s, i + 1)
        } else if c == '%' {
            seq![SpecToken::Modulo] + scan_from(s, i + 1)
        } else if c == '(' {
            seq![SpecToken::LeftParenthesis] + scan_from(s, i + 1)
        } else if c == ')' {
            seq![SpecToken::RightParenthesis] + scan_from(s, i + 1)
        } else if c == '{' {
            seq![SpecToken::LeftBrace] + scan_from(s, i + 1)
        } else if c == '}' {
            seq![SpecToken::RightBrace] + scan_from(s, i + 1)
        } else if c == '[' {
            seq![SpecToken::LeftBracket] + scan_from(s, i + 1)
        } else if c == ']' {
            seq![SpecToken::RightBracket] + scan_from(s, i + 1)
        } else if c == '<' {
            seq![SpecToken::LessThan] + scan_from(s, i + 1)
        } else if c == '>' {
            seq![SpecToken::GreaterThan] + scan_from(s, i + 1)
        } else if c == ',' {
            seq![SpecToken::Comma] + scan_from(s, i + 1)
        } else if c == ';' {
            seq![SpecToken::SemiColon] + scan_from(s, i + 1)
        } else if c == '"' {
            let j = string_end(s, i + 1);
            let lit = SpecToken::StringLiteral(s.subrange(i + 1, j));
            if j < s.len() {
                seq![lit] + scan_from(s, j + 1)
            } else {
                // Unterminated string: the literal holds the remainder of
                // the source, and scanning stops.
                seq![lit, SpecToken::EndOfFile]
            }
        } else if is_letter_char(c) {
            let j = identifier_end(s, i + 1);
            seq![keyword_or_identifier(s.subrange(i, j))] + scan_from(s, j)
        } else if is_digit_char(c) {
            let j = number_end(s, i + 1);
            let v = digits_value(s.subrange(i, j));
            // A literal beyond the 32-bit signed range is an error condition:
            // it becomes the unrecognized-input marker rather than wrapping.
            let tok = if v <= i32::MAX as int {
                SpecToken::Number(v)
            } else {
                SpecToken::Unknown
            };
            seq![tok] + scan_from(s, j)
        } else {
            seq![SpecToken::Unknown] + scan_from(s, i + 1)
        }
    }
}

#[via_fn]
proof fn scan_from_decreases(s: Seq<char>, i: int) {
    if 0 <= i < s.len() {
        lemma_identifier_end_bounds(s, i + 1);
        lemma_number_end_bounds(s, i + 1);
        lemma_string_end_bounds(s, i + 1);
    }
}

/// The scan is never empty and always ends with the end-of-input marker.
pub proof fn lemma_scan_terminated(s: Seq<char>, i: int)
    ensures
        scan_from(s, i).len() >= 1,
        scan_from(s, i).last() == SpecToken::EndOfFile,
    decreases s.len() - i,
{
    if 0 <= i < s.len() {
        let c = s[i];
        lemma_identifier_end_bounds(s, i + 1);
        lemma_number_end_bounds(s, i + 1);
        lemma_string_end_bounds(s, i + 1);
        if is_whitespace_char(c) {
            lemma_scan_terminated(s, i + 1);
        } else if (c == '=' || c == '!') && i + 1 < s.len() && s[i + 1] == '=' {
            lemma_scan_terminated(s, i + 2);
        } else if c == '"' {
            let j = string_end(s, i + 1);
            if j < s.len() {
                lemma_scan_terminated(s, j + 1);
            }
        } else if is_letter_char(c) {
            lemma_scan_terminated(s, identifier_end(s, i + 1));
        } else if is_digit_char(c) {
            lemma_scan_terminated(s, number_end(s, i + 1));
        } else {
            lemma_scan_terminated(s, i + 1);
        }
    }
}

/// All characters of a digit string are digits, so its value is not negative.
proof fn lemma_digits_value_nonneg(s: Seq<char>)
    requires
        forall|k: int| 0 <= k < s.len() ==> is_digit_char(#[trigger] s[k]),
    ensures
        digits_value(s) >= 0,
    decreases s.len(),
{
    if s.len() > 0 {
        lemma_digits_value_nonneg(s.drop_last());
    }
}

/// Exec mirror of [`is_letter_char`].
fn is_letter(c: char) -> (r: bool)
    ensures
        r == is_letter_char(c),
{
    ('a' <= c && c <= 'z') || ('A' <= c && c <= 'Z')
}

/// Exec mirror of [`is_digit_char`].
fn is_digit(c: char) -> (r: bool)
    ensures
        r == is_digit_char(c),
{
    '0' <= c && c <= '9'
}

/// Exec mirror of [`is_identifier_char`].
fn is_identifier_part(c: char) -> (r: bool)
    ensures
        r == is_identifier_char(c),
{
    is_letter(c) || is_digit(c) || c == '_'
}

/// Completed identifier text becomes a keyword token or an identifier token.
fn keyword_token(text: String) -> (t: Token)
    ensures
        t@ == keyword_or_identifier(text@),
{
    if text == String::from_str("let") {
        Token::Let
    } else if text == String::from_str("print") {
        Token::Print
    } else if text == String::from_str("if") {
        Token::If
    } else if text == String::from_str("else") {
        Token::Else
    } else {
        Token::Identifier(text)
    }
}

/// Scans an identifier whose first letter stands at `start`; returns the
/// token and the position just past the identifier.
fn scan_identifier(code: &str, start: usize, n: usize) -> (r: (Token, usize))
    requires
        n == code@.len(),
        start < n,
        is_letter_char(code@[start as int]),
    ensures
        r.1 == identifier_end(code@, start + 1),
        start < r.1 <= n,
        r.0@ == keyword_or_identifier(code@.subrange(start as int, r.1 as int)),
{
    let ghost s = code@;
    let mut i: usize = start + 1;
    while i < n && is_identifier_part(code.get_char(i))
        invariant
            start + 1 <= i <= n,
            n == s.len(),
            s == code@,
            identifier_end(s, start + 1) == identifier_end(s, i as int),
        decreases n - i,
    {
        i += 1;
    }
    let text = code.substring_char(start, i).to_owned();
    (keyword_token(text), i)
}

/// Scans a numeric literal whose first digit stands at `start`; returns the
/// token and the position just past the digit run.  A value beyond
/// `i32::MAX` yields the unrecognized-input marker.
fn scan_number(code: &str, start: usize, n: usize) -> (r: (Token, usize))
    requires
        n == code@.len(),
        start < n,
        is_digit_char(code@[start as int]),
    ensures
        r.1 == number_end(code@, start + 1),
        start < r.1 <= n,
        r.0@ == (if digits_value(code@.subrange(start as int, r.1 as int)) <= i32::MAX as int {
            SpecToken::Number(digits_value(code@.subrange(start as int, r.1 as int)))
        } else {
            SpecToken::Unknown
        }),
{
    let ghost s = code@;
    let first = code.get_char(start);
    let mut val: u64 = (first as u32 - 48) as u64;
    let mut overflowed: bool = false;
    let mut i: usize = start + 1;
    proof {
        reveal_with_fuel(digits_value, 2);
        assert(s.subrange(start as int, start + 1).drop_last() =~= Seq::<char>::empty());
        assert(s.subrange(start as int, start + 1).last() == s[start as int]);
        assert(digits_value(s.subrange(start as int, start + 1)) == digit_value(s[start as int]));
        assert('0' <= first && first <= '9');
        assert(48 <= first as u32 && first as u32 <= 57);
    }
    while i < n && is_digit(code.get_char(i))
        invariant
            start + 1 <= i <= n,
            n == s.len(),
            s == code@,
            is_digit_char(s[start as int]),
            number_end(s, start + 1) == number_end(s, i as int),
            forall|k: int| start <= k < i ==> is_digit_char(#[trigger] s[k]),
            !overflowed ==> val == digits_value(s.subrange(start as int, i as int)) && val
                <= i32::MAX as u64,
            overflowed ==> digits_value(s.subrange(start as int, i as int)) > i32::MAX as int,
        decreases n - i,
    {
        let c = code.get_char(i);
        let d = (c as u32 - 48) as u64;
        let ghost prefix = s.subrange(start as int, i as int);
        let ghost extended = s.subrange(start as int, i + 1);
        proof {
            assert(extended.drop_last() =~= prefix);
            assert(extended.last() == s[i as int]);
            lemma_digits_value_nonneg(prefix);
        }
        if !overflowed {
            let next = val * 10 + d;
            if next > i32::MAX as u64 {
                overflowed = true;
            } else {
                val = next;
            }
            proof {
                if overflowed {
                    assert(digits_value(extended) == val * 10 + d);
                }
            }
        }
        i += 1;
    }
    let token = if overflowed {
        Token::Unknown
    } else {
        Token::Number(val as i32)
    };
    (token, i)
}

/// Scans a string literal whose opening quote stands at `open`; returns the
/// token and the position just past the closing quote (or the end of the
/// input when the literal is unterminated).
fn scan_string(code: &str, open: usize, n: usize) -> (r: (Token, usize))
    requires
        n == code@.len(),
        open < n,
    ensures
        r.0@ == SpecToken::StringLiteral(
            code@.subrange(open + 1, string_end(code@, open + 1)),
        ),
        r.1 == (if string_end(code@, open + 1) < n {
            string_end(code@, open + 1) + 1
        } else {
            n as int
        }),
        open < r.1 <= n,
{
    let ghost s = code@;
    let mut j: usize = open + 1;
    while j < n && code.get_char(j) != '"'
        invariant
            open + 1 <= j <= n,
            n == s.len(),
            s == code@,
            string_end(s, open + 1) == string_end(s, j as int),
        decreases n - j,
    {
        j += 1;
    }
    let text = code.substring_char(open + 1, j).to_owned();
    let next = if j < n {
        j + 1
    } else {
        n
    };
    (Token::StringLiteral(text), next)
}

/// Converts raw source text into its token sequence.  Total: unrecognized
/// characters become [`Token::Unknown`], an unterminated string captures the
/// remainder of the source, and the result always ends with
/// [`Token::EndOfFile`].
pub fn tokenize(code: &str) -> (tokens: Vec<Token>)
    ensures
        tokens@.map_values(|t: Token| t@) == scan_from(code@, 0),
{
    let ghost s = code@;
    let n = code.unicode_len();
    let mut tokens: Vec<Token> = Vec::new();
    let mut i: usize = 0;
    while i < n
        invariant
            i <= n,
            n == s.len(),
            s == code@,
            tokens@.map_values(|t: Token| t@) + scan_from(s, i as int) =~= scan_from(s, 0),
        decreases n - i,
    {
        let ghost pre = tokens@.map_values(|t: Token| t@);
        let ghost old_i = i as int;
        let c = code.get_char(i);
        if c == ' ' || c == '\t' || c == '\n' || c == '\r' {
            i += 1;
        } else if c == '=' {
            if i + 1 < n && code.get_char(i + 1) == '=' {
                tokens.push(Token::EqualEqual);
                i += 2;
            } else {
                tokens.push(Token::Equal);
                i += 1;
            }
        } else if c == '!' {
            if i + 1 < n && code.get_char(i + 1) == '=' {
                tokens.push(Token::NotEqual);
                i += 2;
            } else {
                tokens.push(Token::Unknown);
                i += 1;
            }
        } else if c == '+' {
            tokens.push(Token::Plus);
            i += 1;
        } else if c == '-' {
            tokens.push(Token::Minus);
            i += 1;
        } else if c == '*' {
            tokens.push(Token::Asterisk);
            i += 1;
        } else if c == '/' {
            tokens.push(Token::Slash);
            i += 1;
        } else if c == '%' {
            tokens.push(Token::Modulo);
            i += 1;
        } else if c == '(' {
            tokens.push(Token::LeftParenthesis);
            i += 1;
        } else if c == ')' {
            tokens.push(Token::RightParenthesis);
            i += 1;
        } else if c == '{' {
            tokens.push(Token::LeftBrace);
            i += 1;
        } else if c == '}' {
            tokens.push(Token::RightBrace);
            i += 1;
        } else if c == '[' {
            tokens.push(Token::LeftBracket);
            i += 1;
        } else if c == ']' {
            tokens.push(Token::RightBracket);
            i += 1;
        } else if c == '<' {
            tokens.push(Token::LessThan);
            i += 1;
        } else if c == '>' {
            tokens.push(Token::GreaterThan);
            i += 1;
        } else if c == ',' {
            tokens.push(Token::Comma);
            i += 1;
        } else if c == ';' {
            tokens.push(Token::SemiColon);
            i += 1;
        } else if c == '"' {
            let (t, ni) = scan_string(code, i, n);
            tokens.push(t);
            i = ni;
        } else if is_letter(c) {
            let (t, ni) = scan_identifier(code, i, n);
            tokens.push(t);
            i = ni;
        } else if is_digit(c) {
            let (t, ni) = scan_number(code, i, n);
            tokens.push(t);
            i = ni;
        } else {
            tokens.push(Token::Unknown);
            i += 1;
        }
        proof {
            assert(tokens@.map_values(|t: Token| t@) + scan_from(s, i as int) =~= pre
                + scan_from(s, old_i));
        }
    }
    tokens.push(Token::EndOfFile);
    proof {
        assert(tokens@.map_values(|t: Token| t@) =~= scan_from(s, 0));
    }
    tokens
}

} // verus!
