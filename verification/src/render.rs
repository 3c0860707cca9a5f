//! Rendering token sequences back into source text, and the scanning
//! inversion law: lexing the rendering of any well-formed token sequence
//! yields exactly those tokens again.  Together with the parsing round-trip
//! this closes the loop from a parsed tree through its printed text back to
//! the same tree.

use crate::ast::SpecNode;
use crate::ast::SpecToken;
use crate::parser::SpecParseError;
use crate::parser::spec_parse;
use crate::tokenizer::digit_value;
use crate::tokenizer::digits_value;
use crate::tokenizer::identifier_end;
use crate::tokenizer::is_digit_char;
use crate::tokenizer::is_identifier_char;
use crate::tokenizer::is_letter_char;
use crate::tokenizer::keyword_or_identifier;
use crate::tokenizer::number_end;
use crate::tokenizer::scan_from;
use crate::tokenizer::string_end;
use crate::exec::decimal_digits;
use crate::exec::digit_char;
use crate::unparse::unparse_program;
use crate::unparse::unparse_stmts;
use crate::unparse::wf_program;
use vstd::prelude::*;

verus! {

/// The source text of one token.  The end-of-input and unrecognized-input
/// markers have no text; see [`renderable_token`].
pub open spec fn token_text(t: SpecToken) -> Seq<char> {
    match t {
        SpecToken::Let => "let"@,
        SpecToken::Print => "print"@,
        SpecToken::If => "if"@,
        SpecToken::Else => "else"@,
        SpecToken::Equal => seq!['='],
        SpecToken::EqualEqual => seq!['=', '='],
        SpecToken::NotEqual => seq!['!', '='],
        SpecToken::Plus => seq!['+'],
        SpecToken::Minus => seq!['-'],
        SpecToken::Asterisk => seq!['*'],
        SpecToken::Slash => seq!['/'],
        SpecToken::Modulo => seq!['%'],
        SpecToken::LessThan => seq!['<'],
        SpecToken::GreaterThan => seq!['>'],
        SpecToken::LeftParenthesis => seq!['('],
        SpecToken::RightParenthesis => seq![')'],
        SpecToken::LeftBrace => seq!['{'],
        SpecToken::RightBrace => seq!['}'],
        SpecToken::LeftBracket => seq!['['],
        SpecToken::RightBracket => seq![']'],
        SpecToken::Comma => seq![','],
        SpecToken::SemiColon => seq![';'],
        SpecToken::Identifier(x) => x,
        SpecToken::Number(v) => decimal_digits(v),
        SpecToken::StringLiteral(s) => seq!['"'] + s + seq!['"'],
        SpecToken::EndOfFile => Seq::empty(),
        SpecToken::Unknown => Seq::empty(),
    }
}

/// A token whose rendering scans back to itself: its payload is one the
/// lexer itself could have produced.
pub open spec fn renderable_token(t: SpecToken) -> bool {
    match t {
        SpecToken::Identifier(x) => x.len() >= 1 && is_letter_char(x[0]) && (forall|i: int|
            0 <= i < x.len() ==> is_identifier_char(#[trigger] x[i])) && x != "let"@ && x
            != "print"@ && x != "if"@ && x != "else"@,
        SpecToken::Number(v) => 0 <= v <= i32::MAX as int,
        SpecToken::StringLiteral(s) => forall|i: int| 0 <= i < s.len() ==> #[trigger] s[i] != '"',
        SpecToken::EndOfFile => false,
        SpecToken::Unknown => false,
        _ => true,
    }
}

/// A token sequence as source text, one space after each token.
pub open spec fn render_tokens(ts: Seq<SpecToken>) -> Seq<char>
    decreases ts,
{
    if ts.len() == 0 {
        Seq::empty()
    } else {
        token_text(ts[0]) + seq![' '] + render_tokens(ts.subrange(1, ts.len() as int))
    }
}

/// A run of identifier characters ends exactly at its first non-member.
proof fn lemma_identifier_run(s: Seq<char>, p: int, q: int)
    requires
        0 <= p <= q <= s.len(),
        forall|i: int| p <= i < q ==> is_identifier_char(#[trigger] s[i]),
        q == s.len() || !is_identifier_char(s[q]),
    ensures
        identifier_end(s, p) == q,
    decreases q - p,
{
    if p < q {
        lemma_identifier_run(s, p + 1, q);
    }
}

/// A run of digits ends exactly at its first non-digit.
proof fn lemma_number_run(s: Seq<char>, p: int, q: int)
    requires
        0 <= p <= q <= s.len(),
        forall|i: int| p <= i < q ==> is_digit_char(#[trigger] s[i]),
        q == s.len() || !is_digit_char(s[q]),
    ensures
        number_end(s, p) == q,
    decreases q - p,
{
    if p < q {
        lemma_number_run(s, p + 1, q);
    }
}

/// The first quote after a quote-free stretch stands exactly where it is.
proof fn lemma_string_run(s: Seq<char>, p: int, q: int)
    requires
        0 <= p <= q < s.len(),
        forall|i: int| p <= i < q ==> #[trigger] s[i] != '"',
        s[q] == '"',
    ensures
        string_end(s, p) == q,
    decreases q - p,
{
    if p < q {
        lemma_string_run(s, p + 1, q);
    }
}

/// The decimal rendering of `v >= 0` is all digits and reads back as `v`.
proof fn lemma_decimal_digits_scan(v: int)
    requires
        v >= 0,
    ensures
        decimal_digits(v).len() >= 1,
        forall|i: int|
            0 <= i < decimal_digits(v).len() ==> is_digit_char(#[trigger] decimal_digits(v)[i]),
        digits_value(decimal_digits(v)) == v,
    decreases v,
{
    reveal_with_fuel(digits_value, 2);
    let d = v % 10;
    assert(0 <= d < 10);
    assert(is_digit_char(digit_char(d)) && digit_value(digit_char(d)) == d);
    if v < 10 {
        assert(decimal_digits(v) =~= seq![digit_char(v)]);
        assert(decimal_digits(v).drop_last() =~= Seq::<char>::empty());
        assert(decimal_digits(v).last() == digit_char(v));
    } else {
        lemma_decimal_digits_scan(v / 10);
        assert(decimal_digits(v) == decimal_digits(v / 10) + seq![digit_char(d)]);
        assert(decimal_digits(v).drop_last() =~= decimal_digits(v / 10));
        assert(decimal_digits(v).last() == digit_char(d));
    }
}

/// Scanning at a rendered token, with a space right after it, produces
/// that token and continues after its text.
proof fn lemma_scan_one_token(t: SpecToken, s: Seq<char>, p: int)
    requires
        renderable_token(t),
        0 <= p,
        p + token_text(t).len() < s.len(),
        s.subrange(p, p + token_text(t).len() as int) == token_text(t),
        s[p + token_text(t).len()] == ' ',
    ensures
        scan_from(s, p) == seq![t] + scan_from(s, p + token_text(t).len() as int),
    decreases s.len() - p,
{
    let u = token_text(t);
    let n = u.len() as int;
    assert forall|i: int| p <= i < p + n implies #[trigger] s[i] == u[i - p] by {
        assert(s.subrange(p, p + n)[i - p] == s[i]);
    }
    reveal_strlit("let");
    reveal_strlit("print");
    reveal_strlit("if");
    reveal_strlit("else");
    match t {
        SpecToken::Let => {
            assert(s[p] == 'l' && s[p + 1] == 'e' && s[p + 2] == 't');
            lemma_identifier_run(s, p + 1, p + 3);
            assert(s.subrange(p, p + 3) =~= "let"@);
        },
        SpecToken::Print => {
            assert(s[p] == 'p' && s[p + 1] == 'r' && s[p + 2] == 'i' && s[p + 3] == 'n' && s[p + 4]
                == 't');
            lemma_identifier_run(s, p + 1, p + 5);
            assert(s.subrange(p, p + 5) =~= "print"@);
        },
        SpecToken::If => {
            assert(s[p] == 'i' && s[p + 1] == 'f');
            lemma_identifier_run(s, p + 1, p + 2);
            assert(s.subrange(p, p + 2) =~= "if"@);
        },
        SpecToken::Else => {
            assert(s[p] == 'e' && s[p + 1] == 'l' && s[p + 2] == 's' && s[p + 3] == 'e');
            lemma_identifier_run(s, p + 1, p + 4);
            assert(s.subrange(p, p + 4) =~= "else"@);
        },
        SpecToken::Identifier(x) => {
            assert(s[p] == x[0]);
            assert forall|i: int| p + 1 <= i < p + n implies is_identifier_char(
                #[trigger] s[i],
            ) by {
                assert(s[i] == u[i - p]);
                assert(is_identifier_char(x[i - p]));
            }
            lemma_identifier_run(s, p + 1, p + n);
            assert(s.subrange(p, p + n) =~= x);
            assert(keyword_or_identifier(x) == SpecToken::Identifier(x));
        },
        SpecToken::Number(v) => {
            lemma_decimal_digits_scan(v);
            assert(s[p] == u[0]);
            assert forall|i: int| p + 1 <= i < p + n implies is_digit_char(#[trigger] s[i]) by {
                assert(s[i] == u[i - p]);
                assert(is_digit_char(decimal_digits(v)[i - p]));
            }
            lemma_number_run(s, p + 1, p + n);
            assert(s.subrange(p, p + n) =~= decimal_digits(v));
        },
        SpecToken::StringLiteral(content) => {
            assert(s[p] == '"');
            assert(s[p + n - 1] == '"');
            assert forall|i: int| p + 1 <= i < p + n - 1 implies #[trigger] s[i] != '"' by {
                assert(s[i] == u[i - p]);
                assert(u[i - p] == content[i - p - 1]);
            }
            lemma_string_run(s, p + 1, p + n - 1);
            assert(s.subrange(p + 1, p + n - 1) =~= content);
        },
        SpecToken::Equal => {
            assert(s[p] == '=' && s[p + 1] == ' ');
        },
        _ => {},
    }
}

/// Scanning the rendering of well-formed tokens yields those tokens, with
/// the terminating end-of-input marker appended.
pub proof fn lemma_scan_render(ts: Seq<SpecToken>, s: Seq<char>, p: int)
    requires
        0 <= p <= s.len(),
        forall|i: int| 0 <= i < ts.len() ==> renderable_token(#[trigger] ts[i]),
        s.len() - p == render_tokens(ts).len(),
        s.subrange(p, s.len() as int) == render_tokens(ts),
    ensures
        scan_from(s, p) == ts + seq![SpecToken::EndOfFile],
    decreases ts.len(),
{
    if ts.len() == 0 {
        assert(ts + seq![SpecToken::EndOfFile] =~= seq![SpecToken::EndOfFile]);
    } else {
        let t0 = ts[0];
        let rest = ts.subrange(1, ts.len() as int);
        let u0 = token_text(t0);
        let n0 = u0.len() as int;
        let r = render_tokens(ts);
        let nr = r.len() as int;
        assert forall|i: int| p <= i < p + nr implies #[trigger] s[i] == r[i - p] by {
            assert(s.subrange(p, s.len() as int)[i - p] == s[i]);
        }
        assert(r == u0 + seq![' '] + render_tokens(rest));
        assert(s.subrange(p, p + n0) =~= u0) by {
            assert forall|i: int| 0 <= i < n0 implies s.subrange(p, p + n0)[i] == u0[i] by {
                assert(s.subrange(p, p + n0)[i] == s[p + i]);
                assert(r[i] == u0[i]);
            }
        }
        assert(s[p + n0] == ' ') by {
            assert(r[n0] == ' ');
        }
        assert(p + n0 < s.len());
        lemma_scan_one_token(t0, s, p);
        assert(s.subrange(p + n0 + 1, s.len() as int) =~= render_tokens(rest)) by {
            assert forall|i: int|
                0 <= i < s.len() - (p + n0 + 1) implies s.subrange(p + n0 + 1, s.len() as int)[i]
                == render_tokens(rest)[i] by {
                assert(s.subrange(p + n0 + 1, s.len() as int)[i] == s[p + n0 + 1 + i]);
                assert(s[p + (n0 + 1 + i)] == r[n0 + 1 + i]);
                assert(r[n0 + 1 + i] == render_tokens(rest)[i]);
            }
        }
        assert forall|i: int| 0 <= i < rest.len() implies renderable_token(#[trigger] rest[i]) by {
            assert(rest[i] == ts[i + 1]);
        }
        lemma_scan_render(rest, s, p + n0 + 1);
        assert(scan_from(s, p + n0) == scan_from(s, p + n0 + 1));
        assert(seq![t0] + (rest + seq![SpecToken::EndOfFile]) =~= ts + seq![
            SpecToken::EndOfFile,
        ]);
    }
}

/// The tokens of a re-serialized program.  The terminating end-of-input
/// marker is left off: the lexer appends it itself.
pub open spec fn program_tokens(p: SpecNode) -> Seq<SpecToken> {
    match p {
        SpecNode::Program(ss) => unparse_stmts(ss),
        _ => Seq::empty(),
    }
}

/// The full round trip through text: pretty-printing any well-formed tree
/// whose literal payloads the lexer could have produced, scanning the
/// text, and parsing the resulting tokens yields the very same tree.
pub proof fn lemma_text_roundtrip(program: SpecNode)
    requires
        wf_program(program),
        forall|i: int|
            0 <= i < program_tokens(program).len() ==> renderable_token(
                #[trigger] program_tokens(program)[i],
            ),
    ensures
        spec_parse(scan_from(render_tokens(program_tokens(program)), 0)) == Ok::<
            _,
            SpecParseError,
        >(program),
{
    let body = program_tokens(program);
    let text = render_tokens(body);
    lemma_scan_render(body, text, 0);
    assert(text.subrange(0, text.len() as int) =~= text);
    crate::unparse::lemma_unparse_parse_roundtrip(program);
    assert(body + seq![SpecToken::EndOfFile] == unparse_program(program));
}

} // verus!
