//! Recursive-descent parsing: a token sequence to a single tree rooted at a
//! `Program` node, with one token of lookahead and no backtracking.
//!
//! The grammar is written down once, as the `spec_parse_*` family of
//! specification functions over [`SpecToken`] sequences; the executable
//! parser is proved to return exactly what they describe, errors included.
//! Parsing is all-or-nothing: the first mismatch aborts the whole parse.
//!
//! Grammar:
//! ```text
//! program      := statement* end-of-input
//! statement    := declaration | print-stmt | if-stmt | assignment
//! declaration  := 'let' identifier '=' expression ';'
//! print-stmt   := 'print' expression ';'
//! assignment   := identifier '=' expression ';'
//! if-stmt      := 'if' expression '{' statement* '}' ['else' '{' statement* '}']
//! expression   := term (( '+' | '-' | '==' | '!=' | '*' | '/' | '%' | '<' | '>' ) term)*
//! term         := factor (( '==' | '!=' ) factor)*
//! factor       := number | string | identifier | '(' expression ')'
//! ```
//!
//! `expression` and `term` both recognize `==` and `!=`; the resulting
//! (surprising) associativity is part of the grammar and is preserved here.

use crate::ast::ASTNode;
use crate::ast::SpecNode;
use crate::ast::SpecToken;
use crate::ast::Token;
use crate::ast::nodes_view;
use vstd::prelude::*;

verus! {

/// A parse failure: every expected-token mismatch reports the token found
/// and its index; running past the final token is the distinct
/// end-of-input error.
#[derive(Debug)]
pub enum ParseError {
    /// No statement or factor production starts with this token.
    UnexpectedToken { found: Token, position: usize },
    /// A specific token was required by the production under way.
    ExpectedToken { expected: Token, found: Token, position: usize },
    /// An identifier was required.
    ExpectedIdentifier { found: Token, position: usize },
    /// The parser would have to advance past the final token.
    UnexpectedEndOfInput,
}

/// The mathematical value of a [`ParseError`].
pub enum SpecParseError {
    UnexpectedToken { found: SpecToken, position: int },
    ExpectedToken { expected: SpecToken, found: SpecToken, position: int },
    ExpectedIdentifier { found: SpecToken, position: int },
    UnexpectedEndOfInput,
}

impl View for ParseError {
    type V = SpecParseError;

    open spec fn view(&self) -> SpecParseError {
        match self {
            ParseError::UnexpectedToken { found, position } => (SpecParseError::UnexpectedToken {
                found: found@,
                position: *position as int,
            }),
            ParseError::ExpectedToken { expected, found, position } => (SpecParseError::ExpectedToken {
                expected: expected@,
                found: found@,
                position: *position as int,
            }),
            ParseError::ExpectedIdentifier { found, position } => (SpecParseError::ExpectedIdentifier {
                found: found@,
                position: *position as int,
            }),
            ParseError::UnexpectedEndOfInput => SpecParseError::UnexpectedEndOfInput,
        }
    }
}

/// The operators recognized at the `expression` level: one flat set with
/// equal precedence, applied left to right.
pub open spec fn is_expression_operator(t: SpecToken) -> bool {
    ||| t == SpecToken::Plus
    ||| t == SpecToken::Minus
    ||| t == SpecToken::EqualEqual
    ||| t == SpecToken::NotEqual
    ||| t == SpecToken::Asterisk
    ||| t == SpecToken::Slash
    ||| t == SpecToken::Modulo
    ||| t == SpecToken::LessThan
    ||| t == SpecToken::GreaterThan
}

/// The operators recognized again at the `term` level.
pub open spec fn is_term_operator(t: SpecToken) -> bool {
    t == SpecToken::EqualEqual || t == SpecToken::NotEqual
}

/// Moving one token ahead; refused on the final token.
pub open spec fn spec_advance(toks: Seq<SpecToken>, pos: int) -> Result<int, SpecParseError> {
    if pos < toks.len() - 1 {
        Ok(pos + 1)
    } else {
        Err(SpecParseError::UnexpectedEndOfInput)
    }
}

/// Demanding one specific token at `pos`.
pub open spec fn spec_expect(toks: Seq<SpecToken>, pos: int, expected: SpecToken) -> Result<
    int,
    SpecParseError,
> {
    if toks[pos] == expected {
        spec_advance(toks, pos)
    } else {
        Err(
            SpecParseError::ExpectedToken {
                expected: expected,
                found: toks[pos],
                position: pos,
            },
        )
    }
}

/// Demanding an identifier at `pos`; yields its text.
pub open spec fn spec_expect_identifier(toks: Seq<SpecToken>, pos: int) -> Result<
    (Seq<char>, int),
    SpecParseError,
> {
    match toks[pos] {
        SpecToken::Identifier(name) => match spec_advance(toks, pos) {
            Ok(p) => Ok((name, p)),
            Err(e) => Err(e),
        },
        _ => Err(SpecParseError::ExpectedIdentifier { found: toks[pos], position: pos }),
    }
}

/// factor := number | string | identifier | '(' expression ')'
pub open spec fn spec_parse_factor(toks: Seq<SpecToken>, pos: int) -> Result<
    (SpecNode, int),
    SpecParseError,
>
    decreases toks.len() - pos, 0int,
{
    match toks[pos] {
        SpecToken::Number(v) => match spec_advance(toks, pos) {
            Ok(p) => Ok((SpecNode::NumberLiteral(v), p)),
            Err(e) => Err(e),
        },
        SpecToken::StringLiteral(s) => match spec_advance(toks, pos) {
            Ok(p) => Ok((SpecNode::StringLiteral(s), p)),
            Err(e) => Err(e),
        },
        SpecToken::Identifier(name) => match spec_advance(toks, pos) {
            Ok(p) => Ok((SpecNode::Identifier(name), p)),
            Err(e) => Err(e),
        },
        SpecToken::LeftParenthesis => match spec_advance(toks, pos) {
            Ok(p1) => match spec_parse_expression(toks, p1) {
                Ok((e, p2)) => match spec_expect(toks, p2, SpecToken::RightParenthesis) {
                    Ok(p3) => Ok((e, p3)),
                    Err(err) => Err(err),
                },
                Err(err) => Err(err),
            },
            Err(e) => Err(e),
        },
        _ => Err(SpecParseError::UnexpectedToken { found: toks[pos], position: pos }),
    }
}

/// The operator loop of `term`, with `left` already parsed.  Every factor
/// consumes at least one token, so the position guards can never fail; they
/// only make the recursion well-founded.
pub open spec fn spec_parse_term_rest(toks: Seq<SpecToken>, pos: int, left: SpecNode) -> Result<
    (SpecNode, int),
    SpecParseError,
>
    decreases toks.len() - pos, 1int,
{
    if is_term_operator(toks[pos]) {
        let op = toks[pos];
        match spec_advance(toks, pos) {
            Ok(p1) => match spec_parse_factor(toks, p1) {
                Ok((right, p2)) => if pos < p2 <= toks.len() {
                    spec_parse_term_rest(
                        toks,
                        p2,
                        SpecNode::BinaryOperation(Box::new(left), op, Box::new(right)),
                    )
                } else {
                    Err(SpecParseError::UnexpectedEndOfInput)
                },
                Err(e) => Err(e),
            },
            Err(e) => Err(e),
        }
    } else {
        Ok((left, pos))
    }
}

/// term := factor (( '==' | '!=' ) factor)*
pub open spec fn spec_parse_term(toks: Seq<SpecToken>, pos: int) -> Result<
    (SpecNode, int),
    SpecParseError,
>
    decreases toks.len() - pos, 2int,
{
    match spec_parse_factor(toks, pos) {
        Ok((left, p1)) => if pos < p1 <= toks.len() {
            spec_parse_term_rest(toks, p1, left)
        } else {
            Err(SpecParseError::UnexpectedEndOfInput)
        },
        Err(e) => Err(e),
    }
}

/// The operator loop of `expression`, with `left` already parsed.
pub open spec fn spec_parse_expression_rest(
    toks: Seq<SpecToken>,
    pos: int,
    left: SpecNode,
) -> Result<(SpecNode, int), SpecParseError>
    decreases toks.len() - pos, 3int,
{
    if is_expression_operator(toks[pos]) {
        let op = toks[pos];
        match spec_advance(toks, pos) {
            Ok(p1) => match spec_parse_term(toks, p1) {
                Ok((right, p2)) => if pos < p2 <= toks.len() {
                    spec_parse_expression_rest(
                        toks,
                        p2,
                        SpecNode::BinaryOperation(Box::new(left), op, Box::new(right)),
                    )
                } else {
                    Err(SpecParseError::UnexpectedEndOfInput)
                },
                Err(e) => Err(e),
            },
            Err(e) => Err(e),
        }
    } else {
        Ok((left, pos))
    }
}

/// expression := term (operator term)*, one flat precedence level, applied
/// left to right.
pub open spec fn spec_parse_expression(toks: Seq<SpecToken>, pos: int) -> Result<
    (SpecNode, int),
    SpecParseError,
>
    decreases toks.len() - pos, 4int,
{
    match spec_parse_term(toks, pos) {
        Ok((left, p1)) => if pos < p1 <= toks.len() {
            spec_parse_expression_rest(toks, p1, left)
        } else {
            Err(SpecParseError::UnexpectedEndOfInput)
        },
        Err(e) => Err(e),
    }
}

/// declaration := 'let' identifier '=' expression ';'
pub open spec fn spec_parse_variable_declaration(toks: Seq<SpecToken>, pos: int) -> Result<
    (SpecNode, int),
    SpecParseError,
>
    decreases toks.len() - pos, 5int,
{
    match spec_expect(toks, pos, SpecToken::Let) {
        Ok(p1) => match spec_expect_identifier(toks, p1) {
            Ok((name, p2)) => match spec_expect(toks, p2, SpecToken::Equal) {
                Ok(p3) => match spec_parse_expression(toks, p3) {
                    Ok((value, p4)) => match spec_expect(toks, p4, SpecToken::SemiColon) {
                        Ok(p5) => Ok((SpecNode::Variable(name, Box::new(value)), p5)),
                        Err(e) => Err(e),
                    },
                    Err(e) => Err(e),
                },
                Err(e) => Err(e),
            },
            Err(e) => Err(e),
        },
        Err(e) => Err(e),
    }
}

/// print-stmt := 'print' expression ';'
pub open spec fn spec_parse_print_statement(toks: Seq<SpecToken>, pos: int) -> Result<
    (SpecNode, int),
    SpecParseError,
>
    decreases toks.len() - pos, 5int,
{
    match spec_expect(toks, pos, SpecToken::Print) {
        Ok(p1) => match spec_parse_expression(toks, p1) {
            Ok((e, p2)) => match spec_expect(toks, p2, SpecToken::SemiColon) {
                Ok(p3) => Ok((SpecNode::Print(Box::new(e)), p3)),
                Err(err) => Err(err),
            },
            Err(err) => Err(err),
        },
        Err(e) => Err(e),
    }
}

/// assignment := identifier '=' expression ';'
pub open spec fn spec_parse_assignment(toks: Seq<SpecToken>, pos: int) -> Result<
    (SpecNode, int),
    SpecParseError,
>
    decreases toks.len() - pos, 5int,
{
    match spec_expect_identifier(toks, pos) {
        Ok((name, p1)) => match spec_expect(toks, p1, SpecToken::Equal) {
            Ok(p2) => match spec_parse_expression(toks, p2) {
                Ok((value, p3)) => match spec_expect(toks, p3, SpecToken::SemiColon) {
                    Ok(p4) => Ok((SpecNode::Assignment(name, Box::new(value)), p4)),
                    Err(e) => Err(e),
                },
                Err(e) => Err(e),
            },
            Err(e) => Err(e),
        },
        Err(e) => Err(e),
    }
}

/// if-stmt := 'if' expression '{' statement* '}' ['else' '{' statement* '}']
pub open spec fn spec_parse_if_statement(toks: Seq<SpecToken>, pos: int) -> Result<
    (SpecNode, int),
    SpecParseError,
>
    decreases toks.len() - pos, 6int,
{
    match spec_expect(toks, pos, SpecToken::If) {
        Ok(p1) => match spec_parse_expression(toks, p1) {
            Ok((cond, p2)) => match spec_expect(toks, p2, SpecToken::LeftBrace) {
                Ok(p3) => if pos < p3 <= toks.len() {
                    match spec_parse_block(toks, p3) {
                        Ok((stmts, p4)) => match spec_expect(toks, p4, SpecToken::RightBrace) {
                            Ok(p5) => if toks[p5] == SpecToken::Else {
                                match spec_advance(toks, p5) {
                                    Ok(p6) => match spec_expect(toks, p6, SpecToken::LeftBrace) {
                                        Ok(p7) => if pos < p7 <= toks.len() {
                                            match spec_parse_block(toks, p7) {
                                                Ok((estmts, p8)) => match spec_expect(
                                                    toks,
                                                    p8,
                                                    SpecToken::RightBrace,
                                                ) {
                                                    Ok(p9) => Ok(
                                                        (
                                                            SpecNode::IfElse(
                                                                Box::new(cond),
                                                                stmts,
                                                                estmts,
                                                            ),
                                                            p9,
                                                        ),
                                                    ),
                                                    Err(e) => Err(e),
                                                },
                                                Err(e) => Err(e),
                                            }
                                        } else {
                                            Err(SpecParseError::UnexpectedEndOfInput)
                                        },
                                        Err(e) => Err(e),
                                    },
                                    Err(e) => Err(e),
                                }
                            } else {
                                Ok((SpecNode::If(Box::new(cond), stmts), p5))
                            },
                            Err(e) => Err(e),
                        },
                        Err(e) => Err(e),
                    }
                } else {
                    Err(SpecParseError::UnexpectedEndOfInput)
                },
                Err(e) => Err(e),
            },
            Err(e) => Err(e),
        },
        Err(e) => Err(e),
    }
}

/// The first token selects the statement production; any token that starts
/// no production is reported at once.
pub open spec fn spec_parse_statement(toks: Seq<SpecToken>, pos: int) -> Result<
    (SpecNode, int),
    SpecParseError,
>
    decreases toks.len() - pos, 7int,
{
    match toks[pos] {
        SpecToken::Let => spec_parse_variable_declaration(toks, pos),
        SpecToken::Print => spec_parse_print_statement(toks, pos),
        SpecToken::Identifier(_) => spec_parse_assignment(toks, pos),
        SpecToken::If => spec_parse_if_statement(toks, pos),
        _ => Err(SpecParseError::UnexpectedToken { found: toks[pos], position: pos }),
    }
}

/// Statements of a braced block, up to (not including) the closing brace.
/// An unterminated block runs into the end-of-input token, which starts no
/// statement and so reports a terminal error.
pub open spec fn spec_parse_block(toks: Seq<SpecToken>, pos: int) -> Result<
    (Seq<SpecNode>, int),
    SpecParseError,
>
    decreases toks.len() - pos, 8int,
{
    if toks[pos] == SpecToken::RightBrace {
        Ok((Seq::empty(), pos))
    } else {
        match spec_parse_statement(toks, pos) {
            Ok((st, p1)) => if pos < p1 <= toks.len() {
                match spec_parse_block(toks, p1) {
                    Ok((rest, p2)) => Ok((seq![st] + rest, p2)),
                    Err(e) => Err(e),
                }
            } else {
                Err(SpecParseError::UnexpectedEndOfInput)
            },
            Err(e) => Err(e),
        }
    }
}

/// program := statement* end-of-input
pub open spec fn spec_parse_program(toks: Seq<SpecToken>, pos: int) -> Result<
    (Seq<SpecNode>, int),
    SpecParseError,
>
    decreases toks.len() - pos, 8int,
{
    if toks[pos] == SpecToken::EndOfFile {
        Ok((Seq::empty(), pos))
    } else {
        match spec_parse_statement(toks, pos) {
            Ok((st, p1)) => if pos < p1 <= toks.len() {
                match spec_parse_program(toks, p1) {
                    Ok((rest, p2)) => Ok((seq![st] + rest, p2)),
                    Err(e) => Err(e),
                }
            } else {
                Err(SpecParseError::UnexpectedEndOfInput)
            },
            Err(e) => Err(e),
        }
    }
}

/// What `parse` returns on a token sequence: the whole program, or the
/// first error.
pub open spec fn spec_parse(toks: Seq<SpecToken>) -> Result<SpecNode, SpecParseError> {
    match spec_parse_program(toks, 0) {
        Ok((stmts, _)) => Ok(SpecNode::Program(stmts)),
        Err(e) => Err(e),
    }
}

/// The views of a token sequence, element by element.
pub open spec fn token_views(tokens: Seq<Token>) -> Seq<SpecToken> {
    tokens.map_values(|t: Token| t@)
}

/// The executable result and final position agree with a specification
/// parsing step that yields a position.
pub open spec fn unit_result_matches(
    r: Result<(), ParseError>,
    pos: int,
    sr: Result<int, SpecParseError>,
) -> bool {
    match r {
        Ok(_) => match sr {
            Ok(p) => pos == p,
            Err(_) => false,
        },
        Err(e) => match sr {
            Ok(_) => false,
            Err(se) => e@ == se,
        },
    }
}

/// The executable result and final position agree with a specification
/// parsing step that yields a node.
pub open spec fn node_result_matches(
    r: Result<ASTNode, ParseError>,
    pos: int,
    sr: Result<(SpecNode, int), SpecParseError>,
) -> bool {
    match r {
        Ok(n) => match sr {
            Ok((sn, p)) => n@ == sn && pos == p,
            Err(_) => false,
        },
        Err(e) => match sr {
            Ok(_) => false,
            Err(se) => e@ == se,
        },
    }
}

/// The executable result and final position agree with a specification
/// parsing step that yields an identifier's text.
pub open spec fn name_result_matches(
    r: Result<String, ParseError>,
    pos: int,
    sr: Result<(Seq<char>, int), SpecParseError>,
) -> bool {
    match r {
        Ok(name) => match sr {
            Ok((sname, p)) => name@ == sname && pos == p,
            Err(_) => false,
        },
        Err(e) => match sr {
            Ok(_) => false,
            Err(se) => e@ == se,
        },
    }
}

/// Parsing the statements of a block from `cur`, after the statements
/// `done` have already been consumed since `start`, completes the parse
/// that began at `start`.
pub open spec fn block_continues(
    toks: Seq<SpecToken>,
    start: int,
    done: Seq<SpecNode>,
    cur: int,
) -> bool {
    match spec_parse_block(toks, cur) {
        Ok((rest, p)) => spec_parse_block(toks, start) == Ok::<_, SpecParseError>(
            (done + rest, p),
        ),
        Err(e) => spec_parse_block(toks, start) == Err::<(Seq<SpecNode>, int), _>(e),
    }
}

/// As [`block_continues`], for the top-level statement list.
pub open spec fn program_continues(
    toks: Seq<SpecToken>,
    start: int,
    done: Seq<SpecNode>,
    cur: int,
) -> bool {
    match spec_parse_program(toks, cur) {
        Ok((rest, p)) => spec_parse_program(toks, start) == Ok::<_, SpecParseError>(
            (done + rest, p),
        ),
        Err(e) => spec_parse_program(toks, start) == Err::<(Seq<SpecNode>, int), _>(e),
    }
}

/// The recursive-descent parser: a token sequence and a cursor with one
/// token of lookahead.
struct Parser {
    tokens: Vec<Token>,
    current: usize,
}

impl Parser {
    /// The token views the parser works over.
    spec fn toks(&self) -> Seq<SpecToken> {
        token_views(self.tokens@)
    }

    /// The cursor as a mathematical position.
    spec fn pos(&self) -> int {
        self.current as int
    }

    /// The cursor always rests on a token; `next_token` refuses to move
    /// past the final one.
    spec fn wf(&self) -> bool {
        self.tokens@.len() > 0 && (self.current as int) < self.tokens@.len()
    }

    fn new(tokens: Vec<Token>) -> (p: Parser)
        ensures
            p.tokens@ == tokens@,
            p.current == 0,
    {
        Parser { tokens, current: 0 }
    }

    fn current_token(&self) -> (t: Token)
        requires
            self.wf(),
        ensures
            t@ == self.toks()[self.pos()],
    {
        self.tokens[self.current].clone()
    }

    fn next_token(&mut self) -> (r: Result<(), ParseError>)
        requires
            old(self).wf(),
        ensures
            final(self).wf(),
            final(self).toks() == old(self).toks(),
            unit_result_matches(r, final(self).pos(), spec_advance(old(self).toks(), old(self).pos())),
            r is Ok ==> final(self).pos() == old(self).pos() + 1,
            r is Err ==> final(self).pos() == old(self).pos(),
    {
        if self.current < self.tokens.len() - 1 {
            self.current += 1;
            Ok(())
        } else {
            Err(ParseError::UnexpectedEndOfInput)
        }
    }

    fn expect_token(&mut self, token: Token) -> (r: Result<(), ParseError>)
        requires
            old(self).wf(),
        ensures
            final(self).wf(),
            final(self).toks() == old(self).toks(),
            unit_result_matches(
                r,
                final(self).pos(),
                spec_expect(old(self).toks(), old(self).pos(), token@),
            ),
            r is Ok ==> final(self).pos() == old(self).pos() + 1,
    {
        if self.current_token() == token {
            match self.next_token() {
                Ok(_) => Ok(()),
                Err(e) => Err(e),
            }
        } else {
            Err(
                ParseError::ExpectedToken {
                    expected: token,
                    found: self.current_token(),
                    position: self.current,
                },
            )
        }
    }

    fn expect_identifier(&mut self) -> (r: Result<String, ParseError>)
        requires
            old(self).wf(),
        ensures
            final(self).wf(),
            final(self).toks() == old(self).toks(),
            name_result_matches(
                r,
                final(self).pos(),
                spec_expect_identifier(old(self).toks(), old(self).pos()),
            ),
            r is Ok ==> final(self).pos() == old(self).pos() + 1,
    {
        match self.current_token() {
            Token::Identifier(name) => match self.next_token() {
                Ok(_) => Ok(name),
                Err(e) => Err(e),
            },
            other => Err(
                ParseError::ExpectedIdentifier { found: other, position: self.current },
            ),
        }
    }

    /// Whether the token under the cursor is one of the `term`-level
    /// operators.
    fn current_is_term_operator(&self) -> (r: bool)
        requires
            self.wf(),
        ensures
            r == is_term_operator(self.toks()[self.pos()]),
    {
        let t = self.current_token();
        match t {
            Token::EqualEqual | Token::NotEqual => true,
            _ => false,
        }
    }

    /// Whether the token under the cursor is one of the `expression`-level
    /// operators.
    fn current_is_expression_operator(&self) -> (r: bool)
        requires
            self.wf(),
        ensures
            r == is_expression_operator(self.toks()[self.pos()]),
    {
        let t = self.current_token();
        match t {
            Token::Plus | Token::Minus | Token::EqualEqual | Token::NotEqual | Token::Asterisk
                | Token::Slash | Token::Modulo | Token::LessThan | Token::GreaterThan => true,
            _ => false,
        }
    }

    fn parse_factor(&mut self) -> (r: Result<ASTNode, ParseError>)
        requires
            old(self).wf(),
        ensures
            final(self).wf(),
            final(self).toks() == old(self).toks(),
            node_result_matches(
                r,
                final(self).pos(),
                spec_parse_factor(old(self).toks(), old(self).pos()),
            ),
            r is Ok ==> old(self).pos() < final(self).pos(),
        decreases old(self).tokens@.len() - old(self).current, 0int,
    {
        match self.current_token() {
            Token::Number(v) => match self.next_token() {
                Ok(_) => Ok(ASTNode::NumberLiteral(v)),
                Err(e) => Err(e),
            },
            Token::StringLiteral(s) => match self.next_token() {
                Ok(_) => Ok(ASTNode::StringLiteral(s)),
                Err(e) => Err(e),
            },
            Token::Identifier(name) => match self.next_token() {
                Ok(_) => Ok(ASTNode::Identifier(name)),
                Err(e) => Err(e),
            },
            Token::LeftParenthesis => {
                match self.next_token() {
                    Ok(_) => (),
                    Err(e) => {
                        return Err(e);
                    },
                }
                let inner = match self.parse_expression() {
                    Ok(n) => n,
                    Err(e) => {
                        return Err(e);
                    },
                };
                match self.expect_token(Token::RightParenthesis) {
                    Ok(_) => Ok(inner),
                    Err(e) => Err(e),
                }
            },
            other => Err(ParseError::UnexpectedToken { found: other, position: self.current }),
        }
    }

    #[verifier::loop_isolation(false)]
    fn parse_term(&mut self) -> (r: Result<ASTNode, ParseError>)
        requires
            old(self).wf(),
        ensures
            final(self).wf(),
            final(self).toks() == old(self).toks(),
            node_result_matches(r, final(self).pos(), spec_parse_term(old(self).toks(), old(self).pos())),
            r is Ok ==> old(self).pos() < final(self).pos(),
        decreases old(self).tokens@.len() - old(self).current, 2int,
    {
        let ghost toks = old(self).toks();
        let ghost pos0 = old(self).pos();
        let mut left = match self.parse_factor() {
            Ok(n) => n,
            Err(e) => {
                return Err(e);
            },
        };
        while self.current_is_term_operator()
            invariant
                self.wf(),
                self.toks() == toks,
                pos0 < self.pos() <= toks.len(),
                spec_parse_term(toks, pos0) == spec_parse_term_rest(toks, self.pos(), left@),
            decreases toks.len() - self.pos(),
        {
            let op = self.current_token();
            match self.next_token() {
                Ok(_) => (),
                Err(e) => {
                    return Err(e);
                },
            }
            let right = match self.parse_factor() {
                Ok(n) => n,
                Err(e) => {
                    return Err(e);
                },
            };
            left = ASTNode::BinaryOperation(Box::new(left), op, Box::new(right));
        }
        Ok(left)
    }

    #[verifier::loop_isolation(false)]
    fn parse_expression(&mut self) -> (r: Result<ASTNode, ParseError>)
        requires
            old(self).wf(),
        ensures
            final(self).wf(),
            final(self).toks() == old(self).toks(),
            node_result_matches(
                r,
                final(self).pos(),
                spec_parse_expression(old(self).toks(), old(self).pos()),
            ),
            r is Ok ==> old(self).pos() < final(self).pos(),
        decreases old(self).tokens@.len() - old(self).current, 4int,
    {
        let ghost toks = old(self).toks();
        let ghost pos0 = old(self).pos();
        let mut left = match self.parse_term() {
            Ok(n) => n,
            Err(e) => {
                return Err(e);
            },
        };
        while self.current_is_expression_operator()
            invariant
                self.wf(),
                self.toks() == toks,
                pos0 < self.pos() <= toks.len(),
                spec_parse_expression(toks, pos0) == spec_parse_expression_rest(
                    toks,
                    self.pos(),
                    left@,
                ),
            decreases toks.len() - self.pos(),
        {
            let op = self.current_token();
            match self.next_token() {
                Ok(_) => (),
                Err(e) => {
                    return Err(e);
                },
            }
            let right = match self.parse_term() {
                Ok(n) => n,
                Err(e) => {
                    return Err(e);
                },
            };
            left = ASTNode::BinaryOperation(Box::new(left), op, Box::new(right));
        }
        Ok(left)
    }

    fn parse_variable_declaration(&mut self) -> (r: Result<ASTNode, ParseError>)
        requires
            old(self).wf(),
        ensures
            final(self).wf(),
            final(self).toks() == old(self).toks(),
            node_result_matches(
                r,
                final(self).pos(),
                spec_parse_variable_declaration(old(self).toks(), old(self).pos()),
            ),
            r is Ok ==> old(self).pos() < final(self).pos(),
        decreases old(self).tokens@.len() - old(self).current, 5int,
    {
        match self.expect_token(Token::Let) {
            Ok(_) => (),
            Err(e) => {
                return Err(e);
            },
        }
        let name = match self.expect_identifier() {
            Ok(n) => n,
            Err(e) => {
                return Err(e);
            },
        };
        match self.expect_token(Token::Equal) {
            Ok(_) => (),
            Err(e) => {
                return Err(e);
            },
        }
        let value = match self.parse_expression() {
            Ok(n) => n,
            Err(e) => {
                return Err(e);
            },
        };
        match self.expect_token(Token::SemiColon) {
            Ok(_) => (),
            Err(e) => {
                return Err(e);
            },
        }
        Ok(ASTNode::Variable(name, Box::new(value)))
    }

    fn parse_print_statement(&mut self) -> (r: Result<ASTNode, ParseError>)
        requires
            old(self).wf(),
        ensures
            final(self).wf(),
            final(self).toks() == old(self).toks(),
            node_result_matches(
                r,
                final(self).pos(),
                spec_parse_print_statement(old(self).toks(), old(self).pos()),
            ),
            r is Ok ==> old(self).pos() < final(self).pos(),
        decreases old(self).tokens@.len() - old(self).current, 5int,
    {
        match self.expect_token(Token::Print) {
            Ok(_) => (),
            Err(e) => {
                return Err(e);
            },
        }
        let expression = match self.parse_expression() {
            Ok(n) => n,
            Err(e) => {
                return Err(e);
            },
        };
        match self.expect_token(Token::SemiColon) {
            Ok(_) => (),
            Err(e) => {
                return Err(e);
            },
        }
        Ok(ASTNode::Print(Box::new(expression)))
    }

    fn parse_assignment(&mut self) -> (r: Result<ASTNode, ParseError>)
        requires
            old(self).wf(),
        ensures
            final(self).wf(),
            final(self).toks() == old(self).toks(),
            node_result_matches(
                r,
                final(self).pos(),
                spec_parse_assignment(old(self).toks(), old(self).pos()),
            ),
            r is Ok ==> old(self).pos() < final(self).pos(),
        decreases old(self).tokens@.len() - old(self).current, 5int,
    {
        let name = match self.expect_identifier() {
            Ok(n) => n,
            Err(e) => {
                return Err(e);
            },
        };
        match self.expect_token(Token::Equal) {
            Ok(_) => (),
            Err(e) => {
                return Err(e);
            },
        }
        let expression = match self.parse_expression() {
            Ok(n) => n,
            Err(e) => {
                return Err(e);
            },
        };
        match self.expect_token(Token::SemiColon) {
            Ok(_) => (),
            Err(e) => {
                return Err(e);
            },
        }
        Ok(ASTNode::Assignment(name, Box::new(expression)))
    }

    #[verifier::rlimit(60)]
    #[verifier::loop_isolation(false)]
    fn parse_if_statement(&mut self) -> (r: Result<ASTNode, ParseError>)
        requires
            old(self).wf(),
        ensures
            final(self).wf(),
            final(self).toks() == old(self).toks(),
            node_result_matches(
                r,
                final(self).pos(),
                spec_parse_if_statement(old(self).toks(), old(self).pos()),
            ),
            r is Ok ==> old(self).pos() < final(self).pos(),
        decreases old(self).tokens@.len() - old(self).current, 6int,
    {
        let ghost toks = old(self).toks();
        let ghost pos0 = old(self).pos();
        match self.expect_token(Token::If) {
            Ok(_) => (),
            Err(e) => {
                return Err(e);
            },
        }
        let condition = match self.parse_expression() {
            Ok(n) => n,
            Err(e) => {
                return Err(e);
            },
        };
        match self.expect_token(Token::LeftBrace) {
            Ok(_) => (),
            Err(e) => {
                return Err(e);
            },
        }
        let ghost p3 = self.pos();
        let mut statements: Vec<ASTNode> = Vec::new();
        proof {
            assert(nodes_view(statements@) + Seq::<SpecNode>::empty() =~= nodes_view(
                statements@,
            ));
        }
        while self.current_token() != Token::RightBrace
            invariant
                self.wf(),
                self.toks() == toks,
                pos0 < p3 <= self.pos() <= toks.len(),
                block_continues(toks, p3, nodes_view(statements@), self.pos()),
            decreases toks.len() - self.pos(),
        {
            let ghost done = nodes_view(statements@);
            let ghost before = statements@;
            let st = match self.parse_statement() {
                Ok(s) => s,
                Err(e) => {
                    return Err(e);
                },
            };
            statements.push(st);
            proof {
                assert(statements@.drop_last() =~= before);
                assert(nodes_view(statements@) == done.push(st@));
                assert(forall|rest: Seq<SpecNode>|
                    done.push(st@) + rest =~= done + (#[trigger] (seq![st@] + rest)));
            }
        }
        match self.expect_token(Token::RightBrace) {
            Ok(_) => (),
            Err(e) => {
                return Err(e);
            },
        }
        if self.current_token() == Token::Else {
            match self.next_token() {
                Ok(_) => (),
                Err(e) => {
                    return Err(e);
                },
            }
            match self.expect_token(Token::LeftBrace) {
                Ok(_) => (),
                Err(e) => {
                    return Err(e);
                },
            }
            let ghost p7 = self.pos();
            let mut else_statements: Vec<ASTNode> = Vec::new();
            proof {
                assert(nodes_view(else_statements@) + Seq::<SpecNode>::empty() =~= nodes_view(
                    else_statements@,
                ));
            }
            while self.current_token() != Token::RightBrace
                invariant
                    self.wf(),
                    self.toks() == toks,
                    pos0 < p7 <= self.pos() <= toks.len(),
                    block_continues(toks, p7, nodes_view(else_statements@), self.pos()),
                decreases toks.len() - self.pos(),
            {
                let ghost done = nodes_view(else_statements@);
                let ghost before = else_statements@;
                let st = match self.parse_statement() {
                    Ok(s) => s,
                    Err(e) => {
                        return Err(e);
                    },
                };
                else_statements.push(st);
                proof {
                    assert(else_statements@.drop_last() =~= before);
                    assert(nodes_view(else_statements@) == done.push(st@));
                    assert(forall|rest: Seq<SpecNode>|
                        done.push(st@) + rest =~= done + (#[trigger] (seq![st@] + rest)));
                }
            }
            match self.expect_token(Token::RightBrace) {
                Ok(_) => (),
                Err(e) => {
                    return Err(e);
                },
            }
            Ok(ASTNode::IfElse(Box::new(condition), statements, else_statements))
        } else {
            Ok(ASTNode::If(Box::new(condition), statements))
        }
    }

    fn parse_statement(&mut self) -> (r: Result<ASTNode, ParseError>)
        requires
            old(self).wf(),
        ensures
            final(self).wf(),
            final(self).toks() == old(self).toks(),
            node_result_matches(
                r,
                final(self).pos(),
                spec_parse_statement(old(self).toks(), old(self).pos()),
            ),
            r is Ok ==> old(self).pos() < final(self).pos(),
        decreases old(self).tokens@.len() - old(self).current, 7int,
    {
        match self.current_token() {
            Token::Let => self.parse_variable_declaration(),
            Token::Print => self.parse_print_statement(),
            Token::Identifier(_) => self.parse_assignment(),
            Token::If => self.parse_if_statement(),
            other => Err(ParseError::UnexpectedToken { found: other, position: self.current }),
        }
    }

    #[verifier::loop_isolation(false)]
    fn parse(&mut self) -> (r: Result<ASTNode, ParseError>)
        requires
            old(self).wf(),
        ensures
            final(self).wf(),
            final(self).toks() == old(self).toks(),
            ({
                match spec_parse_program(old(self).toks(), old(self).pos()) {
                    Ok((stmts, p)) => match r {
                        Ok(n) => n@ == SpecNode::Program(stmts) && final(self).pos() == p,
                        Err(_) => false,
                    },
                    Err(se) => match r {
                        Ok(_) => false,
                        Err(e) => e@ == se,
                    },
                }
            }),
        decreases old(self).tokens@.len() - old(self).current, 8int,
    {
        let ghost toks = old(self).toks();
        let ghost pos0 = old(self).pos();
        let mut statements: Vec<ASTNode> = Vec::new();
        proof {
            assert(nodes_view(statements@) + Seq::<SpecNode>::empty() =~= nodes_view(
                statements@,
            ));
        }
        while self.current_token() != Token::EndOfFile
            invariant
                self.wf(),
                self.toks() == toks,
                pos0 <= self.pos() <= toks.len(),
                program_continues(toks, pos0, nodes_view(statements@), self.pos()),
            decreases toks.len() - self.pos(),
        {
            let ghost done = nodes_view(statements@);
            let ghost before = statements@;
            let st = match self.parse_statement() {
                Ok(s) => s,
                Err(e) => {
                    return Err(e);
                },
            };
            statements.push(st);
            proof {
                assert(statements@.drop_last() =~= before);
                assert(nodes_view(statements@) == done.push(st@));
                assert(forall|rest: Seq<SpecNode>|
                    done.push(st@) + rest =~= done + (#[trigger] (seq![st@] + rest)));
            }
        }
        Ok(ASTNode::Program(statements))
    }
}

/// Arithmetic parses left-to-right with equal precedence: for any two
/// operators of the `expression` level that are not also `term`-level
/// operators, `a op1 b op2 c` parses as `(a op1 b) op2 c`, whatever the
/// operators — no conventional operator precedence is applied.
pub proof fn lemma_expression_left_associative(a: int, op1: SpecToken, b: int, op2: SpecToken, c: int)
    requires
        is_expression_operator(op1),
        !is_term_operator(op1),
        is_expression_operator(op2),
        !is_term_operator(op2),
    ensures
        ({
            let toks = seq![
                SpecToken::Number(a),
                op1,
                SpecToken::Number(b),
                op2,
                SpecToken::Number(c),
                SpecToken::SemiColon,
            ];
            spec_parse_expression(toks, 0) == Ok::<_, SpecParseError>(
                (
                    SpecNode::BinaryOperation(
                        Box::new(
                            SpecNode::BinaryOperation(
                                Box::new(SpecNode::NumberLiteral(a)),
                                op1,
                                Box::new(SpecNode::NumberLiteral(b)),
                            ),
                        ),
                        op2,
                        Box::new(SpecNode::NumberLiteral(c)),
                    ),
                    5int,
                ),
            )
        }),
{
    let toks = seq![
        SpecToken::Number(a),
        op1,
        SpecToken::Number(b),
        op2,
        SpecToken::Number(c),
        SpecToken::SemiColon,
    ];
    assert(spec_parse_factor(toks, 0) == Ok::<_, SpecParseError>((SpecNode::NumberLiteral(a), 1int)));
    assert(spec_parse_factor(toks, 2) == Ok::<_, SpecParseError>((SpecNode::NumberLiteral(b), 3int)));
    assert(spec_parse_factor(toks, 4) == Ok::<_, SpecParseError>((SpecNode::NumberLiteral(c), 5int)));
    assert(spec_parse_term(toks, 0) == Ok::<_, SpecParseError>((SpecNode::NumberLiteral(a), 1int)));
    assert(spec_parse_term(toks, 2) == Ok::<_, SpecParseError>((SpecNode::NumberLiteral(b), 3int)));
    assert(spec_parse_term(toks, 4) == Ok::<_, SpecParseError>((SpecNode::NumberLiteral(c), 5int)));
    let left = SpecNode::BinaryOperation(
        Box::new(SpecNode::NumberLiteral(a)),
        op1,
        Box::new(SpecNode::NumberLiteral(b)),
    );
    let whole = SpecNode::BinaryOperation(Box::new(left), op2, Box::new(SpecNode::NumberLiteral(c)));
    assert(!is_expression_operator(toks[5]));
    assert(spec_parse_expression_rest(toks, 5, whole) == Ok::<_, SpecParseError>((whole, 5int)));
    assert(spec_parse_expression_rest(toks, 3, left) == Ok::<_, SpecParseError>((whole, 5int)));
    assert(spec_parse_expression_rest(toks, 1, SpecNode::NumberLiteral(a)) == Ok::<
        _,
        SpecParseError,
    >((whole, 5int)));
}

/// The grammar's (preserved) quirk: `==` and `!=` are recognized again at
/// the `term` level, so they bind tighter than the other operators.  For an
/// `expression`-level operator `op1` and a `term`-level operator `op2`,
/// `a op1 b op2 c` parses as `a op1 (b op2 c)`.
pub proof fn lemma_term_operators_bind_tighter(
    a: int,
    op1: SpecToken,
    b: int,
    op2: SpecToken,
    c: int,
)
    requires
        is_expression_operator(op1),
        !is_term_operator(op1),
        is_term_operator(op2),
    ensures
        ({
            let toks = seq![
                SpecToken::Number(a),
                op1,
                SpecToken::Number(b),
                op2,
                SpecToken::Number(c),
                SpecToken::SemiColon,
            ];
            spec_parse_expression(toks, 0) == Ok::<_, SpecParseError>(
                (
                    SpecNode::BinaryOperation(
                        Box::new(SpecNode::NumberLiteral(a)),
                        op1,
                        Box::new(
                            SpecNode::BinaryOperation(
                                Box::new(SpecNode::NumberLiteral(b)),
                                op2,
                                Box::new(SpecNode::NumberLiteral(c)),
                            ),
                        ),
                    ),
                    5int,
                ),
            )
        }),
{
    let toks = seq![
        SpecToken::Number(a),
        op1,
        SpecToken::Number(b),
        op2,
        SpecToken::Number(c),
        SpecToken::SemiColon,
    ];
    assert(spec_parse_factor(toks, 0) == Ok::<_, SpecParseError>((SpecNode::NumberLiteral(a), 1int)));
    assert(spec_parse_factor(toks, 2) == Ok::<_, SpecParseError>((SpecNode::NumberLiteral(b), 3int)));
    assert(spec_parse_factor(toks, 4) == Ok::<_, SpecParseError>((SpecNode::NumberLiteral(c), 5int)));
    assert(spec_parse_term(toks, 0) == Ok::<_, SpecParseError>((SpecNode::NumberLiteral(a), 1int)));
    let right = SpecNode::BinaryOperation(
        Box::new(SpecNode::NumberLiteral(b)),
        op2,
        Box::new(SpecNode::NumberLiteral(c)),
    );
    assert(spec_parse_term_rest(toks, 5, right) == Ok::<_, SpecParseError>((right, 5int)));
    assert(spec_parse_term_rest(toks, 3, SpecNode::NumberLiteral(b)) == Ok::<_, SpecParseError>(
        (right, 5int),
    ));
    assert(spec_parse_term(toks, 2) == Ok::<_, SpecParseError>((right, 5int)));
    let whole = SpecNode::BinaryOperation(Box::new(SpecNode::NumberLiteral(a)), op1, Box::new(right));
    assert(!is_expression_operator(toks[5]));
    assert(spec_parse_expression_rest(toks, 5, whole) == Ok::<_, SpecParseError>((whole, 5int)));
    assert(spec_parse_expression_rest(toks, 1, SpecNode::NumberLiteral(a)) == Ok::<
        _,
        SpecParseError,
    >((whole, 5int)));
}

/// Consumes the token sequence and produces the single tree rooted at the
/// program node, or the first error.  The result is exactly
/// [`spec_parse`] of the tokens' views.
pub fn parse(tokens: Vec<Token>) -> (r: Result<ASTNode, ParseError>)
    requires
        tokens@.len() > 0,
    ensures
        ({
            match spec_parse(token_views(tokens@)) {
                Ok(sn) => match r {
                    Ok(n) => n@ == sn,
                    Err(_) => false,
                },
                Err(se) => match r {
                    Ok(_) => false,
                    Err(e) => e@ == se,
                },
            }
        }),
{
    let mut parser = Parser::new(tokens);
    parser.parse()
}

} // verus!
