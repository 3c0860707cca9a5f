//! The data model shared by the lexer, the parser and the evaluator: the
//! token vocabulary and the syntax-tree node shapes, together with their
//! ghost views (`SpecToken`, `SpecNode`), over which every contract in the
//! crate is stated.

use vstd::prelude::*;

verus! {

/// One lexical unit.  Tokens are immutable values, produced once by the
/// lexer and consumed positionally by the parser; two tokens with the same
/// tag and payload are equal.
#[derive(Debug)]
pub enum Token {
    /// The keyword `let`.
    Let,
    /// The keyword `print`.
    Print,
    /// The keyword `if`.
    If,
    /// The keyword `else`.
    Else,
    /// A lone `=`: the assignment marker.
    Equal,
    /// The two-character sequence `==`: the equality operator.
    EqualEqual,
    /// The two-character sequence `!=`.
    NotEqual,
    Plus,
    Minus,
    Asterisk,
    Slash,
    Modulo,
    LessThan,
    GreaterThan,
    LeftParenthesis,
    RightParenthesis,
    LeftBrace,
    RightBrace,
    LeftBracket,
    RightBracket,
    Comma,
    SemiColon,
    /// An identifier and its text.
    Identifier(String),
    /// An integer literal; the lexer only produces non-negative values.
    Number(i32),
    /// A string literal's content, quotes stripped, no escape processing.
    StringLiteral(String),
    /// The terminating end-of-input marker.
    EndOfFile,
    /// An unrecognized character.
    Unknown,
}

/// The mathematical value of a [`Token`]: the same tags, with text as a
/// sequence of characters and the literal value as an unbounded integer.
pub enum SpecToken {
    Let,
    Print,
    If,
    Else,
    Equal,
    EqualEqual,
    NotEqual,
    Plus,
    Minus,
    Asterisk,
    Slash,
    Modulo,
    LessThan,
    GreaterThan,
    LeftParenthesis,
    RightParenthesis,
    LeftBrace,
    RightBrace,
    LeftBracket,
    RightBracket,
    Comma,
    SemiColon,
    Identifier(Seq<char>),
    Number(int),
    StringLiteral(Seq<char>),
    EndOfFile,
    Unknown,
}

impl View for Token {
    type V = SpecToken;

    open spec fn view(&self) -> SpecToken {
        match self {
            Token::Let => SpecToken::Let,
            Token::Print => SpecToken::Print,
            Token::If => SpecToken::If,
            Token::Else => SpecToken::Else,
            Token::Equal => SpecToken::Equal,
            Token::EqualEqual => SpecToken::EqualEqual,
            Token::NotEqual => SpecToken::NotEqual,
            Token::Plus => SpecToken::Plus,
            Token::Minus => SpecToken::Minus,
            Token::Asterisk => SpecToken::Asterisk,
            Token::Slash => SpecToken::Slash,
            Token::Modulo => SpecToken::Modulo,
            Token::LessThan => SpecToken::LessThan,
            Token::GreaterThan => SpecToken::GreaterThan,
            Token::LeftParenthesis => SpecToken::LeftParenthesis,
            Token::RightParenthesis => SpecToken::RightParenthesis,
            Token::LeftBrace => SpecToken::LeftBrace,
            Token::RightBrace => SpecToken::RightBrace,
            Token::LeftBracket => SpecToken::LeftBracket,
            Token::RightBracket => SpecToken::RightBracket,
            Token::Comma => SpecToken::Comma,
            Token::SemiColon => SpecToken::SemiColon,
            Token::Identifier(s) => SpecToken::Identifier(s@),
            Token::Number(n) => SpecToken::Number(*n as int),
            Token::StringLiteral(s) => SpecToken::StringLiteral(s@),
            Token::EndOfFile => SpecToken::EndOfFile,
            Token::Unknown => SpecToken::Unknown,
        }
    }
}

impl Clone for Token {
    fn clone(&self) -> (res: Token)
        ensures
            res@ == self@,
    {
        match self {
            Token::Let => Token::Let,
            Token::Print => Token::Print,
            Token::If => Token::If,
            Token::Else => Token::Else,
            Token::Equal => Token::Equal,
            Token::EqualEqual => Token::EqualEqual,
            Token::NotEqual => Token::NotEqual,
            Token::Plus => Token::Plus,
            Token::Minus => Token::Minus,
            Token::Asterisk => Token::Asterisk,
            Token::Slash => Token::Slash,
            Token::Modulo => Token::Modulo,
            Token::LessThan => Token::LessThan,
            Token::GreaterThan => Token::GreaterThan,
            Token::LeftParenthesis => Token::LeftParenthesis,
            Token::RightParenthesis => Token::RightParenthesis,
            Token::LeftBrace => Token::LeftBrace,
            Token::RightBrace => Token::RightBrace,
            Token::LeftBracket => Token::LeftBracket,
            Token::RightBracket => Token::RightBracket,
            Token::Comma => Token::Comma,
            Token::SemiColon => Token::SemiColon,
            Token::Identifier(s) => Token::Identifier(s.clone()),
            Token::Number(n) => Token::Number(*n),
            Token::StringLiteral(s) => Token::StringLiteral(s.clone()),
            Token::EndOfFile => Token::EndOfFile,
            Token::Unknown => Token::Unknown,
        }
    }
}

impl PartialEq for Token {
    fn eq(&self, other: &Token) -> bool {
        match (self, other) {
            (Token::Let, Token::Let) => true,
            (Token::Print, Token::Print) => true,
            (Token::If, Token::If) => true,
            (Token::Else, Token::Else) => true,
            (Token::Equal, Token::Equal) => true,
            (Token::EqualEqual, Token::EqualEqual) => true,
            (Token::NotEqual, Token::NotEqual) => true,
            (Token::Plus, Token::Plus) => true,
            (Token::Minus, Token::Minus) => true,
            (Token::Asterisk, Token::Asterisk) => true,
            (Token::Slash, Token::Slash) => true,
            (Token::Modulo, Token::Modulo) => true,
            (Token::LessThan, Token::LessThan) => true,
            (Token::GreaterThan, Token::GreaterThan) => true,
            (Token::LeftParenthesis, Token::LeftParenthesis) => true,
            (Token::RightParenthesis, Token::RightParenthesis) => true,
            (Token::LeftBrace, Token::LeftBrace) => true,
            (Token::RightBrace, Token::RightBrace) => true,
            (Token::LeftBracket, Token::LeftBracket) => true,
            (Token::RightBracket, Token::RightBracket) => true,
            (Token::Comma, Token::Comma) => true,
            (Token::SemiColon, Token::SemiColon) => true,
            (Token::Identifier(a), Token::Identifier(b)) => *a == *b,
            (Token::Number(a), Token::Number(b)) => *a == *b,
            (Token::StringLiteral(a), Token::StringLiteral(b)) => *a == *b,
            (Token::EndOfFile, Token::EndOfFile) => true,
            (Token::Unknown, Token::Unknown) => true,
            _ => false,
        }
    }
}

impl vstd::std_specs::cmp::PartialEqSpecImpl for Token {
    open spec fn obeys_eq_spec() -> bool {
        true
    }

    open spec fn eq_spec(&self, other: &Token) -> bool {
        self@ == other@
    }
}

/// One syntactic construct.  A parse produces exactly one `Program` node;
/// every other variant appears only below it.  Each node exclusively owns
/// its children.
#[derive(Debug)]
pub enum ASTNode {
    /// The root: the ordered statements of the whole program.
    Program(Vec<ASTNode>),
    /// `name = expression ;` — overwrites an existing binding.
    Assignment(String, Box<ASTNode>),
    /// `let name = expression ;` — introduces or overwrites a binding.
    Variable(String, Box<ASTNode>),
    /// `print expression ;`
    Print(Box<ASTNode>),
    /// A variable reference, resolved at evaluation time.
    Identifier(String),
    NumberLiteral(i32),
    StringLiteral(String),
    /// Left operand, operator token, right operand.
    BinaryOperation(Box<ASTNode>, Token, Box<ASTNode>),
    /// `if condition { then-statements }`
    If(Box<ASTNode>, Vec<ASTNode>),
    /// `if condition { then-statements } else { else-statements }`
    IfElse(Box<ASTNode>, Vec<ASTNode>, Vec<ASTNode>),
}

/// The mathematical value of an [`ASTNode`].
pub enum SpecNode {
    Program(Seq<SpecNode>),
    Assignment(Seq<char>, Box<SpecNode>),
    Variable(Seq<char>, Box<SpecNode>),
    Print(Box<SpecNode>),
    Identifier(Seq<char>),
    NumberLiteral(int),
    StringLiteral(Seq<char>),
    BinaryOperation(Box<SpecNode>, SpecToken, Box<SpecNode>),
    If(Box<SpecNode>, Seq<SpecNode>),
    IfElse(Box<SpecNode>, Seq<SpecNode>, Seq<SpecNode>),
}

/// The view of one node; mutually recursive with [`nodes_view`].
pub open spec fn node_view(n: ASTNode) -> SpecNode
    decreases n, 0int,
{
    match n {
        ASTNode::Program(stmts) => SpecNode::Program(nodes_view(stmts@)),
        ASTNode::Assignment(name, e) => SpecNode::Assignment(name@, Box::new(node_view(*e))),
        ASTNode::Variable(name, e) => SpecNode::Variable(name@, Box::new(node_view(*e))),
        ASTNode::Print(e) => SpecNode::Print(Box::new(node_view(*e))),
        ASTNode::Identifier(name) => SpecNode::Identifier(name@),
        ASTNode::NumberLiteral(v) => SpecNode::NumberLiteral(v as int),
        ASTNode::StringLiteral(s) => SpecNode::StringLiteral(s@),
        ASTNode::BinaryOperation(l, op, r) => SpecNode::BinaryOperation(
            Box::new(node_view(*l)),
            op@,
            Box::new(node_view(*r)),
        ),
        ASTNode::If(c, stmts) => SpecNode::If(Box::new(node_view(*c)), nodes_view(stmts@)),
        ASTNode::IfElse(c, stmts, estmts) => SpecNode::IfElse(
            Box::new(node_view(*c)),
            nodes_view(stmts@),
            nodes_view(estmts@),
        ),
    }
}

/// The views of a sequence of nodes, element by element.
pub open spec fn nodes_view(s: Seq<ASTNode>) -> Seq<SpecNode>
    decreases s, 1int,
{
    if s.len() == 0 {
        Seq::empty()
    } else {
        nodes_view(s.drop_last()).push(node_view(s.last()))
    }
}

impl View for ASTNode {
    type V = SpecNode;

    open spec fn view(&self) -> SpecNode {
        node_view(*self)
    }
}

/// `nodes_view` maps the view over the sequence: it keeps the length and
/// works index by index.
pub proof fn lemma_nodes_view(s: Seq<ASTNode>)
    ensures
        nodes_view(s).len() == s.len(),
        forall|i: int| 0 <= i < s.len() ==> nodes_view(s)[i] == node_view(#[trigger] s[i]),
    decreases s,
{
    if s.len() > 0 {
        lemma_nodes_view(s.drop_last());
        assert forall|i: int| 0 <= i < s.len() implies nodes_view(s)[i] == node_view(
            #[trigger] s[i],
        ) by {
            if i < s.len() - 1 {
                assert(s.drop_last()[i] == s[i]);
            } else {
                assert(s.last() == s[i]);
            }
        }
    }
}

} // verus!
