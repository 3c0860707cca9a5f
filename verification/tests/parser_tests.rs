use nlang::ASTNode;
use nlang::Token;
use nlang::parser::ParseError;
use nlang::parser::parse;
use nlang::tokenizer::tokenize;

/// Trees carry no `PartialEq`; their derived debug form is a faithful
/// rendering, so equality of debug forms is equality of trees.
fn assert_tree_eq(actual: &ASTNode, expected: &ASTNode) {
    assert_eq!(format!("{:?}", actual), format!("{:?}", expected));
}

fn parse_source(source: &str) -> Result<ASTNode, ParseError> {
    parse(tokenize(source))
}

fn number(v: i32) -> Box<ASTNode> {
    Box::new(ASTNode::NumberLiteral(v))
}

#[test]
fn empty_program_parses() {
    let tree = parse_source("").unwrap();
    assert_tree_eq(&tree, &ASTNode::Program(vec![]));
}

#[test]
fn declaration_parses() {
    let tree = parse_source("let x = 5;").unwrap();
    assert_tree_eq(
        &tree,
        &ASTNode::Program(vec![ASTNode::Variable("x".to_string(), number(5))]),
    );
}

#[test]
fn assignment_parses() {
    let tree = parse_source("x = 7;").unwrap();
    assert_tree_eq(
        &tree,
        &ASTNode::Program(vec![ASTNode::Assignment("x".to_string(), number(7))]),
    );
}

#[test]
fn print_statement_parses() {
    let tree = parse_source("print \"hi\";").unwrap();
    assert_tree_eq(
        &tree,
        &ASTNode::Program(vec![ASTNode::Print(Box::new(ASTNode::StringLiteral(
            "hi".to_string(),
        )))]),
    );
}

#[test]
fn operators_parse_left_to_right_with_equal_precedence() {
    // 1 + 2 * 3 parses as (1 + 2) * 3: no conventional precedence.
    let tree = parse_source("print 1 + 2 * 3;").unwrap();
    assert_tree_eq(
        &tree,
        &ASTNode::Program(vec![ASTNode::Print(Box::new(ASTNode::BinaryOperation(
            Box::new(ASTNode::BinaryOperation(number(1), Token::Plus, number(2))),
            Token::Asterisk,
            number(3),
        )))]),
    );
}

#[test]
fn equality_binds_tighter_at_the_term_level() {
    // 1 - 2 == 8 parses as 1 - (2 == 8): the term level re-applies == and !=.
    let tree = parse_source("print 1 - 2 == 8;").unwrap();
    assert_tree_eq(
        &tree,
        &ASTNode::Program(vec![ASTNode::Print(Box::new(ASTNode::BinaryOperation(
            number(1),
            Token::Minus,
            Box::new(ASTNode::BinaryOperation(number(2), Token::EqualEqual, number(8))),
        )))]),
    );
}

#[test]
fn parentheses_group_subexpressions() {
    let tree = parse_source("print 1 + (2 * 3);").unwrap();
    assert_tree_eq(
        &tree,
        &ASTNode::Program(vec![ASTNode::Print(Box::new(ASTNode::BinaryOperation(
            number(1),
            Token::Plus,
            Box::new(ASTNode::BinaryOperation(number(2), Token::Asterisk, number(3))),
        )))]),
    );
}

#[test]
fn if_without_else_parses() {
    let tree = parse_source("if 1 { print 2; }").unwrap();
    assert_tree_eq(
        &tree,
        &ASTNode::Program(vec![ASTNode::If(
            number(1),
            vec![ASTNode::Print(number(2))],
        )]),
    );
}

#[test]
fn if_with_else_parses() {
    let tree = parse_source("if 0 { print 1; } else { print 2; }").unwrap();
    assert_tree_eq(
        &tree,
        &ASTNode::Program(vec![ASTNode::IfElse(
            number(0),
            vec![ASTNode::Print(number(1))],
            vec![ASTNode::Print(number(2))],
        )]),
    );
}

#[test]
fn missing_semicolon_reports_expected_token() {
    match parse_source("let x = 5") {
        Err(ParseError::ExpectedToken { expected, found, position }) => {
            assert_eq!(expected, Token::SemiColon);
            assert_eq!(found, Token::EndOfFile);
            assert_eq!(position, 4);
        }
        other => panic!("unexpected result: {:?}", other),
    }
}

#[test]
fn running_past_the_final_token_is_end_of_input() {
    // A sequence without the terminating end-of-input marker runs out of
    // tokens the moment the final one is consumed.
    let tokens = vec![
        Token::Let,
        Token::Identifier("x".to_string()),
        Token::Equal,
        Token::Number(5),
    ];
    match parse(tokens) {
        Err(ParseError::UnexpectedEndOfInput) => (),
        other => panic!("unexpected result: {:?}", other),
    }
}

#[test]
fn missing_identifier_reports_expected_identifier() {
    match parse_source("let = 5;") {
        Err(ParseError::ExpectedIdentifier { found, position }) => {
            assert_eq!(found, Token::Equal);
            assert_eq!(position, 1);
        }
        other => panic!("unexpected result: {:?}", other),
    }
}

#[test]
fn statement_starting_with_operator_reports_unexpected_token() {
    match parse_source("+ 1;") {
        Err(ParseError::UnexpectedToken { found, position }) => {
            assert_eq!(found, Token::Plus);
            assert_eq!(position, 0);
        }
        other => panic!("unexpected result: {:?}", other),
    }
}

#[test]
fn expected_token_error_carries_expected_and_found() {
    match parse_source("print (1;") {
        Err(ParseError::ExpectedToken { expected, found, position }) => {
            assert_eq!(expected, Token::RightParenthesis);
            assert_eq!(found, Token::SemiColon);
            assert_eq!(position, 3);
        }
        other => panic!("unexpected result: {:?}", other),
    }
}

#[test]
fn unterminated_block_is_a_terminal_error() {
    match parse_source("if 1 { print 1;") {
        Err(ParseError::UnexpectedToken { found, .. }) => {
            assert_eq!(found, Token::EndOfFile);
        }
        other => panic!("unexpected result: {:?}", other),
    }
}

/// Fully parenthesized re-serialization of a parsed tree, for the
/// round-trip checks below.
fn render(node: &ASTNode) -> String {
    match node {
        ASTNode::Program(stmts) => {
            let mut text = String::new();
            for s in stmts {
                text.push_str(&render(s));
                text.push(' ');
            }
            text
        }
        ASTNode::Variable(name, e) => format!("let {} = {};", name, render(e)),
        ASTNode::Assignment(name, e) => format!("{} = {};", name, render(e)),
        ASTNode::Print(e) => format!("print {};", render(e)),
        ASTNode::Identifier(name) => name.clone(),
        ASTNode::NumberLiteral(v) => format!("{}", v),
        ASTNode::StringLiteral(s) => format!("\"{}\"", s),
        ASTNode::BinaryOperation(l, op, r) => {
            let op_text = match op {
                Token::Plus => "+",
                Token::Minus => "-",
                Token::Asterisk => "*",
                Token::Slash => "/",
                Token::Modulo => "%",
                Token::EqualEqual => "==",
                Token::NotEqual => "!=",
                Token::LessThan => "<",
                Token::GreaterThan => ">",
                other => panic!("not an operator: {:?}", other),
            };
            format!("({} {} {})", render(l), op_text, render(r))
        }
        ASTNode::If(c, thn) => {
            let mut text = format!("if {} {{ ", render(c));
            for s in thn {
                text.push_str(&render(s));
                text.push(' ');
            }
            text.push('}');
            text
        }
        ASTNode::IfElse(c, thn, els) => {
            let mut text = format!("if {} {{ ", render(c));
            for s in thn {
                text.push_str(&render(s));
                text.push(' ');
            }
            text.push_str("} else { ");
            for s in els {
                text.push_str(&render(s));
                text.push(' ');
            }
            text.push('}');
            text
        }
    }
}

#[test]
fn reserialized_programs_parse_back_to_the_same_tree() {
    let sources = [
        "",
        "let x = 5;",
        "let a = 2; let b = 3; print a + b * 2;",
        "print 1 - 2 == 8;",
        "x = 1 + (2 * 3) < 4;",
        "if x { print \"yes\"; } else { print \"no\"; }",
        "if 1 { if 0 { print 1; } let y = 2; }",
        "print \"hi\" + \"there\";",
    ];
    for source in sources {
        let tree = parse_source(source).unwrap();
        let rendered = render(&tree);
        let reparsed = parse_source(&rendered).unwrap();
        assert_tree_eq(&reparsed, &tree);
    }
}
