//! Re-serialization of syntax trees back into token sequences, and the
//! round-trip law: parsing the re-serialization of any tree the parser can
//! produce yields that very tree.
//!
//! The serializer parenthesizes every operation fully, so the (deliberately
//! unconventional) flat precedence of the grammar never loses a tree shape.

use crate::ast::SpecNode;
use crate::ast::SpecToken;
use crate::parser::SpecParseError;
use crate::parser::is_expression_operator;
use crate::parser::is_term_operator;
use crate::parser::spec_parse;
use crate::parser::spec_parse_block;
use crate::parser::spec_parse_variable_declaration;
use crate::parser::spec_parse_print_statement;
use crate::parser::spec_parse_assignment;
use crate::parser::spec_parse_if_statement;
use crate::parser::spec_expect;
use crate::parser::spec_expect_identifier;
use crate::parser::spec_parse_expression;
use crate::parser::spec_parse_expression_rest;
use crate::parser::spec_parse_factor;
use crate::parser::spec_parse_program;
use crate::parser::spec_parse_statement;
use crate::parser::spec_parse_term;
use crate::parser::spec_parse_term_rest;
use vstd::prelude::*;

verus! {

/// The expression shapes the parser can produce: literals, references, and
/// operations over the expression-level operator set.
pub open spec fn wf_expr(e: SpecNode) -> bool
    decreases e,
{
    match e {
        SpecNode::NumberLiteral(_) => true,
        SpecNode::StringLiteral(_) => true,
        SpecNode::Identifier(_) => true,
        SpecNode::BinaryOperation(l, op, r) => is_expression_operator(op) && wf_expr(*l)
            && wf_expr(*r),
        _ => false,
    }
}

/// The statement shapes the parser can produce.
pub open spec fn wf_stmt(s: SpecNode) -> bool
    decreases s, 0int,
{
    match s {
        SpecNode::Variable(_, e) => wf_expr(*e),
        SpecNode::Assignment(_, e) => wf_expr(*e),
        SpecNode::Print(e) => wf_expr(*e),
        SpecNode::If(c, thn) => wf_expr(*c) && wf_stmts(thn),
        SpecNode::IfElse(c, thn, els) => wf_expr(*c) && wf_stmts(thn) && wf_stmts(els),
        _ => false,
    }
}

/// Every element is a well-formed statement.
pub open spec fn wf_stmts(ss: Seq<SpecNode>) -> bool
    decreases ss, 1int,
{
    if ss.len() == 0 {
        true
    } else {
        wf_stmt(ss[0]) && wf_stmts(ss.subrange(1, ss.len() as int))
    }
}

/// A tree the parser can return: a program of well-formed statements.
pub open spec fn wf_program(p: SpecNode) -> bool {
    match p {
        SpecNode::Program(ss) => wf_stmts(ss),
        _ => false,
    }
}

/// An expression as tokens, every operation fully parenthesized.
pub open spec fn unparse_expr(e: SpecNode) -> Seq<SpecToken>
    decreases e,
{
    match e {
        SpecNode::NumberLiteral(v) => seq![SpecToken::Number(v)],
        SpecNode::StringLiteral(s) => seq![SpecToken::StringLiteral(s)],
        SpecNode::Identifier(x) => seq![SpecToken::Identifier(x)],
        SpecNode::BinaryOperation(l, op, r) => seq![SpecToken::LeftParenthesis] + unparse_expr(*l)
            + seq![op] + unparse_expr(*r) + seq![SpecToken::RightParenthesis],
        _ => Seq::empty(),
    }
}

/// A statement as tokens.
pub open spec fn unparse_stmt(s: SpecNode) -> Seq<SpecToken>
    decreases s, 0int,
{
    match s {
        SpecNode::Variable(x, e) => seq![SpecToken::Let, SpecToken::Identifier(x), SpecToken::Equal]
            + unparse_expr(*e) + seq![SpecToken::SemiColon],
        SpecNode::Assignment(x, e) => seq![SpecToken::Identifier(x), SpecToken::Equal]
            + unparse_expr(*e) + seq![SpecToken::SemiColon],
        SpecNode::Print(e) => seq![SpecToken::Print] + unparse_expr(*e) + seq![SpecToken::SemiColon],
        SpecNode::If(c, thn) => seq![SpecToken::If] + unparse_expr(*c) + seq![
            SpecToken::LeftBrace,
        ] + unparse_stmts(thn) + seq![SpecToken::RightBrace],
        SpecNode::IfElse(c, thn, els) => seq![SpecToken::If] + unparse_expr(*c) + seq![
            SpecToken::LeftBrace,
        ] + unparse_stmts(thn) + seq![SpecToken::RightBrace, SpecToken::Else, SpecToken::LeftBrace]
            + unparse_stmts(els) + seq![SpecToken::RightBrace],
        _ => Seq::empty(),
    }
}

/// A statement sequence as tokens, in order.
pub open spec fn unparse_stmts(ss: Seq<SpecNode>) -> Seq<SpecToken>
    decreases ss, 1int,
{
    if ss.len() == 0 {
        Seq::empty()
    } else {
        unparse_stmt(ss[0]) + unparse_stmts(ss.subrange(1, ss.len() as int))
    }
}

/// A whole program as tokens, ending in the end-of-input marker the lexer
/// always appends.
pub open spec fn unparse_program(p: SpecNode) -> Seq<SpecToken> {
    match p {
        SpecNode::Program(ss) => unparse_stmts(ss) + seq![SpecToken::EndOfFile],
        _ => Seq::empty(),
    }
}

/// A well-formed expression serializes to at least one token.
proof fn lemma_unparse_expr_len(e: SpecNode)
    requires
        wf_expr(e),
    ensures
        unparse_expr(e).len() >= 1,
    decreases e,
{
}

/// Parsing a factor over the serialization of a well-formed expression
/// consumes exactly that serialization and rebuilds the expression.  Fully
/// parenthesized, every expression is one factor.
proof fn lemma_factor_roundtrip(e: SpecNode, toks: Seq<SpecToken>, pos: int)
    requires
        wf_expr(e),
        0 <= pos,
        pos + unparse_expr(e).len() < toks.len(),
        toks.subrange(pos, pos + unparse_expr(e).len() as int) == unparse_expr(e),
    ensures
        spec_parse_factor(toks, pos) == Ok::<_, SpecParseError>(
            (e, pos + unparse_expr(e).len() as int),
        ),
    decreases e,
{
    let u = unparse_expr(e);
    let n = u.len() as int;
    assert forall|i: int| 0 <= i < n implies toks[pos + i] == u[i] by {
        assert(toks.subrange(pos, pos + n)[i] == toks[pos + i]);
    }
    match e {
        SpecNode::BinaryOperation(l, op, r) => {
            let ul = unparse_expr(*l);
            let ur = unparse_expr(*r);
            let nl = ul.len() as int;
            let nr = ur.len() as int;
            lemma_unparse_expr_len(*l);
            lemma_unparse_expr_len(*r);
            assert(n == nl + nr + 3);
            assert(u[0] == SpecToken::LeftParenthesis);
            assert(u[n - 1] == SpecToken::RightParenthesis);
            assert(u[1 + nl] == op);
            assert(toks.subrange(pos + 1, pos + 1 + nl) =~= ul) by {
                assert forall|i: int| 0 <= i < nl implies toks.subrange(pos + 1, pos + 1 + nl)[i]
                    == ul[i] by {
                    assert(toks.subrange(pos + 1, pos + 1 + nl)[i] == toks[pos + 1 + i]);
                    assert(u[1 + i] == ul[i]);
                }
            }
            let q = pos + 1 + nl;
            assert(toks.subrange(q + 1, q + 1 + nr) =~= ur) by {
                assert forall|i: int| 0 <= i < nr implies toks.subrange(q + 1, q + 1 + nr)[i]
                    == ur[i] by {
                    assert(toks.subrange(q + 1, q + 1 + nr)[i] == toks[q + 1 + i]);
                    assert(u[2 + nl + i] == ur[i]);
                }
            }
            lemma_factor_roundtrip(*l, toks, pos + 1);
            lemma_factor_roundtrip(*r, toks, q + 1);
            let q2 = q + 1 + nr;
            assert(toks[q] == op);
            assert(toks[q2] == SpecToken::RightParenthesis);
            if is_term_operator(op) {
                assert(spec_parse_term_rest(toks, q2, e) == Ok::<_, SpecParseError>((e, q2)));
                assert(spec_parse_term_rest(toks, q, *l) == Ok::<_, SpecParseError>((e, q2)));
                assert(spec_parse_term(toks, pos + 1) == Ok::<_, SpecParseError>((e, q2)));
                assert(spec_parse_expression_rest(toks, q2, e) == Ok::<_, SpecParseError>(
                    (e, q2),
                ));
                assert(spec_parse_expression(toks, pos + 1) == Ok::<_, SpecParseError>((e, q2)));
            } else {
                assert(spec_parse_term_rest(toks, q, *l) == Ok::<_, SpecParseError>((*l, q)));
                assert(spec_parse_term(toks, pos + 1) == Ok::<_, SpecParseError>((*l, q)));
                assert(spec_parse_term_rest(toks, q2, *r) == Ok::<_, SpecParseError>((*r, q2)));
                assert(spec_parse_term(toks, q + 1) == Ok::<_, SpecParseError>((*r, q2)));
                assert(spec_parse_expression_rest(toks, q2, e) == Ok::<_, SpecParseError>(
                    (e, q2),
                ));
                assert(spec_parse_expression_rest(toks, q, *l) == Ok::<_, SpecParseError>(
                    (e, q2),
                ));
                assert(spec_parse_expression(toks, pos + 1) == Ok::<_, SpecParseError>((e, q2)));
            }
        },
        _ => {},
    }
}

/// Parsing an expression over the serialization of a well-formed
/// expression, followed by anything that is not an operator, rebuilds the
/// expression exactly.
proof fn lemma_expression_roundtrip(e: SpecNode, toks: Seq<SpecToken>, pos: int)
    requires
        wf_expr(e),
        0 <= pos,
        pos + unparse_expr(e).len() < toks.len(),
        toks.subrange(pos, pos + unparse_expr(e).len() as int) == unparse_expr(e),
        !is_expression_operator(toks[pos + unparse_expr(e).len()]),
    ensures
        spec_parse_expression(toks, pos) == Ok::<_, SpecParseError>(
            (e, pos + unparse_expr(e).len() as int),
        ),
{
    let n = unparse_expr(e).len() as int;
    lemma_unparse_expr_len(e);
    lemma_factor_roundtrip(e, toks, pos);
    assert(spec_parse_term_rest(toks, pos + n, e) == Ok::<_, SpecParseError>((e, pos + n)));
    assert(spec_parse_term(toks, pos) == Ok::<_, SpecParseError>((e, pos + n)));
    assert(spec_parse_expression_rest(toks, pos + n, e) == Ok::<_, SpecParseError>((e, pos + n)));
}

/// A well-formed statement serializes to at least one token, and its first
/// token is the one its production starts with.
proof fn lemma_statement_first(s: SpecNode)
    requires
        wf_stmt(s),
    ensures
        unparse_stmt(s).len() >= 1,
        unparse_stmt(s)[0] == SpecToken::Let || unparse_stmt(s)[0] == SpecToken::Print
            || unparse_stmt(s)[0] == SpecToken::If || unparse_stmt(s)[0] is Identifier,
{
}

/// The `if` case of the statement round trip.
#[verifier::rlimit(100)]
proof fn lemma_if_roundtrip(s: SpecNode, toks: Seq<SpecToken>, pos: int)
    requires
        s is If,
        wf_stmt(s),
        0 <= pos,
        pos + unparse_stmt(s).len() < toks.len(),
        toks.subrange(pos, pos + unparse_stmt(s).len() as int) == unparse_stmt(s),
        toks[pos + unparse_stmt(s).len()] != SpecToken::Else,
    ensures
        spec_parse_statement(toks, pos) == Ok::<_, SpecParseError>(
            (s, pos + unparse_stmt(s).len() as int),
        ),
    decreases s, 0int,
{
    let u = unparse_stmt(s);
    let n = u.len() as int;
    assert forall|i: int| 0 <= i < n implies toks[pos + i] == u[i] by {
        assert(toks.subrange(pos, pos + n)[i] == toks[pos + i]);
    }
    match s {
        SpecNode::If(c, thn) => {
            let uc = unparse_expr(*c);
            let nc = uc.len() as int;
            let ub = unparse_stmts(thn);
            let nb = ub.len() as int;
            lemma_unparse_expr_len(*c);
            assert(n == nc + nb + 3);
            assert(u[0] == SpecToken::If);
            assert(u[1 + nc] == SpecToken::LeftBrace);
            assert(u[n - 1] == SpecToken::RightBrace);
            assert(toks.subrange(pos + 1, pos + 1 + nc) =~= uc) by {
                assert forall|i: int| 0 <= i < nc implies toks.subrange(pos + 1, pos + 1 + nc)[i]
                    == uc[i] by {
                    assert(toks.subrange(pos + 1, pos + 1 + nc)[i] == toks[pos + 1 + i]);
                    assert(u[1 + i] == uc[i]);
                }
            }
            lemma_expression_roundtrip(*c, toks, pos + 1);
            let p3 = pos + nc + 2;
            assert(toks.subrange(p3, p3 + nb) =~= ub) by {
                assert forall|i: int| 0 <= i < nb implies toks.subrange(p3, p3 + nb)[i] == ub[i] by {
                    assert(toks.subrange(p3, p3 + nb)[i] == toks[p3 + i]);
                    assert(u[2 + nc + i] == ub[i]);
                }
            }
            assert(toks[p3 + nb] == SpecToken::RightBrace);
            lemma_block_roundtrip(thn, toks, p3);
        },
        _ => {},
    }
}

/// The `if`/`else` case of the statement round trip.
#[verifier::rlimit(100)]
proof fn lemma_ifelse_roundtrip(s: SpecNode, toks: Seq<SpecToken>, pos: int)
    requires
        s is IfElse,
        wf_stmt(s),
        0 <= pos,
        pos + unparse_stmt(s).len() < toks.len(),
        toks.subrange(pos, pos + unparse_stmt(s).len() as int) == unparse_stmt(s),
    ensures
        spec_parse_statement(toks, pos) == Ok::<_, SpecParseError>(
            (s, pos + unparse_stmt(s).len() as int),
        ),
    decreases s, 0int,
{
    let u = unparse_stmt(s);
    let n = u.len() as int;
    assert forall|i: int| 0 <= i < n implies toks[pos + i] == u[i] by {
        assert(toks.subrange(pos, pos + n)[i] == toks[pos + i]);
    }
    match s {
        SpecNode::IfElse(c, thn, els) => {
            let uc = unparse_expr(*c);
            let nc = uc.len() as int;
            let ub = unparse_stmts(thn);
            let nb = ub.len() as int;
            let ue = unparse_stmts(els);
            let nee = ue.len() as int;
            lemma_unparse_expr_len(*c);
            assert(n == nc + nb + nee + 6);
            assert(u[0] == SpecToken::If);
            assert(u[1 + nc] == SpecToken::LeftBrace);
            assert(u[2 + nc + nb] == SpecToken::RightBrace);
            assert(u[3 + nc + nb] == SpecToken::Else);
            assert(u[4 + nc + nb] == SpecToken::LeftBrace);
            assert(u[n - 1] == SpecToken::RightBrace);
            assert(toks.subrange(pos + 1, pos + 1 + nc) =~= uc) by {
                assert forall|i: int| 0 <= i < nc implies toks.subrange(pos + 1, pos + 1 + nc)[i]
                    == uc[i] by {
                    assert(toks.subrange(pos + 1, pos + 1 + nc)[i] == toks[pos + 1 + i]);
                    assert(u[1 + i] == uc[i]);
                }
            }
            lemma_expression_roundtrip(*c, toks, pos + 1);
            let p3 = pos + nc + 2;
            assert(toks.subrange(p3, p3 + nb) =~= ub) by {
                assert forall|i: int| 0 <= i < nb implies toks.subrange(p3, p3 + nb)[i] == ub[i] by {
                    assert(toks.subrange(p3, p3 + nb)[i] == toks[p3 + i]);
                    assert(u[2 + nc + i] == ub[i]);
                }
            }
            assert(toks[p3 + nb] == SpecToken::RightBrace);
            lemma_block_roundtrip(thn, toks, p3);
            let p7 = p3 + nb + 3;
            assert(toks[p3 + nb + 1] == SpecToken::Else);
            assert(toks[p3 + nb + 2] == SpecToken::LeftBrace);
            assert(toks.subrange(p7, p7 + nee) =~= ue) by {
                assert forall|i: int| 0 <= i < nee implies toks.subrange(p7, p7 + nee)[i]
                    == ue[i] by {
                    assert(toks.subrange(p7, p7 + nee)[i] == toks[p7 + i]);
                    assert(u[5 + nc + nb + i] == ue[i]);
                }
            }
            assert(toks[p7 + nee] == SpecToken::RightBrace);
            lemma_block_roundtrip(els, toks, p7);
        },
        _ => {},
    }
}

/// Parsing a statement over the serialization of a well-formed statement,
/// followed by anything but `else`, rebuilds the statement exactly.
#[verifier::rlimit(100)]
#[verifier::spinoff_prover]
proof fn lemma_statement_roundtrip(s: SpecNode, toks: Seq<SpecToken>, pos: int)
    requires
        wf_stmt(s),
        0 <= pos,
        pos + unparse_stmt(s).len() < toks.len(),
        toks.subrange(pos, pos + unparse_stmt(s).len() as int) == unparse_stmt(s),
        toks[pos + unparse_stmt(s).len()] != SpecToken::Else,
    ensures
        spec_parse_statement(toks, pos) == Ok::<_, SpecParseError>(
            (s, pos + unparse_stmt(s).len() as int),
        ),
    decreases s, 1int,
{
    let u = unparse_stmt(s);
    let n = u.len() as int;
    assert forall|i: int| 0 <= i < n implies toks[pos + i] == u[i] by {
        assert(toks.subrange(pos, pos + n)[i] == toks[pos + i]);
    }
    match s {
        SpecNode::Variable(x, e) => {
            let ue = unparse_expr(*e);
            let ne = ue.len() as int;
            lemma_unparse_expr_len(*e);
            assert(n == ne + 4);
            assert(u[0] == SpecToken::Let);
            assert(u[1] == SpecToken::Identifier(x));
            assert(u[2] == SpecToken::Equal);
            assert(u[n - 1] == SpecToken::SemiColon);
            assert(toks.subrange(pos + 3, pos + 3 + ne) =~= ue) by {
                assert forall|i: int| 0 <= i < ne implies toks.subrange(pos + 3, pos + 3 + ne)[i]
                    == ue[i] by {
                    assert(toks.subrange(pos + 3, pos + 3 + ne)[i] == toks[pos + 3 + i]);
                    assert(u[3 + i] == ue[i]);
                }
            }
            lemma_expression_roundtrip(*e, toks, pos + 3);
        },
        SpecNode::Assignment(x, e) => {
            let ue = unparse_expr(*e);
            let ne = ue.len() as int;
            lemma_unparse_expr_len(*e);
            assert(n == ne + 3);
            assert(u[0] == SpecToken::Identifier(x));
            assert(u[1] == SpecToken::Equal);
            assert(u[n - 1] == SpecToken::SemiColon);
            assert(toks.subrange(pos + 2, pos + 2 + ne) =~= ue) by {
                assert forall|i: int| 0 <= i < ne implies toks.subrange(pos + 2, pos + 2 + ne)[i]
                    == ue[i] by {
                    assert(toks.subrange(pos + 2, pos + 2 + ne)[i] == toks[pos + 2 + i]);
                    assert(u[2 + i] == ue[i]);
                }
            }
            lemma_expression_roundtrip(*e, toks, pos + 2);
        },
        SpecNode::Print(e) => {
            let ue = unparse_expr(*e);
            let ne = ue.len() as int;
            lemma_unparse_expr_len(*e);
            assert(n == ne + 2);
            assert(u[0] == SpecToken::Print);
            assert(u[n - 1] == SpecToken::SemiColon);
            assert(toks.subrange(pos + 1, pos + 1 + ne) =~= ue) by {
                assert forall|i: int| 0 <= i < ne implies toks.subrange(pos + 1, pos + 1 + ne)[i]
                    == ue[i] by {
                    assert(toks.subrange(pos + 1, pos + 1 + ne)[i] == toks[pos + 1 + i]);
                    assert(u[1 + i] == ue[i]);
                }
            }
            lemma_expression_roundtrip(*e, toks, pos + 1);
        },
        SpecNode::If(_, _) => {
            lemma_if_roundtrip(s, toks, pos);
        },
        SpecNode::IfElse(_, _, _) => {
            lemma_ifelse_roundtrip(s, toks, pos);
        },
        _ => {},
    }
}

/// Parsing a braced block's statements over the serialization of a
/// well-formed statement sequence, with the closing brace right after it,
/// rebuilds the sequence exactly.
proof fn lemma_block_roundtrip(ss: Seq<SpecNode>, toks: Seq<SpecToken>, pos: int)
    requires
        wf_stmts(ss),
        0 <= pos,
        pos + unparse_stmts(ss).len() < toks.len(),
        toks.subrange(pos, pos + unparse_stmts(ss).len() as int) == unparse_stmts(ss),
        toks[pos + unparse_stmts(ss).len()] == SpecToken::RightBrace,
    ensures
        spec_parse_block(toks, pos) == Ok::<_, SpecParseError>(
            (ss, pos + unparse_stmts(ss).len() as int),
        ),
    decreases ss, 1int,
{
    let u = unparse_stmts(ss);
    let n = u.len() as int;
    assert forall|i: int| 0 <= i < n implies toks[pos + i] == u[i] by {
        assert(toks.subrange(pos, pos + n)[i] == toks[pos + i]);
    }
    if ss.len() == 0 {
        assert(ss =~= Seq::<SpecNode>::empty());
    } else {
        let first = ss[0];
        let rest = ss.subrange(1, ss.len() as int);
        let u0 = unparse_stmt(first);
        let n0 = u0.len() as int;
        let ur = unparse_stmts(rest);
        let nr = ur.len() as int;
        lemma_statement_first(first);
        assert(n == n0 + nr);
        assert(toks[pos] == u0[0]) by {
            assert(toks.subrange(pos, pos + n)[0] == toks[pos]);
        }
        assert(toks.subrange(pos, pos + n0) =~= u0) by {
            assert forall|i: int| 0 <= i < n0 implies toks.subrange(pos, pos + n0)[i] == u0[i] by {
                assert(toks.subrange(pos, pos + n0)[i] == toks[pos + i]);
            }
        }
        assert(toks.subrange(pos + n0, pos + n0 + nr) =~= ur) by {
            assert forall|i: int| 0 <= i < nr implies toks.subrange(pos + n0, pos + n0 + nr)[i]
                == ur[i] by {
                assert(toks.subrange(pos + n0, pos + n0 + nr)[i] == toks[pos + n0 + i]);
                assert(u[n0 + i] == ur[i]);
            }
        }
        // The token after this statement starts the next statement or
        // closes the block; it is never `else`.
        if rest.len() == 0 {
            assert(toks[pos + n0] == SpecToken::RightBrace);
        } else {
            assert(wf_stmts(rest));
            assert(wf_stmt(rest[0]));
            lemma_statement_first(rest[0]);
            assert(ur[0] == unparse_stmt(rest[0])[0]);
            assert(toks[pos + n0] == unparse_stmt(rest[0])[0]);
        }
        lemma_statement_roundtrip(first, toks, pos);
        lemma_block_roundtrip(rest, toks, pos + n0);
        assert(seq![first] + rest =~= ss);
    }
}

/// As [`lemma_block_roundtrip`], for the top-level statement list, which
/// runs to the end-of-input marker instead of a closing brace.
proof fn lemma_program_roundtrip(ss: Seq<SpecNode>, toks: Seq<SpecToken>, pos: int)
    requires
        wf_stmts(ss),
        0 <= pos,
        pos + unparse_stmts(ss).len() < toks.len(),
        toks.subrange(pos, pos + unparse_stmts(ss).len() as int) == unparse_stmts(ss),
        toks[pos + unparse_stmts(ss).len()] == SpecToken::EndOfFile,
    ensures
        spec_parse_program(toks, pos) == Ok::<_, SpecParseError>(
            (ss, pos + unparse_stmts(ss).len() as int),
        ),
    decreases ss,
{
    let u = unparse_stmts(ss);
    let n = u.len() as int;
    assert forall|i: int| 0 <= i < n implies toks[pos + i] == u[i] by {
        assert(toks.subrange(pos, pos + n)[i] == toks[pos + i]);
    }
    if ss.len() == 0 {
        assert(ss =~= Seq::<SpecNode>::empty());
    } else {
        let first = ss[0];
        let rest = ss.subrange(1, ss.len() as int);
        let u0 = unparse_stmt(first);
        let n0 = u0.len() as int;
        let ur = unparse_stmts(rest);
        let nr = ur.len() as int;
        lemma_statement_first(first);
        assert(n == n0 + nr);
        assert(toks[pos] == u0[0]) by {
            assert(toks.subrange(pos, pos + n)[0] == toks[pos]);
        }
        assert(toks.subrange(pos, pos + n0) =~= u0) by {
            assert forall|i: int| 0 <= i < n0 implies toks.subrange(pos, pos + n0)[i] == u0[i] by {
                assert(toks.subrange(pos, pos + n0)[i] == toks[pos + i]);
            }
        }
        assert(toks.subrange(pos + n0, pos + n0 + nr) =~= ur) by {
            assert forall|i: int| 0 <= i < nr implies toks.subrange(pos + n0, pos + n0 + nr)[i]
                == ur[i] by {
                assert(toks.subrange(pos + n0, pos + n0 + nr)[i] == toks[pos + n0 + i]);
                assert(u[n0 + i] == ur[i]);
            }
        }
        if rest.len() == 0 {
            assert(toks[pos + n0] == SpecToken::EndOfFile);
        } else {
            assert(wf_stmts(rest));
            assert(wf_stmt(rest[0]));
            lemma_statement_first(rest[0]);
            assert(ur[0] == unparse_stmt(rest[0])[0]);
            assert(toks[pos + n0] == unparse_stmt(rest[0])[0]);
        }
        lemma_statement_roundtrip(first, toks, pos);
        lemma_program_roundtrip(rest, toks, pos + n0);
        assert(seq![first] + rest =~= ss);
    }
}

/// The round-trip law: re-serializing any tree the parser can produce and
/// parsing the result yields the very same tree.
pub proof fn lemma_unparse_parse_roundtrip(program: SpecNode)
    requires
        wf_program(program),
    ensures
        spec_parse(unparse_program(program)) == Ok::<_, SpecParseError>(program),
{
    match program {
        SpecNode::Program(ss) => {
            let body = unparse_stmts(ss);
            let toks = body + seq![SpecToken::EndOfFile];
            assert(toks.subrange(0, body.len() as int) =~= body);
            assert(toks[body.len() as int] == SpecToken::EndOfFile);
            lemma_program_roundtrip(ss, toks, 0);
        },
        _ => {},
    }
}

proof fn lemma_parsed_factor_wf(toks: Seq<SpecToken>, pos: int)
    ensures
        (spec_parse_factor(toks, pos) matches Ok(r) ==> wf_expr(r.0)),
    decreases toks.len() - pos, 0int,
{
    if toks[pos] is LeftParenthesis && pos < toks.len() - 1 {
        lemma_parsed_expression_wf(toks, pos + 1);
    }
}

proof fn lemma_parsed_term_rest_wf(toks: Seq<SpecToken>, pos: int, left: SpecNode)
    requires
        wf_expr(left),
    ensures
        (spec_parse_term_rest(toks, pos, left) matches Ok(r) ==> wf_expr(r.0)),
    decreases toks.len() - pos, 1int,
{
    if is_term_operator(toks[pos]) && pos < toks.len() - 1 {
        lemma_parsed_factor_wf(toks, pos + 1);
        match spec_parse_factor(toks, pos + 1) {
            Ok((right, p2)) => {
                if pos < p2 <= toks.len() {
                    lemma_parsed_term_rest_wf(
                        toks,
                        p2,
                        SpecNode::BinaryOperation(Box::new(left), toks[pos], Box::new(right)),
                    );
                }
            },
            Err(_) => {},
        }
    }
}

proof fn lemma_parsed_term_wf(toks: Seq<SpecToken>, pos: int)
    ensures
        (spec_parse_term(toks, pos) matches Ok(r) ==> wf_expr(r.0)),
    decreases toks.len() - pos, 2int,
{
    lemma_parsed_factor_wf(toks, pos);
    match spec_parse_factor(toks, pos) {
        Ok((left, p1)) => {
            if pos < p1 <= toks.len() {
                lemma_parsed_term_rest_wf(toks, p1, left);
            }
        },
        Err(_) => {},
    }
}

proof fn lemma_parsed_expression_rest_wf(toks: Seq<SpecToken>, pos: int, left: SpecNode)
    requires
        wf_expr(left),
    ensures
        (spec_parse_expression_rest(toks, pos, left) matches Ok(r) ==> wf_expr(r.0)),
    decreases toks.len() - pos, 3int,
{
    if is_expression_operator(toks[pos]) && pos < toks.len() - 1 {
        lemma_parsed_term_wf(toks, pos + 1);
        match spec_parse_term(toks, pos + 1) {
            Ok((right, p2)) => {
                if pos < p2 <= toks.len() {
                    lemma_parsed_expression_rest_wf(
                        toks,
                        p2,
                        SpecNode::BinaryOperation(Box::new(left), toks[pos], Box::new(right)),
                    );
                }
            },
            Err(_) => {},
        }
    }
}

proof fn lemma_parsed_expression_wf(toks: Seq<SpecToken>, pos: int)
    ensures
        (spec_parse_expression(toks, pos) matches Ok(r) ==> wf_expr(r.0)),
    decreases toks.len() - pos, 4int,
{
    lemma_parsed_term_wf(toks, pos);
    match spec_parse_term(toks, pos) {
        Ok((left, p1)) => {
            if pos < p1 <= toks.len() {
                lemma_parsed_expression_rest_wf(toks, p1, left);
            }
        },
        Err(_) => {},
    }
}

proof fn lemma_parsed_variable_declaration_wf(toks: Seq<SpecToken>, pos: int)
    ensures
        (spec_parse_variable_declaration(toks, pos) matches Ok(r) ==> wf_stmt(r.0)),
    decreases toks.len() - pos, 5int,
{
    match spec_expect(toks, pos, SpecToken::Let) {
        Ok(p1) => match spec_expect_identifier(toks, p1) {
            Ok((_, p2)) => match spec_expect(toks, p2, SpecToken::Equal) {
                Ok(p3) => {
                    lemma_parsed_expression_wf(toks, p3);
                },
                Err(_) => {},
            },
            Err(_) => {},
        },
        Err(_) => {},
    }
}

proof fn lemma_parsed_print_statement_wf(toks: Seq<SpecToken>, pos: int)
    ensures
        (spec_parse_print_statement(toks, pos) matches Ok(r) ==> wf_stmt(r.0)),
    decreases toks.len() - pos, 5int,
{
    match spec_expect(toks, pos, SpecToken::Print) {
        Ok(p1) => {
            lemma_parsed_expression_wf(toks, p1);
        },
        Err(_) => {},
    }
}

proof fn lemma_parsed_assignment_wf(toks: Seq<SpecToken>, pos: int)
    ensures
        (spec_parse_assignment(toks, pos) matches Ok(r) ==> wf_stmt(r.0)),
    decreases toks.len() - pos, 5int,
{
    match spec_expect_identifier(toks, pos) {
        Ok((_, p1)) => match spec_expect(toks, p1, SpecToken::Equal) {
            Ok(p2) => {
                lemma_parsed_expression_wf(toks, p2);
            },
            Err(_) => {},
        },
        Err(_) => {},
    }
}

proof fn lemma_parsed_if_statement_wf(toks: Seq<SpecToken>, pos: int)
    ensures
        (spec_parse_if_statement(toks, pos) matches Ok(r) ==> wf_stmt(r.0)),
    decreases toks.len() - pos, 6int,
{
    match spec_expect(toks, pos, SpecToken::If) {
        Ok(p1) => {
            lemma_parsed_expression_wf(toks, p1);
            match spec_parse_expression(toks, p1) {
                Ok((_, p2)) => match spec_expect(toks, p2, SpecToken::LeftBrace) {
                    Ok(p3) => {
                        if pos < p3 <= toks.len() {
                            lemma_parsed_block_wf(toks, p3);
                            match spec_parse_block(toks, p3) {
                                Ok((_, p4)) => match spec_expect(toks, p4, SpecToken::RightBrace) {
                                    Ok(p5) => {
                                        if toks[p5] == SpecToken::Else && p5 < toks.len() - 1 {
                                            match spec_expect(toks, p5 + 1, SpecToken::LeftBrace) {
                                                Ok(p7) => {
                                                    if pos < p7 <= toks.len() {
                                                        lemma_parsed_block_wf(toks, p7);
                                                    }
                                                },
                                                Err(_) => {},
                                            }
                                        }
                                    },
                                    Err(_) => {},
                                },
                                Err(_) => {},
                            }
                        }
                    },
                    Err(_) => {},
                },
                Err(_) => {},
            }
        },
        Err(_) => {},
    }
}

proof fn lemma_parsed_statement_wf(toks: Seq<SpecToken>, pos: int)
    ensures
        (spec_parse_statement(toks, pos) matches Ok(r) ==> wf_stmt(r.0)),
    decreases toks.len() - pos, 7int,
{
    match toks[pos] {
        SpecToken::Let => lemma_parsed_variable_declaration_wf(toks, pos),
        SpecToken::Print => lemma_parsed_print_statement_wf(toks, pos),
        SpecToken::Identifier(_) => lemma_parsed_assignment_wf(toks, pos),
        SpecToken::If => lemma_parsed_if_statement_wf(toks, pos),
        _ => {},
    }
}

proof fn lemma_parsed_block_wf(toks: Seq<SpecToken>, pos: int)
    ensures
        (spec_parse_block(toks, pos) matches Ok(r) ==> wf_stmts(r.0)),
    decreases toks.len() - pos, 8int,
{
    if toks[pos] != SpecToken::RightBrace {
        lemma_parsed_statement_wf(toks, pos);
        match spec_parse_statement(toks, pos) {
            Ok((st, p1)) => {
                if pos < p1 <= toks.len() {
                    lemma_parsed_block_wf(toks, p1);
                    match spec_parse_block(toks, p1) {
                        Ok((rest, _)) => {
                            let whole = seq![st] + rest;
                            assert(whole[0] == st);
                            assert(whole.subrange(1, whole.len() as int) =~= rest);
                        },
                        Err(_) => {},
                    }
                }
            },
            Err(_) => {},
        }
    }
}

proof fn lemma_parsed_program_wf(toks: Seq<SpecToken>, pos: int)
    ensures
        (spec_parse_program(toks, pos) matches Ok(r) ==> wf_stmts(r.0)),
    decreases toks.len() - pos, 8int,
{
    if toks[pos] != SpecToken::EndOfFile {
        lemma_parsed_statement_wf(toks, pos);
        match spec_parse_statement(toks, pos) {
            Ok((st, p1)) => {
                if pos < p1 <= toks.len() {
                    lemma_parsed_program_wf(toks, p1);
                    match spec_parse_program(toks, p1) {
                        Ok((rest, _)) => {
                            let whole = seq![st] + rest;
                            assert(whole[0] == st);
                            assert(whole.subrange(1, whole.len() as int) =~= rest);
                        },
                        Err(_) => {},
                    }
                }
            },
            Err(_) => {},
        }
    }
}

/// Every tree the parser accepts is well-formed.
pub proof fn lemma_spec_parse_wf(toks: Seq<SpecToken>)
    ensures
        (spec_parse(toks) matches Ok(t) ==> wf_program(t)),
{
    lemma_parsed_program_wf(toks, 0);
}

/// The round-trip law over every accepted token sequence: whenever parsing
/// succeeds, the tree is well-formed, and re-serializing and re-parsing it
/// reproduces it exactly — an equivalent program in the strongest sense.
pub proof fn lemma_accepted_program_roundtrip(toks: Seq<SpecToken>, program: SpecNode)
    requires
        spec_parse(toks) == Ok::<_, SpecParseError>(program),
    ensures
        wf_program(program),
        spec_parse(unparse_program(program)) == Ok::<_, SpecParseError>(program),
{
    lemma_spec_parse_wf(toks);
    lemma_unparse_parse_roundtrip(program);
}

} // verus!
