use vstd::prelude::*;

use crate::ast::{lemma_nodes_view_push, nodes_view, Label, Node, NodeData, Tree};
use crate::parser::expr::{prepend_tree, prepend_trees};
use crate::parser::stmt::{lemma_stmt_used, parse_stmt, spec_parse_stmt, stmt_result};
use crate::parser::utils::delimiter_checker::DelimiterCheckerError;
use crate::text_data::{empty_range, span_join, TextRange};
use crate::tokenizer::{Token, TokenData, TokenizeError};
use vstd::slice::slice_subrange;

pub mod expr;
pub mod stmt;
pub mod types;
pub mod utils;

verus! {

/// Why a token sequence could not be parsed, and where.
#[derive(Debug, Clone, PartialEq)]
pub struct ParseError {
    pub data: ParseErrorData,
    pub text_range: TextRange,
}

#[derive(Debug, Clone, PartialEq)]
pub enum ParseErrorData {
    /// A token other than the one the grammar asks for here.
    UnexpectedToken(TokenData),
    MissingSemicolon,
    UnclosedBracket,
    UnclosedParenthesis,
    UnclosedCurly,
    /// The tokens ran out where more were needed.
    UnexpectedEOF,
    /// A construct the grammar does not cover.
    UnsupportedSyntax,
    TokenizeError(TokenizeError),
}

pub open spec fn error_at(data: ParseErrorData, text_range: TextRange) -> ParseError {
    ParseError { data, text_range }
}

pub open spec fn unexpected(t: Token) -> ParseError {
    ParseError { data: ParseErrorData::UnexpectedToken(t.data), text_range: t.text_range }
}

pub open spec fn eof_at(t: Token) -> ParseError {
    ParseError { data: ParseErrorData::UnexpectedEOF, text_range: t.text_range }
}

/// The range from the first token's start to the last token's end.
pub open spec fn slice_span(t: Seq<Token>) -> TextRange {
    TextRange { start: t[0].text_range.start, end: t.last().text_range.end }
}

pub open spec fn node_result(r: Result<Node, ParseError>) -> Result<Tree, ParseError> {
    match r {
        Ok(n) => Ok(n@),
        Err(e) => Err(e),
    }
}

impl ParseError {
    pub fn new(data: ParseErrorData, text_range: TextRange) -> (r: ParseError)
        ensures
            r == error_at(data, text_range),
    {
        ParseError { data, text_range }
    }

    /// The error for meeting `token` where the grammar asks for another.
    pub fn new_unexpected_token(token: &Token) -> (r: ParseError)
        ensures
            r == unexpected(*token),
    {
        ParseError { data: ParseErrorData::UnexpectedToken(token.data.duplicate()), text_range: token.text_range }
    }

    /// The error for running out of tokens inside `text_range`.
    pub fn new_unexpected_eof(text_range: TextRange) -> (r: ParseError)
        ensures
            r == error_at(ParseErrorData::UnexpectedEOF, text_range),
    {
        ParseError { data: ParseErrorData::UnexpectedEOF, text_range }
    }

    /// The unmatched bracket a delimiter scan failed on, as an unexpected token.
    pub fn from_delimiter_error(e: &DelimiterCheckerError) -> (r: ParseError)
        ensures
            r == unexpected(*e.failed_token()),
    {
        ParseError::new_unexpected_token(e.token())
    }

    /// A tokenizer error, placed at the position it names.
    pub fn from_tokenize_error(e: TokenizeError) -> (r: ParseError)
        ensures
            r == error_at(ParseErrorData::TokenizeError(e), tokenize_error_range(e)),
    {
        let at = match e {
            TokenizeError::UnknownCharacter(_, p) => p,
            TokenizeError::NumberTooLarge(p) => p,
        };
        ParseError { data: ParseErrorData::TokenizeError(e), text_range: TextRange { start: at, end: at } }
    }
}

pub open spec fn tokenize_error_range(e: TokenizeError) -> TextRange {
    let at = match e {
        TokenizeError::UnknownCharacter(_, p) => p,
        TokenizeError::NumberTooLarge(p) => p,
    };
    TextRange { start: at, end: at }
}

/// The statements of `t`, one after the other, up to its end.
pub open spec fn spec_parse_statements(t: Seq<Token>) -> Result<Seq<Tree>, ParseError>
    decreases t.len(), 3int, 0int,
{
    if t.len() == 0 {
        Ok(Seq::empty())
    } else {
        match spec_parse_stmt(t) {
            Err(e) => Err(e),
            Ok((n, used)) => if 1 <= used <= t.len() {
                prepend_tree(Ok(n), spec_parse_statements(t.subrange(used as int, t.len() as int)))
            } else {
                Err(error_at(ParseErrorData::UnsupportedSyntax, slice_span(t)))
            },
        }
    }
}

/// A whole program: its statements under one root, which spans from the
/// first statement's start to the last one's end. No tokens make an empty
/// program at the start of the text.
#[verifier::opaque]
pub open spec fn spec_parse_program(t: Seq<Token>) -> Result<Tree, ParseError>
    decreases t.len(), 4int, 0int,
{
    match spec_parse_statements(t) {
        Err(e) => Err(e),
        Ok(stmts) => Ok(
            Tree {
                label: Label::Program,
                children: stmts,
                span: if stmts.len() == 0 {
                    empty_range()
                } else {
                    span_join(stmts[0].span, stmts.last().span)
                },
            },
        ),
    }
}

/// Parses a whole program; see `spec_parse_program`.
pub fn parse_tks(tokens: &[Token]) -> (r: Result<Node, ParseError>)
    ensures
        node_result(r) == spec_parse_program(tokens@),
    decreases tokens@.len(), 4int, 0int,
{
    reveal(spec_parse_program);
    let ghost t = tokens@;
    let n = tokens.len();
    let mut statements: Vec<Node> = Vec::new();
    let mut ptr: usize = 0;
    proof {
        assert(nodes_view(statements@) =~= Seq::<Tree>::empty());
        assert(t.subrange(0, t.len() as int) =~= t);
        match spec_parse_statements(t) {
            Ok(s) => { assert(Seq::<Tree>::empty() + s =~= s); },
            Err(_) => {},
        }
    }
    while ptr < n
        invariant
            t == tokens@,
            n == t.len(),
            ptr <= n,
            spec_parse_statements(t) == prepend_trees(
                nodes_view(statements@),
                spec_parse_statements(t.subrange(ptr as int, n as int)),
            ),
        decreases n - ptr,
    {
        let rest = slice_subrange(tokens, ptr, n);
        match parse_stmt(rest) {
            Err(e) => {
                proof {
                    reveal(spec_parse_program);
                }
                return Err(e);
            },
            Ok((node, used)) => {
                proof {
                    lemma_stmt_used(rest@);
                    assert(t.subrange(ptr as int, n as int).subrange(used as int, (n - ptr) as int) =~= t.subrange(
                        ptr + used,
                        n as int,
                    ));
                    lemma_nodes_view_push(statements@, node);
                    match spec_parse_statements(t.subrange(ptr + used, n as int)) {
                        Ok(r) => {
                            assert(nodes_view(statements@) + (seq![node@] + r) =~= nodes_view(statements@).push(node@) + r);
                        },
                        Err(_) => {},
                    }
                }
                statements.push(node);
                ptr = ptr + used;
            },
        }
    }
    proof {
        assert(nodes_view(statements@) + Seq::<Tree>::empty() =~= nodes_view(statements@));
        crate::ast::lemma_nodes_view_all(statements@);
    }
    let text_range = if statements.len() == 0 {
        TextRange::new_empty()
    } else {
        TextRange::join(&statements[0].text_range, &statements[statements.len() - 1].text_range)
    };
    Ok(Node { data: Box::new(NodeData::Program(statements)), text_range })
}

} // verus!
