use vstd::prelude::*;

use crate::ast::{
    lemma_nodes_view_all, node1, node2, nodes_view, view_all, DeclarationType, Label, Node, NodeData, Tree,
    VariableModificationType,
};
use crate::parser::expr::{identifier_leaf, kind_at, parse_expr, spec_parse_expr};
use crate::parser::utils::{parse_parameters, spec_parse_parameters};
use crate::parser::{
    eof_at, error_at, node_result, parse_tks, slice_span, spec_parse_program, unexpected, ParseError, ParseErrorData,
};
use crate::text_data::{empty_range, TextRange};
use crate::tokenizer::{
    lemma_find_free_bounds, lemma_find_pair_opener, spec_find_free, spec_find_pair, Token, TokenData, TokenKind,
    TokensUtils,
};
use vstd::slice::slice_subrange;

verus! {

pub open spec fn stmt_result(r: Result<(Node, usize), ParseError>) -> Result<(Tree, nat), ParseError> {
    match r {
        Ok((n, used)) => Ok((n@, used as nat)),
        Err(e) => Err(e),
    }
}

pub open spec fn declaration_type(k: TokenKind) -> DeclarationType {
    if k == TokenKind::Const {
        DeclarationType::Const
    } else if k == TokenKind::Var {
        DeclarationType::Var
    } else {
        DeclarationType::Let
    }
}

pub open spec fn is_declaration_keyword(k: TokenKind) -> bool {
    k == TokenKind::Const || k == TokenKind::Var || k == TokenKind::Let
}

/// A declaration `keyword name = value ;`; `t` ends with its semicolon.
pub open spec fn spec_parse_variable_declaration(t: Seq<Token>) -> Result<Tree, ParseError> {
    if kind_at(t, 1) != TokenKind::Identifier {
        Err(unexpected(t[1]))
    } else if kind_at(t, 2) != TokenKind::Equals {
        Err(unexpected(t[2]))
    } else if t.len() <= 4 {
        Err(eof_at(t[2]))
    } else {
        match spec_parse_expr(t.subrange(3, t.len() - 1)) {
            Err(e) => Err(e),
            Ok(value) => Ok(
                node2(
                    Label::VariableDeclaration(declaration_type(kind_at(t, 0))),
                    identifier_leaf(t[1]),
                    value,
                    slice_span(t),
                ),
            ),
        }
    }
}

/// Scanning the targets of an assignment from `i`: identifiers and commas in
/// turn up to the assignment operator, whose position and type it returns.
/// Reaching the final semicolon first is an unexpected end.
pub open spec fn modification_from(t: Seq<Token>, i: int, expect_comma: bool) -> Result<
    (int, VariableModificationType),
    ParseError,
>
    decreases t.len() - i,
{
    if i < 0 || i >= t.len() - 1 {
        Err(error_at(ParseErrorData::UnexpectedEOF, slice_span(t)))
    } else {
        match t[i].data.spec_variable_modification_type() {
            Some(m) => Ok((i, m)),
            None => if (!expect_comma && kind_at(t, i) != TokenKind::Identifier) || (expect_comma && kind_at(t, i)
                != TokenKind::Comma) {
                Err(unexpected(t[i]))
            } else {
                modification_from(t, i + 1, !expect_comma)
            },
        }
    }
}

/// An assignment `target op value ;`; `t` ends with its semicolon.
pub open spec fn spec_parse_variable_modification(t: Seq<Token>) -> Result<Tree, ParseError> {
    match modification_from(t, 0, false) {
        Err(e) => Err(e),
        Ok((i, m)) => {
            let target = if i == 0 {
                Err(eof_at(t[0]))
            } else {
                spec_parse_expr(t.subrange(0, i))
            };
            match target {
                Err(e) => Err(e),
                Ok(target) => if i + 1 >= t.len() - 1 {
                    Err(eof_at(t[i]))
                } else {
                    match spec_parse_expr(t.subrange(i + 1, t.len() - 1)) {
                        Err(e) => Err(e),
                        Ok(value) => Ok(node2(Label::VariableModification(m), target, value, slice_span(t))),
                    }
                },
            }
        },
    }
}

/// A statement at the start of `t`, and how many tokens it takes.
#[verifier::opaque]
pub open spec fn spec_parse_stmt(t: Seq<Token>) -> Result<(Tree, nat), ParseError>
    decreases t.len(), 2int, 0int,
{
    if t.len() == 0 {
        Err(error_at(ParseErrorData::UnexpectedEOF, empty_range()))
    } else {
        let k = kind_at(t, 0);
        if is_declaration_keyword(k) || k == TokenKind::Identifier {
            match spec_find_free(t, TokenData::Semicolon) {
                None => Err(error_at(ParseErrorData::MissingSemicolon, slice_span(t))),
                Some(s) => if 0 < s < t.len() {
                    let stmt = t.subrange(0, s + 1);
                    let r = if k == TokenKind::Identifier {
                        spec_parse_variable_modification(stmt)
                    } else {
                        spec_parse_variable_declaration(stmt)
                    };
                    match r {
                        Err(e) => Err(e),
                        Ok(n) => Ok((n, (s + 1) as nat)),
                    }
                } else {
                    Err(error_at(ParseErrorData::MissingSemicolon, slice_span(t)))
                },
            }
        } else if k == TokenKind::Fn {
            spec_parse_function_declaration(t)
        } else if k == TokenKind::If {
            spec_parse_if(t)
        } else {
            Err(error_at(ParseErrorData::UnsupportedSyntax, t[0].text_range))
        }
    }
}

/// `fn name(params) { body }`.
pub open spec fn spec_parse_function_declaration(t: Seq<Token>) -> Result<(Tree, nat), ParseError>
    decreases t.len(), 1int, 0int,
{
    if t.len() < 2 {
        Err(eof_at(t[0]))
    } else if kind_at(t, 1) != TokenKind::Identifier {
        Err(unexpected(t[1]))
    } else if t.len() < 3 {
        Err(eof_at(t[1]))
    } else if kind_at(t, 2) != TokenKind::OpenParenthesis {
        Err(unexpected(t[2]))
    } else {
        match spec_find_pair(t, 2) {
            Some(e) if 2 < e < t.len() => match spec_parse_parameters(t.subrange(3, e)) {
                Err(err) => Err(err),
                Ok(params) => if e == t.len() - 1 {
                    Err(error_at(ParseErrorData::UnexpectedEOF, slice_span(t)))
                } else if kind_at(t, e + 1) != TokenKind::OpenCurly {
                    Err(unexpected(t[e + 1]))
                } else {
                    match spec_find_pair(t, e + 1) {
                        Some(c) if e + 1 < c < t.len() => match spec_parse_program(t.subrange(e + 2, c)) {
                            Err(err) => Err(err),
                            Ok(body) => Ok(
                                (
                                    Tree {
                                        label: Label::FunctionDeclaration,
                                        children: seq![identifier_leaf(t[1])] + params + seq![body],
                                        span: slice_span(t.subrange(0, c + 1)),
                                    },
                                    (c + 1) as nat,
                                ),
                            ),
                        },
                        _ => Err(error_at(ParseErrorData::UnclosedCurly, slice_span(t))),
                    }
                },
            },
            _ => Err(error_at(ParseErrorData::UnclosedParenthesis, slice_span(t))),
        }
    }
}

/// `if condition { body }`, optionally followed by `else { body }`.
pub open spec fn spec_parse_if(t: Seq<Token>) -> Result<(Tree, nat), ParseError>
    decreases t.len(), 1int, 0int,
{
    match spec_find_free(t, TokenData::OpenCurly) {
        Some(s) if 0 <= s < t.len() => match spec_find_pair(t, s) {
            Some(e) if s < e < t.len() => {
                let condition = if s <= 1 {
                    Err(eof_at(t[0]))
                } else {
                    spec_parse_expr(t.subrange(1, s))
                };
                match condition {
                    Err(err) => Err(err),
                    Ok(c) => match spec_parse_program(t.subrange(s + 1, e)) {
                        Err(err) => Err(err),
                        Ok(body) => spec_parse_if_tail(t, e, c, body),
                    },
                }
            },
            _ => Err(error_at(ParseErrorData::UnclosedCurly, slice_span(t))),
        },
        _ => Err(error_at(ParseErrorData::UnexpectedEOF, slice_span(t))),
    }
}

/// What follows the body of a conditional that closes at `e`: an optional
/// `else { body }`.
pub open spec fn spec_parse_if_tail(t: Seq<Token>, e: int, c: Tree, body: Tree) -> Result<(Tree, nat), ParseError>
    decreases t.len(), 0int, 0int,
{
    if 0 <= e && e + 1 < t.len() && kind_at(t, e + 1) == TokenKind::Else {
        if e + 2 >= t.len() {
            Err(error_at(ParseErrorData::UnexpectedEOF, slice_span(t)))
        } else if kind_at(t, e + 2) != TokenKind::OpenCurly {
            Err(unexpected(t[e + 2]))
        } else {
            match spec_find_pair(t, e + 2) {
                Some(ee) if e + 2 < ee < t.len() => match spec_parse_program(t.subrange(e + 3, ee)) {
                    Err(err) => Err(err),
                    Ok(else_body) => {
                        let else_node = node1(Label::Else, else_body, slice_span(t.subrange(e + 1, ee + 1)));
                        Ok(
                            (
                                Tree {
                                    label: Label::If,
                                    children: seq![c, body, else_node],
                                    span: slice_span(t.subrange(0, ee + 1)),
                                },
                                (ee + 1) as nat,
                            ),
                        )
                    },
                },
                _ => Err(error_at(ParseErrorData::UnclosedCurly, slice_span(t))),
            }
        }
    } else {
        Ok((Tree { label: Label::If, children: seq![c, body], span: slice_span(t.subrange(0, e + 1)) }, (e + 1) as nat))
    }
}

/// A statement takes at least one token and no more than there are.
pub proof fn lemma_stmt_used(t: Seq<Token>)
    ensures
        spec_parse_stmt(t) matches Ok((_, used)) ==> 1 <= used <= t.len(),
{
    reveal(spec_parse_stmt);
}

fn range_of(tokens: &[Token], lo: usize, hi: usize) -> (r: TextRange)
    requires
        lo < hi <= tokens@.len(),
    ensures
        r == slice_span(tokens@.subrange(lo as int, hi as int)),
{
    TextRange { start: tokens[lo].text_range.start, end: tokens[hi - 1].text_range.end }
}

fn identifier_node(t: &Token) -> (r: Node)
    requires
        t.data.spec_kind() == TokenKind::Identifier,
    ensures
        r@ == identifier_leaf(*t),
{
    match &t.data {
        TokenData::Identifier(s) => Node { data: Box::new(NodeData::Identifier(s.clone())), text_range: t.text_range },
        _ => Node { data: Box::new(NodeData::NumericLiteral(0)), text_range: t.text_range },
    }
}

/// Parses the statement at the start of `tokens`; see `spec_parse_stmt`.
pub fn parse_stmt(tokens: &[Token]) -> (r: Result<(Node, usize), ParseError>)
    ensures
        stmt_result(r) == spec_parse_stmt(tokens@),
    decreases tokens@.len(), 2int, 0int,
{
    reveal(spec_parse_stmt);
    let ghost t = tokens@;
    let n = tokens.len();
    if n == 0 {
        return Err(ParseError::new(ParseErrorData::UnexpectedEOF, TextRange::new_empty()));
    }
    let k = tokens[0].data.kind();
    if k == TokenKind::Const || k == TokenKind::Var || k == TokenKind::Let || k == TokenKind::Identifier {
        let semicolon = match tokens.find_free(&TokenData::Semicolon) {
            Some(s) => s,
            None => {
                return Err(ParseError::new(ParseErrorData::MissingSemicolon, range_of(tokens, 0, n)));
            },
        };
        proof {
            lemma_find_free_bounds(t, TokenData::Semicolon);
            assert(t.subrange(0, n as int) =~= t);
        }
        let stmt = slice_subrange(tokens, 0, semicolon + 1);
        let r = if k == TokenKind::Identifier {
            parse_variable_modification(stmt)
        } else {
            parse_variable_declaration(stmt)
        };
        return match r {
            Ok(node) => Ok((node, semicolon + 1)),
            Err(e) => Err(e),
        };
    }
    if k == TokenKind::Fn {
        return parse_function_declaration(tokens);
    }
    if k == TokenKind::If {
        return parse_if(tokens);
    }
    Err(ParseError::new(ParseErrorData::UnsupportedSyntax, tokens[0].text_range))
}

/// A declaration; see `spec_parse_variable_declaration`.
fn parse_variable_declaration(tokens: &[Token]) -> (r: Result<Node, ParseError>)
    requires
        tokens@.len() >= 2,
        is_declaration_keyword(tokens@[0].data.spec_kind()),
        tokens@.last().data.spec_kind() == TokenKind::Semicolon,
    ensures
        node_result(r) == spec_parse_variable_declaration(tokens@),
{
    let n = tokens.len();
    let declaration_type = match tokens[0].data.kind() {
        TokenKind::Const => DeclarationType::Const,
        TokenKind::Var => DeclarationType::Var,
        _ => DeclarationType::Let,
    };
    if tokens[1].data.kind() != TokenKind::Identifier {
        return Err(ParseError::new_unexpected_token(&tokens[1]));
    }
    let identifier = identifier_node(&tokens[1]);
    if tokens[2].data.kind() != TokenKind::Equals {
        return Err(ParseError::new_unexpected_token(&tokens[2]));
    }
    if n <= 4 {
        return Err(ParseError::new_unexpected_eof(tokens[2].text_range));
    }
    let expr = match parse_expr(slice_subrange(tokens, 3, n - 1)) {
        Ok(e) => e,
        Err(e) => {
            return Err(e);
        },
    };
    let text_range = range_of(tokens, 0, n);
    proof {
        assert(tokens@.subrange(0, n as int) =~= tokens@);
    }
    Ok(Node { data: Box::new(NodeData::VariableDeclaration(declaration_type, identifier, expr)), text_range })
}

/// `fn name(params) { body }`; see `spec_parse_function_declaration`.
fn parse_function_declaration(tokens: &[Token]) -> (r: Result<(Node, usize), ParseError>)
    requires
        tokens@.len() > 0,
        tokens@[0].data.spec_kind() == TokenKind::Fn,
    ensures
        stmt_result(r) == spec_parse_function_declaration(tokens@),
    decreases tokens@.len(), 1int, 0int,
{
    let ghost t = tokens@;
    let n = tokens.len();
    if n < 2 {
        return Err(ParseError::new_unexpected_eof(tokens[0].text_range));
    }
    if tokens[1].data.kind() != TokenKind::Identifier {
        return Err(ParseError::new_unexpected_token(&tokens[1]));
    }
    let identifier = identifier_node(&tokens[1]);
    if n < 3 {
        return Err(ParseError::new_unexpected_eof(tokens[1].text_range));
    }
    if tokens[2].data.kind() != TokenKind::OpenParenthesis {
        return Err(ParseError::new_unexpected_token(&tokens[2]));
    }
    let end_parenthesis = match tokens.find_pair(2) {
        Some(e) => e,
        None => {
            return Err(ParseError::new(ParseErrorData::UnclosedParenthesis, range_of(tokens, 0, n)));
        },
    };
    proof {
        lemma_find_pair_opener(t, 2);
        assert(t.subrange(0, n as int) =~= t);
    }
    let parameters = match parse_parameters(slice_subrange(tokens, 3, end_parenthesis)) {
        Ok(p) => p,
        Err(e) => {
            return Err(e);
        },
    };
    if end_parenthesis == n - 1 {
        return Err(ParseError::new_unexpected_eof(range_of(tokens, 0, n)));
    }
    if tokens[end_parenthesis + 1].data.kind() != TokenKind::OpenCurly {
        return Err(ParseError::new_unexpected_token(&tokens[end_parenthesis + 1]));
    }
    let end_curly = match tokens.find_pair(end_parenthesis + 1) {
        Some(c) => c,
        None => {
            return Err(ParseError::new(ParseErrorData::UnclosedCurly, range_of(tokens, 0, n)));
        },
    };
    proof {
        lemma_find_pair_opener(t, end_parenthesis + 1);
    }
    let body = match parse_tks(slice_subrange(tokens, end_parenthesis + 2, end_curly)) {
        Ok(b) => b,
        Err(e) => {
            return Err(e);
        },
    };
    let text_range = range_of(tokens, 0, end_curly + 1);
    let node = Node { data: Box::new(NodeData::FunctionDeclaration(identifier, parameters, body)), text_range };
    Ok((node, end_curly + 1))
}

/// `if condition { body } else { body }`; see `spec_parse_if`.
fn parse_if(tokens: &[Token]) -> (r: Result<(Node, usize), ParseError>)
    requires
        tokens@.len() > 0,
        tokens@[0].data.spec_kind() == TokenKind::If,
    ensures
        stmt_result(r) == spec_parse_if(tokens@),
    decreases tokens@.len(), 1int, 0int,
{
    let ghost t = tokens@;
    let n = tokens.len();
    proof {
        assert(t.subrange(0, n as int) =~= t);
    }
    let start_curly = match tokens.find_free(&TokenData::OpenCurly) {
        Some(s) => s,
        None => {
            return Err(ParseError::new(ParseErrorData::UnexpectedEOF, range_of(tokens, 0, n)));
        },
    };
    proof {
        lemma_find_free_bounds(t, TokenData::OpenCurly);
    }
    let end_curly = match tokens.find_pair(start_curly) {
        Some(e) => e,
        None => {
            return Err(ParseError::new(ParseErrorData::UnclosedCurly, range_of(tokens, 0, n)));
        },
    };
    proof {
        lemma_find_pair_opener(t, start_curly as int);
    }
    if start_curly <= 1 {
        return Err(ParseError::new_unexpected_eof(tokens[0].text_range));
    }
    let condition = match parse_expr(slice_subrange(tokens, 1, start_curly)) {
        Ok(c) => c,
        Err(e) => {
            return Err(e);
        },
    };
    let body = match parse_tks(slice_subrange(tokens, start_curly + 1, end_curly)) {
        Ok(b) => b,
        Err(e) => {
            return Err(e);
        },
    };
    parse_if_tail(tokens, end_curly, condition, body)
}

/// The optional `else` branch after the body that closes at `end_curly`.
fn parse_if_tail(tokens: &[Token], end_curly: usize, condition: Node, body: Node) -> (r: Result<(Node, usize), ParseError>)
    requires
        end_curly < tokens@.len(),
    ensures
        stmt_result(r) == spec_parse_if_tail(tokens@, end_curly as int, condition@, body@),
    decreases tokens@.len(), 0int, 0int,
{
    let ghost t = tokens@;
    let n = tokens.len();
    proof {
        assert(t.subrange(0, n as int) =~= t);
    }
    if end_curly + 1 < n && tokens[end_curly + 1].data.kind() == TokenKind::Else {
        if end_curly + 2 >= n {
            return Err(ParseError::new(ParseErrorData::UnexpectedEOF, range_of(tokens, 0, n)));
        }
        if tokens[end_curly + 2].data.kind() != TokenKind::OpenCurly {
            return Err(ParseError::new_unexpected_token(&tokens[end_curly + 2]));
        }
        let else_start_curly = end_curly + 2;
        let else_end_curly = match tokens.find_pair(else_start_curly) {
            Some(e) => e,
            None => {
                return Err(ParseError::new(ParseErrorData::UnclosedCurly, range_of(tokens, 0, n)));
            },
        };
        proof {
            lemma_find_pair_opener(t, else_start_curly as int);
        }
        let else_body = match parse_tks(slice_subrange(tokens, else_start_curly + 1, else_end_curly)) {
            Ok(b) => b,
            Err(e) => {
                return Err(e);
            },
        };
        let ghost else_view = else_body@;
        let else_node = Node {
            data: Box::new(NodeData::Else(else_body)),
            text_range: range_of(tokens, end_curly + 1, else_end_curly + 1),
        };
        let text_range = range_of(tokens, 0, else_end_curly + 1);
        let ghost ev = else_node@;
        assert(ev == node1(Label::Else, else_view, else_node.text_range));
        let ghost cv = condition@;
        let ghost bv = body@;
        let node = Node { data: Box::new(NodeData::If(condition, body, Some(else_node))), text_range };
        assert(node@ == Tree { label: Label::If, children: seq![cv, bv, ev], span: text_range });
        Ok((node, else_end_curly + 1))
    } else {
        let text_range = range_of(tokens, 0, end_curly + 1);
        let ghost cv = condition@;
        let ghost bv = body@;
        let node = Node { data: Box::new(NodeData::If(condition, body, None)), text_range };
        assert(node@ == Tree { label: Label::If, children: seq![cv, bv], span: text_range });
        Ok((node, end_curly + 1))
    }
}

/// An assignment; see `spec_parse_variable_modification`.
fn parse_variable_modification(tokens: &[Token]) -> (r: Result<Node, ParseError>)
    requires
        tokens@.len() >= 1,
        tokens@.last().data.spec_kind() == TokenKind::Semicolon,
    ensures
        node_result(r) == spec_parse_variable_modification(tokens@),
{
    let ghost t = tokens@;
    let n = tokens.len();
    proof {
        assert(t.subrange(0, n as int) =~= t);
    }
    let mut i: usize = 0;
    let mut expect_comma = false;
    let mut found: Option<VariableModificationType> = None;
    while found.is_none()
        invariant
            t == tokens@,
            n == t.len(),
            n >= 1,
            i <= n - 1,
            found is None ==> modification_from(t, 0, false) == modification_from(t, i as int, expect_comma),
            found matches Some(m) ==> modification_from(t, 0, false) == Ok::<(int, VariableModificationType), ParseError>(
                (i as int, m),
            ),
        decreases n - i, if found is None { 1int } else { 0int },
    {
        if i >= n - 1 {
            return Err(ParseError::new_unexpected_eof(range_of(tokens, 0, n)));
        }
        found = tokens[i].data.variable_modification_type();
        if found.is_some() {
            continue;
        }
        let k = tokens[i].data.kind();
        if (!expect_comma && k != TokenKind::Identifier) || (expect_comma && k != TokenKind::Comma) {
            return Err(ParseError::new_unexpected_token(&tokens[i]));
        }
        expect_comma = !expect_comma;
        i = i + 1;
    }
    let mod_idx = i;
    let variable_mod = found.unwrap();
    if mod_idx == 0 {
        return Err(ParseError::new_unexpected_eof(tokens[0].text_range));
    }
    let target = match parse_expr(slice_subrange(tokens, 0, mod_idx)) {
        Ok(e) => e,
        Err(e) => {
            return Err(e);
        },
    };
    if mod_idx + 1 >= n - 1 {
        return Err(ParseError::new_unexpected_eof(tokens[mod_idx].text_range));
    }
    let value = match parse_expr(slice_subrange(tokens, mod_idx + 1, n - 1)) {
        Ok(e) => e,
        Err(e) => {
            return Err(e);
        },
    };
    let text_range = range_of(tokens, 0, n);
    Ok(Node { data: Box::new(NodeData::VariableModification(target, variable_mod, value)), text_range })
}

} // verus!
