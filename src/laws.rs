use vstd::prelude::*;

use crate::ast::{Node, Tree};
use crate::parser::expr::{spec_parse_chain, spec_parse_list};
use crate::parser::stmt::spec_parse_stmt;
use crate::parser::{node_result, slice_span, spec_parse_program, ParseError};
use crate::text_data::{span_join, TextPos, TextRange};
use crate::tokenizer::{
    digit_run, ident_run, is_digit, is_ident_char, lex_from, spec_find_pair, spec_tokenize, symbol_at,
    symbol_from, symbol_table, token_at, tokenize_result_view, Symbol, Token, TokenKind, TokenView, TokenizeError,
};

verus! {

/// Tokenizing one text twice gives tokens with the same kinds, payloads and
/// spans, or the same error: the result is fixed by the text.
pub proof fn lemma_tokenize_deterministic(
    src: Seq<char>,
    first: Result<Vec<Token>, TokenizeError>,
    second: Result<Vec<Token>, TokenizeError>,
)
    requires
        tokenize_result_view(first) == spec_tokenize(src),
        tokenize_result_view(second) == spec_tokenize(src),
    ensures
        tokenize_result_view(first) == tokenize_result_view(second),
{
}

/// Parsing one token sequence twice gives the same tree, or the same error.
pub proof fn lemma_parse_deterministic(
    tokens: Seq<Token>,
    first: Result<Node, ParseError>,
    second: Result<Node, ParseError>,
)
    requires
        node_result(first) == spec_parse_program(tokens),
        node_result(second) == spec_parse_program(tokens),
    ensures
        node_result(first) == node_result(second),
{
}

/// A program spans from the start of its first statement to the end of its
/// last one.
pub proof fn lemma_program_span(t: Seq<Token>)
    ensures
        spec_parse_program(t) matches Ok(p) ==> p.children.len() > 0 ==> p.span == span_join(
            p.children[0].span,
            p.children.last().span,
        ),
{
    reveal(spec_parse_program);
}

/// Every statement's span runs from the start of its first token to the end
/// of the last token it consumes.
pub proof fn lemma_statement_span(t: Seq<Token>)
    ensures
        spec_parse_stmt(t) matches Ok((n, used)) ==> n.span == slice_span(t.subrange(0, used as int)),
{
    reveal(spec_parse_stmt);
}

/// The line and column of index `i` of `s`: lines count from one, columns
/// from zero, and a newline moves to the start of the next line.
pub open spec fn position(s: Seq<char>, i: int) -> (nat, nat)
    decreases i,
{
    if i <= 0 {
        (1, 0)
    } else {
        let p = position(s, i - 1);
        if s[i - 1] == '\n' {
            (p.0 + 1, 0)
        } else {
            (p.0, p.1 + 1)
        }
    }
}

pub open spec fn text_pos(p: (nat, nat)) -> TextPos {
    TextPos { line: p.0 as usize, pos: p.1 as usize }
}

/// Token `tok` is spelled by the `n` characters of `s` from `i`, and its
/// span runs from the position of the first of them to the position right
/// after the last.
pub open spec fn spelled_at(tok: TokenView, s: Seq<char>, i: int, n: int) -> bool {
    &&& 0 <= i
    &&& i + n <= s.len()
    &&& token_at(s, i) == Some((tok.kind, n as nat))
    &&& tok.text_range == TextRange { start: text_pos(position(s, i)), end: text_pos(position(s, i + n)) }
}

/// Token `tok` is spelled by some characters of `s`, as `spelled_at` says.
pub open spec fn spelled_in(tok: TokenView, s: Seq<char>) -> bool {
    exists|i: int, n: int| spelled_at(tok, s, i, n)
}

/// Every token's span delimits exactly the characters that spell it.
pub proof fn lemma_token_spans(s: Seq<char>)
    ensures
        spec_tokenize(s) matches Ok(toks) ==> forall|k: int|
            0 <= k < toks.len() ==> #[trigger] spelled_in(toks[k], s),
{
    lemma_lex_spans(s, 0, 1, 0);
}

proof fn lemma_lex_spans(s: Seq<char>, i: int, line: nat, col: nat)
    requires
        0 <= i <= s.len(),
        position(s, i) == (line, col),
    ensures
        lex_from(s, i, line, col) matches Ok(toks) ==> forall|k: int|
            0 <= k < toks.len() ==> #[trigger] spelled_in(toks[k], s),
    decreases s.len() - i,
{
    if i < s.len() {
        if s[i] == '\n' {
            lemma_lex_spans(s, i + 1, line + 1, 0);
        } else if s[i] == ' ' || s[i] == '\t' {
            lemma_lex_spans(s, i + 1, line, col + 1);
        } else {
            crate::tokenizer::lemma_token_len(s, i);
            if let Some((kind, n)) = token_at(s, i) {
                lemma_token_has_no_newline(s, i);
                lemma_position_along(s, i, n as int);
                lemma_lex_spans(s, i + n, line, col + n);
                if let Ok(toks) = lex_from(s, i, line, col) {
                    let rest = lex_from(s, i + n, line, col + n);
                    if let Ok(r) = rest {
                        assert(toks =~= seq![toks[0]] + r);
                        assert forall|k: int| 0 <= k < toks.len() implies #[trigger] spelled_in(toks[k], s) by {
                            if k == 0 {
                                assert(spelled_at(toks[0], s, i, n as int));
                            } else {
                                assert(toks[k] == r[k - 1]);
                                assert(spelled_in(r[k - 1], s));
                            }
                        }
                    }
                }
            }
        }
    }
}

/// Moving along `m` characters without a newline keeps the line and adds
/// `m` to the column.
proof fn lemma_position_along(s: Seq<char>, i: int, m: int)
    requires
        0 <= i,
        0 <= m,
        i + m <= s.len(),
        forall|j: int| i <= j < i + m ==> s[j] != '\n',
    ensures
        position(s, i + m) == (position(s, i).0, position(s, i).1 + m as nat),
    decreases m,
{
    if m > 0 {
        lemma_position_along(s, i, m - 1);
    }
}

proof fn lemma_ident_run_chars(s: Seq<char>, i: int)
    requires
        0 <= i,
    ensures
        forall|j: int| i <= j < i + ident_run(s, i) ==> is_ident_char(s[j]),
    decreases s.len() - i,
{
    if 0 <= i < s.len() && is_ident_char(s[i]) {
        lemma_ident_run_chars(s, i + 1);
    }
}

proof fn lemma_digit_run_chars(s: Seq<char>, i: int)
    requires
        0 <= i,
    ensures
        forall|j: int| i <= j < i + digit_run(s, i) ==> is_digit(s[j]),
    decreases s.len() - i,
{
    if 0 <= i < s.len() && is_digit(s[i]) {
        lemma_digit_run_chars(s, i + 1);
    }
}

proof fn lemma_symbol_chars(table: Seq<Symbol>, s: Seq<char>, i: int, k: int)
    requires
        forall|j: int| 0 <= j < table.len() ==> (#[trigger] table[j]).0 != '\n' && table[j].1 != Some('\n'),
    ensures
        symbol_from(table, s, i, k) matches Some((_, n)) ==> forall|j: int| i <= j < i + n ==> s[j] != '\n',
    decreases table.len() - k,
{
    if 0 <= k < table.len() && !symbol_at(table[k], s, i) {
        lemma_symbol_chars(table, s, i, k + 1);
    }
}

/// No token spans a newline.
proof fn lemma_token_has_no_newline(s: Seq<char>, i: int)
    requires
        0 <= i < s.len(),
    ensures
        token_at(s, i) matches Some((_, n)) ==> forall|j: int| i <= j < i + n ==> s[j] != '\n',
{
    lemma_ident_run_chars(s, i + 1);
    lemma_digit_run_chars(s, i + 1);
    assert forall|j: int| 0 <= j < symbol_table().len() implies (#[trigger] symbol_table()[j]).0 != '\n'
        && symbol_table()[j].1 != Some('\n') by {}
    lemma_symbol_chars(symbol_table(), s, i, 0);
}

/// A call suffix that runs to the end of the tokens builds a call whose
/// first child is the callee and whose span runs from the callee's start to
/// the end of the closing parenthesis.
pub proof fn lemma_call_span(base: Tree, t: Seq<Token>)
    requires
        t.len() > 0,
        t[0].data.spec_kind() == TokenKind::OpenParenthesis,
        spec_find_pair(t, 0) == Some(t.len() - 1),
    ensures
        spec_parse_chain(base, t) matches Ok(n) ==> {
            &&& n.label is FunctionCall
            &&& n.children[0] == base
            &&& n.span == span_join(base.span, t.last().text_range)
        },
{
    let j = t.len() - 1;
    if t.len() > 1 {
        if let Ok(n) = spec_parse_chain(base, t) {
            let args = if j == 1 {
                Ok(Seq::<Tree>::empty())
            } else {
                spec_parse_list(t, 1, j)
            };
            if let Ok(a) = args {
                let call = Tree {
                    label: crate::ast::Label::FunctionCall,
                    children: seq![base] + a,
                    span: span_join(base.span, t[j].text_range),
                };
                assert(t.subrange(j + 1, t.len() as int) =~= Seq::<Token>::empty());
                assert(spec_parse_chain(call, t.subrange(j + 1, t.len() as int)) == Ok::<Tree, ParseError>(call));
                assert(call.children[0] == base);
            }
        }
    }
}

} // verus!
