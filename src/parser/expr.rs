use vstd::prelude::*;

use crate::ast::{
    leaf, lemma_nodes_view_all, node1, node2, nodes_view, view_all, Label, Node, NodeData, OperatorType,
    PropertyAccessType, Tree,
};
use crate::parser::utils::delimiter_checker::{forward_step, is_free, no_nesting, DelimiterChecker, Nesting};
use crate::parser::{eof_at, error_at, node_result, slice_span, unexpected, ParseError, ParseErrorData};
use crate::text_data::{empty_range, span_join, TextRange};
use crate::tokenizer::{
    lemma_find_free_bounds, lemma_find_pair_opener, spec_find_free, spec_find_pair, Token, TokenData, TokenKind,
    TokensUtils,
};
use vstd::slice::slice_subrange;

verus! {

pub open spec fn kind_at(t: Seq<Token>, i: int) -> TokenKind {
    t[i].data.spec_kind()
}

/// The positions, from `i` on, of the binary operators that stand outside
/// every bracket; an operator in first position is not binary. Fails on the
/// first closer that matches no opener.
pub open spec fn operators_from(t: Seq<Token>, n: Nesting, i: int) -> Result<Seq<int>, ParseError>
    decreases t.len() - i,
{
    if i < 0 || i >= t.len() {
        Ok(Seq::empty())
    } else {
        match forward_step(n, kind_at(t, i)) {
            None => Err(unexpected(t[i])),
            Some(m) => {
                let binary = i != 0 && t[i].data.spec_operator_type() is Some && is_free(m);
                match operators_from(t, m, i + 1) {
                    Ok(rest) => Ok(if binary { seq![i] + rest } else { rest }),
                    Err(e) => Err(e),
                }
            },
        }
    }
}

pub open spec fn spec_operators(t: Seq<Token>) -> Result<Seq<int>, ParseError> {
    operators_from(t, no_nesting(), 0)
}

/// The operator types of the tokens at positions `ops`.
pub open spec fn operator_types(t: Seq<Token>, ops: Seq<int>) -> Seq<OperatorType> {
    ops.map_values(|i: int| t[i].data.spec_operator_type().unwrap())
}

/// Where the `k`-th operand starts: after the operator before it.
pub open spec fn operand_start(ops: Seq<int>, k: int) -> int {
    if k == 0 {
        0
    } else {
        ops[k - 1] + 1
    }
}

/// Where the `k`-th operand ends: at the operator after it.
pub open spec fn operand_end(t: Seq<Token>, ops: Seq<int>, k: int) -> int {
    if k == ops.len() {
        t.len() as int
    } else {
        ops[k]
    }
}

pub open spec fn in_class(op: OperatorType, class: Seq<OperatorType>) -> bool {
    class.contains(op)
}

/// One folding pass from `ptr` on: each operator of `class`, left to right,
/// joins its two neighbours into one binary node.
pub open spec fn fold_pass(nodes: Seq<Tree>, ops: Seq<OperatorType>, class: Seq<OperatorType>, ptr: int) -> (
    Seq<Tree>,
    Seq<OperatorType>,
)
    decreases 2 * ops.len() - ptr,
{
    if ptr < 0 || ptr >= ops.len() {
        (nodes, ops)
    } else if in_class(ops[ptr], class) {
        let left = nodes[ptr];
        let right = nodes[ptr + 1];
        let joined = node2(Label::BinaryExpr(ops[ptr]), left, right, span_join(left.span, right.span));
        fold_pass(nodes.remove(ptr).remove(ptr).insert(ptr, joined), ops.remove(ptr), class, ptr)
    } else {
        fold_pass(nodes, ops, class, ptr + 1)
    }
}

pub open spec fn class_mul() -> Seq<OperatorType> {
    seq![OperatorType::Mul, OperatorType::Div]
}

pub open spec fn class_add() -> Seq<OperatorType> {
    seq![OperatorType::Add, OperatorType::Sub]
}

pub open spec fn class_eq() -> Seq<OperatorType> {
    seq![OperatorType::NotEquals, OperatorType::IsEquals]
}

pub open spec fn class_or() -> Seq<OperatorType> {
    seq![OperatorType::Or]
}

/// The four passes, strongest operators first.
pub open spec fn fold_all(nodes: Seq<Tree>, ops: Seq<OperatorType>) -> Tree {
    let after_mul = fold_pass(nodes, ops, class_mul(), 0);
    let after_add = fold_pass(after_mul.0, after_mul.1, class_add(), 0);
    let after_eq = fold_pass(after_add.0, after_add.1, class_eq(), 0);
    let after_or = fold_pass(after_eq.0, after_eq.1, class_or(), 0);
    after_or.0[0]
}

pub open spec fn identifier_leaf(t: Token) -> Tree {
    leaf(Label::Identifier(t.data.text()), t.text_range)
}

/// A single token as an expression: an identifier or a numeric literal.
pub open spec fn spec_parse_primary(t: Token) -> Result<Tree, ParseError> {
    match t.data.spec_kind() {
        TokenKind::Identifier => Ok(identifier_leaf(t)),
        TokenKind::NumericLiteral => Ok(leaf(Label::NumericLiteral(t.data.value()), t.text_range)),
        _ => Err(unexpected(t)),
    }
}

pub open spec fn prepend_tree(first: Result<Tree, ParseError>, rest: Result<Seq<Tree>, ParseError>) -> Result<
    Seq<Tree>,
    ParseError,
> {
    match first {
        Err(e) => Err(e),
        Ok(n) => match rest {
            Err(e) => Err(e),
            Ok(r) => Ok(seq![n] + r),
        },
    }
}

/// An expression: a tuple where a comma stands outside every bracket;
/// otherwise operands between the binary operators, folded by strength.
pub open spec fn spec_parse_expr(t: Seq<Token>) -> Result<Tree, ParseError>
    decreases t.len(), 4int, 0int,
{
    if t.len() == 0 {
        Err(error_at(ParseErrorData::UnexpectedEOF, empty_range()))
    } else if spec_find_free(t, TokenData::Comma) is Some {
        spec_parse_tuple(t)
    } else {
        match spec_operators(t) {
            Err(e) => Err(e),
            Ok(ops) => match parse_operands(t, ops, 0) {
                Err(e) => Err(e),
                Ok(nodes) => Ok(fold_all(nodes, operator_types(t, ops))),
            },
        }
    }
}

/// The operands from the `k`-th on. An empty operand, which follows an
/// operator, is an unexpected end at that operator.
pub open spec fn parse_operands(t: Seq<Token>, ops: Seq<int>, k: int) -> Result<Seq<Tree>, ParseError>
    decreases t.len(), 3int, ops.len() + 1 - k,
{
    if k < 0 || k > ops.len() {
        Ok(Seq::empty())
    } else {
        let lo = operand_start(ops, k);
        let hi = operand_end(t, ops, k);
        if 0 <= lo < hi <= t.len() {
            prepend_tree(spec_parse_component(t.subrange(lo, hi)), parse_operands(t, ops, k + 1))
        } else {
            Err(eof_at(t[lo - 1]))
        }
    }
}

/// One operand: a primary, a negation, a parenthesized expression, a tuple,
/// or an identifier followed by a chain of suffixes.
pub open spec fn spec_parse_component(t: Seq<Token>) -> Result<Tree, ParseError>
    decreases t.len(), 2int, 0int,
{
    if t.len() == 0 {
        Err(error_at(ParseErrorData::UnexpectedEOF, empty_range()))
    } else if t.len() == 1 {
        spec_parse_primary(t[0])
    } else if kind_at(t, 0) == TokenKind::Sub {
        match spec_parse_expr(t.subrange(1, t.len() as int)) {
            Ok(e) => Ok(node1(Label::Neg, e, slice_span(t))),
            Err(e) => Err(e),
        }
    } else if kind_at(t, 0) == TokenKind::OpenParenthesis && spec_find_pair(t, 0) is None {
        Err(error_at(ParseErrorData::UnclosedParenthesis, slice_span(t)))
    } else if kind_at(t, 0) == TokenKind::OpenParenthesis && spec_find_pair(t, 0) == Some(t.len() - 1) {
        if t.len() == 2 {
            Err(eof_at(t[0]))
        } else {
            spec_parse_expr(t.subrange(1, t.len() - 1))
        }
    } else if spec_find_free(t, TokenData::Comma) is Some {
        spec_parse_tuple(t)
    } else if kind_at(t, 0) == TokenKind::Identifier {
        spec_parse_chain(identifier_leaf(t[0]), t.subrange(1, t.len() as int))
    } else {
        Err(error_at(ParseErrorData::UnsupportedSyntax, slice_span(t)))
    }
}

/// A tuple: the expressions between the commas that stand outside every bracket.
pub open spec fn spec_parse_tuple(t: Seq<Token>) -> Result<Tree, ParseError>
    decreases t.len(), 1int, 0int,
{
    match spec_find_free(t, TokenData::Comma) {
        Some(c) => if 0 <= c < t.len() {
            let first = if c == 0 {
                Err(eof_at(t[0]))
            } else {
                spec_parse_expr(t.subrange(0, c))
            };
            match prepend_tree(first, spec_parse_list(t, c + 1, t.len() as int)) {
                Ok(items) => Ok(Tree { label: Label::Tuple, children: items, span: slice_span(t) }),
                Err(e) => Err(e),
            }
        } else {
            Err(error_at(ParseErrorData::UnsupportedSyntax, slice_span(t)))
        },
        None => Err(error_at(ParseErrorData::UnsupportedSyntax, slice_span(t))),
    }
}

/// The expressions of `t[lo..hi]` separated by commas outside every bracket.
/// An empty piece is an unexpected end at the comma or opener next to it.
pub open spec fn spec_parse_list(t: Seq<Token>, lo: int, hi: int) -> Result<Seq<Tree>, ParseError>
    decreases hi - lo, 5int, 0int,
{
    if lo >= hi || lo < 1 || hi > t.len() {
        Err(eof_at(t[lo - 1]))
    } else {
        let s = t.subrange(lo, hi);
        match spec_find_free(s, TokenData::Comma) {
            None => match spec_parse_expr(s) {
                Ok(n) => Ok(seq![n]),
                Err(e) => Err(e),
            },
            Some(k) => if 0 <= k < s.len() {
                let first = if k == 0 {
                    Err(eof_at(t[lo]))
                } else {
                    spec_parse_expr(s.subrange(0, k))
                };
                prepend_tree(first, spec_parse_list(t, lo + k + 1, hi))
            } else {
                Err(eof_at(t[lo]))
            },
        }
    }
}

/// The suffixes after `base`: calls, property and module accesses, and
/// index accesses, each applied to what the ones before built.
pub open spec fn spec_parse_chain(base: Tree, t: Seq<Token>) -> Result<Tree, ParseError>
    decreases t.len(), 1int, 0int,
{
    if t.len() == 0 {
        Ok(base)
    } else {
        match kind_at(t, 0) {
            TokenKind::OpenParenthesis => match spec_find_pair(t, 0) {
                None => Err(error_at(ParseErrorData::UnclosedParenthesis, slice_span(t))),
                Some(j) => if 1 <= j < t.len() {
                    let args = if j == 1 {
                        Ok(Seq::empty())
                    } else {
                        spec_parse_list(t, 1, j)
                    };
                    match args {
                        Err(e) => Err(e),
                        Ok(a) => {
                            let call = Tree {
                                label: Label::FunctionCall,
                                children: seq![base] + a,
                                span: span_join(base.span, t[j].text_range),
                            };
                            spec_parse_chain(call, t.subrange(j + 1, t.len() as int))
                        },
                    }
                } else {
                    Err(error_at(ParseErrorData::UnclosedParenthesis, slice_span(t)))
                },
            },
            TokenKind::Dot | TokenKind::ModAccess => if t.len() < 2 {
                Err(unexpected(t[0]))
            } else if kind_at(t, 1) == TokenKind::Identifier {
                let label = if kind_at(t, 0) == TokenKind::Dot {
                    Label::StructAccess
                } else {
                    Label::ModAccess
                };
                let access = node2(label, base, identifier_leaf(t[1]), span_join(base.span, t[1].text_range));
                spec_parse_chain(access, t.subrange(2, t.len() as int))
            } else {
                Err(unexpected(t[1]))
            },
            TokenKind::OpenBracket => match spec_find_pair(t, 0) {
                None => Err(error_at(ParseErrorData::UnclosedBracket, slice_span(t))),
                Some(j) => if 1 <= j < t.len() {
                    let index = if j == 1 {
                        Err(eof_at(t[0]))
                    } else {
                        spec_parse_expr(t.subrange(1, j))
                    };
                    match index {
                        Err(e) => Err(e),
                        Ok(i) => {
                            let access = node2(Label::ArrayAccess, base, i, span_join(base.span, t[j].text_range));
                            spec_parse_chain(access, t.subrange(j + 1, t.len() as int))
                        },
                    }
                } else {
                    Err(error_at(ParseErrorData::UnclosedBracket, slice_span(t)))
                },
            },
            _ => Err(error_at(ParseErrorData::UnsupportedSyntax, t[0].text_range)),
        }
    }
}

// ---------------------------------------------------------------------------
// The parser.
pub open spec fn nodes_result(r: Result<Vec<Node>, ParseError>) -> Result<Seq<Tree>, ParseError> {
    match r {
        Ok(v) => Ok(nodes_view(v@)),
        Err(e) => Err(e),
    }
}

pub open spec fn as_ints(v: Seq<usize>) -> Seq<int> {
    v.map_values(|p: usize| p as int)
}

pub open spec fn prepend_ints(pre: Seq<int>, r: Result<Seq<int>, ParseError>) -> Result<Seq<int>, ParseError> {
    match r {
        Ok(rest) => Ok(pre + rest),
        Err(e) => Err(e),
    }
}

pub open spec fn prepend_trees(pre: Seq<Tree>, r: Result<Seq<Tree>, ParseError>) -> Result<Seq<Tree>, ParseError> {
    match r {
        Ok(rest) => Ok(pre + rest),
        Err(e) => Err(e),
    }
}

/// A leaf for the identifier token `t`.
fn identifier_node(t: &Token) -> (r: Node)
    requires
        t.data.spec_kind() == TokenKind::Identifier,
    ensures
        r@ == identifier_leaf(*t),
{
    match &t.data {
        TokenData::Identifier(s) => Node { data: Box::new(NodeData::Identifier(s.clone())), text_range: t.text_range },
        _ => Node { data: Box::new(NodeData::NumericLiteral(0)), text_range: t.text_range },
    }
}

fn range_of(tokens: &[Token]) -> (r: TextRange)
    requires
        tokens@.len() > 0,
    ensures
        r == slice_span(tokens@),
{
    TextRange { start: tokens[0].text_range.start, end: tokens[tokens.len() - 1].text_range.end }
}

/// Whether `class` holds `op`.
fn class_contains(class: &[OperatorType], op: OperatorType) -> (r: bool)
    ensures
        r == in_class(op, class@),
{
    let mut k: usize = 0;
    while k < class.len()
        invariant
            k <= class@.len(),
            forall|j: int| 0 <= j < k ==> class@[j] != op,
        decreases class@.len() - k,
    {
        if class[k] == op {
            assert(class@[k as int] == op);
            return true;
        }
        k = k + 1;
    }
    false
}

/// Parses an expression; see `spec_parse_expr`.
pub fn parse_expr(tokens: &[Token]) -> (r: Result<Node, ParseError>)
    requires
        tokens@.len() > 0,
    ensures
        node_result(r) == spec_parse_expr(tokens@),
    decreases tokens@.len(), 4int, 0int,
{
    let ghost t = tokens@;
    if tokens.find_free(&TokenData::Comma).is_some() {
        return parse_tuple(tokens);
    }
    // Find the binary operators outside every bracket.
    let mut op_pos: Vec<usize> = Vec::new();
    let mut operators: Vec<OperatorType> = Vec::new();
    let mut checker = DelimiterChecker::new();
    let mut i: usize = 0;
    proof {
        assert(as_ints(op_pos@) =~= Seq::<int>::empty());
        match spec_operators(t) {
            Ok(s) => { assert(Seq::<int>::empty() + s =~= s); },
            Err(_) => {},
        }
    }
    while i < tokens.len()
        invariant
            t == tokens@,
            spec_find_free(t, TokenData::Comma) is None,
            i <= t.len(),
            checker@.paren + checker@.curly + checker@.brack <= i,
            spec_operators(t) == prepend_ints(as_ints(op_pos@), operators_from(t, checker@, i as int)),
            operators@ == operator_types(t, as_ints(op_pos@)),
            op_pos@.len() == 0 || op_pos@.len() < i,
            forall|k: int| 0 <= k < op_pos@.len() ==> 1 <= #[trigger] op_pos@[k] < i,
            forall|k: int| 0 <= k < op_pos@.len() - 1 ==> #[trigger] op_pos@[k] < op_pos@[k + 1],
        decreases t.len() - i,
    {
        let tk = &tokens[i];
        let ghost before = checker@;
        match checker.check(tk) {
            Err(e) => {
                proof {
                    assert(operators_from(t, before, i as int) == Err::<Seq<int>, ParseError>(unexpected(t[i as int])));
                }
                return Err(ParseError::from_delimiter_error(&e));
            },
            Ok(()) => {},
        }
        let binary = i != 0 && tk.data.operator_type().is_some() && checker.is_free();
        proof {
            let rest = operators_from(t, checker@, i + 1);
            if binary {
                match rest {
                    Ok(r) => {
                        assert(as_ints(op_pos@) + (seq![i as int] + r) =~= as_ints(op_pos@.push(i)) + r);
                    },
                    Err(_) => {},
                }
            }
        }
        if binary {
            let op = tk.data.operator_type().unwrap();
            proof {
                assert(as_ints(op_pos@.push(i)) =~= as_ints(op_pos@).push(i as int));
                assert(operator_types(t, as_ints(op_pos@.push(i))) =~= operators@.push(op));
            }
            op_pos.push(i);
            operators.push(op);
        }
        i = i + 1;
    }
    proof {
        assert(as_ints(op_pos@) + Seq::<int>::empty() =~= as_ints(op_pos@));
    }
    let ghost ops = as_ints(op_pos@);
    assert(t.len() == tokens.len());
    // Parse the operands between them.
    let mut nodes: Vec<Node> = Vec::new();
    let mut k: usize = 0;
    proof {
        assert(nodes_view(nodes@) =~= Seq::<Tree>::empty());
        match parse_operands(t, ops, 0) {
            Ok(s) => { assert(Seq::<Tree>::empty() + s =~= s); },
            Err(_) => {},
        }
    }
    while k <= op_pos.len()
        invariant
            t == tokens@,
            t.len() > 0,
            spec_find_free(t, TokenData::Comma) is None,
            spec_operators(t) == Ok::<Seq<int>, ParseError>(ops),
            operators@ == operator_types(t, ops),
            t.len() <= usize::MAX,
            ops == as_ints(op_pos@),
            op_pos@.len() < t.len(),
            forall|j: int| 0 <= j < op_pos@.len() ==> 1 <= #[trigger] op_pos@[j] < t.len(),
            forall|j: int| 0 <= j < op_pos@.len() - 1 ==> #[trigger] op_pos@[j] < op_pos@[j + 1],
            k <= op_pos@.len() + 1,
            nodes@.len() == k,
            parse_operands(t, ops, 0) == prepend_trees(nodes_view(nodes@), parse_operands(t, ops, k as int)),
        decreases op_pos@.len() + 1 - k,
    {
        assert(k > 0 ==> op_pos@[k - 1] < t.len());
        let lo: usize = if k == 0 { 0 } else { op_pos[k - 1] + 1 };
        let hi: usize = if k == op_pos.len() { tokens.len() } else { op_pos[k] };
        assert(lo <= hi) by {
            if k > 0 && k < op_pos@.len() {
                assert(op_pos@[k - 1] < op_pos@[k as int]);
            }
        }
        assert(lo == operand_start(ops, k as int) && hi == operand_end(t, ops, k as int));
        if lo == hi {
            return Err(ParseError::new_unexpected_eof(tokens[lo - 1].text_range));
        }
        let part = slice_subrange(tokens, lo, hi);
        match parse_expr_component(part) {
            Err(e) => {
                return Err(e);
            },
            Ok(node) => {
                proof {
                    crate::ast::lemma_nodes_view_push(nodes@, node);
                    match parse_operands(t, ops, k + 1) {
                        Ok(r) => {
                            assert(nodes_view(nodes@) + (seq![node@] + r) =~= nodes_view(nodes@).push(node@) + r);
                        },
                        Err(_) => {},
                    }
                }
                nodes.push(node);
            },
        }
        k = k + 1;
    }
    proof {
        assert(nodes_view(nodes@) + Seq::<Tree>::empty() =~= nodes_view(nodes@));
        crate::ast::lemma_nodes_view_len(nodes@);
    }
    let ghost operands = nodes_view(nodes@);
    assert(spec_parse_expr(t) == Ok::<Tree, ParseError>(fold_all(operands, operators@)));
    // Fold the operators, strongest first.
    let mul = vec![OperatorType::Mul, OperatorType::Div];
    let add = vec![OperatorType::Add, OperatorType::Sub];
    let eq = vec![OperatorType::NotEquals, OperatorType::IsEquals];
    let or = vec![OperatorType::Or];
    assert(mul@ =~= class_mul() && add@ =~= class_add() && eq@ =~= class_eq() && or@ =~= class_or());
    let ghost unfolded = (operands, operators@);
    parse_operators(&mut nodes, &mut operators, mul.as_slice());
    let ghost after_mul = fold_pass(unfolded.0, unfolded.1, class_mul(), 0);
    assert((nodes_view(nodes@), operators@) == after_mul);
    parse_operators(&mut nodes, &mut operators, add.as_slice());
    let ghost after_add = fold_pass(after_mul.0, after_mul.1, class_add(), 0);
    assert((nodes_view(nodes@), operators@) == after_add);
    parse_operators(&mut nodes, &mut operators, eq.as_slice());
    let ghost after_eq = fold_pass(after_add.0, after_add.1, class_eq(), 0);
    assert((nodes_view(nodes@), operators@) == after_eq);
    parse_operators(&mut nodes, &mut operators, or.as_slice());
    let ghost after_or = fold_pass(after_eq.0, after_eq.1, class_or(), 0);
    assert((nodes_view(nodes@), operators@) == after_or);
    proof {
        lemma_nodes_view_all(nodes@);
        assert(fold_all(operands, unfolded.1) == after_or.0[0]);
    }
    Ok(nodes.remove(0))
}

/// One folding pass; see `fold_pass`.
fn parse_operators(nodes: &mut Vec<Node>, operators: &mut Vec<OperatorType>, operators_to_parse: &[OperatorType])
    requires
        old(nodes)@.len() == old(operators)@.len() + 1,
    ensures
        final(nodes)@.len() == final(operators)@.len() + 1,
        (nodes_view(final(nodes)@), final(operators)@) == fold_pass(
            nodes_view(old(nodes)@),
            old(operators)@,
            operators_to_parse@,
            0,
        ),
{
    let ghost goal = fold_pass(nodes_view(nodes@), operators@, operators_to_parse@, 0);
    let mut ptr: usize = 0;
    while ptr < operators.len()
        invariant
            nodes@.len() == operators@.len() + 1,
            ptr <= operators@.len(),
            goal == fold_pass(nodes_view(nodes@), operators@, operators_to_parse@, ptr as int),
        decreases 2 * operators@.len() - ptr,
    {
        let operator = operators[ptr];
        if class_contains(operators_to_parse, operator) {
            let ghost old_nodes = nodes@;
            let left = nodes.remove(ptr);
            let right = nodes.remove(ptr);
            let text_range = TextRange::join(&left.text_range, &right.text_range);
            let node = Node { data: Box::new(NodeData::BinaryExpr(left, operator, right)), text_range };
            nodes.insert(ptr, node);
            operators.remove(ptr);
            proof {
                lemma_nodes_view_all(old_nodes);
                lemma_nodes_view_all(nodes@);
                assert(view_all(nodes@) =~= view_all(old_nodes).remove(ptr as int).remove(ptr as int).insert(
                    ptr as int,
                    node@,
                ));
            }
        } else {
            ptr = ptr + 1;
        }
    }
}

/// A single token as an expression; see `spec_parse_primary`.
fn parse_primary(tk: &Token) -> (r: Result<Node, ParseError>)
    ensures
        node_result(r) == spec_parse_primary(*tk),
{
    match &tk.data {
        TokenData::Identifier(id) => Ok(Node { data: Box::new(NodeData::Identifier(id.clone())), text_range: tk.text_range }),
        TokenData::NumericLiteral(num) => Ok(Node { data: Box::new(NodeData::NumericLiteral(*num)), text_range: tk.text_range }),
        _ => Err(ParseError::new_unexpected_token(tk)),
    }
}

/// One operand; see `spec_parse_component`.
fn parse_expr_component(tokens: &[Token]) -> (r: Result<Node, ParseError>)
    requires
        tokens@.len() > 0,
    ensures
        node_result(r) == spec_parse_component(tokens@),
    decreases tokens@.len(), 2int, 0int,
{
    let ghost t = tokens@;
    let n = tokens.len();
    if n == 1 {
        return parse_primary(&tokens[0]);
    }
    let first = tokens[0].data.kind();
    if first == TokenKind::Sub {
        return match parse_expr(slice_subrange(tokens, 1, n)) {
            Ok(e) => Ok(Node { data: Box::new(NodeData::Neg(e)), text_range: range_of(tokens) }),
            Err(e) => Err(e),
        };
    }
    if first == TokenKind::OpenParenthesis {
        match tokens.find_pair(0) {
            None => {
                return Err(ParseError::new(ParseErrorData::UnclosedParenthesis, range_of(tokens)));
            },
            Some(close) => {
                if close == n - 1 {
                    if n == 2 {
                        return Err(ParseError::new_unexpected_eof(tokens[0].text_range));
                    }
                    return parse_expr(slice_subrange(tokens, 1, n - 1));
                }
            },
        }
    }
    if tokens.find_free(&TokenData::Comma).is_some() {
        return parse_tuple(tokens);
    }
    if first == TokenKind::Identifier {
        let node = identifier_node(&tokens[0]);
        return parse_chain(node, slice_subrange(tokens, 1, n));
    }
    Err(ParseError::new(ParseErrorData::UnsupportedSyntax, range_of(tokens)))
}

/// The suffixes after `node`; see `spec_parse_chain`.
fn parse_chain(node: Node, tokens: &[Token]) -> (r: Result<Node, ParseError>)
    ensures
        node_result(r) == spec_parse_chain(node@, tokens@),
    decreases tokens@.len(), 1int, 0int,
{
    if tokens.len() == 0 {
        return Ok(node);
    }
    match tokens[0].data.kind() {
        TokenKind::OpenParenthesis => parse_function_call(node, tokens),
        TokenKind::Dot => parse_property_access(node, tokens, PropertyAccessType::Struct),
        TokenKind::ModAccess => parse_property_access(node, tokens, PropertyAccessType::Mod),
        TokenKind::OpenBracket => parse_array_access(node, tokens),
        _ => Err(ParseError::new(ParseErrorData::UnsupportedSyntax, tokens[0].text_range)),
    }
}

/// A call suffix: the arguments up to the matching `)`, then the rest of the chain.
fn parse_function_call(func_node: Node, tokens: &[Token]) -> (r: Result<Node, ParseError>)
    requires
        tokens@.len() > 0,
        tokens@[0].data.spec_kind() == TokenKind::OpenParenthesis,
    ensures
        node_result(r) == spec_parse_chain(func_node@, tokens@),
    decreases tokens@.len(), 0int, 0int,
{
    let ghost t = tokens@;
    let n = tokens.len();
    let close = match tokens.find_pair(0) {
        Some(j) => j,
        None => {
            return Err(ParseError::new(ParseErrorData::UnclosedParenthesis, range_of(tokens)));
        },
    };
    proof {
        lemma_find_pair_opener(t, 0);
    }
    let args: Vec<Node> = if close == 1 {
        Vec::new()
    } else {
        match parse_list(tokens, 1, close) {
            Ok(a) => a,
            Err(e) => {
                return Err(e);
            },
        }
    };
    let text_range = TextRange::join(&func_node.text_range, &tokens[close].text_range);
    proof {
        if close == 1 {
            assert(nodes_view(args@) =~= Seq::<Tree>::empty());
        }
    }
    let call = Node { data: Box::new(NodeData::FunctionCall(func_node, args)), text_range };
    parse_chain(call, slice_subrange(tokens, close + 1, n))
}

/// A property or module access suffix: `.` or `::`, an identifier, then the
/// rest of the chain.
fn parse_property_access(struct_node: Node, tokens: &[Token], property_access_type: PropertyAccessType) -> (r:
    Result<Node, ParseError>)
    requires
        tokens@.len() > 0,
        property_access_type == PropertyAccessType::Struct ==> tokens@[0].data.spec_kind() == TokenKind::Dot,
        property_access_type == PropertyAccessType::Mod ==> tokens@[0].data.spec_kind() == TokenKind::ModAccess,
    ensures
        node_result(r) == spec_parse_chain(struct_node@, tokens@),
    decreases tokens@.len(), 0int, 0int,
{
    let n = tokens.len();
    if n < 2 {
        return Err(ParseError::new_unexpected_token(&tokens[0]));
    }
    if tokens[1].data.kind() != TokenKind::Identifier {
        return Err(ParseError::new_unexpected_token(&tokens[1]));
    }
    let prop_node = identifier_node(&tokens[1]);
    let text_range = TextRange::join(&struct_node.text_range, &tokens[1].text_range);
    let data = match property_access_type {
        PropertyAccessType::Struct => NodeData::StructAccess(struct_node, prop_node),
        PropertyAccessType::Mod => NodeData::ModAccess(struct_node, prop_node),
    };
    let node = Node { data: Box::new(data), text_range };
    parse_chain(node, slice_subrange(tokens, 2, n))
}

/// An index suffix: the index expression up to the matching `]`, then the
/// rest of the chain.
fn parse_array_access(arr_node: Node, tokens: &[Token]) -> (r: Result<Node, ParseError>)
    requires
        tokens@.len() > 0,
        tokens@[0].data.spec_kind() == TokenKind::OpenBracket,
    ensures
        node_result(r) == spec_parse_chain(arr_node@, tokens@),
    decreases tokens@.len(), 0int, 0int,
{
    let ghost t = tokens@;
    let n = tokens.len();
    let end_brack = match tokens.find_pair(0) {
        Some(j) => j,
        None => {
            return Err(ParseError::new(ParseErrorData::UnclosedBracket, range_of(tokens)));
        },
    };
    proof {
        lemma_find_pair_opener(t, 0);
    }
    if end_brack == 1 {
        return Err(ParseError::new_unexpected_eof(tokens[0].text_range));
    }
    let idx_node = match parse_expr(slice_subrange(tokens, 1, end_brack)) {
        Ok(i) => i,
        Err(e) => {
            return Err(e);
        },
    };
    let text_range = TextRange::join(&arr_node.text_range, &tokens[end_brack].text_range);
    let node = Node { data: Box::new(NodeData::ArrayAccess(arr_node, idx_node)), text_range };
    parse_chain(node, slice_subrange(tokens, end_brack + 1, n))
}

/// A tuple; see `spec_parse_tuple`.
fn parse_tuple(tokens: &[Token]) -> (r: Result<Node, ParseError>)
    requires
        tokens@.len() > 0,
    ensures
        node_result(r) == spec_parse_tuple(tokens@),
    decreases tokens@.len(), 1int, 0int,
{
    let ghost t = tokens@;
    let n = tokens.len();
    let comma = match tokens.find_free(&TokenData::Comma) {
        Some(c) => c,
        None => {
            return Err(ParseError::new(ParseErrorData::UnsupportedSyntax, range_of(tokens)));
        },
    };
    proof {
        lemma_find_free_bounds(t, TokenData::Comma);
    }
    if comma == 0 {
        return Err(ParseError::new_unexpected_eof(tokens[0].text_range));
    }
    let first = match parse_expr(slice_subrange(tokens, 0, comma)) {
        Ok(f) => f,
        Err(e) => {
            return Err(e);
        },
    };
    let mut nodes = match parse_list(tokens, comma + 1, n) {
        Ok(v) => v,
        Err(e) => {
            return Err(e);
        },
    };
    let ghost rest = nodes@;
    nodes.insert(0, first);
    proof {
        lemma_nodes_view_all(rest);
        lemma_nodes_view_all(nodes@);
        assert(view_all(nodes@) =~= seq![first@] + view_all(rest));
    }
    Ok(Node { data: Box::new(NodeData::Tuple(nodes)), text_range: range_of(tokens) })
}

/// The comma-separated expressions of `tokens[lo..hi]`; see `spec_parse_list`.
fn parse_list(tokens: &[Token], lo: usize, hi: usize) -> (r: Result<Vec<Node>, ParseError>)
    requires
        1 <= lo <= hi <= tokens@.len(),
    ensures
        nodes_result(r) == spec_parse_list(tokens@, lo as int, hi as int),
    decreases hi - lo, 5int, 0int,
{
    let ghost t = tokens@;
    if lo == hi {
        return Err(ParseError::new_unexpected_eof(tokens[lo - 1].text_range));
    }
    let part = slice_subrange(tokens, lo, hi);
    match part.find_free(&TokenData::Comma) {
        None => {
            match parse_expr(part) {
                Ok(node) => {
                    let mut v: Vec<Node> = Vec::new();
                    v.push(node);
                    proof {
                        lemma_nodes_view_all(v@);
                        assert(view_all(v@) =~= seq![node@]);
                    }
                    Ok(v)
                },
                Err(e) => Err(e),
            }
        },
        Some(k) => {
            proof {
                lemma_find_free_bounds(part@, TokenData::Comma);
            }
            if k == 0 {
                return Err(ParseError::new_unexpected_eof(tokens[lo].text_range));
            }
            let first = match parse_expr(slice_subrange(part, 0, k)) {
                Ok(f) => f,
                Err(e) => {
                    return Err(e);
                },
            };
            let mut nodes = match parse_list(tokens, lo + k + 1, hi) {
                Ok(v) => v,
                Err(e) => {
                    return Err(e);
                },
            };
            let ghost rest = nodes@;
            nodes.insert(0, first);
            proof {
                lemma_nodes_view_all(rest);
                lemma_nodes_view_all(nodes@);
                assert(view_all(nodes@) =~= seq![first@] + view_all(rest));
            }
            Ok(nodes)
        },
    }
}

} // verus!
