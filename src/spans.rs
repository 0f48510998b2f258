use vstd::prelude::*;

use crate::ast::{leaf, node1, node2, Label, OperatorType, Tree};
use crate::parser::expr::{
    class_add, class_eq, class_mul, class_or, fold_pass, identifier_leaf, in_class, kind_at, operand_end,
    operand_start, operator_types, parse_operands, spec_operators, spec_parse_chain, spec_parse_component,
    spec_parse_expr, spec_parse_list, spec_parse_tuple,
};
use crate::text_data::{span_join, TextPos, TextRange};
use crate::tokenizer::{spec_find_free, spec_find_pair, Token, TokenData, TokenKind};

verus! {

pub open spec fn tok_start(u: Seq<Token>, i: int) -> TextPos {
    u[i].text_range.start
}

pub open spec fn tok_end(u: Seq<Token>, i: int) -> TextPos {
    u[i].text_range.end
}

pub open spec fn starts_in(p: TextPos, u: Seq<Token>) -> bool {
    exists|i: int| 0 <= i < u.len() && #[trigger] tok_start(u, i) == p
}

pub open spec fn ends_in(p: TextPos, u: Seq<Token>) -> bool {
    exists|i: int| 0 <= i < u.len() && #[trigger] tok_end(u, i) == p
}

/// `r` runs from the start of a token of `u` to the end of a token of `u`.
pub open spec fn delimited(r: TextRange, u: Seq<Token>) -> bool {
    starts_in(r.start, u) && ends_in(r.end, u)
}

/// Every node of `t` spans from the start of a token of `u` to the end of
/// a token of `u`.
pub open spec fn all_delimited(t: Tree, u: Seq<Token>) -> bool
    decreases t,
{
    &&& delimited(t.span, u)
    &&& forall|k: int| 0 <= k < t.children.len() ==> all_delimited(#[trigger] t.children[k], u)
}

/// Every node of the tree that `parse_expr` builds from the tokens `t`
/// spans from the start of one of them to the end of one.
pub proof fn lemma_expr_spans(t: Seq<Token>)
    ensures
        spec_parse_expr(t) matches Ok(n) ==> all_delimited(n, t),
{
    assert(t.subrange(0, t.len() as int) =~= t);
    lemma_expr(t, 0, t.len() as int);
    if let Ok(n) = spec_parse_expr(t) {
        lemma_narrow(n, t, 0, t.len() as int);
    }
}

/// Spans found in `u` at indices in `[a, b)` are found in `u[a..b]`.
proof fn lemma_narrow(t: Tree, u: Seq<Token>, a: int, b: int)
    requires
        0 <= a <= b <= u.len(),
        inside(t, u, a, b),
    ensures
        all_delimited(t, u.subrange(a, b)),
    decreases t,
{
    let v = u.subrange(a, b);
    let i = choose|i: int| a <= i < b && tok_start(u, i) == t.span.start;
    let j = choose|j: int| a <= j < b && tok_end(u, j) == t.span.end;
    assert(tok_start(v, i - a) == t.span.start);
    assert(tok_end(v, j - a) == t.span.end);
    assert forall|k: int| 0 <= k < t.children.len() implies all_delimited(#[trigger] t.children[k], v) by {
        lemma_narrow(t.children[k], u, a, b);
    }
}

/// Every node of `t` spans from the start of a token of `u` at an index in
/// `[a, b)` to the end of one.
pub open spec fn inside(t: Tree, u: Seq<Token>, a: int, b: int) -> bool
    decreases t,
{
    &&& exists|i: int| a <= i < b && #[trigger] tok_start(u, i) == t.span.start
    &&& exists|j: int| a <= j < b && #[trigger] tok_end(u, j) == t.span.end
    &&& forall|k: int| 0 <= k < t.children.len() ==> inside(#[trigger] t.children[k], u, a, b)
}

proof fn lemma_widen(t: Tree, u: Seq<Token>, a: int, b: int, a2: int, b2: int)
    requires
        a2 <= a,
        b <= b2,
        inside(t, u, a, b),
    ensures
        inside(t, u, a2, b2),
    decreases t,
{
    assert forall|k: int| 0 <= k < t.children.len() implies inside(#[trigger] t.children[k], u, a2, b2) by {
        lemma_widen(t.children[k], u, a, b, a2, b2);
    }
}

proof fn lemma_leaf_inside(u: Seq<Token>, i: int, t: Tree)
    requires
        0 <= i < u.len(),
        t.span == u[i].text_range,
        t.children.len() == 0,
    ensures
        inside(t, u, i, i + 1),
{
    assert(tok_start(u, i) == t.span.start && tok_end(u, i) == t.span.end);
}

proof fn lemma_join_inside(label: Label, l: Tree, r: Tree, u: Seq<Token>, a: int, b: int)
    requires
        inside(l, u, a, b),
        inside(r, u, a, b),
    ensures
        inside(node2(label, l, r, span_join(l.span, r.span)), u, a, b),
{
    let n = node2(label, l, r, span_join(l.span, r.span));
    assert(n.children[0] == l && n.children[1] == r);
}

proof fn lemma_fold(nodes: Seq<Tree>, ops: Seq<OperatorType>, class: Seq<OperatorType>, ptr: int, u: Seq<Token>, a: int, b: int)
    requires
        nodes.len() == ops.len() + 1,
        0 <= ptr,
        forall|m: int| 0 <= m < nodes.len() ==> inside(#[trigger] nodes[m], u, a, b),
    ensures
        fold_pass(nodes, ops, class, ptr).0.len() == fold_pass(nodes, ops, class, ptr).1.len() + 1,
        forall|m: int|
            0 <= m < fold_pass(nodes, ops, class, ptr).0.len() ==> inside(
                #[trigger] fold_pass(nodes, ops, class, ptr).0[m],
                u,
                a,
                b,
            ),
    decreases 2 * ops.len() - ptr,
{
    if ptr < ops.len() {
        if in_class(ops[ptr], class) {
            let left = nodes[ptr];
            let right = nodes[ptr + 1];
            let joined = node2(Label::BinaryExpr(ops[ptr]), left, right, span_join(left.span, right.span));
            lemma_join_inside(Label::BinaryExpr(ops[ptr]), left, right, u, a, b);
            let next = nodes.remove(ptr).remove(ptr).insert(ptr, joined);
            assert forall|m: int| 0 <= m < next.len() implies inside(#[trigger] next[m], u, a, b) by {
                if m < ptr {
                    assert(next[m] == nodes[m]);
                } else if m > ptr {
                    assert(next[m] == nodes[m + 1]);
                }
            }
            lemma_fold(next, ops.remove(ptr), class, ptr, u, a, b);
        } else {
            lemma_fold(nodes, ops, class, ptr + 1, u, a, b);
        }
    }
}

proof fn lemma_operands_len(t: Seq<Token>, ops: Seq<int>, k: int)
    requires
        0 <= k <= ops.len() + 1,
    ensures
        parse_operands(t, ops, k) matches Ok(ns) ==> ns.len() == ops.len() + 1 - k,
    decreases ops.len() + 1 - k,
{
    if k <= ops.len() {
        lemma_operands_len(t, ops, k + 1);
    }
}

proof fn lemma_expr(u: Seq<Token>, a: int, b: int)
    requires
        0 <= a <= b <= u.len(),
    ensures
        spec_parse_expr(u.subrange(a, b)) matches Ok(n) ==> inside(n, u, a, b),
    decreases b - a, 4int, 0int,
{
    let t = u.subrange(a, b);
    if t.len() > 0 {
        if spec_find_free(t, TokenData::Comma) is Some {
            lemma_tuple(u, a, b);
        } else if let Ok(ops) = spec_operators(t) {
            lemma_operands(u, a, b, ops, 0);
            lemma_operands_len(t, ops, 0);
            if let Ok(nodes) = parse_operands(t, ops, 0) {
                let o = operator_types(t, ops);
                lemma_fold(nodes, o, class_mul(), 0, u, a, b);
                let after_mul = fold_pass(nodes, o, class_mul(), 0);
                lemma_fold(after_mul.0, after_mul.1, class_add(), 0, u, a, b);
                let after_add = fold_pass(after_mul.0, after_mul.1, class_add(), 0);
                lemma_fold(after_add.0, after_add.1, class_eq(), 0, u, a, b);
                let after_eq = fold_pass(after_add.0, after_add.1, class_eq(), 0);
                lemma_fold(after_eq.0, after_eq.1, class_or(), 0, u, a, b);
                let after_or = fold_pass(after_eq.0, after_eq.1, class_or(), 0);
                assert(inside(after_or.0[0], u, a, b));
            }
        }
    }
}

proof fn lemma_operands(u: Seq<Token>, a: int, b: int, ops: Seq<int>, k: int)
    requires
        0 <= a <= b <= u.len(),
    ensures
        parse_operands(u.subrange(a, b), ops, k) matches Ok(ns) ==> forall|m: int|
            0 <= m < ns.len() ==> inside(#[trigger] ns[m], u, a, b),
    decreases b - a, 3int, ops.len() + 1 - k,
{
    let t = u.subrange(a, b);
    if 0 <= k <= ops.len() {
        let lo = operand_start(ops, k);
        let hi = operand_end(t, ops, k);
        if 0 <= lo < hi <= t.len() {
            assert(t.subrange(lo, hi) =~= u.subrange(a + lo, a + hi));
            lemma_component(u, a + lo, a + hi);
            lemma_operands(u, a, b, ops, k + 1);
            if let Ok(n) = spec_parse_component(t.subrange(lo, hi)) {
                lemma_widen(n, u, a + lo, a + hi, a, b);
                if let Ok(rest) = parse_operands(t, ops, k + 1) {
                    let all = seq![n] + rest;
                    assert forall|m: int| 0 <= m < all.len() implies inside(#[trigger] all[m], u, a, b) by {
                        if m > 0 {
                            assert(all[m] == rest[m - 1]);
                        }
                    }
                }
            }
        }
    }
}

proof fn lemma_component(u: Seq<Token>, a: int, b: int)
    requires
        0 <= a <= b <= u.len(),
    ensures
        spec_parse_component(u.subrange(a, b)) matches Ok(n) ==> inside(n, u, a, b),
    decreases b - a, 2int, 0int,
{
    let t = u.subrange(a, b);
    if t.len() == 1 {
        if let Ok(n) = spec_parse_component(t) {
            lemma_leaf_inside(u, a, n);
        }
    } else if t.len() > 1 {
        if kind_at(t, 0) == TokenKind::Sub {
            assert(t.subrange(1, t.len() as int) =~= u.subrange(a + 1, b));
            lemma_expr(u, a + 1, b);
            if let Ok(e) = spec_parse_expr(u.subrange(a + 1, b)) {
                lemma_widen(e, u, a + 1, b, a, b);
                let n = node1(Label::Neg, e, crate::parser::slice_span(t));
                assert(n.children[0] == e);
                assert(tok_start(u, a) == n.span.start);
                assert(tok_end(u, b - 1) == n.span.end);
            }
        } else if kind_at(t, 0) == TokenKind::OpenParenthesis && spec_find_pair(t, 0) is None {
        } else if kind_at(t, 0) == TokenKind::OpenParenthesis && spec_find_pair(t, 0) == Some(t.len() - 1) {
            if t.len() > 2 {
                assert(t.subrange(1, t.len() - 1) =~= u.subrange(a + 1, b - 1));
                lemma_expr(u, a + 1, b - 1);
                if let Ok(e) = spec_parse_expr(u.subrange(a + 1, b - 1)) {
                    lemma_widen(e, u, a + 1, b - 1, a, b);
                }
            }
        } else if spec_find_free(t, TokenData::Comma) is Some {
            lemma_tuple(u, a, b);
        } else if kind_at(t, 0) == TokenKind::Identifier {
            let base = identifier_leaf(t[0]);
            lemma_leaf_inside(u, a, base);
            lemma_widen(base, u, a, a + 1, a, b);
            assert(t.subrange(1, t.len() as int) =~= u.subrange(a + 1, b));
            lemma_chain(base, u, a, a + 1, b);
        }
    }
}

proof fn lemma_tuple(u: Seq<Token>, a: int, b: int)
    requires
        0 <= a <= b <= u.len(),
    ensures
        spec_parse_tuple(u.subrange(a, b)) matches Ok(n) ==> inside(n, u, a, b),
    decreases b - a, 1int, 0int,
{
    let t = u.subrange(a, b);
    if let Some(c) = spec_find_free(t, TokenData::Comma) {
        if 0 < c < t.len() {
            assert(t.subrange(0, c) =~= u.subrange(a, a + c));
            lemma_expr(u, a, a + c);
            lemma_list(u, a, b, c + 1, t.len() as int);
            if let Ok(first) = spec_parse_expr(t.subrange(0, c)) {
                lemma_widen(first, u, a, a + c, a, b);
                if let Ok(items) = spec_parse_list(t, c + 1, t.len() as int) {
                    let all = seq![first] + items;
                    assert forall|m: int| 0 <= m < all.len() implies inside(#[trigger] all[m], u, a, b) by {
                        if m > 0 {
                            assert(all[m] == items[m - 1]);
                        }
                    }
                    assert(tok_start(u, a) == t[0].text_range.start);
                    assert(tok_end(u, b - 1) == t.last().text_range.end);
                }
            }
        }
    }
}

proof fn lemma_list(u: Seq<Token>, a: int, b: int, lo: int, hi: int)
    requires
        0 <= a <= b <= u.len(),
    ensures
        spec_parse_list(u.subrange(a, b), lo, hi) matches Ok(items) ==> forall|m: int|
            0 <= m < items.len() ==> inside(#[trigger] items[m], u, a, b),
    decreases hi - lo, 5int, 0int,
{
    let t = u.subrange(a, b);
    if !(lo >= hi || lo < 1 || hi > t.len()) {
        let s = t.subrange(lo, hi);
        assert(s =~= u.subrange(a + lo, a + hi));
        match spec_find_free(s, TokenData::Comma) {
            None => {
                lemma_expr(u, a + lo, a + hi);
                if let Ok(n) = spec_parse_expr(s) {
                    lemma_widen(n, u, a + lo, a + hi, a, b);
                    assert(seq![n][0] == n);
                }
            },
            Some(k) => {
                if 0 < k < s.len() {
                    assert(s.subrange(0, k) =~= u.subrange(a + lo, a + lo + k));
                    lemma_expr(u, a + lo, a + lo + k);
                    lemma_list(u, a, b, lo + k + 1, hi);
                    if let Ok(first) = spec_parse_expr(s.subrange(0, k)) {
                        lemma_widen(first, u, a + lo, a + lo + k, a, b);
                        if let Ok(items) = spec_parse_list(t, lo + k + 1, hi) {
                            let all = seq![first] + items;
                            assert forall|m: int| 0 <= m < all.len() implies inside(#[trigger] all[m], u, a, b) by {
                                if m > 0 {
                                    assert(all[m] == items[m - 1]);
                                }
                            }
                        }
                    }
                }
            },
        }
    }
}

/// The chain after `base`, over the tokens `u[c..b]`, where `base` lies in
/// `u[a..c]`.
proof fn lemma_chain(base: Tree, u: Seq<Token>, a: int, c: int, b: int)
    requires
        0 <= a <= c <= b <= u.len(),
        inside(base, u, a, b),
    ensures
        spec_parse_chain(base, u.subrange(c, b)) matches Ok(n) ==> inside(n, u, a, b),
    decreases b - c, 1int, 0int,
{
    let t = u.subrange(c, b);
    if t.len() > 0 {
        let k0 = kind_at(t, 0);
        if k0 == TokenKind::OpenParenthesis {
            if let Some(j) = spec_find_pair(t, 0) {
                if 1 <= j < t.len() {
                    lemma_list(u, c, b, 1, j);
                    let args = if j == 1 {
                        Ok(Seq::<Tree>::empty())
                    } else {
                        spec_parse_list(t, 1, j)
                    };
                    if let Ok(xs) = args {
                        let call = Tree {
                            label: Label::FunctionCall,
                            children: seq![base] + xs,
                            span: span_join(base.span, t[j].text_range),
                        };
                        assert forall|m: int| 0 <= m < call.children.len() implies inside(
                            #[trigger] call.children[m],
                            u,
                            a,
                            b,
                        ) by {
                            if m > 0 {
                                assert(call.children[m] == xs[m - 1]);
                                lemma_widen(xs[m - 1], u, c, b, a, b);
                            }
                        }
                        assert(tok_end(u, c + j) == call.span.end);
                        assert(t.subrange(j + 1, t.len() as int) =~= u.subrange(c + j + 1, b));
                        lemma_chain(call, u, a, c + j + 1, b);
                    }
                }
            }
        } else if k0 == TokenKind::Dot || k0 == TokenKind::ModAccess {
            if t.len() >= 2 && kind_at(t, 1) == TokenKind::Identifier {
                let label = if k0 == TokenKind::Dot {
                    Label::StructAccess
                } else {
                    Label::ModAccess
                };
                let prop = identifier_leaf(t[1]);
                lemma_leaf_inside(u, c + 1, prop);
                lemma_widen(prop, u, c + 1, c + 2, a, b);
                lemma_join_inside(label, base, prop, u, a, b);
                assert(t.subrange(2, t.len() as int) =~= u.subrange(c + 2, b));
                lemma_chain(node2(label, base, prop, span_join(base.span, t[1].text_range)), u, a, c + 2, b);
            }
        } else if k0 == TokenKind::OpenBracket {
            if let Some(j) = spec_find_pair(t, 0) {
                if 1 < j < t.len() {
                    assert(t.subrange(1, j) =~= u.subrange(c + 1, c + j));
                    lemma_expr(u, c + 1, c + j);
                    if let Ok(i) = spec_parse_expr(t.subrange(1, j)) {
                        lemma_widen(i, u, c + 1, c + j, a, b);
                        let access = node2(Label::ArrayAccess, base, i, span_join(base.span, t[j].text_range));
                        assert(access.children[0] == base && access.children[1] == i);
                        assert(tok_end(u, c + j) == access.span.end);
                        assert(t.subrange(j + 1, t.len() as int) =~= u.subrange(c + j + 1, b));
                        lemma_chain(access, u, a, c + j + 1, b);
                    }
                }
            }
        }
    }
}

} // verus!
