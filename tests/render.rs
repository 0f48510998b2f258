use yoyogay::ast::{DeclarationType, Node, NodeData, OperatorType, VariableModificationType};
use yoyogay::parser::expr::parse_expr;
use yoyogay::parser::parse_tks;
use yoyogay::tokenizer::{tokenize, TokenKind};

fn program(src: &str) -> Node {
    parse_tks(&tokenize(src).unwrap()).unwrap()
}

fn same_list(a: &[Node], b: &[Node]) -> bool {
    a.len() == b.len() && a.iter().zip(b.iter()).all(|(x, y)| same_shape(x, y))
}

/// Structural equality, spans aside.
fn same_shape(a: &Node, b: &Node) -> bool {
    match (&*a.data, &*b.data) {
        (NodeData::Program(x), NodeData::Program(y)) => same_list(x, y),
        (NodeData::Identifier(x), NodeData::Identifier(y)) => x == y,
        (NodeData::NumericLiteral(x), NodeData::NumericLiteral(y)) => x == y,
        (NodeData::BinaryExpr(x1, o1, x2), NodeData::BinaryExpr(y1, o2, y2)) => {
            o1 == o2 && same_shape(x1, y1) && same_shape(x2, y2)
        },
        (NodeData::Tuple(x), NodeData::Tuple(y)) => same_list(x, y),
        (NodeData::FunctionDeclaration(n1, ps1, b1), NodeData::FunctionDeclaration(n2, ps2, b2)) => {
            same_shape(n1, n2) && same_list(ps1, ps2) && same_shape(b1, b2)
        },
        (NodeData::FunctionCall(c1, a1), NodeData::FunctionCall(c2, a2)) => same_shape(c1, c2) && same_list(a1, a2),
        (NodeData::FunctionParameter(x), NodeData::FunctionParameter(y)) => same_shape(x, y),
        (NodeData::If(c1, b1, e1), NodeData::If(c2, b2, e2)) => {
            same_shape(c1, c2) && same_shape(b1, b2) && match (e1, e2) {
                (Some(x), Some(y)) => same_shape(x, y),
                (None, None) => true,
                _ => false,
            }
        },
        (NodeData::Else(x), NodeData::Else(y)) => same_shape(x, y),
        (NodeData::VariableDeclaration(d1, i1, e1), NodeData::VariableDeclaration(d2, i2, e2)) => {
            d1 == d2 && same_shape(i1, i2) && same_shape(e1, e2)
        },
        (NodeData::VariableModification(t1, m1, v1), NodeData::VariableModification(t2, m2, v2)) => {
            m1 == m2 && same_shape(t1, t2) && same_shape(v1, v2)
        },
        (NodeData::StructAccess(x1, x2), NodeData::StructAccess(y1, y2)) => same_shape(x1, y1) && same_shape(x2, y2),
        (NodeData::ModAccess(x1, x2), NodeData::ModAccess(y1, y2)) => same_shape(x1, y1) && same_shape(x2, y2),
        (NodeData::ArrayAccess(x1, x2), NodeData::ArrayAccess(y1, y2)) => same_shape(x1, y1) && same_shape(x2, y2),
        (NodeData::Neg(x), NodeData::Neg(y)) => same_shape(x, y),
        _ => false,
    }
}

fn round_trip(src: &str) {
    let first = program(src);
    let text = first.to_string();
    let second = program(&text);
    assert!(same_shape(&first, &second), "{}\n-- became --\n{}", src, text);
    assert_eq!(second.to_string(), text);
}

#[test]
fn binary_expressions_are_fully_parenthesized() {
    let n = parse_expr(&tokenize("2 + 3 * 4").unwrap()).unwrap();
    assert_eq!(n.to_string(), "(2) + ((3) * (4))");
}

#[test]
fn rendering_of_suffixes_and_negation() {
    let n = parse_expr(&tokenize("-m::f(a, b.c[0])").unwrap()).unwrap();
    assert_eq!(n.to_string(), "(-m::f(a, b.c[0]))");
}

#[test]
fn rendering_of_statements() {
    let n = program("fn f(a, b) { if a == 1 { b = 2; } else { const c = (1, b); } } x += 18446744073709551615;");
    assert_eq!(
        n.to_string(),
        "fn f(a, b) {\n    if (a) == (1) {\n        b = 2;\n    } else {\n        const c = (1, b);\n    }\n}\n\nx += 18446744073709551615;"
    );
}

#[test]
fn rendering_of_an_empty_body() {
    assert_eq!(program("fn f() {}").to_string(), "fn f() {\n    \n}");
}

#[test]
fn round_trip_of_a_program() {
    round_trip("var a = 1;\nlet b = a * (2 + 3) - (-a);\nfn f(x, y) { if x != y || x == 0 { y /= 2; } else { y *= x[1].z; } }\nq = m::g(a, (b, 3), c[a + 1]);");
}

#[test]
fn round_trip_of_nested_conditionals() {
    round_trip("if a { if b { c = 1; } else { d -= 2; } } else { fn g() { e = 3; } }");
}

#[test]
fn operator_and_keyword_texts() {
    assert_eq!(OperatorType::NotEquals.to_string(), "!=");
    assert_eq!(OperatorType::Or.to_string(), "||");
    assert_eq!(VariableModificationType::DivideBy.to_string(), "/=");
    assert_eq!(VariableModificationType::Assign.to_string(), "=");
    assert_eq!(DeclarationType::Const.to_string(), "const");
    assert_eq!(TokenKind::ModAccess.text(), "::");
}

#[test]
fn token_texts() {
    let tokens = tokenize("fn abc 42 :: <= ").unwrap_or_default();
    assert!(tokens.is_empty());
    let tokens = tokenize("fn abc 42 :: != ;").unwrap();
    let texts: Vec<String> = tokens.iter().map(|t| t.to_string()).collect();
    assert_eq!(texts, vec!["fn", "abc", "42", "::", "!=", ";"]);
}

#[test]
fn declaration_type_from_token() {
    let tokens = tokenize("var let x").unwrap();
    assert_eq!(DeclarationType::try_from(&tokens[0]).unwrap(), DeclarationType::Var);
    assert_eq!(DeclarationType::try_from(&tokens[1]).unwrap(), DeclarationType::Let);
    assert!(DeclarationType::try_from(&tokens[2]).is_err());
}

#[test]
fn round_trip_of_several_assignment_targets() {
    let n = program("a, b = f(x);");
    assert_eq!(n.to_string(), "a, b = f(x);");
    round_trip("a, b, c += (1, 2, 3);");
}
