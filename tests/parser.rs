use yoyogay::ast::{DeclarationType, Node, NodeData, OperatorType, VariableModificationType};
use yoyogay::parser::expr::parse_expr;
use yoyogay::parser::stmt::parse_stmt;
use yoyogay::parser::{parse_tks, ParseError, ParseErrorData};
use yoyogay::text_data::{TextPos, TextRange};
use yoyogay::tokenizer::{tokenize, TokenData};

fn expr(src: &str) -> Result<Node, ParseError> {
    parse_expr(&tokenize(src).unwrap())
}

fn program(src: &str) -> Result<Node, ParseError> {
    parse_tks(&tokenize(src).unwrap())
}

fn is_ident(n: &Node, name: &str) -> bool {
    matches!(&*n.data, NodeData::Identifier(s) if s == name)
}

fn is_num(n: &Node, v: usize) -> bool {
    matches!(&*n.data, NodeData::NumericLiteral(x) if *x == v)
}

fn range(line: usize, start: usize, end: usize) -> TextRange {
    TextRange { start: TextPos { line, pos: start }, end: TextPos { line, pos: end } }
}

#[test]
fn multiplication_binds_tighter_than_addition() {
    let n = expr("2 + 3 * 4").unwrap();
    match &*n.data {
        NodeData::BinaryExpr(a, OperatorType::Add, b) => {
            assert!(is_num(a, 2));
            match &*b.data {
                NodeData::BinaryExpr(c, OperatorType::Mul, d) => {
                    assert!(is_num(c, 3));
                    assert!(is_num(d, 4));
                    assert_eq!(b.text_range, range(1, 4, 9));
                },
                _ => panic!("right operand is not a product"),
            }
        },
        _ => panic!("not a sum"),
    }
    assert_eq!(n.text_range, range(1, 0, 9));
}

#[test]
fn same_strength_folds_left_to_right() {
    let n = expr("8 - 4 - 2").unwrap();
    match &*n.data {
        NodeData::BinaryExpr(a, OperatorType::Sub, b) => {
            assert!(is_num(b, 2));
            assert!(matches!(&*a.data, NodeData::BinaryExpr(_, OperatorType::Sub, _)));
        },
        _ => panic!("not a difference"),
    }
}

#[test]
fn or_binds_weakest_and_equality_before_it() {
    let n = expr("a == b || c != d + 1").unwrap();
    match &*n.data {
        NodeData::BinaryExpr(l, OperatorType::Or, r) => {
            assert!(matches!(&*l.data, NodeData::BinaryExpr(_, OperatorType::IsEquals, _)));
            match &*r.data {
                NodeData::BinaryExpr(_, OperatorType::NotEquals, s) => {
                    assert!(matches!(&*s.data, NodeData::BinaryExpr(_, OperatorType::Add, _)));
                },
                _ => panic!("not an inequality"),
            }
        },
        _ => panic!("not a disjunction"),
    }
}

#[test]
fn unclosed_parenthesis_in_expression() {
    assert!(tokenize("(()").is_ok());
    let e = expr("(()").unwrap_err();
    assert_eq!(e.data, ParseErrorData::UnclosedParenthesis);
}

#[test]
fn chain_of_suffixes() {
    let n = expr("a.b[0](c)").unwrap();
    match &*n.data {
        NodeData::FunctionCall(callee, args) => {
            assert_eq!(args.len(), 1);
            assert!(is_ident(&args[0], "c"));
            match &*callee.data {
                NodeData::ArrayAccess(arr, idx) => {
                    assert!(is_num(idx, 0));
                    match &*arr.data {
                        NodeData::StructAccess(base, prop) => {
                            assert!(is_ident(base, "a"));
                            assert!(is_ident(prop, "b"));
                            assert_eq!(arr.text_range, range(1, 0, 3));
                        },
                        _ => panic!("not a property access"),
                    }
                    assert_eq!(callee.text_range, range(1, 0, 6));
                },
                _ => panic!("not an index access"),
            }
        },
        _ => panic!("not a call"),
    }
    assert_eq!(n.text_range, range(1, 0, 9));
}

#[test]
fn module_access_and_call_without_arguments() {
    let n = expr("m::f()").unwrap();
    match &*n.data {
        NodeData::FunctionCall(callee, args) => {
            assert!(args.is_empty());
            assert!(matches!(&*callee.data, NodeData::ModAccess(_, _)));
        },
        _ => panic!("not a call"),
    }
}

#[test]
fn nested_call_arguments_split_at_top_level_commas() {
    let n = expr("f(g(a, b), c)").unwrap();
    match &*n.data {
        NodeData::FunctionCall(_, args) => {
            assert_eq!(args.len(), 2);
            match &*args[0].data {
                NodeData::FunctionCall(_, inner) => assert_eq!(inner.len(), 2),
                _ => panic!("first argument is not a call"),
            }
        },
        _ => panic!("not a call"),
    }
}

#[test]
fn tuple_and_parentheses() {
    let n = expr("(1, (2), x)").unwrap();
    match &*n.data {
        NodeData::Tuple(items) => {
            assert_eq!(items.len(), 3);
            assert!(is_num(&items[1], 2));
        },
        _ => panic!("not a tuple"),
    }
    let n = expr("a, b").unwrap();
    assert!(matches!(&*n.data, NodeData::Tuple(items) if items.len() == 2));
}

#[test]
fn negation_covers_its_operand() {
    let n = expr("-a * 2").unwrap();
    match &*n.data {
        NodeData::BinaryExpr(a, OperatorType::Mul, _) => {
            assert!(matches!(&*a.data, NodeData::Neg(_)));
            assert_eq!(a.text_range, range(1, 0, 2));
        },
        _ => panic!("not a product"),
    }
}

#[test]
fn operand_missing_after_operator() {
    let e = expr("a +").unwrap_err();
    assert_eq!(e.data, ParseErrorData::UnexpectedEOF);
    assert_eq!(e.text_range, range(1, 2, 3));
}

#[test]
fn trailing_comma_in_arguments() {
    let e = expr("f(a,)").unwrap_err();
    assert_eq!(e.data, ParseErrorData::UnexpectedEOF);
    assert_eq!(e.text_range, range(1, 3, 4));
}

#[test]
fn unclosed_bracket_in_index() {
    let e = expr("a[1").unwrap_err();
    assert_eq!(e.data, ParseErrorData::UnclosedBracket);
}

#[test]
fn property_name_must_be_identifier() {
    let e = expr("a.1").unwrap_err();
    assert_eq!(e.data, ParseErrorData::UnexpectedToken(TokenData::NumericLiteral(1)));
    let e = expr("a.").unwrap_err();
    assert_eq!(e.data, ParseErrorData::UnexpectedToken(TokenData::Dot));
}

#[test]
fn unmatched_closer_in_expression() {
    let e = expr("a )").unwrap_err();
    assert_eq!(e.data, ParseErrorData::UnexpectedToken(TokenData::CloseParenthesis));
    assert_eq!(e.text_range, range(1, 2, 3));
}

#[test]
fn lone_symbol_is_not_an_expression() {
    let e = expr("=").unwrap_err();
    assert_eq!(e.data, ParseErrorData::UnexpectedToken(TokenData::Equals));
}

#[test]
fn unsupported_operand_and_suffix() {
    assert_eq!(expr("1 2").unwrap_err().data, ParseErrorData::UnsupportedSyntax);
    assert_eq!(expr("a b").unwrap_err().data, ParseErrorData::UnsupportedSyntax);
}

#[test]
fn declaration_statement() {
    let tokens = tokenize("var x = 5;").unwrap();
    let (n, used) = parse_stmt(&tokens).unwrap();
    assert_eq!(used, 5);
    match &*n.data {
        NodeData::VariableDeclaration(DeclarationType::Var, id, value) => {
            assert!(is_ident(id, "x"));
            assert!(is_num(value, 5));
        },
        _ => panic!("not a declaration"),
    }
    assert_eq!(n.text_range, range(1, 0, 10));
}

#[test]
fn declaration_kinds() {
    for (src, kind) in [("const a = 1;", DeclarationType::Const), ("let a = 1;", DeclarationType::Let)] {
        let tokens = tokenize(src).unwrap();
        let (n, _) = parse_stmt(&tokens).unwrap();
        assert!(matches!(&*n.data, NodeData::VariableDeclaration(k, _, _) if *k == kind));
    }
}

#[test]
fn declaration_without_semicolon() {
    let tokens = tokenize("var x = 5").unwrap();
    let e = parse_stmt(&tokens).unwrap_err();
    assert_eq!(e.data, ParseErrorData::MissingSemicolon);
}

#[test]
fn declaration_needs_name_and_equals() {
    let tokens = tokenize("var 1 = 5;").unwrap();
    assert_eq!(parse_stmt(&tokens).unwrap_err().data, ParseErrorData::UnexpectedToken(TokenData::NumericLiteral(1)));
    let tokens = tokenize("var x += 5;").unwrap();
    assert_eq!(parse_stmt(&tokens).unwrap_err().data, ParseErrorData::UnexpectedToken(TokenData::IncreaseBy));
    let tokens = tokenize("var x = ;").unwrap();
    assert_eq!(parse_stmt(&tokens).unwrap_err().data, ParseErrorData::UnexpectedEOF);
}

#[test]
fn modification_statement() {
    let tokens = tokenize("a += 2; c = 1;").unwrap();
    let (n, used) = parse_stmt(&tokens).unwrap();
    assert_eq!(used, 4);
    match &*n.data {
        NodeData::VariableModification(target, VariableModificationType::IncreaseBy, value) => {
            assert!(is_ident(target, "a"));
            assert!(is_num(value, 2));
        },
        _ => panic!("not a modification"),
    }
    assert_eq!(n.text_range, range(1, 0, 7));
    let tokens = tokenize("a, b = f(x);").unwrap();
    let (n, _) = parse_stmt(&tokens).unwrap();
    match &*n.data {
        NodeData::VariableModification(target, VariableModificationType::Assign, value) => {
            assert!(matches!(&*target.data, NodeData::Tuple(items) if items.len() == 2));
            assert!(matches!(&*value.data, NodeData::FunctionCall(_, _)));
        },
        _ => panic!("not a modification"),
    }
}

#[test]
fn modification_targets_are_identifiers() {
    let tokens = tokenize("a.b += 2;").unwrap();
    assert_eq!(parse_stmt(&tokens).unwrap_err().data, ParseErrorData::UnexpectedToken(TokenData::Dot));
}

#[test]
fn modification_errors() {
    let tokens = tokenize("a b = 1;").unwrap();
    assert_eq!(
        parse_stmt(&tokens).unwrap_err().data,
        ParseErrorData::UnexpectedToken(TokenData::Identifier("b".to_string()))
    );
    let tokens = tokenize("a;").unwrap();
    assert_eq!(parse_stmt(&tokens).unwrap_err().data, ParseErrorData::UnexpectedEOF);
    let tokens = tokenize("a = ;").unwrap();
    assert_eq!(parse_stmt(&tokens).unwrap_err().data, ParseErrorData::UnexpectedEOF);
}

#[test]
fn function_declaration() {
    let tokens = tokenize("fn add(a, b) { var c = a + b; } x = 1;").unwrap();
    let (n, used) = parse_stmt(&tokens).unwrap();
    assert_eq!(used, 16);
    match &*n.data {
        NodeData::FunctionDeclaration(name, params, body) => {
            assert!(is_ident(name, "add"));
            assert_eq!(params.len(), 2);
            assert!(matches!(&*params[1].data, NodeData::FunctionParameter(p) if is_ident(p, "b")));
            assert!(matches!(&*body.data, NodeData::Program(s) if s.len() == 1));
        },
        _ => panic!("not a function"),
    }
    assert_eq!(n.text_range, range(1, 0, 31));
}

#[test]
fn function_declaration_errors() {
    let cases: [(&str, ParseErrorData); 5] = [
        ("fn 1() {}", ParseErrorData::UnexpectedToken(TokenData::NumericLiteral(1))),
        ("fn f {}", ParseErrorData::UnexpectedToken(TokenData::OpenCurly)),
        ("fn f(a b) {}", ParseErrorData::UnexpectedToken(TokenData::Identifier("b".to_string()))),
        ("fn f()", ParseErrorData::UnexpectedEOF),
        ("fn f() { a = 1;", ParseErrorData::UnclosedCurly),
    ];
    for (src, want) in cases {
        let tokens = tokenize(src).unwrap();
        assert_eq!(parse_stmt(&tokens).unwrap_err().data, want, "{}", src);
    }
    let tokens = tokenize("fn f(a").unwrap();
    assert_eq!(parse_stmt(&tokens).unwrap_err().data, ParseErrorData::UnclosedParenthesis);
}

#[test]
fn conditional_with_else() {
    let tokens = tokenize("if a == 1 { b = 2; } else { b = 3; } c = 4;").unwrap();
    let (n, used) = parse_stmt(&tokens).unwrap();
    assert_eq!(used, 17);
    match &*n.data {
        NodeData::If(cond, _, Some(e)) => {
            assert!(matches!(&*cond.data, NodeData::BinaryExpr(_, OperatorType::IsEquals, _)));
            assert!(matches!(&*e.data, NodeData::Else(_)));
            assert_eq!(e.text_range, range(1, 21, 36));
        },
        _ => panic!("not a conditional with else"),
    }
    assert_eq!(n.text_range, range(1, 0, 36));
}

#[test]
fn conditional_without_else() {
    let tokens = tokenize("if x { y = 1; } z = 2;").unwrap();
    let (n, used) = parse_stmt(&tokens).unwrap();
    assert_eq!(used, 8);
    assert!(matches!(&*n.data, NodeData::If(_, _, None)));
    assert_eq!(n.text_range, range(1, 0, 15));
}

#[test]
fn conditional_errors() {
    let cases: [(&str, ParseErrorData); 4] = [
        ("if x", ParseErrorData::UnexpectedEOF),
        ("if x { y = 1;", ParseErrorData::UnclosedCurly),
        ("if x { y = 1; } else", ParseErrorData::UnexpectedEOF),
        ("if x { y = 1; } else z", ParseErrorData::UnexpectedToken(TokenData::Identifier("z".to_string()))),
    ];
    for (src, want) in cases {
        let tokens = tokenize(src).unwrap();
        assert_eq!(parse_stmt(&tokens).unwrap_err().data, want, "{}", src);
    }
}

#[test]
fn unsupported_statement() {
    let tokens = tokenize("5 = 1;").unwrap();
    assert_eq!(parse_stmt(&tokens).unwrap_err().data, ParseErrorData::UnsupportedSyntax);
}

#[test]
fn program_of_statements() {
    let n = program("var a = 1;\nfn f(x) { a = x; }\nif a { f(a); }").unwrap_err();
    assert_eq!(n.data, ParseErrorData::UnexpectedToken(TokenData::OpenParenthesis));
    let n = program("var a = 1;\nfn f(x) { a = x; }\nif a { b = f(a); }").unwrap();
    match &*n.data {
        NodeData::Program(stmts) => assert_eq!(stmts.len(), 3),
        _ => panic!("not a program"),
    }
    assert_eq!(n.text_range, TextRange { start: TextPos { line: 1, pos: 0 }, end: TextPos { line: 3, pos: 18 } });
}

#[test]
fn empty_program_and_empty_body() {
    let n = program("").unwrap();
    assert!(matches!(&*n.data, NodeData::Program(s) if s.is_empty()));
    let n = program("fn f() {}").unwrap();
    match &*n.data {
        NodeData::Program(stmts) => match &*stmts[0].data {
            NodeData::FunctionDeclaration(_, params, body) => {
                assert!(params.is_empty());
                assert!(matches!(&*body.data, NodeData::Program(s) if s.is_empty()));
            },
            _ => panic!("not a function"),
        },
        _ => panic!("not a program"),
    }
}

#[test]
fn one_bad_statement_fails_the_program() {
    let e = program("a = 1; b = ; c = 2;").unwrap_err();
    assert_eq!(e.data, ParseErrorData::UnexpectedEOF);
    assert_eq!(e.text_range, range(1, 9, 10));
}

#[test]
fn parsing_twice_gives_the_same_tree() {
    let src = "fn f(a) { if a { b = a[1] * 2; } else { b = -a; } }";
    let tokens = tokenize(src).unwrap();
    let first = format!("{:?}", parse_tks(&tokens).unwrap());
    let second = format!("{:?}", parse_tks(&tokens).unwrap());
    assert_eq!(first, second);
}

fn spans_on_token_boundaries(n: &Node, tokens: &[yoyogay::tokenizer::Token]) -> bool {
    let starts = tokens.iter().any(|t| t.text_range.start == n.text_range.start);
    let ends = tokens.iter().any(|t| t.text_range.end == n.text_range.end);
    let children: Vec<&Node> = match &*n.data {
        NodeData::Program(v) | NodeData::Tuple(v) => v.iter().collect(),
        NodeData::Identifier(_) | NodeData::NumericLiteral(_) => Vec::new(),
        NodeData::BinaryExpr(a, _, b)
        | NodeData::StructAccess(a, b)
        | NodeData::ModAccess(a, b)
        | NodeData::ArrayAccess(a, b)
        | NodeData::VariableDeclaration(_, a, b)
        | NodeData::VariableModification(a, _, b) => vec![a, b],
        NodeData::FunctionDeclaration(a, v, b) => {
            let mut c = vec![a];
            c.extend(v.iter());
            c.push(b);
            c
        },
        NodeData::FunctionCall(a, v) => {
            let mut c = vec![a];
            c.extend(v.iter());
            c
        },
        NodeData::FunctionParameter(a) | NodeData::Else(a) | NodeData::Neg(a) => vec![a],
        NodeData::If(a, b, e) => {
            let mut c = vec![a, b];
            if let Some(x) = e {
                c.push(x);
            }
            c
        },
    };
    starts && ends && children.iter().all(|c| spans_on_token_boundaries(c, tokens))
}

#[test]
fn expression_spans_lie_on_token_boundaries() {
    let tokens = tokenize("(a + f(b, -c)[2]) * m::n.o, (1)").unwrap();
    let n = parse_expr(&tokens).unwrap();
    assert!(spans_on_token_boundaries(&n, &tokens));
}

#[test]
fn program_spans_lie_on_token_boundaries() {
    let tokens = tokenize("fn f(a) {\n  if a { b = a[1]; } else { const c = -a; }\n}\nd = f(2);").unwrap();
    let n = parse_tks(&tokens).unwrap();
    assert!(spans_on_token_boundaries(&n, &tokens));
}

#[test]
fn parameter_list_with_an_empty_slot() {
    let cases: [(&str, usize); 4] = [("fn f(a,) {}", 1), ("fn f(,a) {}", 0), ("fn f(a,,b) {}", 2), ("fn f(a, b,) {}", 4)];
    for (src, col_from_paren) in cases {
        let tokens = tokenize(src).unwrap();
        let e = parse_stmt(&tokens).unwrap_err();
        assert_eq!(e.data, ParseErrorData::UnexpectedToken(TokenData::Comma), "{}", src);
        assert_eq!(e.text_range.start.pos, 5 + col_from_paren, "{}", src);
    }
    let tokens = tokenize("fn f(a, 1) {}").unwrap();
    assert_eq!(parse_stmt(&tokens).unwrap_err().data, ParseErrorData::UnexpectedToken(TokenData::NumericLiteral(1)));
}
