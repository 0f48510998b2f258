use yoyogay::ast::{OperatorType, VariableModificationType};
use yoyogay::parser::utils::delimiter_checker::{DelimiterChecker, DelimiterCheckerError};
use yoyogay::parser::utils::find_free_token::find_free_token;
use yoyogay::parser::{ParseError, ParseErrorData};
use yoyogay::text_data::{TextPos, TextRange};
use yoyogay::tokenizer::{tokenize, Token, TokenData, TokenKind, TokenizeError, TokensUtils};

fn kinds(tokens: &[Token]) -> Vec<TokenKind> {
    tokens.iter().map(|t| t.data.kind()).collect()
}

fn range(line: usize, start: usize, end: usize) -> TextRange {
    TextRange { start: TextPos { line, pos: start }, end: TextPos { line, pos: end } }
}

#[test]
fn unknown_character_is_reported_with_its_position() {
    let r = tokenize("$");
    assert_eq!(r.unwrap_err(), TokenizeError::UnknownCharacter('$', TextPos { line: 1, pos: 0 }));
}

#[test]
fn unknown_character_after_newline() {
    let r = tokenize("a\n  b #");
    assert_eq!(r.unwrap_err(), TokenizeError::UnknownCharacter('#', TextPos { line: 2, pos: 4 }));
}

#[test]
fn keyword_prefix_stays_an_identifier() {
    let tokens = tokenize("constant").unwrap();
    assert_eq!(tokens.len(), 1);
    assert_eq!(tokens[0].data, TokenData::Identifier("constant".to_string()));
    assert_eq!(tokens[0].text_range, range(1, 0, 8));
}

#[test]
fn keywords_are_recognized() {
    let tokens = tokenize("const var let fn if else").unwrap();
    assert_eq!(
        kinds(&tokens),
        vec![TokenKind::Const, TokenKind::Var, TokenKind::Let, TokenKind::Fn, TokenKind::If, TokenKind::Else]
    );
}

#[test]
fn identifiers_take_letters_digits_and_underscores() {
    let tokens = tokenize("_zeta9 Zz").unwrap();
    assert_eq!(tokens[0].data, TokenData::Identifier("_zeta9".to_string()));
    assert_eq!(tokens[1].data, TokenData::Identifier("Zz".to_string()));
}

#[test]
fn numeric_literal_value_and_span() {
    let tokens = tokenize("  1909").unwrap();
    assert_eq!(tokens.len(), 1);
    assert_eq!(tokens[0].data, TokenData::NumericLiteral(1909));
    assert_eq!(tokens[0].text_range, range(1, 2, 6));
}

#[test]
fn largest_numeric_literal_fits() {
    let src = usize::MAX.to_string();
    let tokens = tokenize(&src).unwrap();
    assert_eq!(tokens[0].data, TokenData::NumericLiteral(usize::MAX));
}

#[test]
fn too_large_numeric_literal_fails() {
    let src = format!("x = {}0", usize::MAX);
    let r = tokenize(&src);
    assert_eq!(r.unwrap_err(), TokenizeError::NumberTooLarge(TextPos { line: 1, pos: 4 }));
}

#[test]
fn longest_symbol_wins() {
    let tokens = tokenize("== != += -= *= /= :: || = + - * / | .").unwrap();
    assert_eq!(
        kinds(&tokens),
        vec![
            TokenKind::IsEquals,
            TokenKind::NotEquals,
            TokenKind::IncreaseBy,
            TokenKind::DecreaseBy,
            TokenKind::MultiplyBy,
            TokenKind::DivideBy,
            TokenKind::ModAccess,
            TokenKind::Or,
            TokenKind::Equals,
            TokenKind::Add,
            TokenKind::Sub,
            TokenKind::Mul,
            TokenKind::Div,
            TokenKind::Pipe,
            TokenKind::Dot,
        ]
    );
}

#[test]
fn adjacent_equals_are_not_split() {
    let tokens = tokenize("a==b").unwrap();
    assert_eq!(kinds(&tokens), vec![TokenKind::Identifier, TokenKind::IsEquals, TokenKind::Identifier]);
    assert_eq!(tokens[1].text_range, range(1, 1, 3));
}

#[test]
fn single_colon_is_unknown() {
    let r = tokenize("a:");
    assert_eq!(r.unwrap_err(), TokenizeError::UnknownCharacter(':', TextPos { line: 1, pos: 1 }));
}

#[test]
fn newline_resets_the_column() {
    let tokens = tokenize("var x\n\tx = 1;").unwrap();
    assert_eq!(tokens[1].text_range, range(1, 4, 5));
    assert_eq!(tokens[2].text_range, range(2, 1, 2));
    assert_eq!(tokens[5].text_range, range(2, 6, 7));
}

#[test]
fn empty_text_has_no_tokens() {
    assert!(tokenize("").unwrap().is_empty());
    assert!(tokenize(" \n\t ").unwrap().is_empty());
}

#[test]
fn unbalanced_brackets_tokenize() {
    let tokens = tokenize("(()").unwrap();
    assert_eq!(
        kinds(&tokens),
        vec![TokenKind::OpenParenthesis, TokenKind::OpenParenthesis, TokenKind::CloseParenthesis]
    );
}

#[test]
fn tokenizing_twice_gives_the_same_tokens() {
    let src = "fn f(a, b) { var x = a[0] + b.c; }";
    assert_eq!(tokenize(src).unwrap(), tokenize(src).unwrap());
}

#[test]
fn find_pair_forward_and_backward() {
    let tokens = tokenize("f(a[1], (b))").unwrap();
    assert_eq!(tokens.find_pair(1), Some(10));
    assert_eq!(tokens.find_pair(10), Some(1));
    assert_eq!(tokens.find_pair(3), Some(5));
    assert_eq!(tokens.find_pair(7), Some(9));
    assert_eq!(tokens.find_pair(9), Some(7));
}

#[test]
fn find_pair_reaches_the_first_token() {
    let tokens = tokenize("()").unwrap();
    assert_eq!(tokens.find_pair(1), Some(0));
}

#[test]
fn find_pair_of_unclosed_bracket() {
    let tokens = tokenize("(()").unwrap();
    assert_eq!(tokens.find_pair(0), None);
    let tokens = tokenize("(]").unwrap();
    assert_eq!(tokens.find_pair(0), None);
}

#[test]
fn find_free_skips_nested_tokens() {
    let tokens = tokenize("f(a, b), c").unwrap();
    assert_eq!(tokens.find_free(&TokenData::Comma), Some(6));
    let tokens = tokenize("a ) , b").unwrap();
    assert_eq!(tokens.find_free(&TokenData::Comma), None);
}

#[test]
fn find_free_opener_at_depth_one() {
    let tokens = tokenize("if a[0] { b = 1; }").unwrap();
    assert_eq!(tokens.find_free(&TokenData::OpenCurly), Some(5));
    let tokens = tokenize("f(g(x))").unwrap();
    assert_eq!(tokens.find_free(&TokenData::OpenParenthesis), Some(1));
}

#[test]
fn find_free_compares_identifier_text() {
    let tokens = tokenize("a b (c) c").unwrap();
    assert_eq!(tokens.find_free(&TokenData::Identifier("c".to_string())), Some(5));
}

#[test]
fn split_cuts_at_every_separator() {
    let tokens = tokenize("a, f(b, c), d").unwrap();
    let pieces = tokens.split_tks(&TokenData::Comma);
    let lens: Vec<usize> = pieces.iter().map(|p| p.len()).collect();
    assert_eq!(lens, vec![1, 3, 2, 1]);
}

#[test]
fn split_keeps_empty_pieces() {
    let tokens = tokenize("a,,b,").unwrap();
    let pieces = tokens.split_tks(&TokenData::Comma);
    let lens: Vec<usize> = pieces.iter().map(|p| p.len()).collect();
    assert_eq!(lens, vec![1, 0, 1, 0]);
    let none: Vec<Token> = Vec::new();
    assert!(none.split_tks(&TokenData::Comma).is_empty());
}

#[test]
fn delimiter_checker_counts_levels() {
    let tokens = tokenize("( [ { } ] ) )").unwrap();
    let mut checker = DelimiterChecker::new();
    assert!(checker.is_free());
    for t in &tokens[0..3] {
        assert!(checker.check(t).is_ok());
    }
    assert_eq!((checker.paren_level, checker.brack_level, checker.curly_level), (1, 1, 1));
    for t in &tokens[3..6] {
        assert!(checker.check(t).is_ok());
    }
    assert!(checker.is_free());
    match checker.check(&tokens[6]) {
        Err(DelimiterCheckerError::UnexpectedClosingParenthesis(t)) => assert_eq!(t.data, TokenData::CloseParenthesis),
        _ => panic!("expected an unmatched parenthesis"),
    }
    assert!(checker.is_free());
}

#[test]
fn delimiter_checker_backward() {
    let tokens = tokenize("{ ]").unwrap();
    let mut checker = DelimiterChecker::new();
    assert!(checker.check_reverse(&tokens[1]).is_ok());
    assert_eq!(checker.brack_level, 1);
    assert!(matches!(checker.check_reverse(&tokens[0]), Err(DelimiterCheckerError::UnexpectedClosingCurlyBrace(_))));
    assert_eq!(checker.brack_level, 1);
}

#[test]
fn first_token_anywhere() {
    let tokens = tokenize("a (b ; c) ; d").unwrap();
    let semicolon = tokenize(";").unwrap();
    assert_eq!(find_free_token(&tokens, &semicolon[0]), Some(3));
    let tokens = tokenize("a ) ;").unwrap();
    assert_eq!(find_free_token(&tokens, &semicolon[0]), None);
}

#[test]
fn tokenizer_error_as_parse_error() {
    let e = tokenize("x\n  @").unwrap_err();
    let p = ParseError::from_tokenize_error(e);
    assert_eq!(p.data, ParseErrorData::TokenizeError(e));
    assert_eq!(p.text_range, TextRange { start: TextPos { line: 2, pos: 2 }, end: TextPos { line: 2, pos: 2 } });
}

#[test]
fn token_data_helpers() {
    assert_eq!(TokenData::Mul.operator_type(), Some(OperatorType::Mul));
    assert_eq!(TokenData::Equals.operator_type(), None);
    assert_eq!(TokenData::MultiplyBy.variable_modification_type(), Some(VariableModificationType::MultiplyBy));
    assert_eq!(TokenData::Add.variable_modification_type(), None);
    assert_eq!(TokenData::from_kind(TokenKind::Pipe), TokenData::Pipe);
    let id = TokenData::Identifier("q".to_string());
    assert_eq!(id.duplicate(), id);
    assert!(id.same_as(&TokenData::Identifier("q".to_string())));
    assert!(!id.same_as(&TokenData::Identifier("r".to_string())));
    assert!(!TokenData::NumericLiteral(1).same_as(&TokenData::NumericLiteral(2)));
}

#[test]
fn token_spans_delimit_their_text() {
    let src = "var x1 = 42;\n\tif x1 != 7 { m::f(x1); }";
    let lines: Vec<Vec<char>> = src.split('\n').map(|l| l.chars().collect()).collect();
    for t in tokenize(src).unwrap() {
        let r = t.text_range;
        assert_eq!(r.start.line, r.end.line);
        let line = &lines[r.start.line - 1];
        let text: String = line[r.start.pos..r.end.pos].iter().collect();
        assert_eq!(text, t.to_string());
    }
}
