use vstd::prelude::*;

use crate::ast::{OperatorType, VariableModificationType};
use crate::parser::utils::delimiter_checker::{
    backward_step, forward_step, is_closer, is_free, is_opener, no_nesting, DelimiterChecker, Nesting,
};
use crate::text_data::{TextPos, TextRange};
use vstd::slice::slice_subrange;
use vstd::std_specs::iter::IteratorSpec;

verus! {

/// The kind of a token, without its payload.
#[derive(Debug, Clone, Copy, PartialEq, Eq, Structural)]
pub enum TokenKind {
    Identifier,
    NumericLiteral,
    Equals,
    Add,
    Sub,
    Mul,
    Div,
    IncreaseBy,
    DecreaseBy,
    MultiplyBy,
    DivideBy,
    OpenParenthesis,
    CloseParenthesis,
    OpenCurly,
    CloseCurly,
    OpenBracket,
    CloseBracket,
    Var,
    Const,
    Let,
    Fn,
    If,
    Else,
    ModAccess,
    NotEquals,
    IsEquals,
    Comma,
    Semicolon,
    Pipe,
    Dot,
    Or,
}

/// A token's kind together with its payload: identifiers own their text and
/// numeric literals their value.
#[derive(Debug, Clone, PartialEq)]
pub enum TokenData {
    Identifier(String),
    NumericLiteral(usize),
    Equals,
    Add,
    Sub,
    Mul,
    Div,
    IncreaseBy,
    DecreaseBy,
    MultiplyBy,
    DivideBy,
    OpenParenthesis,
    CloseParenthesis,
    OpenCurly,
    CloseCurly,
    OpenBracket,
    CloseBracket,
    Var,
    Const,
    Let,
    Fn,
    If,
    Else,
    ModAccess,
    NotEquals,
    IsEquals,
    Comma,
    Semicolon,
    Pipe,
    Dot,
    Or,
}

#[derive(Debug, Clone, PartialEq)]
pub struct Token {
    pub data: TokenData,
    pub text_range: TextRange,
}

/// What a token is, as a mathematical value.
pub struct TokenView {
    pub kind: TokenKind,
    /// The identifier's text; empty for other kinds.
    pub text: Seq<char>,
    /// The literal's value; zero for other kinds.
    pub value: nat,
    pub text_range: TextRange,
}

#[derive(Debug, Clone, Copy, PartialEq, Eq, Structural)]
pub enum TokenizeError {
    /// No token starts with this character, found at this position.
    UnknownCharacter(char, TextPos),
    /// The numeric literal starting at this position does not fit in a `usize`.
    NumberTooLarge(TextPos),
}

pub open spec fn has_payload(k: TokenKind) -> bool {
    k == TokenKind::Identifier || k == TokenKind::NumericLiteral
}

/// The payload-free token data of a kind.
pub open spec fn data_of_kind(k: TokenKind) -> TokenData {
    match k {
        TokenKind::Equals => TokenData::Equals,
        TokenKind::Add => TokenData::Add,
        TokenKind::Sub => TokenData::Sub,
        TokenKind::Mul => TokenData::Mul,
        TokenKind::Div => TokenData::Div,
        TokenKind::IncreaseBy => TokenData::IncreaseBy,
        TokenKind::DecreaseBy => TokenData::DecreaseBy,
        TokenKind::MultiplyBy => TokenData::MultiplyBy,
        TokenKind::DivideBy => TokenData::DivideBy,
        TokenKind::OpenParenthesis => TokenData::OpenParenthesis,
        TokenKind::CloseParenthesis => TokenData::CloseParenthesis,
        TokenKind::OpenCurly => TokenData::OpenCurly,
        TokenKind::CloseCurly => TokenData::CloseCurly,
        TokenKind::OpenBracket => TokenData::OpenBracket,
        TokenKind::CloseBracket => TokenData::CloseBracket,
        TokenKind::Var => TokenData::Var,
        TokenKind::Const => TokenData::Const,
        TokenKind::Let => TokenData::Let,
        TokenKind::Fn => TokenData::Fn,
        TokenKind::If => TokenData::If,
        TokenKind::Else => TokenData::Else,
        TokenKind::ModAccess => TokenData::ModAccess,
        TokenKind::NotEquals => TokenData::NotEquals,
        TokenKind::IsEquals => TokenData::IsEquals,
        TokenKind::Comma => TokenData::Comma,
        TokenKind::Semicolon => TokenData::Semicolon,
        TokenKind::Pipe => TokenData::Pipe,
        TokenKind::Dot => TokenData::Dot,
        TokenKind::Or => TokenData::Or,
        TokenKind::Identifier => TokenData::Comma,
        TokenKind::NumericLiteral => TokenData::Comma,
    }
}

impl TokenData {
    pub open spec fn spec_kind(&self) -> TokenKind {
        match self {
            TokenData::Identifier(_) => TokenKind::Identifier,
            TokenData::NumericLiteral(_) => TokenKind::NumericLiteral,
            TokenData::Equals => TokenKind::Equals,
            TokenData::Add => TokenKind::Add,
            TokenData::Sub => TokenKind::Sub,
            TokenData::Mul => TokenKind::Mul,
            TokenData::Div => TokenKind::Div,
            TokenData::IncreaseBy => TokenKind::IncreaseBy,
            TokenData::DecreaseBy => TokenKind::DecreaseBy,
            TokenData::MultiplyBy => TokenKind::MultiplyBy,
            TokenData::DivideBy => TokenKind::DivideBy,
            TokenData::OpenParenthesis => TokenKind::OpenParenthesis,
            TokenData::CloseParenthesis => TokenKind::CloseParenthesis,
            TokenData::OpenCurly => TokenKind::OpenCurly,
            TokenData::CloseCurly => TokenKind::CloseCurly,
            TokenData::OpenBracket => TokenKind::OpenBracket,
            TokenData::CloseBracket => TokenKind::CloseBracket,
            TokenData::Var => TokenKind::Var,
            TokenData::Const => TokenKind::Const,
            TokenData::Let => TokenKind::Let,
            TokenData::Fn => TokenKind::Fn,
            TokenData::If => TokenKind::If,
            TokenData::Else => TokenKind::Else,
            TokenData::ModAccess => TokenKind::ModAccess,
            TokenData::NotEquals => TokenKind::NotEquals,
            TokenData::IsEquals => TokenKind::IsEquals,
            TokenData::Comma => TokenKind::Comma,
            TokenData::Semicolon => TokenKind::Semicolon,
            TokenData::Pipe => TokenKind::Pipe,
            TokenData::Dot => TokenKind::Dot,
            TokenData::Or => TokenKind::Or,
        }
    }

    /// The identifier's text; empty for other kinds.
    pub open spec fn text(&self) -> Seq<char> {
        match self {
            TokenData::Identifier(s) => s@,
            _ => Seq::empty(),
        }
    }

    /// The literal's value; zero for other kinds.
    pub open spec fn value(&self) -> nat {
        match self {
            TokenData::NumericLiteral(n) => *n as nat,
            _ => 0,
        }
    }

    #[verifier::when_used_as_spec(spec_kind)]
    pub fn kind(&self) -> (r: TokenKind)
        ensures
            r == self.spec_kind(),
    {
        match self {
            TokenData::Identifier(_) => TokenKind::Identifier,
            TokenData::NumericLiteral(_) => TokenKind::NumericLiteral,
            TokenData::Equals => TokenKind::Equals,
            TokenData::Add => TokenKind::Add,
            TokenData::Sub => TokenKind::Sub,
            TokenData::Mul => TokenKind::Mul,
            TokenData::Div => TokenKind::Div,
            TokenData::IncreaseBy => TokenKind::IncreaseBy,
            TokenData::DecreaseBy => TokenKind::DecreaseBy,
            TokenData::MultiplyBy => TokenKind::MultiplyBy,
            TokenData::DivideBy => TokenKind::DivideBy,
            TokenData::OpenParenthesis => TokenKind::OpenParenthesis,
            TokenData::CloseParenthesis => TokenKind::CloseParenthesis,
            TokenData::OpenCurly => TokenKind::OpenCurly,
            TokenData::CloseCurly => TokenKind::CloseCurly,
            TokenData::OpenBracket => TokenKind::OpenBracket,
            TokenData::CloseBracket => TokenKind::CloseBracket,
            TokenData::Var => TokenKind::Var,
            TokenData::Const => TokenKind::Const,
            TokenData::Let => TokenKind::Let,
            TokenData::Fn => TokenKind::Fn,
            TokenData::If => TokenKind::If,
            TokenData::Else => TokenKind::Else,
            TokenData::ModAccess => TokenKind::ModAccess,
            TokenData::NotEquals => TokenKind::NotEquals,
            TokenData::IsEquals => TokenKind::IsEquals,
            TokenData::Comma => TokenKind::Comma,
            TokenData::Semicolon => TokenKind::Semicolon,
            TokenData::Pipe => TokenKind::Pipe,
            TokenData::Dot => TokenKind::Dot,
            TokenData::Or => TokenKind::Or,
        }
    }

    /// The payload-free data of kind `k`.
    pub fn from_kind(k: TokenKind) -> (r: TokenData)
        requires
            !has_payload(k),
        ensures
            r == data_of_kind(k),
            r.spec_kind() == k,
    {
        match k {
            TokenKind::Equals => TokenData::Equals,
            TokenKind::Add => TokenData::Add,
            TokenKind::Sub => TokenData::Sub,
            TokenKind::Mul => TokenData::Mul,
            TokenKind::Div => TokenData::Div,
            TokenKind::IncreaseBy => TokenData::IncreaseBy,
            TokenKind::DecreaseBy => TokenData::DecreaseBy,
            TokenKind::MultiplyBy => TokenData::MultiplyBy,
            TokenKind::DivideBy => TokenData::DivideBy,
            TokenKind::OpenParenthesis => TokenData::OpenParenthesis,
            TokenKind::CloseParenthesis => TokenData::CloseParenthesis,
            TokenKind::OpenCurly => TokenData::OpenCurly,
            TokenKind::CloseCurly => TokenData::CloseCurly,
            TokenKind::OpenBracket => TokenData::OpenBracket,
            TokenKind::CloseBracket => TokenData::CloseBracket,
            TokenKind::Var => TokenData::Var,
            TokenKind::Const => TokenData::Const,
            TokenKind::Let => TokenData::Let,
            TokenKind::Fn => TokenData::Fn,
            TokenKind::If => TokenData::If,
            TokenKind::Else => TokenData::Else,
            TokenKind::ModAccess => TokenData::ModAccess,
            TokenKind::NotEquals => TokenData::NotEquals,
            TokenKind::IsEquals => TokenData::IsEquals,
            TokenKind::Comma => TokenData::Comma,
            TokenKind::Semicolon => TokenData::Semicolon,
            TokenKind::Pipe => TokenData::Pipe,
            TokenKind::Dot => TokenData::Dot,
            TokenKind::Or => TokenData::Or,
            TokenKind::Identifier => TokenData::Comma,
            TokenKind::NumericLiteral => TokenData::Comma,
        }
    }

    /// An equal copy of this data.
    pub fn duplicate(&self) -> (r: TokenData)
        ensures
            r == *self,
    {
        match self {
            TokenData::Identifier(s) => TokenData::Identifier(s.clone()),
            TokenData::NumericLiteral(n) => TokenData::NumericLiteral(*n),
            _ => TokenData::from_kind(self.kind()),
        }
    }

    /// Whether two token data have the same kind and the same payload.
    pub fn same_as(&self, other: &TokenData) -> (r: bool)
        ensures
            r == same_data(*self, *other),
    {
        match (self, other) {
            (TokenData::Identifier(a), TokenData::Identifier(b)) => a.eq(b),
            (TokenData::NumericLiteral(a), TokenData::NumericLiteral(b)) => *a == *b,
            _ => self.kind() == other.kind(),
        }
    }

    pub open spec fn spec_operator_type(&self) -> Option<OperatorType> {
        match self {
            TokenData::Add => Some(OperatorType::Add),
            TokenData::Sub => Some(OperatorType::Sub),
            TokenData::Mul => Some(OperatorType::Mul),
            TokenData::Div => Some(OperatorType::Div),
            TokenData::NotEquals => Some(OperatorType::NotEquals),
            TokenData::IsEquals => Some(OperatorType::IsEquals),
            TokenData::Or => Some(OperatorType::Or),
            _ => None,
        }
    }

    /// The binary operator this token stands for, if any.
    #[verifier::when_used_as_spec(spec_operator_type)]
    pub fn operator_type(&self) -> (r: Option<OperatorType>)
        ensures
            r == self.spec_operator_type(),
    {
        match self {
            TokenData::Add => Some(OperatorType::Add),
            TokenData::Sub => Some(OperatorType::Sub),
            TokenData::Mul => Some(OperatorType::Mul),
            TokenData::Div => Some(OperatorType::Div),
            TokenData::NotEquals => Some(OperatorType::NotEquals),
            TokenData::IsEquals => Some(OperatorType::IsEquals),
            TokenData::Or => Some(OperatorType::Or),
            _ => None,
        }
    }

    pub open spec fn spec_variable_modification_type(&self) -> Option<VariableModificationType> {
        match self {
            TokenData::Equals => Some(VariableModificationType::Assign),
            TokenData::IncreaseBy => Some(VariableModificationType::IncreaseBy),
            TokenData::DecreaseBy => Some(VariableModificationType::DecreaseBy),
            TokenData::MultiplyBy => Some(VariableModificationType::MultiplyBy),
            TokenData::DivideBy => Some(VariableModificationType::DivideBy),
            _ => None,
        }
    }

    /// The assignment operator this token stands for, if any.
    #[verifier::when_used_as_spec(spec_variable_modification_type)]
    pub fn variable_modification_type(&self) -> (r: Option<VariableModificationType>)
        ensures
            r == self.spec_variable_modification_type(),
    {
        match self {
            TokenData::Equals => Some(VariableModificationType::Assign),
            TokenData::IncreaseBy => Some(VariableModificationType::IncreaseBy),
            TokenData::DecreaseBy => Some(VariableModificationType::DecreaseBy),
            TokenData::MultiplyBy => Some(VariableModificationType::MultiplyBy),
            TokenData::DivideBy => Some(VariableModificationType::DivideBy),
            _ => None,
        }
    }
}

/// Same kind, and for identifiers and literals the same payload.
pub open spec fn same_data(a: TokenData, b: TokenData) -> bool {
    &&& a.spec_kind() == b.spec_kind()
    &&& a.text() == b.text()
    &&& a.value() == b.value()
}

impl View for Token {
    type V = TokenView;

    open spec fn view(&self) -> TokenView {
        TokenView {
            kind: self.data.spec_kind(),
            text: self.data.text(),
            value: self.data.value(),
            text_range: self.text_range,
        }
    }
}

pub open spec fn tokens_view(s: Seq<Token>) -> Seq<TokenView> {
    s.map_values(|t: Token| t@)
}

// ---------------------------------------------------------------------------
// The lexical grammar.
pub open spec fn is_ident_start(c: char) -> bool {
    ('a' <= c && c <= 'z') || ('A' <= c && c <= 'Z') || c == '_'
}

pub open spec fn is_digit(c: char) -> bool {
    '0' <= c && c <= '9'
}

pub open spec fn is_ident_char(c: char) -> bool {
    is_ident_start(c) || is_digit(c)
}

/// The number of identifier characters in a row from `i`.
pub open spec fn ident_run(s: Seq<char>, i: int) -> nat
    decreases s.len() - i,
{
    if 0 <= i < s.len() && is_ident_char(s[i]) {
        1 + ident_run(s, i + 1)
    } else {
        0
    }
}

/// The number of decimal digits in a row from `i`.
pub open spec fn digit_run(s: Seq<char>, i: int) -> nat
    decreases s.len() - i,
{
    if 0 <= i < s.len() && is_digit(s[i]) {
        1 + digit_run(s, i + 1)
    } else {
        0
    }
}

pub open spec fn digit_value(c: char) -> nat {
    (c as int - '0' as int) as nat
}

/// The value of a run of decimal digits.
pub open spec fn digits_value(d: Seq<char>) -> nat
    decreases d.len(),
{
    if d.len() == 0 {
        0
    } else {
        digits_value(d.drop_last()) * 10 + digit_value(d.last())
    }
}

/// The keyword spelled by `w`, if it is one.
pub open spec fn keyword(w: Seq<char>) -> Option<TokenKind> {
    if w == seq!['c', 'o', 'n', 's', 't'] {
        Some(TokenKind::Const)
    } else if w == seq!['v', 'a', 'r'] {
        Some(TokenKind::Var)
    } else if w == seq!['l', 'e', 't'] {
        Some(TokenKind::Let)
    } else if w == seq!['f', 'n'] {
        Some(TokenKind::Fn)
    } else if w == seq!['i', 'f'] {
        Some(TokenKind::If)
    } else if w == seq!['e', 'l', 's', 'e'] {
        Some(TokenKind::Else)
    } else {
        None
    }
}

/// A punctuation entry: its first character, its second one if it has two,
/// and the kind it stands for.
pub type Symbol = (char, Option<char>, TokenKind);

/// The punctuation table, in the order it is tried: every two-character
/// symbol comes before the one-character symbols.
pub open spec fn symbol_table() -> Seq<Symbol> {
    seq![
        (':', Some(':'), TokenKind::ModAccess),
        ('!', Some('='), TokenKind::NotEquals),
        ('=', Some('='), TokenKind::IsEquals),
        ('+', Some('='), TokenKind::IncreaseBy),
        ('-', Some('='), TokenKind::DecreaseBy),
        ('*', Some('='), TokenKind::MultiplyBy),
        ('/', Some('='), TokenKind::DivideBy),
        ('|', Some('|'), TokenKind::Or),
        ('=', None, TokenKind::Equals),
        ('+', None, TokenKind::Add),
        ('-', None, TokenKind::Sub),
        ('*', None, TokenKind::Mul),
        ('/', None, TokenKind::Div),
        ('(', None, TokenKind::OpenParenthesis),
        (')', None, TokenKind::CloseParenthesis),
        ('[', None, TokenKind::OpenBracket),
        (']', None, TokenKind::CloseBracket),
        ('{', None, TokenKind::OpenCurly),
        ('}', None, TokenKind::CloseCurly),
        (',', None, TokenKind::Comma),
        (';', None, TokenKind::Semicolon),
        ('|', None, TokenKind::Pipe),
        ('.', None, TokenKind::Dot),
    ]
}

pub open spec fn symbol_len(e: Symbol) -> nat {
    if e.1 is Some {
        2
    } else {
        1
    }
}

/// Whether the symbol is spelled at position `i` of `s`.
pub open spec fn symbol_at(e: Symbol, s: Seq<char>, i: int) -> bool {
    &&& 0 <= i < s.len()
    &&& s[i] == e.0
    &&& match e.1 {
        Some(c) => i + 1 < s.len() && s[i + 1] == c,
        None => true,
    }
}

/// The first entry from `k` on that is spelled at `i`: its kind and length.
pub open spec fn symbol_from(table: Seq<Symbol>, s: Seq<char>, i: int, k: int) -> Option<(TokenKind, nat)>
    decreases table.len() - k,
{
    if k < 0 || k >= table.len() {
        None
    } else if symbol_at(table[k], s, i) {
        Some((table[k].2, symbol_len(table[k])))
    } else {
        symbol_from(table, s, i, k + 1)
    }
}

/// The kind and length of the token that starts at `i`: identifiers and
/// keywords first, then numeric literals, then punctuation.
pub open spec fn token_at(s: Seq<char>, i: int) -> Option<(TokenKind, nat)> {
    if is_ident_start(s[i]) {
        let n = 1 + ident_run(s, i + 1);
        match keyword(s.subrange(i, i + n)) {
            Some(k) => Some((k, n)),
            None => Some((TokenKind::Identifier, n)),
        }
    } else if is_digit(s[i]) {
        Some((TokenKind::NumericLiteral, 1 + digit_run(s, i + 1)))
    } else {
        symbol_from(symbol_table(), s, i, 0)
    }
}

pub proof fn lemma_token_len(s: Seq<char>, i: int)
    requires
        0 <= i < s.len(),
    ensures
        token_at(s, i) matches Some((_, n)) ==> 1 <= n <= s.len() - i,
{
    lemma_ident_run_bound(s, i + 1);
    lemma_digit_run_bound(s, i + 1);
    lemma_symbol_from_bound(symbol_table(), s, i, 0);
}

pub proof fn lemma_ident_run_bound(s: Seq<char>, i: int)
    requires
        0 <= i <= s.len(),
    ensures
        ident_run(s, i) <= s.len() - i,
    decreases s.len() - i,
{
    if i < s.len() {
        lemma_ident_run_bound(s, i + 1);
    }
}

pub proof fn lemma_digit_run_bound(s: Seq<char>, i: int)
    requires
        0 <= i <= s.len(),
    ensures
        digit_run(s, i) <= s.len() - i,
    decreases s.len() - i,
{
    if i < s.len() {
        lemma_digit_run_bound(s, i + 1);
    }
}

pub proof fn lemma_symbol_from_bound(table: Seq<Symbol>, s: Seq<char>, i: int, k: int)
    ensures
        symbol_from(table, s, i, k) matches Some((_, n)) ==> 1 <= n && i + n <= s.len(),
    decreases table.len() - k,
{
    if 0 <= k < table.len() && !symbol_at(table[k], s, i) {
        lemma_symbol_from_bound(table, s, i, k + 1);
    }
}

pub open spec fn prepend(
    pre: Seq<TokenView>,
    r: Result<Seq<TokenView>, TokenizeError>,
) -> Result<Seq<TokenView>, TokenizeError> {
    match r {
        Ok(rest) => Ok(pre + rest),
        Err(e) => Err(e),
    }
}

/// The tokens of `s` from index `i` on, where `i` stands at line `line` and
/// column `col`; or the first error met from there.
pub open spec fn lex_from(s: Seq<char>, i: int, line: nat, col: nat) -> Result<Seq<TokenView>, TokenizeError>
    decreases s.len() - i,
{
    if i < 0 || i >= s.len() {
        Ok(Seq::empty())
    } else if s[i] == '\n' {
        lex_from(s, i + 1, line + 1, 0)
    } else if s[i] == ' ' || s[i] == '\t' {
        lex_from(s, i + 1, line, col + 1)
    } else {
        let here = TextPos { line: line as usize, pos: col as usize };
        proof {
            lemma_token_len(s, i);
        }
        match token_at(s, i) {
            None => Err(TokenizeError::UnknownCharacter(s[i], here)),
            Some((kind, n)) => {
                let word = s.subrange(i, i + n);
                if kind == TokenKind::NumericLiteral && digits_value(word) > usize::MAX {
                    Err(TokenizeError::NumberTooLarge(here))
                } else {
                    let tok = TokenView {
                        kind,
                        text: if kind == TokenKind::Identifier { word } else { Seq::empty() },
                        value: if kind == TokenKind::NumericLiteral { digits_value(word) } else { 0 },
                        text_range: TextRange {
                            start: here,
                            end: TextPos { line: line as usize, pos: (col + n) as usize },
                        },
                    };
                    prepend(seq![tok], lex_from(s, i + n, line, col + n))
                }
            },
        }
    }
}

/// The tokens of a whole text, or the first error.
pub open spec fn spec_tokenize(s: Seq<char>) -> Result<Seq<TokenView>, TokenizeError> {
    lex_from(s, 0, 1, 0)
}

pub open spec fn tokenize_result_view(r: Result<Vec<Token>, TokenizeError>) -> Result<Seq<TokenView>, TokenizeError> {
    match r {
        Ok(v) => Ok(tokens_view(v@)),
        Err(e) => Err(e),
    }
}

proof fn lemma_prepend_push(pre: Seq<TokenView>, t: TokenView, r: Result<Seq<TokenView>, TokenizeError>)
    ensures
        prepend(pre, prepend(seq![t], r)) == prepend(pre.push(t), r),
{
    match r {
        Ok(rest) => {
            assert(pre + (seq![t] + rest) =~= pre.push(t) + rest);
        },
        Err(e) => {},
    }
}

// ---------------------------------------------------------------------------
// Recognizers.
/// Relies on String::push: appends one character at the end.
#[verifier::external_body]
pub(crate) fn push_char(s: &mut String, c: char)
    ensures
        final(s)@ == old(s)@.push(c),
{
    s.push(c)
}

fn char_is_ident_start(c: char) -> (r: bool)
    ensures
        r == is_ident_start(c),
{
    ('a' <= c && c <= 'z') || ('A' <= c && c <= 'Z') || c == '_'
}

fn char_is_digit(c: char) -> (r: bool)
    ensures
        r == is_digit(c),
{
    '0' <= c && c <= '9'
}

fn keyword_of(w: &Vec<char>) -> (r: Option<TokenKind>)
    ensures
        r == keyword(w@),
{
    let n = w.len();
    if n == 5 && w[0] == 'c' && w[1] == 'o' && w[2] == 'n' && w[3] == 's' && w[4] == 't' {
        assert(w@ =~= seq!['c', 'o', 'n', 's', 't']);
        Some(TokenKind::Const)
    } else if n == 3 && w[0] == 'v' && w[1] == 'a' && w[2] == 'r' {
        assert(w@ =~= seq!['v', 'a', 'r']);
        Some(TokenKind::Var)
    } else if n == 3 && w[0] == 'l' && w[1] == 'e' && w[2] == 't' {
        assert(w@ =~= seq!['l', 'e', 't']);
        Some(TokenKind::Let)
    } else if n == 2 && w[0] == 'f' && w[1] == 'n' {
        assert(w@ =~= seq!['f', 'n']);
        Some(TokenKind::Fn)
    } else if n == 2 && w[0] == 'i' && w[1] == 'f' {
        assert(w@ =~= seq!['i', 'f']);
        Some(TokenKind::If)
    } else if n == 4 && w[0] == 'e' && w[1] == 'l' && w[2] == 's' && w[3] == 'e' {
        assert(w@ =~= seq!['e', 'l', 's', 'e']);
        Some(TokenKind::Else)
    } else {
        proof {
            let c: Seq<char> = seq!['c', 'o', 'n', 's', 't'];
            let v: Seq<char> = seq!['v', 'a', 'r'];
            let l: Seq<char> = seq!['l', 'e', 't'];
            let f: Seq<char> = seq!['f', 'n'];
            let i: Seq<char> = seq!['i', 'f'];
            let e: Seq<char> = seq!['e', 'l', 's', 'e'];
            assert(w@ != c) by { if w@ == c { assert(w@[0] == c[0] && w@[4] == c[4]); } }
            assert(w@ != v) by { if w@ == v { assert(w@[0] == v[0] && w@[2] == v[2]); } }
            assert(w@ != l) by { if w@ == l { assert(w@[0] == l[0] && w@[2] == l[2]); } }
            assert(w@ != f) by { if w@ == f { assert(w@[0] == f[0] && w@[1] == f[1]); } }
            assert(w@ != i) by { if w@ == i { assert(w@[0] == i[0] && w@[1] == i[1]); } }
            assert(w@ != e) by { if w@ == e { assert(w@[0] == e[0] && w@[3] == e[3]); } }
        }
        None
    }
}

/// Reads the identifier or keyword that starts at `start`; returns its data
/// and its length.
fn identifier_token(src: &[char], start: usize) -> (r: (TokenData, usize))
    requires
        start < src@.len(),
        is_ident_start(src@[start as int]),
    ensures
        token_at(src@, start as int) == Some((r.0.spec_kind(), r.1 as nat)),
        r.0.spec_kind() == TokenKind::Identifier ==> r.0.text() == src@.subrange(start as int, start + r.1),
        r.0.value() == 0,
        start + r.1 <= src@.len(),
{
    let mut text = String::new();
    let mut chars: Vec<char> = Vec::new();
    let mut end: usize = start;
    while end < src.len() && (char_is_ident_start(src[end]) || char_is_digit(src[end]))
        invariant
            start <= end <= src@.len(),
            is_ident_start(src@[start as int]),
            end == start || ident_run(src@, start + 1) == (end - start - 1) + ident_run(src@, end as int),
            text@ == src@.subrange(start as int, end as int),
            chars@ == src@.subrange(start as int, end as int),
        decreases src@.len() - end,
    {
        push_char(&mut text, src[end]);
        chars.push(src[end]);
        end = end + 1;
        assert(chars@ =~= src@.subrange(start as int, end as int));
        assert(text@ =~= src@.subrange(start as int, end as int));
    }
    assert(end > start);
    let n = end - start;
    match keyword_of(&chars) {
        Some(k) => (TokenData::from_kind(k), n),
        None => (TokenData::Identifier(text), n),
    }
}

/// Reads the numeric literal that starts at `start`; returns its value, or
/// `None` where it does not fit in a `usize`, and its length.
fn numeric_token(src: &[char], start: usize) -> (r: (Option<usize>, usize))
    requires
        start < src@.len(),
        is_digit(src@[start as int]),
    ensures
        token_at(src@, start as int) == Some((TokenKind::NumericLiteral, r.1 as nat)),
        start + r.1 <= src@.len(),
        match r.0 {
            Some(v) => v as nat == digits_value(src@.subrange(start as int, start + r.1)),
            None => digits_value(src@.subrange(start as int, start + r.1)) > usize::MAX,
        },
{
    let mut value: usize = 0;
    let mut overflow = false;
    let mut end: usize = start;
    while end < src.len() && char_is_digit(src[end])
        invariant
            start <= end <= src@.len(),
            is_digit(src@[start as int]),
            end == start || digit_run(src@, start + 1) == (end - start - 1) + digit_run(src@, end as int),
            !overflow ==> value as nat == digits_value(src@.subrange(start as int, end as int)),
            overflow ==> digits_value(src@.subrange(start as int, end as int)) > usize::MAX,
        decreases src@.len() - end,
    {
        let d = (src[end] as u32 - '0' as u32) as usize;
        proof {
            let w = src@.subrange(start as int, end + 1);
            assert(w.drop_last() =~= src@.subrange(start as int, end as int));
            assert(digits_value(w) == digits_value(w.drop_last()) * 10 + digit_value(w.last()));
        }
        if !overflow {
            match value.checked_mul(10) {
                Some(m) => match m.checked_add(d) {
                    Some(v) => {
                        value = v;
                    },
                    None => {
                        overflow = true;
                    },
                },
                None => {
                    overflow = true;
                    assert(digits_value(src@.subrange(start as int, end + 1)) >= value * 10) by (nonlinear_arith)
                        requires
                            digits_value(src@.subrange(start as int, end + 1)) == value * 10 + digit_value(src@[end as int]),
                    ;
                },
            }
        } else {
            assert(digits_value(src@.subrange(start as int, end + 1)) >= digits_value(src@.subrange(start as int, end as int))) by (nonlinear_arith)
                requires
                    digits_value(src@.subrange(start as int, end + 1)) == digits_value(src@.subrange(start as int, end as int)) * 10 + digit_value(src@[end as int]),
            ;
        }
        end = end + 1;
    }
    assert(end > start);
    if overflow {
        (None, end - start)
    } else {
        (Some(value), end - start)
    }
}

/// The punctuation recognizer: a fixed table tried in order.
pub struct SymbolRecognizer {
    symbols: Vec<Symbol>,
}

impl SymbolRecognizer {
    pub closed spec fn wf(&self) -> bool {
        self.symbols@ == symbol_table()
    }

    pub fn new() -> (r: SymbolRecognizer)
        ensures
            r.wf(),
    {
        let symbols: Vec<Symbol> = vec![
            (':', Some(':'), TokenKind::ModAccess),
            ('!', Some('='), TokenKind::NotEquals),
            ('=', Some('='), TokenKind::IsEquals),
            ('+', Some('='), TokenKind::IncreaseBy),
            ('-', Some('='), TokenKind::DecreaseBy),
            ('*', Some('='), TokenKind::MultiplyBy),
            ('/', Some('='), TokenKind::DivideBy),
            ('|', Some('|'), TokenKind::Or),
            ('=', None, TokenKind::Equals),
            ('+', None, TokenKind::Add),
            ('-', None, TokenKind::Sub),
            ('*', None, TokenKind::Mul),
            ('/', None, TokenKind::Div),
            ('(', None, TokenKind::OpenParenthesis),
            (')', None, TokenKind::CloseParenthesis),
            ('[', None, TokenKind::OpenBracket),
            (']', None, TokenKind::CloseBracket),
            ('{', None, TokenKind::OpenCurly),
            ('}', None, TokenKind::CloseCurly),
            (',', None, TokenKind::Comma),
            (';', None, TokenKind::Semicolon),
            ('|', None, TokenKind::Pipe),
            ('.', None, TokenKind::Dot),
        ];
        assert(symbols@ =~= symbol_table());
        SymbolRecognizer { symbols }
    }

    /// The first table entry spelled at `i`: its kind and length.
    pub fn get_token(&self, src: &[char], i: usize) -> (r: Option<(TokenKind, usize)>)
        requires
            self.wf(),
            i < src@.len(),
        ensures
            match r {
                Some((k, n)) => symbol_from(symbol_table(), src@, i as int, 0) == Some((k, n as nat))
                    && !has_payload(k) && 1 <= n <= 2 && i + n <= src@.len(),
                None => symbol_from(symbol_table(), src@, i as int, 0) is None,
            },
    {
        let mut k: usize = 0;
        while k < self.symbols.len()
            invariant
                self.wf(),
                i < src@.len(),
                k <= self.symbols@.len(),
                symbol_from(symbol_table(), src@, i as int, 0) == symbol_from(symbol_table(), src@, i as int, k as int),
            decreases self.symbols@.len() - k,
        {
            let (first, second, kind) = self.symbols[k];
            let hit = src[i] == first && match second {
                Some(c) => i + 1 < src.len() && src[i + 1] == c,
                None => true,
            };
            if hit {
                let n: usize = if second.is_some() { 2 } else { 1 };
                assert(!has_payload(kind)) by {
                    assert(forall|j: int| 0 <= j < symbol_table().len() ==> !has_payload(#[trigger] symbol_table()[j].2));
                }
                return Some((kind, n));
            }
            k = k + 1;
        }
        None
    }
}

/// Splits `src` into tokens. Spaces, tabs and newlines separate tokens and
/// advance the position; a newline starts a new line at column 0. The first
/// character that starts no token, or a numeric literal too large for a
/// `usize`, fails the whole call.
pub fn tokenize_chars(src: &[char]) -> (r: Result<Vec<Token>, TokenizeError>)
    requires
        src@.len() < usize::MAX,
    ensures
        tokenize_result_view(r) == spec_tokenize(src@),
{
    let mut tokens: Vec<Token> = Vec::new();
    let mut ptr: usize = 0;
    let mut line: usize = 1;
    let mut pos: usize = 0;
    let symbols = SymbolRecognizer::new();
    assert(tokens_view(tokens@) =~= Seq::<TokenView>::empty());
    assert(prepend(Seq::empty(), spec_tokenize(src@)) == spec_tokenize(src@)) by {
        match spec_tokenize(src@) {
            Ok(s) => { assert(Seq::<TokenView>::empty() + s =~= s); },
            Err(_) => {},
        }
    }
    while ptr < src.len()
        invariant
            ptr <= src@.len(),
            src@.len() < usize::MAX,
            1 <= line <= ptr + 1,
            pos <= ptr,
            symbols.wf(),
            spec_tokenize(src@) == prepend(tokens_view(tokens@), lex_from(src@, ptr as int, line as nat, pos as nat)),
        decreases src@.len() - ptr,
    {
        let c = src[ptr];
        if c == '\n' {
            line = line + 1;
            pos = 0;
            ptr = ptr + 1;
        } else if c == ' ' || c == '\t' {
            pos = pos + 1;
            ptr = ptr + 1;
        } else {
            let here = TextPos { line, pos };
            let (data, n) = if char_is_ident_start(c) {
                identifier_token(src, ptr)
            } else if char_is_digit(c) {
                let (value, n) = numeric_token(src, ptr);
                match value {
                    Some(v) => (TokenData::NumericLiteral(v), n),
                    None => {
                        return Err(TokenizeError::NumberTooLarge(here));
                    },
                }
            } else {
                match symbols.get_token(src, ptr) {
                    Some((k, n)) => (TokenData::from_kind(k), n),
                    None => {
                        return Err(TokenizeError::UnknownCharacter(c, here));
                    },
                }
            };
            let token = Token {
                data,
                text_range: TextRange { start: here, end: TextPos { line, pos: pos + n } },
            };
            proof {
                let s = src@;
                let i = ptr as int;
                let word = s.subrange(i, i + n);
                assert(token_at(s, i) == Some((token.data.spec_kind(), n as nat)));
                let tv = TokenView {
                    kind: token.data.spec_kind(),
                    text: if token.data.spec_kind() == TokenKind::Identifier { word } else { Seq::empty() },
                    value: if token.data.spec_kind() == TokenKind::NumericLiteral { digits_value(word) } else { 0 },
                    text_range: token.text_range,
                };
                assert(token@ == tv);
                assert(lex_from(s, i, line as nat, pos as nat) == prepend(seq![tv], lex_from(s, i + n, line as nat, (pos + n) as nat)));
                lemma_prepend_push(tokens_view(tokens@), tv, lex_from(s, i + n, line as nat, (pos + n) as nat));
                assert(tokens_view(tokens@.push(token)) =~= tokens_view(tokens@).push(tv));
            }
            tokens.push(token);
            ptr = ptr + n;
            pos = pos + n;
        }
    }
    proof {
        assert(tokens_view(tokens@) + Seq::<TokenView>::empty() =~= tokens_view(tokens@));
    }
    Ok(tokens)
}

/// The characters of `src`, in order.
pub(crate) fn chars_of(src: &str) -> (r: Vec<char>)
    ensures
        r@ == src@,
{
    let mut out: Vec<char> = Vec::new();
    let mut it = src.chars();
    loop
        invariant
            out@ + it.remaining() == src@,
            it.decrease() is Some,
        ensures
            out@ == src@,
        decreases it.decrease()->0,
    {
        match it.next() {
            Some(c) => {
                out.push(c);
            },
            None => {
                break;
            },
        }
    }
    out
}

/// Splits the text `src` into tokens; see `tokenize_chars`.
pub fn tokenize(src: &str) -> (r: Result<Vec<Token>, TokenizeError>)
    requires
        src@.len() < usize::MAX,
    ensures
        tokenize_result_view(r) == spec_tokenize(src@),
{
    let chars = chars_of(src);
    tokenize_chars(chars.as_slice())
}

// ---------------------------------------------------------------------------
// Searching and splitting token sequences.
/// Whether `k`, just stepped over into nesting `n`, is the opener being looked
/// for at depth one of its own kind and zero of the others.
pub open spec fn opener_hit(k: TokenKind, target: TokenKind, n: Nesting) -> bool {
    &&& k == target
    &&& match k {
        TokenKind::OpenParenthesis => n.paren == 1 && n.curly == 0 && n.brack == 0,
        TokenKind::OpenCurly => n.paren == 0 && n.curly == 1 && n.brack == 0,
        TokenKind::OpenBracket => n.paren == 0 && n.curly == 0 && n.brack == 1,
        _ => false,
    }
}

/// Scanning forward from `i` in nesting `n`: the first index whose token is
/// `target` where nothing is open (or, for an opener, the first one that opens
/// depth one); `None` at the end or at an unmatched closer.
pub open spec fn find_free_from(t: Seq<Token>, target: TokenData, n: Nesting, i: int) -> Option<int>
    decreases t.len() - i,
{
    if i < 0 || i >= t.len() {
        None
    } else {
        match forward_step(n, t[i].data.spec_kind()) {
            None => None,
            Some(m) => if (same_data(t[i].data, target) && is_free(m)) || opener_hit(
                t[i].data.spec_kind(),
                target.spec_kind(),
                m,
            ) {
                Some(i)
            } else {
                find_free_from(t, target, m, i + 1)
            },
        }
    }
}

pub open spec fn spec_find_free(t: Seq<Token>, target: TokenData) -> Option<int> {
    find_free_from(t, target, no_nesting(), 0)
}

/// Scanning forward from `j` in nesting `n`: the first index where nothing is
/// open any more.
pub open spec fn pair_forward(t: Seq<Token>, n: Nesting, j: int) -> Option<int>
    decreases t.len() - j,
{
    if j < 0 || j >= t.len() {
        None
    } else {
        match forward_step(n, t[j].data.spec_kind()) {
            None => None,
            Some(m) => if is_free(m) {
                Some(j)
            } else {
                pair_forward(t, m, j + 1)
            },
        }
    }
}

/// Scanning backward from `j` in nesting `n`: the first index where nothing is
/// open any more.
pub open spec fn pair_backward(t: Seq<Token>, n: Nesting, j: int) -> Option<int>
    decreases j + 1,
{
    if j < 0 || j >= t.len() {
        None
    } else {
        match backward_step(n, t[j].data.spec_kind()) {
            None => None,
            Some(m) => if is_free(m) {
                Some(j)
            } else {
                pair_backward(t, m, j - 1)
            },
        }
    }
}

/// The index of the bracket that matches the one at `pos`.
pub open spec fn spec_find_pair(t: Seq<Token>, pos: int) -> Option<int> {
    if is_opener(t[pos].data.spec_kind()) {
        pair_forward(t, no_nesting(), pos)
    } else {
        pair_backward(t, no_nesting(), pos)
    }
}

/// The pieces of `t` from `start` on, cut at every separator from `i` on.
pub open spec fn split_from(t: Seq<Token>, sep: TokenData, start: int, i: int) -> Seq<Seq<Token>>
    decreases t.len() - i,
{
    if i < 0 || i >= t.len() {
        seq![t.subrange(start, t.len() as int)]
    } else if same_data(t[i].data, sep) {
        seq![t.subrange(start, i)] + split_from(t, sep, i + 1, i + 1)
    } else {
        split_from(t, sep, start, i + 1)
    }
}

/// The pieces between separators, the empty ones included; none for an empty
/// sequence.
pub open spec fn spec_split(t: Seq<Token>, sep: TokenData) -> Seq<Seq<Token>> {
    if t.len() == 0 {
        Seq::empty()
    } else {
        split_from(t, sep, 0, 0)
    }
}

pub open spec fn slices_view<'a>(v: Seq<&'a [Token]>) -> Seq<Seq<Token>> {
    v.map_values(|s: &'a [Token]| s@)
}

pub proof fn lemma_pair_forward_bounds(t: Seq<Token>, n: Nesting, j: int)
    ensures
        pair_forward(t, n, j) matches Some(r) ==> j <= r < t.len(),
    decreases t.len() - j,
{
    if 0 <= j < t.len() {
        if let Some(m) = forward_step(n, t[j].data.spec_kind()) {
            lemma_pair_forward_bounds(t, m, j + 1);
        }
    }
}

/// A match found forward from an opener lies after it.
pub proof fn lemma_find_pair_opener(t: Seq<Token>, pos: int)
    requires
        0 <= pos < t.len(),
        is_opener(t[pos].data.spec_kind()),
    ensures
        spec_find_pair(t, pos) matches Some(r) ==> pos < r < t.len(),
{
    let m = forward_step(no_nesting(), t[pos].data.spec_kind());
    lemma_pair_forward_bounds(t, m.unwrap(), pos + 1);
}

pub proof fn lemma_find_free_from_bounds(t: Seq<Token>, target: TokenData, n: Nesting, i: int)
    ensures
        find_free_from(t, target, n, i) matches Some(r) ==> i <= r < t.len() && (same_data(t[r].data, target)
            || t[r].data.spec_kind() == target.spec_kind()),
    decreases t.len() - i,
{
    if 0 <= i < t.len() {
        if let Some(m) = forward_step(n, t[i].data.spec_kind()) {
            lemma_find_free_from_bounds(t, target, m, i + 1);
        }
    }
}

pub proof fn lemma_find_free_bounds(t: Seq<Token>, target: TokenData)
    ensures
        spec_find_free(t, target) matches Some(r) ==> 0 <= r < t.len() && t[r].data.spec_kind()
            == target.spec_kind(),
{
    lemma_find_free_from_bounds(t, target, no_nesting(), 0);
}

fn opens_depth_one(k: TokenKind, target: TokenKind, checker: &DelimiterChecker) -> (r: bool)
    ensures
        r == opener_hit(k, target, checker@),
{
    if k != target {
        return false;
    }
    match k {
        TokenKind::OpenParenthesis => checker.paren_level == 1 && checker.curly_level == 0
            && checker.brack_level == 0,
        TokenKind::OpenCurly => checker.paren_level == 0 && checker.curly_level == 1
            && checker.brack_level == 0,
        TokenKind::OpenBracket => checker.paren_level == 0 && checker.curly_level == 0
            && checker.brack_level == 1,
        _ => false,
    }
}

/// Searches and splits over a sequence of tokens.
pub trait TokensUtils: View<V = Seq<Token>> {
    /// The pieces between the tokens equal to `splitter`; see `spec_split`.
    fn split_tks<'a>(&'a self, splitter: &TokenData) -> (r: Vec<&'a [Token]>)
        ensures
            slices_view(r@) == spec_split(self@, *splitter),
    ;

    /// The first free occurrence of `search_tk`; see `find_free_from`.
    fn find_free(&self, search_tk: &TokenData) -> (r: Option<usize>)
        requires
            !is_closer(search_tk.spec_kind()),
        ensures
            match r {
                Some(i) => spec_find_free(self@, *search_tk) == Some(i as int),
                None => spec_find_free(self@, *search_tk) is None,
            },
    ;

    /// The index of the bracket that matches the bracket at `pos`.
    fn find_pair(&self, pos: usize) -> (r: Option<usize>)
        requires
            pos < self@.len(),
            is_opener(self@[pos as int].data.spec_kind()) || is_closer(self@[pos as int].data.spec_kind()),
        ensures
            match r {
                Some(j) => spec_find_pair(self@, pos as int) == Some(j as int),
                None => spec_find_pair(self@, pos as int) is None,
            },
    ;
}

impl TokensUtils for [Token] {
    fn split_tks<'a>(&'a self, splitter: &TokenData) -> (r: Vec<&'a [Token]>) {
        let mut slices: Vec<&'a [Token]> = Vec::new();
        if self.len() == 0 {
            assert(slices_view(slices@) =~= Seq::<Seq<Token>>::empty());
            return slices;
        }
        let ghost t = self@;
        let mut last_idx: usize = 0;
        let mut i: usize = 0;
        assert(slices_view(slices@) + split_from(t, *splitter, 0, 0) =~= split_from(t, *splitter, 0, 0));
        while i < self.len()
            invariant
                t == self@,
                last_idx <= i <= t.len(),
                spec_split(t, *splitter) == slices_view(slices@) + split_from(t, *splitter, last_idx as int, i as int),
            decreases t.len() - i,
        {
            if self[i].data.same_as(splitter) {
                let piece = slice_subrange(self, last_idx, i);
                proof {
                    let rest = split_from(t, *splitter, i + 1, i + 1);
                    assert(slices_view(slices@.push(piece)) =~= slices_view(slices@).push(piece@));
                    assert(slices_view(slices@) + (seq![piece@] + rest) =~= slices_view(slices@).push(piece@) + rest);
                }
                slices.push(piece);
                last_idx = i + 1;
            }
            i = i + 1;
        }
        let piece = slice_subrange(self, last_idx, self.len());
        proof {
            assert(slices_view(slices@.push(piece)) =~= slices_view(slices@).push(piece@));
            assert(slices_view(slices@) + seq![piece@] =~= slices_view(slices@).push(piece@));
        }
        slices.push(piece);
        slices
    }

    fn find_free(&self, search_tk: &TokenData) -> (r: Option<usize>) {
        let ghost t = self@;
        let target = search_tk.kind();
        let mut checker = DelimiterChecker::new();
        let mut i: usize = 0;
        while i < self.len()
            invariant
                t == self@,
                target == search_tk.spec_kind(),
                i <= t.len(),
                checker@.paren + checker@.curly + checker@.brack <= i,
                spec_find_free(t, *search_tk) == find_free_from(t, *search_tk, checker@, i as int),
            decreases t.len() - i,
        {
            let tk = &self[i];
            if checker.check(tk).is_err() {
                return None;
            }
            let found = (tk.data.same_as(search_tk) && checker.is_free()) || opens_depth_one(
                tk.data.kind(),
                target,
                &checker,
            );
            if found {
                return Some(i);
            }
            i = i + 1;
        }
        None
    }

    fn find_pair(&self, pos: usize) -> (r: Option<usize>) {
        let ghost t = self@;
        let mut checker = DelimiterChecker::new();
        let kind = self[pos].data.kind();
        let forward = kind == TokenKind::OpenParenthesis || kind == TokenKind::OpenCurly || kind
            == TokenKind::OpenBracket;
        let mut j: usize = pos;
        if forward {
            while j < self.len()
                invariant
                    t == self@,
                    pos <= j <= t.len(),
                    is_opener(t[pos as int].data.spec_kind()),
                    checker@.paren + checker@.curly + checker@.brack <= j - pos,
                    spec_find_pair(t, pos as int) == pair_forward(t, checker@, j as int),
                decreases t.len() - j,
            {
                if checker.check(&self[j]).is_err() {
                    return None;
                }
                if checker.is_free() {
                    return Some(j);
                }
                j = j + 1;
            }
            None
        } else {
            loop
                invariant
                    t == self@,
                    j <= pos < t.len(),
                    !is_opener(t[pos as int].data.spec_kind()),
                    checker@.paren + checker@.curly + checker@.brack <= pos - j,
                    spec_find_pair(t, pos as int) == pair_backward(t, checker@, j as int),
                decreases j,
            {
                if checker.check_reverse(&self[j]).is_err() {
                    return None;
                }
                if checker.is_free() {
                    return Some(j);
                }
                if j == 0 {
                    assert(pair_backward(t, checker@, -1) is None);
                    return None;
                }
                j = j - 1;
            }
        }
    }
}

} // verus!
