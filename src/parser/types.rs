use vstd::prelude::*;

use crate::text_data::BorrowedTextRange;
use crate::tokenizer::{Token, TokenData, TokenKind};
use vstd::slice::slice_subrange;

verus! {

/// A type written in source: a named type with its arguments, an array of a
/// type, or a tuple of types.
#[derive(Debug)]
pub enum YoyogayType {
    Identifier(String, Vec<YoyogayType>),
    Array(Box<YoyogayType>),
    Tuple(Vec<YoyogayType>),
}

pub struct TypeParsingError<'a> {
    pub data: TypeParsingErrorData<'a>,
    pub text_data: BorrowedTextRange<'a>,
}

pub enum TypeParsingErrorData<'a> {
    UnexpectedToken(&'a Token),
    UnexpectedTokens(&'a [Token]),
    EmptyTokenStreamAfterBrackets,
}

impl<'a> TypeParsingError<'a> {
    pub fn new(data: TypeParsingErrorData<'a>, text_data: BorrowedTextRange<'a>) -> (r: TypeParsingError<'a>)
        ensures
            r.data == data,
            r.text_data == text_data,
    {
        TypeParsingError { data, text_data }
    }
}

/// How many array levels wrap a named type, and that type's name.
pub open spec fn type_shape(ty: YoyogayType) -> (nat, Seq<char>)
    decreases ty,
{
    match ty {
        YoyogayType::Array(inner) => {
            let s = type_shape(*inner);
            (s.0 + 1, s.1)
        },
        YoyogayType::Identifier(name, _) => (0, name@),
        YoyogayType::Tuple(_) => (0, Seq::empty()),
    }
}

/// The shape of the type written as `t`: `[]` before a type makes an array
/// of it, and a single identifier names a type.
pub open spec fn spec_type_shape(t: Seq<Token>) -> Option<(nat, Seq<char>)>
    decreases t.len(),
{
    if t.len() >= 3 && t[0].data.spec_kind() == TokenKind::OpenBracket && t[1].data.spec_kind()
        == TokenKind::CloseBracket {
        match spec_type_shape(t.subrange(2, t.len() as int)) {
            Some((d, n)) => Some((d + 1, n)),
            None => None,
        }
    } else if t.len() == 1 && t[0].data.spec_kind() == TokenKind::Identifier {
        Some((0, t[0].data.text()))
    } else {
        None
    }
}

impl YoyogayType {
    /// Reads a type from `tokens`; see `spec_type_shape`.
    pub fn create_from_tokens<'a>(tokens: &'a [Token]) -> (r: Result<YoyogayType, TypeParsingError<'a>>)
        requires
            tokens@.len() > 0,
        ensures
            r is Ok <==> spec_type_shape(tokens@) is Some,
            r matches Ok(ty) ==> Some(type_shape(ty)) == spec_type_shape(tokens@),
        decreases tokens@.len(),
    {
        let n = tokens.len();
        if n >= 2 && tokens[0].data.kind() == TokenKind::OpenBracket && tokens[1].data.kind()
            == TokenKind::CloseBracket {
            if n < 3 {
                let range = BorrowedTextRange::from_pair(
                    &BorrowedTextRange::from_range(&tokens[0].text_range),
                    &BorrowedTextRange::from_range(&tokens[1].text_range),
                );
                return Err(TypeParsingError::new(TypeParsingErrorData::EmptyTokenStreamAfterBrackets, range));
            }
            return match YoyogayType::create_from_tokens(slice_subrange(tokens, 2, n)) {
                Ok(inner) => Ok(YoyogayType::Array(Box::new(inner))),
                Err(e) => Err(e),
            };
        }
        match &tokens[0].data {
            TokenData::Identifier(name) => {
                if n == 1 {
                    return Ok(YoyogayType::Identifier(name.clone(), Vec::new()));
                }
                let rest = slice_subrange(tokens, 1, n);
                let range = BorrowedTextRange::from_pair(
                    &BorrowedTextRange::from_range(&tokens[1].text_range),
                    &BorrowedTextRange::from_range(&tokens[n - 1].text_range),
                );
                Err(TypeParsingError::new(TypeParsingErrorData::UnexpectedTokens(rest), range))
            },
            _ => {
                let range = BorrowedTextRange::from_range(&tokens[0].text_range);
                Err(TypeParsingError::new(TypeParsingErrorData::UnexpectedToken(&tokens[0]), range))
            },
        }
    }
}

} // verus!
