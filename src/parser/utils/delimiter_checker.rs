use vstd::prelude::*;

use crate::tokenizer::{Token, TokenKind};

verus! {

/// How deep a scan stands inside each kind of bracket.
#[derive(Debug)]
pub struct DelimiterChecker {
    pub paren_level: usize,
    pub curly_level: usize,
    pub brack_level: usize,
}

/// A closing bracket met where no bracket of its kind was open.
#[derive(Debug)]
pub enum DelimiterCheckerError<'a> {
    UnexpectedClosingParenthesis(&'a Token),
    UnexpectedClosingCurlyBrace(&'a Token),
    UnexpectedClosingBracket(&'a Token),
}

/// Nesting depths as a mathematical value.
pub struct Nesting {
    pub paren: nat,
    pub curly: nat,
    pub brack: nat,
}

pub open spec fn no_nesting() -> Nesting {
    Nesting { paren: 0, curly: 0, brack: 0 }
}

pub open spec fn is_free(n: Nesting) -> bool {
    n.paren == 0 && n.curly == 0 && n.brack == 0
}

pub open spec fn is_opener(k: TokenKind) -> bool {
    k == TokenKind::OpenParenthesis || k == TokenKind::OpenCurly || k == TokenKind::OpenBracket
}

pub open spec fn is_closer(k: TokenKind) -> bool {
    k == TokenKind::CloseParenthesis || k == TokenKind::CloseCurly || k == TokenKind::CloseBracket
}

/// Moving forward over a token of kind `k`: an opener goes one level deeper,
/// a closer one level back out, and a closer with nothing open fails.
pub open spec fn forward_step(n: Nesting, k: TokenKind) -> Option<Nesting> {
    match k {
        TokenKind::OpenParenthesis => Some(Nesting { paren: n.paren + 1, ..n }),
        TokenKind::OpenCurly => Some(Nesting { curly: n.curly + 1, ..n }),
        TokenKind::OpenBracket => Some(Nesting { brack: n.brack + 1, ..n }),
        TokenKind::CloseParenthesis => if n.paren > 0 {
            Some(Nesting { paren: (n.paren - 1) as nat, ..n })
        } else {
            None
        },
        TokenKind::CloseCurly => if n.curly > 0 {
            Some(Nesting { curly: (n.curly - 1) as nat, ..n })
        } else {
            None
        },
        TokenKind::CloseBracket => if n.brack > 0 {
            Some(Nesting { brack: (n.brack - 1) as nat, ..n })
        } else {
            None
        },
        _ => Some(n),
    }
}

/// The mirror of `forward_step`, for scans that move backward.
pub open spec fn backward_step(n: Nesting, k: TokenKind) -> Option<Nesting> {
    match k {
        TokenKind::CloseParenthesis => Some(Nesting { paren: n.paren + 1, ..n }),
        TokenKind::CloseCurly => Some(Nesting { curly: n.curly + 1, ..n }),
        TokenKind::CloseBracket => Some(Nesting { brack: n.brack + 1, ..n }),
        TokenKind::OpenParenthesis => if n.paren > 0 {
            Some(Nesting { paren: (n.paren - 1) as nat, ..n })
        } else {
            None
        },
        TokenKind::OpenCurly => if n.curly > 0 {
            Some(Nesting { curly: (n.curly - 1) as nat, ..n })
        } else {
            None
        },
        TokenKind::OpenBracket => if n.brack > 0 {
            Some(Nesting { brack: (n.brack - 1) as nat, ..n })
        } else {
            None
        },
        _ => Some(n),
    }
}

/// The error for an unmatched bracket `token`, named after its bracket shape.
pub open spec fn unmatched_error<'a>(token: &'a Token) -> DelimiterCheckerError<'a> {
    let k = token.data.spec_kind();
    if k == TokenKind::CloseParenthesis || k == TokenKind::OpenParenthesis {
        DelimiterCheckerError::UnexpectedClosingParenthesis(token)
    } else if k == TokenKind::CloseCurly || k == TokenKind::OpenCurly {
        DelimiterCheckerError::UnexpectedClosingCurlyBrace(token)
    } else {
        DelimiterCheckerError::UnexpectedClosingBracket(token)
    }
}

impl<'a> DelimiterCheckerError<'a> {
    pub open spec fn failed_token(&self) -> &'a Token {
        match self {
            DelimiterCheckerError::UnexpectedClosingParenthesis(t) => t,
            DelimiterCheckerError::UnexpectedClosingCurlyBrace(t) => t,
            DelimiterCheckerError::UnexpectedClosingBracket(t) => t,
        }
    }

    /// The token the scan failed on.
    pub fn token(&self) -> (r: &'a Token)
        ensures
            r == self.failed_token(),
    {
        match self {
            DelimiterCheckerError::UnexpectedClosingParenthesis(t) => t,
            DelimiterCheckerError::UnexpectedClosingCurlyBrace(t) => t,
            DelimiterCheckerError::UnexpectedClosingBracket(t) => t,
        }
    }
}

impl DelimiterChecker {
    pub open spec fn view(&self) -> Nesting {
        Nesting {
            paren: self.paren_level as nat,
            curly: self.curly_level as nat,
            brack: self.brack_level as nat,
        }
    }

    /// Whether every level may still grow by one.
    pub open spec fn has_room(&self) -> bool {
        self.paren_level < usize::MAX && self.curly_level < usize::MAX && self.brack_level < usize::MAX
    }

    pub fn new() -> (r: DelimiterChecker)
        ensures
            r@ == no_nesting(),
    {
        DelimiterChecker { paren_level: 0, curly_level: 0, brack_level: 0 }
    }

    /// Whether no bracket is open.
    pub fn is_free(&self) -> (r: bool)
        ensures
            r == is_free(self@),
    {
        self.paren_level == 0 && self.curly_level == 0 && self.brack_level == 0
    }

    /// Takes one step forward over `token`. On failure the levels are kept.
    pub fn check<'a>(&mut self, token: &'a Token) -> (r: Result<(), DelimiterCheckerError<'a>>)
        requires
            old(self).has_room(),
        ensures
            match forward_step(old(self)@, token.data.spec_kind()) {
                Some(n) => r is Ok && final(self)@ == n,
                None => r == Err::<(), _>(unmatched_error(token)) && final(self)@ == old(self)@,
            },
    {
        match token.data.kind() {
            TokenKind::OpenParenthesis => self.paren_level = self.paren_level + 1,
            TokenKind::OpenCurly => self.curly_level = self.curly_level + 1,
            TokenKind::OpenBracket => self.brack_level = self.brack_level + 1,
            TokenKind::CloseParenthesis => {
                if self.paren_level > 0 {
                    self.paren_level = self.paren_level - 1;
                } else {
                    return Err(DelimiterCheckerError::UnexpectedClosingParenthesis(token));
                }
            },
            TokenKind::CloseBracket => {
                if self.brack_level > 0 {
                    self.brack_level = self.brack_level - 1;
                } else {
                    return Err(DelimiterCheckerError::UnexpectedClosingBracket(token));
                }
            },
            TokenKind::CloseCurly => {
                if self.curly_level > 0 {
                    self.curly_level = self.curly_level - 1;
                } else {
                    return Err(DelimiterCheckerError::UnexpectedClosingCurlyBrace(token));
                }
            },
            _ => {},
        }
        Ok(())
    }

    /// Takes one step backward over `token`: closers open a level and openers
    /// close one. On failure the levels are kept.
    pub fn check_reverse<'a>(&mut self, token: &'a Token) -> (r: Result<(), DelimiterCheckerError<'a>>)
        requires
            old(self).has_room(),
        ensures
            match backward_step(old(self)@, token.data.spec_kind()) {
                Some(n) => r is Ok && final(self)@ == n,
                None => r == Err::<(), _>(unmatched_error(token)) && final(self)@ == old(self)@,
            },
    {
        match token.data.kind() {
            TokenKind::CloseParenthesis => self.paren_level = self.paren_level + 1,
            TokenKind::CloseCurly => self.curly_level = self.curly_level + 1,
            TokenKind::CloseBracket => self.brack_level = self.brack_level + 1,
            TokenKind::OpenParenthesis => {
                if self.paren_level > 0 {
                    self.paren_level = self.paren_level - 1;
                } else {
                    return Err(DelimiterCheckerError::UnexpectedClosingParenthesis(token));
                }
            },
            TokenKind::OpenBracket => {
                if self.brack_level > 0 {
                    self.brack_level = self.brack_level - 1;
                } else {
                    return Err(DelimiterCheckerError::UnexpectedClosingBracket(token));
                }
            },
            TokenKind::OpenCurly => {
                if self.curly_level > 0 {
                    self.curly_level = self.curly_level - 1;
                } else {
                    return Err(DelimiterCheckerError::UnexpectedClosingCurlyBrace(token));
                }
            },
            _ => {},
        }
        Ok(())
    }
}

} // verus!
