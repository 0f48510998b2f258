use vstd::prelude::*;

use crate::parser::utils::delimiter_checker::{forward_step, is_opener, is_closer, no_nesting, DelimiterChecker, Nesting};
use crate::tokenizer::{same_data, Token};

verus! {

/// Scanning forward from `i` in nesting `n`: the first token equal to
/// `target`, at any depth; `None` at the end or at an unmatched closer.
pub open spec fn first_token_from(t: Seq<Token>, target: Token, n: Nesting, i: int) -> Option<int>
    decreases t.len() - i,
{
    if i < 0 || i >= t.len() {
        None
    } else {
        match forward_step(n, t[i].data.spec_kind()) {
            None => None,
            Some(m) => if same_data(t[i].data, target.data) {
                Some(i)
            } else {
                first_token_from(t, target, m, i + 1)
            },
        }
    }
}

/// The index of the first token equal to `search_tk`, checking on the way
/// that every closer matches an opener.
pub fn find_free_token(tokens: &[Token], search_tk: &Token) -> (r: Option<usize>)
    requires
        !is_opener(search_tk.data.spec_kind()),
        !is_closer(search_tk.data.spec_kind()),
    ensures
        match r {
            Some(i) => first_token_from(tokens@, *search_tk, no_nesting(), 0) == Some(i as int),
            None => first_token_from(tokens@, *search_tk, no_nesting(), 0) is None,
        },
{
    let ghost t = tokens@;
    let mut checker = DelimiterChecker::new();
    let mut i: usize = 0;
    while i < tokens.len()
        invariant
            t == tokens@,
            i <= t.len(),
            checker@.paren + checker@.curly + checker@.brack <= i,
            first_token_from(t, *search_tk, no_nesting(), 0) == first_token_from(t, *search_tk, checker@, i as int),
        decreases t.len() - i,
    {
        if checker.check(&tokens[i]).is_err() {
            return None;
        }
        if tokens[i].data.same_as(&search_tk.data) {
            return Some(i);
        }
        i = i + 1;
    }
    None
}

} // verus!
