use vstd::prelude::*;

use crate::ast::{lemma_nodes_view_push, node1, nodes_view, Label, Node, NodeData, Tree};
use crate::parser::expr::{identifier_leaf, nodes_result};
use crate::parser::{unexpected, ParseError};
use crate::tokenizer::{Token, TokenData, TokenKind};

pub mod delimiter_checker;
pub mod find_free_token;

verus! {

pub open spec fn parameter_node(t: Token) -> Tree {
    node1(Label::FunctionParameter, identifier_leaf(t), t.text_range)
}

/// The parameters from the slot that starts at index `i`. Each slot between
/// commas must hold exactly one identifier; anything else there, a comma
/// that leaves a slot empty included, is an unexpected token. A list that
/// ends with a comma has an empty last slot, reported at that comma.
pub open spec fn parameters_from(t: Seq<Token>, i: int) -> Result<Seq<Tree>, ParseError>
    decreases t.len() - i,
{
    if i < 0 || i > t.len() {
        Ok(Seq::empty())
    } else if i == t.len() {
        Err(unexpected(t[i - 1]))
    } else if t[i].data.spec_kind() != TokenKind::Identifier {
        Err(unexpected(t[i]))
    } else if i + 1 == t.len() {
        Ok(seq![parameter_node(t[i])])
    } else if t[i + 1].data.spec_kind() != TokenKind::Comma {
        Err(unexpected(t[i + 1]))
    } else {
        match parameters_from(t, i + 2) {
            Ok(rest) => Ok(seq![parameter_node(t[i])] + rest),
            Err(e) => Err(e),
        }
    }
}

/// A parameter list: identifiers separated by commas; none for no tokens.
pub open spec fn spec_parse_parameters(t: Seq<Token>) -> Result<Seq<Tree>, ParseError> {
    if t.len() == 0 {
        Ok(Seq::empty())
    } else {
        parameters_from(t, 0)
    }
}

/// Parses a parameter list; see `spec_parse_parameters`.
pub fn parse_parameters(tokens: &[Token]) -> (r: Result<Vec<Node>, ParseError>)
    ensures
        nodes_result(r) == spec_parse_parameters(tokens@),
{
    let ghost t = tokens@;
    let n = tokens.len();
    let mut params: Vec<Node> = Vec::new();
    if n == 0 {
        assert(nodes_view(params@) =~= Seq::<Tree>::empty());
        return Ok(params);
    }
    let mut i: usize = 0;
    proof {
        assert(nodes_view(params@) =~= Seq::<Tree>::empty());
        match parameters_from(t, 0) {
            Ok(s) => { assert(Seq::<Tree>::empty() + s =~= s); },
            Err(_) => {},
        }
    }
    loop
        invariant
            t == tokens@,
            n == t.len(),
            i < n,
            spec_parse_parameters(t) == match parameters_from(t, i as int) {
                Ok(rest) => Ok(nodes_view(params@) + rest),
                Err(e) => Err(e),
            },
        decreases n - i,
    {
        let tk = &tokens[i];
        let id = match &tk.data {
            TokenData::Identifier(s) => Node { data: Box::new(NodeData::Identifier(s.clone())), text_range: tk.text_range },
            _ => {
                return Err(ParseError::new_unexpected_token(tk));
            },
        };
        assert(id@ == identifier_leaf(t[i as int]));
        let ghost id_view = id@;
        let param = Node { data: Box::new(NodeData::FunctionParameter(id)), text_range: tk.text_range };
        assert(param@ == node1(Label::FunctionParameter, id_view, tk.text_range));
        assert(param@ == parameter_node(t[i as int]));
        proof {
            lemma_nodes_view_push(params@, param);
        }
        if i + 1 == n {
            let ghost before = nodes_view(params@);
            params.push(param);
            assert(before + seq![param@] =~= before.push(param@));
            return Ok(params);
        }
        if tokens[i + 1].data.kind() != TokenKind::Comma {
            return Err(ParseError::new_unexpected_token(&tokens[i + 1]));
        }
        proof {
            match parameters_from(t, i + 2) {
                Ok(rest) => {
                    assert(nodes_view(params@) + (seq![param@] + rest) =~= nodes_view(params@).push(param@) + rest);
                },
                Err(_) => {},
            }
        }
        params.push(param);
        if i + 2 == n {
            return Err(ParseError::new_unexpected_token(&tokens[i + 1]));
        }
        i = i + 2;
    }
}

} // verus!
