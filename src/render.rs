use vstd::prelude::*;

use crate::ast::{
    lemma_nodes_view_all, nodes_view, DeclarationType, Label, Node, NodeData, OperatorType, Tree,
    VariableModificationType,
};
use crate::tokenizer::{chars_of, push_char, Token, TokenData, TokenKind};

verus! {

// ---------------------------------------------------------------------------
// Text building blocks.
pub open spec fn digit_char(d: nat) -> char {
    if d == 0 {
        '0'
    } else if d == 1 {
        '1'
    } else if d == 2 {
        '2'
    } else if d == 3 {
        '3'
    } else if d == 4 {
        '4'
    } else if d == 5 {
        '5'
    } else if d == 6 {
        '6'
    } else if d == 7 {
        '7'
    } else if d == 8 {
        '8'
    } else {
        '9'
    }
}

/// The decimal digits of `n`, without leading zeros.
pub open spec fn decimal(n: nat) -> Seq<char>
    decreases n,
{
    if n < 10 {
        seq![digit_char(n)]
    } else {
        decimal(n / 10).push(digit_char(n % 10))
    }
}

/// `s` with four spaces after every newline.
pub open spec fn indent(s: Seq<char>) -> Seq<char>
    decreases s.len(),
{
    if s.len() == 0 {
        Seq::empty()
    } else if s.last() == '\n' {
        indent(s.drop_last()) + "\n    "@
    } else {
        indent(s.drop_last()).push(s.last())
    }
}

pub open spec fn operator_text(op: OperatorType) -> Seq<char> {
    match op {
        OperatorType::Add => "+"@,
        OperatorType::Sub => "-"@,
        OperatorType::Mul => "*"@,
        OperatorType::Div => "/"@,
        OperatorType::NotEquals => "!="@,
        OperatorType::IsEquals => "=="@,
        OperatorType::Or => "||"@,
    }
}

pub open spec fn modification_text(m: VariableModificationType) -> Seq<char> {
    match m {
        VariableModificationType::IncreaseBy => "+="@,
        VariableModificationType::DecreaseBy => "-="@,
        VariableModificationType::MultiplyBy => "*="@,
        VariableModificationType::DivideBy => "/="@,
        VariableModificationType::Assign => "="@,
    }
}

pub open spec fn declaration_text(d: DeclarationType) -> Seq<char> {
    match d {
        DeclarationType::Var => "var"@,
        DeclarationType::Const => "const"@,
        DeclarationType::Let => "let"@,
    }
}

/// A block: its body on indented lines between braces.
pub open spec fn block(body: Seq<char>) -> Seq<char> {
    "{\n    "@ + indent(body) + "\n}"@
}

/// The text of a tree: binary expressions fully parenthesized, blocks
/// indented by four spaces, statements of a program apart by a blank line.
/// Several assignment targets are written without parentheses, as they are
/// read.
pub open spec fn render(t: Tree) -> Seq<char>
    decreases t,
{
    let c = t.children;
    match t.label {
        Label::Program => render_list(c, "\n\n"@),
        Label::Identifier(s) => s,
        Label::NumericLiteral(n) => decimal(n),
        Label::BinaryExpr(op) => if c.len() == 2 {
            "("@ + render(c[0]) + ") "@ + operator_text(op) + " ("@ + render(c[1]) + ")"@
        } else {
            Seq::empty()
        },
        Label::Tuple => "("@ + render_list(c, ", "@) + ")"@,
        Label::FunctionDeclaration => if c.len() >= 2 {
            "fn "@ + render(c[0]) + "("@ + render_list(c.subrange(1, c.len() - 1), ", "@) + ") "@ + block(
                render(c[c.len() - 1]),
            )
        } else {
            Seq::empty()
        },
        Label::FunctionCall => if c.len() >= 1 {
            render(c[0]) + "("@ + render_list(c.subrange(1, c.len() as int), ", "@) + ")"@
        } else {
            Seq::empty()
        },
        Label::FunctionParameter => if c.len() == 1 {
            render(c[0])
        } else {
            Seq::empty()
        },
        Label::If => if c.len() == 2 {
            "if "@ + render(c[0]) + " "@ + block(render(c[1]))
        } else if c.len() == 3 {
            "if "@ + render(c[0]) + " "@ + block(render(c[1])) + " "@ + render(c[2])
        } else {
            Seq::empty()
        },
        Label::Else => if c.len() == 1 {
            "else "@ + block(render(c[0]))
        } else {
            Seq::empty()
        },
        Label::VariableDeclaration(d) => if c.len() == 2 {
            declaration_text(d) + " "@ + render(c[0]) + " = "@ + render(c[1]) + ";"@
        } else {
            Seq::empty()
        },
        Label::VariableModification(m) => if c.len() == 2 {
            let target = if c[0].label is Tuple {
                render_list(c[0].children, ", "@)
            } else {
                render(c[0])
            };
            target + " "@ + modification_text(m) + " "@ + render(c[1]) + ";"@
        } else {
            Seq::empty()
        },
        Label::StructAccess => if c.len() == 2 {
            render(c[0]) + "."@ + render(c[1])
        } else {
            Seq::empty()
        },
        Label::ModAccess => if c.len() == 2 {
            render(c[0]) + "::"@ + render(c[1])
        } else {
            Seq::empty()
        },
        Label::ArrayAccess => if c.len() == 2 {
            render(c[0]) + "["@ + render(c[1]) + "]"@
        } else {
            Seq::empty()
        },
        Label::Neg => if c.len() == 1 {
            "(-"@ + render(c[0]) + ")"@
        } else {
            Seq::empty()
        },
    }
}

/// The texts of `s`, with `sep` between each two.
pub open spec fn render_list(s: Seq<Tree>, sep: Seq<char>) -> Seq<char>
    decreases s,
{
    if s.len() == 0 {
        Seq::empty()
    } else if s.len() == 1 {
        render(s[0])
    } else {
        render_list(s.drop_last(), sep) + sep + render(s.last())
    }
}

// ---------------------------------------------------------------------------
// Writing text.
pub(crate) fn push_text(out: &mut Vec<char>, text: &str)
    ensures
        final(out)@ == old(out)@ + text@,
{
    let cs = chars_of(text);
    let ghost start = out@;
    let mut i: usize = 0;
    while i < cs.len()
        invariant
            i <= cs@.len(),
            cs@ == text@,
            out@ == start + cs@.subrange(0, i as int),
        decreases cs@.len() - i,
    {
        out.push(cs[i]);
        i = i + 1;
        assert(out@ =~= start + cs@.subrange(0, i as int));
    }
    assert(cs@.subrange(0, i as int) =~= cs@);
}

fn digit(d: usize) -> (r: char)
    requires
        d < 10,
    ensures
        r == digit_char(d as nat),
{
    match d {
        0 => '0',
        1 => '1',
        2 => '2',
        3 => '3',
        4 => '4',
        5 => '5',
        6 => '6',
        7 => '7',
        8 => '8',
        _ => '9',
    }
}

pub(crate) fn push_decimal(out: &mut Vec<char>, n: usize)
    ensures
        final(out)@ == old(out)@ + decimal(n as nat),
    decreases n,
{
    let ghost start = out@;
    if n >= 10 {
        push_decimal(out, n / 10);
    }
    out.push(digit(n % 10));
    assert(out@ =~= start + decimal(n as nat));
}

fn push_indented(out: &mut Vec<char>, body: &Vec<char>)
    ensures
        final(out)@ == old(out)@ + indent(body@),
{
    let ghost start = out@;
    let mut i: usize = 0;
    assert(body@.subrange(0, 0) =~= Seq::<char>::empty());
    assert(out@ =~= start + indent(body@.subrange(0, 0)));
    while i < body.len()
        invariant
            i <= body@.len(),
            out@ == start + indent(body@.subrange(0, i as int)),
        decreases body@.len() - i,
    {
        let c = body[i];
        assert(body@.subrange(0, i + 1).drop_last() =~= body@.subrange(0, i as int));
        if c == '\n' {
            push_text(out, "\n    ");
        } else {
            out.push(c);
        }
        i = i + 1;
        assert(out@ =~= start + indent(body@.subrange(0, i as int)));
    }
    assert(body@.subrange(0, i as int) =~= body@);
}

/// The characters of `v` as a string.
pub(crate) fn string_of_chars(v: &Vec<char>) -> (r: String)
    ensures
        r@ == v@,
{
    let mut s = String::new();
    let mut i: usize = 0;
    while i < v.len()
        invariant
            i <= v@.len(),
            s@ == v@.subrange(0, i as int),
        decreases v@.len() - i,
    {
        push_char(&mut s, v[i]);
        i = i + 1;
        assert(s@ =~= v@.subrange(0, i as int));
    }
    assert(v@.subrange(0, i as int) =~= v@);
    s
}

/// Writes `body` as an indented block between braces.
fn write_block(body: &Node, out: &mut Vec<char>)
    ensures
        final(out)@ == old(out)@ + block(render(body@)),
    decreases body, 2int,
{
    let mut inner: Vec<char> = Vec::new();
    body.write_to(&mut inner);
    assert(inner@ =~= render(body@));
    let ghost start = out@;
    push_text(out, "{\n    ");
    push_indented(out, &inner);
    push_text(out, "\n}");
    assert(out@ =~= start + block(render(body@)));
}

/// Writes the nodes with `sep` between each two.
fn write_list(nodes: &Vec<Node>, sep: &str, out: &mut Vec<char>)
    ensures
        final(out)@ == old(out)@ + render_list(nodes_view(nodes@), sep@),
    decreases nodes, 0int,
{
    let ghost start = out@;
    let ghost nv = nodes_view(nodes@);
    proof {
        lemma_nodes_view_all(nodes@);
        assert(nv.subrange(0, 0) =~= Seq::<Tree>::empty());
        assert(out@ =~= start + render_list(nv.subrange(0, 0), sep@));
    }
    let mut i: usize = 0;
    while i < nodes.len()
        invariant
            i <= nodes@.len(),
            nv == nodes_view(nodes@),
            nv.len() == nodes@.len(),
            forall|j: int| 0 <= j < nodes@.len() ==> #[trigger] nv[j] == nodes@[j]@,
            out@ == start + render_list(nv.subrange(0, i as int), sep@),
        decreases nodes@.len() - i,
    {
        let ghost before = out@;
        if i > 0 {
            push_text(out, sep);
        }
        proof {
            vstd::std_specs::vec::axiom_vec_index_decreases(*nodes, i as int);
        }
        nodes[i].write_to(out);
        proof {
            let s = nv.subrange(0, i + 1);
            assert(s.drop_last() =~= nv.subrange(0, i as int));
            assert(s.last() == nodes@[i as int]@);
            if i == 0 {
                assert(render_list(s, sep@) == render(s[0]));
            }
        }
        i = i + 1;
        assert(out@ =~= start + render_list(nv.subrange(0, i as int), sep@));
    }
    assert(nv.subrange(0, i as int) =~= nv);
}

impl Node {
    /// Appends the text of this node; see `render`.
    #[verifier::rlimit(100)]
    pub fn write_to(&self, out: &mut Vec<char>)
        ensures
            final(out)@ == old(out)@ + render(self@),
        decreases self, 1int,
    {
        let ghost start = out@;
        let ghost c = self@.children;
        match &*self.data {
            NodeData::Program(statements) => {
                write_list(statements, "\n\n", out);
            },
            NodeData::Identifier(id) => {
                let cs = chars_of(id.as_str());
                let mut i: usize = 0;
                while i < cs.len()
                    invariant
                        i <= cs@.len(),
                        out@ == start + cs@.subrange(0, i as int),
                    decreases cs@.len() - i,
                {
                    out.push(cs[i]);
                    i = i + 1;
                    assert(out@ =~= start + cs@.subrange(0, i as int));
                }
                assert(cs@.subrange(0, i as int) =~= cs@);
            },
            NodeData::NumericLiteral(num) => {
                push_decimal(out, *num);
            },
            NodeData::BinaryExpr(a, op, b) => {
                push_text(out, "(");
                a.write_to(out);
                push_text(out, ") ");
                push_text(out, op.text());
                push_text(out, " (");
                b.write_to(out);
                push_text(out, ")");
            },
            NodeData::Tuple(values) => {
                push_text(out, "(");
                write_list(values, ", ", out);
                push_text(out, ")");
            },
            NodeData::FunctionDeclaration(name, args, body) => {
                push_text(out, "fn ");
                name.write_to(out);
                push_text(out, "(");
                write_list(args, ", ", out);
                push_text(out, ") ");
                write_block(body, out);
                proof {
                    lemma_nodes_view_all(args@);
                    assert(c.subrange(1, c.len() - 1) =~= nodes_view(args@));
                }
            },
            NodeData::FunctionCall(id, params) => {
                id.write_to(out);
                push_text(out, "(");
                write_list(params, ", ", out);
                push_text(out, ")");
                proof {
                    assert(c.subrange(1, c.len() as int) =~= nodes_view(params@));
                }
            },
            NodeData::FunctionParameter(param) => {
                param.write_to(out);
            },
            NodeData::Neg(expr) => {
                push_text(out, "(-");
                expr.write_to(out);
                push_text(out, ")");
            },
            NodeData::If(condition, body, else_node) => {
                push_text(out, "if ");
                condition.write_to(out);
                push_text(out, " ");
                write_block(body, out);
                match else_node {
                    Some(node) => {
                        push_text(out, " ");
                        node.write_to(out);
                    },
                    None => {},
                }
            },
            NodeData::Else(body) => {
                push_text(out, "else ");
                write_block(body, out);
            },
            NodeData::VariableDeclaration(declaration_type, id, expr) => {
                push_text(out, declaration_type.text());
                push_text(out, " ");
                id.write_to(out);
                push_text(out, " = ");
                expr.write_to(out);
                push_text(out, ";");
            },
            NodeData::VariableModification(id, mod_type, value) => {
                match &*id.data {
                    NodeData::Tuple(targets) => {
                        assert(id@.label is Tuple && id@.children == nodes_view(targets@));
                        write_list(targets, ", ", out);
                    },
                    _ => {
                        assert(!(id@.label is Tuple));
                        id.write_to(out);
                    },
                }
                push_text(out, " ");
                push_text(out, mod_type.text());
                push_text(out, " ");
                value.write_to(out);
                push_text(out, ";");
            },
            NodeData::StructAccess(struct_node, prop) => {
                struct_node.write_to(out);
                push_text(out, ".");
                prop.write_to(out);
            },
            NodeData::ModAccess(mod_node, prop) => {
                mod_node.write_to(out);
                push_text(out, "::");
                prop.write_to(out);
            },
            NodeData::ArrayAccess(arr_node, idx_node) => {
                arr_node.write_to(out);
                push_text(out, "[");
                idx_node.write_to(out);
                push_text(out, "]");
            },
        }
        assert(out@ =~= start + render(self@));
    }

    /// The text of this node; see `render`.
    pub fn to_string(&self) -> (r: String)
        ensures
            r@ == render(self@),
    {
        let mut out: Vec<char> = Vec::new();
        self.write_to(&mut out);
        assert(out@ =~= render(self@));
        string_of_chars(&out)
    }
}

impl OperatorType {
    pub fn text(&self) -> (r: &'static str)
        ensures
            r@ == operator_text(*self),
    {
        match self {
            OperatorType::Add => "+",
            OperatorType::Sub => "-",
            OperatorType::Mul => "*",
            OperatorType::Div => "/",
            OperatorType::NotEquals => "!=",
            OperatorType::IsEquals => "==",
            OperatorType::Or => "||",
        }
    }

    pub fn to_string(&self) -> (r: String)
        ensures
            r@ == operator_text(*self),
    {
        self.text().to_owned()
    }
}

impl VariableModificationType {
    pub fn text(&self) -> (r: &'static str)
        ensures
            r@ == modification_text(*self),
    {
        match self {
            VariableModificationType::IncreaseBy => "+=",
            VariableModificationType::DecreaseBy => "-=",
            VariableModificationType::MultiplyBy => "*=",
            VariableModificationType::DivideBy => "/=",
            VariableModificationType::Assign => "=",
        }
    }

    pub fn to_string(&self) -> (r: String)
        ensures
            r@ == modification_text(*self),
    {
        self.text().to_owned()
    }
}

impl DeclarationType {
    pub fn text(&self) -> (r: &'static str)
        ensures
            r@ == declaration_text(*self),
    {
        match self {
            DeclarationType::Var => "var",
            DeclarationType::Const => "const",
            DeclarationType::Let => "let",
        }
    }

    pub fn to_string(&self) -> (r: String)
        ensures
            r@ == declaration_text(*self),
    {
        self.text().to_owned()
    }
}

/// How a token of kind `k` is spelled; empty for identifiers and literals,
/// which spell their payload.
pub open spec fn kind_text(k: TokenKind) -> Seq<char> {
    match k {
        TokenKind::ModAccess => "::"@,
        TokenKind::NotEquals => "!="@,
        TokenKind::IsEquals => "=="@,
        TokenKind::Equals => "="@,
        TokenKind::IncreaseBy => "+="@,
        TokenKind::DecreaseBy => "-="@,
        TokenKind::MultiplyBy => "*="@,
        TokenKind::DivideBy => "/="@,
        TokenKind::Add => "+"@,
        TokenKind::Sub => "-"@,
        TokenKind::Mul => "*"@,
        TokenKind::Div => "/"@,
        TokenKind::Or => "||"@,
        TokenKind::OpenParenthesis => "("@,
        TokenKind::CloseParenthesis => ")"@,
        TokenKind::OpenCurly => "{"@,
        TokenKind::CloseCurly => "}"@,
        TokenKind::OpenBracket => "["@,
        TokenKind::CloseBracket => "]"@,
        TokenKind::Comma => ","@,
        TokenKind::Semicolon => ";"@,
        TokenKind::Pipe => "|"@,
        TokenKind::Dot => "."@,
        TokenKind::Var => "var"@,
        TokenKind::Const => "const"@,
        TokenKind::Let => "let"@,
        TokenKind::Fn => "fn"@,
        TokenKind::If => "if"@,
        TokenKind::Else => "else"@,
        TokenKind::Identifier => ""@,
        TokenKind::NumericLiteral => ""@,
    }
}

/// How a token is spelled.
pub open spec fn token_text(t: Token) -> Seq<char> {
    match t.data {
        TokenData::Identifier(s) => s@,
        TokenData::NumericLiteral(n) => decimal(n as nat),
        _ => kind_text(t.data.spec_kind()),
    }
}

impl TokenKind {
    pub fn text(&self) -> (r: &'static str)
        ensures
            r@ == kind_text(*self),
    {
        match self {
            TokenKind::ModAccess => "::",
            TokenKind::NotEquals => "!=",
            TokenKind::IsEquals => "==",
            TokenKind::Equals => "=",
            TokenKind::IncreaseBy => "+=",
            TokenKind::DecreaseBy => "-=",
            TokenKind::MultiplyBy => "*=",
            TokenKind::DivideBy => "/=",
            TokenKind::Add => "+",
            TokenKind::Sub => "-",
            TokenKind::Mul => "*",
            TokenKind::Div => "/",
            TokenKind::Or => "||",
            TokenKind::OpenParenthesis => "(",
            TokenKind::CloseParenthesis => ")",
            TokenKind::OpenCurly => "{",
            TokenKind::CloseCurly => "}",
            TokenKind::OpenBracket => "[",
            TokenKind::CloseBracket => "]",
            TokenKind::Comma => ",",
            TokenKind::Semicolon => ";",
            TokenKind::Pipe => "|",
            TokenKind::Dot => ".",
            TokenKind::Var => "var",
            TokenKind::Const => "const",
            TokenKind::Let => "let",
            TokenKind::Fn => "fn",
            TokenKind::If => "if",
            TokenKind::Else => "else",
            TokenKind::Identifier => "",
            TokenKind::NumericLiteral => "",
        }
    }
}

impl Token {
    /// How this token is spelled; see `token_text`.
    pub fn to_string(&self) -> (r: String)
        ensures
            r@ == token_text(*self),
    {
        match &self.data {
            TokenData::Identifier(id) => id.clone(),
            TokenData::NumericLiteral(num) => {
                let mut out: Vec<char> = Vec::new();
                push_decimal(&mut out, *num);
                assert(out@ =~= decimal(*num as nat));
                string_of_chars(&out)
            },
            _ => self.data.kind().text().to_owned(),
        }
    }
}

} // verus!
