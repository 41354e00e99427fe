//! Nodes of a blob, read from its structure block on demand: their names,
//! their properties, their children and their siblings.
use vstd::prelude::*;

use super::property::{Property, ParsePropertyValueError, RegIter};
use super::struct_lexer::{StructLexer, StructLexerError, StructTokenWithData};
use super::text::{str_eq, push_dec};

verus! {

use super::blob::Devicetree;
use super::struct_lexer::{StructTokenView, spec_read_token_and_data};
use super::property::{spec_parse_u32, RegIterView};
use crate::devtree::cursor::round_up_4;
use crate::devtree::util::{is_first_index_of, lemma_first_index_exists};
use super::text::dec_text;

/// Why the structure block does not hold a well-formed node.
#[derive(Debug, Clone, Copy, PartialEq, Eq, Structural)]
pub enum ParseStructError {
    /// A token could not be read.
    Lexer { source: StructLexerError },
    /// A node does not start with a BEGIN_NODE token.
    MissingBeginNodeToken,
    /// A node has no END_NODE token.
    MissingEndNodeToken,
    /// A property token stands after the children of a node.
    UnexpectedPropToken,
}

impl ParseStructError {
    /// The text that describes the error.
    pub open spec fn spec_message(&self) -> Seq<char> {
        match *self {
            ParseStructError::Lexer { source } => "invalid struct token: "@ + source.spec_message(),
            ParseStructError::MissingBeginNodeToken => "missing begin node token"@,
            ParseStructError::MissingEndNodeToken => "missing end node token"@,
            ParseStructError::UnexpectedPropToken => "unexpected property token"@,
        }
    }

    /// The text that describes the error.
    pub fn message(&self) -> (r: String)
        ensures
            r@ == self.spec_message(),
    {
        let mut s = String::new();
        match *self {
            ParseStructError::Lexer { source } => {
                s.append("invalid struct token: ");
                let m = source.message();
                s.append(m.as_str());
            },
            ParseStructError::MissingBeginNodeToken => {
                s.append("missing begin node token");
            },
            ParseStructError::MissingEndNodeToken => {
                s.append("missing end node token");
            },
            ParseStructError::UnexpectedPropToken => {
                s.append("unexpected property token");
            },
        }
        s
    }
}

/// The token at `off` of the structure block `sb` (strings block `st`) was
/// read and the next one starts at `n`, further on and at most 4 bytes
/// past the end of the block.
pub open spec fn advances(sb: Seq<u8>, off: int, n: int) -> bool {
    off < n <= sb.len() + 4
}

/// The offset of the first token from `off` that is neither a property nor
/// a NOP: where the children of a node start when its properties start at
/// `off`.
pub open spec fn spec_skip_props(sb: Seq<u8>, st: Seq<u8>, off: int) -> Result<int, StructLexerError>
    decreases sb.len() + 4 - off,
{
    let (r, n) = spec_read_token_and_data(sb, st, off);
    match r {
        Err(e) => Err(e),
        Ok(Some(StructTokenView::Nop)) => if advances(sb, off, n) {
            spec_skip_props(sb, st, n)
        } else {
            Ok(off)
        },
        Ok(Some(StructTokenView::Prop { .. })) => if advances(sb, off, n) {
            spec_skip_props(sb, st, n)
        } else {
            Ok(off)
        },
        _ => Ok(off),
    }
}

/// A node as plain values: its name, its unit address, and the offsets
/// where its properties and its children start.
pub struct NodeView {
    pub name: Seq<char>,
    pub address: Option<Seq<char>>,
    pub properties: int,
    pub children: int,
}

/// The node whose BEGIN_NODE token is at `off`.
pub open spec fn spec_node_at(sb: Seq<u8>, st: Seq<u8>, off: int) -> Result<NodeView, ParseStructError> {
    let (r, p) = spec_read_token_and_data(sb, st, off);
    match r {
        Err(e) => Err(ParseStructError::Lexer { source: e }),
        Ok(Some(StructTokenView::BeginNode { name, address })) => match spec_skip_props(sb, st, p) {
            Err(e) => Err(ParseStructError::Lexer { source: e }),
            Ok(c) => Ok(NodeView { name, address, properties: p, children: c }),
        },
        _ => Err(ParseStructError::MissingBeginNodeToken),
    }
}

/// The offset after the END_NODE token of a node whose children start at
/// `c`: NOP tokens and whole child nodes are skipped.
pub open spec fn spec_node_end(sb: Seq<u8>, st: Seq<u8>, c: int) -> Result<int, ParseStructError>
    decreases sb.len() + 4 - c,
{
    let (r, n) = spec_read_token_and_data(sb, st, c);
    match r {
        Err(e) => Err(ParseStructError::Lexer { source: e }),
        Ok(Some(StructTokenView::Nop)) => if advances(sb, c, n) {
            spec_node_end(sb, st, n)
        } else {
            Err(ParseStructError::MissingEndNodeToken)
        },
        Ok(Some(StructTokenView::BeginNode { .. })) => match spec_node_at(sb, st, c) {
            Err(e) => Err(e),
            Ok(child) => if advances(sb, c, child.children) {
                match spec_node_end(sb, st, child.children) {
                    Err(e) => Err(e),
                    Ok(e) => if advances(sb, c, e) {
                        spec_node_end(sb, st, e)
                    } else {
                        Err(ParseStructError::MissingEndNodeToken)
                    },
                }
            } else {
                Err(ParseStructError::MissingEndNodeToken)
            },
        },
        Ok(Some(StructTokenView::EndNode)) => Ok(n),
        Ok(Some(StructTokenView::Prop { .. })) => Err(ParseStructError::UnexpectedPropToken),
        _ => Err(ParseStructError::MissingEndNodeToken),
    }
}

/// The first child of a node whose children start at `c`.
pub open spec fn spec_first_child(sb: Seq<u8>, st: Seq<u8>, c: int) -> Result<
    Option<NodeView>,
    ParseStructError,
> {
    let (r, n) = spec_read_token_and_data(sb, st, c);
    match r {
        Err(e) => Err(ParseStructError::Lexer { source: e }),
        Ok(Some(StructTokenView::BeginNode { .. })) => match spec_node_at(sb, st, c) {
            Err(e) => Err(e),
            Ok(v) => Ok(Some(v)),
        },
        Ok(Some(StructTokenView::EndNode)) => Ok(None),
        _ => Err(ParseStructError::MissingEndNodeToken),
    }
}

/// The node that follows, at the same level, the END_NODE token of a node
/// that ends at `off`: NOP tokens are skipped; an END_NODE token, an END
/// token or the end of the block means there is none.
pub open spec fn spec_sibling_from(sb: Seq<u8>, st: Seq<u8>, off: int) -> Result<
    Option<NodeView>,
    ParseStructError,
>
    decreases sb.len() + 4 - off,
{
    let (r, n) = spec_read_token_and_data(sb, st, off);
    match r {
        Err(e) => Err(ParseStructError::Lexer { source: e }),
        Ok(Some(StructTokenView::Nop)) => if advances(sb, off, n) {
            spec_sibling_from(sb, st, n)
        } else {
            Ok(None)
        },
        Ok(Some(StructTokenView::BeginNode { .. })) => match spec_node_at(sb, st, off) {
            Err(e) => Err(e),
            Ok(v) => Ok(Some(v)),
        },
        Ok(Some(StructTokenView::Prop { .. })) => Err(ParseStructError::UnexpectedPropToken),
        _ => Ok(None),
    }
}

/// What reading the token at `off` gives, as the offset after it: a token
/// that is read ends further on, at most 3 bytes past the end of the block.
pub proof fn lemma_token_advances(sb: Seq<u8>, st: Seq<u8>, off: int)
    requires
        off >= 0,
    ensures
        spec_read_token_and_data(sb, st, off).0 matches Ok(Some(_)) ==> {
            let n = spec_read_token_and_data(sb, st, off).1;
            &&& advances(sb, off, n)
            &&& n <= sb.len() + 3
        },
{
    let (r, n) = spec_read_token_and_data(sb, st, off);
    match r {
        Ok(Some(StructTokenView::BeginNode { .. })) => {
            let p = off + 4;
            let rest = sb.skip(p);
            let j = choose|j: int| 0 <= j < rest.len() && rest[j] == 0;
            lemma_first_index_exists(rest, 0, j);
            let len = choose|i: int| is_first_index_of(rest, 0, i);
            assert(p + len + 1 <= sb.len());
        },
        _ => {},
    }
}

/// The token where the skipping of properties stops is neither a property
/// nor a NOP, and lies at or after where it started.
pub proof fn lemma_skip_props(sb: Seq<u8>, st: Seq<u8>, off: int)
    requires
        0 <= off <= sb.len() + 4,
    ensures
        spec_skip_props(sb, st, off) matches Ok(c) ==> {
            &&& off <= c
            &&& c <= sb.len() + 4
            &&& !(spec_read_token_and_data(sb, st, c).0 matches Ok(Some(StructTokenView::Nop)))
            &&& !(spec_read_token_and_data(sb, st, c).0 matches Ok(
                Some(StructTokenView::Prop { .. }),
            ))
        },
    decreases sb.len() + 4 - off,
{
    lemma_token_advances(sb, st, off);
    let (r, n) = spec_read_token_and_data(sb, st, off);
    match r {
        Ok(Some(StructTokenView::Nop)) => {
            lemma_skip_props(sb, st, n);
        },
        Ok(Some(StructTokenView::Prop { .. })) => {
            lemma_skip_props(sb, st, n);
        },
        _ => {},
    }
}

/// A node: its name, its unit address, and where its properties and its
/// children start in the structure block.
#[derive(Debug)]
pub struct Node<'fdt, 'tree> {
    name: &'fdt str,
    address: Option<&'fdt str>,
    properties_tokens: StructLexer<'fdt, 'tree>,
    children_tokens: StructLexer<'fdt, 'tree>,
}

/// The view of an optional string.
pub open spec fn opt_str_view(s: Option<&str>) -> Option<Seq<char>> {
    match s {
        Some(a) => Some(a@),
        None => None,
    }
}

/// The structure block read by `l`.
pub open spec fn lexer_sb(l: StructLexer) -> Seq<u8> {
    l.spec_devicetree().spec_struct_block()
}

/// The strings block read by `l`.
pub open spec fn lexer_st(l: StructLexer) -> Seq<u8> {
    l.spec_devicetree().spec_string_block()
}

impl<'fdt, 'tree> View for Node<'fdt, 'tree> {
    type V = NodeView;

    closed spec fn view(&self) -> NodeView {
        NodeView {
            name: self.name@,
            address: opt_str_view(self.address),
            properties: self.properties_tokens.spec_offset() as int,
            children: self.children_tokens.spec_offset() as int,
        }
    }
}

/// `r` is the node of `s`, read from `dt`, or the same error.
pub open spec fn node_result_is<'fdt, 'tree>(
    r: Result<Node<'fdt, 'tree>, ParseStructError>,
    s: Result<NodeView, ParseStructError>,
    dt: Devicetree<'fdt>,
) -> bool {
    match (r, s) {
        (Ok(n), Ok(v)) => n@ == v && n.spec_devicetree() == dt,
        (Err(e1), Err(e2)) => e1 == e2,
        _ => false,
    }
}

/// `r` is the node of `s`, if any, read from `dt`, or the same error.
pub open spec fn opt_node_result_is<'fdt, 'tree>(
    r: Result<Option<Node<'fdt, 'tree>>, ParseStructError>,
    s: Result<Option<NodeView>, ParseStructError>,
    dt: Devicetree<'fdt>,
) -> bool {
    match (r, s) {
        (Ok(Some(n)), Ok(Some(v))) => n@ == v && n.spec_devicetree() == dt,
        (Ok(None), Ok(None)) => true,
        (Err(e1), Err(e2)) => e1 == e2,
        _ => false,
    }
}

impl<'fdt, 'tree> Node<'fdt, 'tree> {
    #[verifier::type_invariant]
    spec fn inv(&self) -> bool {
        let sb = lexer_sb(self.properties_tokens);
        let st = lexer_st(self.properties_tokens);
        &&& self.children_tokens.spec_devicetree() == self.properties_tokens.spec_devicetree()
        &&& self.properties_tokens.spec_offset() <= sb.len() + 4
        &&& spec_skip_props(sb, st, self.properties_tokens.spec_offset() as int) == Ok::<
            int,
            StructLexerError,
        >(self.children_tokens.spec_offset() as int)
    }

    /// The blob the node is read from.
    pub closed spec fn spec_devicetree(&self) -> Devicetree<'fdt> {
        *self.properties_tokens.spec_devicetree()
    }

    /// The structure block of the blob the node is read from.
    pub open spec fn spec_sb(&self) -> Seq<u8> {
        self.spec_devicetree().spec_struct_block()
    }

    /// The strings block of the blob the node is read from.
    pub open spec fn spec_st(&self) -> Seq<u8> {
        self.spec_devicetree().spec_string_block()
    }

    /// The node what `node_tokens` reads starts: a BEGIN_NODE token with the
    /// node's full name, then its properties and NOP tokens, then where its
    /// children start.
    pub(crate) fn new(node_tokens: &StructLexer<'fdt, 'tree>) -> (r: Result<Self, ParseStructError>)
        requires
        ensures
            node_result_is(
                r,
                spec_node_at(
                    lexer_sb(*node_tokens),
                    lexer_st(*node_tokens),
                    node_tokens.spec_offset() as int,
                ),
                *node_tokens.spec_devicetree(),
            ),
    {
        let ghost sb = lexer_sb(*node_tokens);
        let ghost st = lexer_st(*node_tokens);
        proof {
            lemma_token_advances(sb, st, node_tokens.spec_offset() as int);
        }
        let (name, address, properties_tokens) = match node_tokens.split_token() {
            Err(e) => {
                return Err(ParseStructError::Lexer { source: e });
            },
            Ok(Some((StructTokenWithData::BeginNode { name, address }, tokens))) => (
                name,
                address,
                tokens,
            ),
            Ok(_) => {
                return Err(ParseStructError::MissingBeginNodeToken);
            },
        };
        let mut children_tokens = properties_tokens;
        let ghost p = properties_tokens.spec_offset() as int;
        let ghost off0 = node_tokens.spec_offset() as int;
        assert(spec_node_at(sb, st, off0) == match spec_skip_props(sb, st, p) {
            Err(e) => Err(ParseStructError::Lexer { source: e }),
            Ok(c) => Ok(NodeView { name: name@, address: opt_str_view(address), properties: p, children: c }),
        });
        loop
            invariant
                spec_node_at(sb, st, off0) == match spec_skip_props(sb, st, p) {
                    Err(e) => Err(ParseStructError::Lexer { source: e }),
                    Ok(c) => Ok(NodeView { name: name@, address: opt_str_view(address), properties: p, children: c }),
                },
                p <= sb.len() + 4,
                p <= children_tokens.spec_offset() <= sb.len() + 4,
                off0 == node_tokens.spec_offset(),
                sb == lexer_sb(*node_tokens),
                st == lexer_st(*node_tokens),
                children_tokens.spec_devicetree() == node_tokens.spec_devicetree(),
                properties_tokens.spec_devicetree() == node_tokens.spec_devicetree(),
                sb == lexer_sb(children_tokens),
                st == lexer_st(children_tokens),
                p == properties_tokens.spec_offset(),
                spec_skip_props(sb, st, p) == spec_skip_props(
                    sb,
                    st,
                    children_tokens.spec_offset() as int,
                ),
            ensures
                spec_skip_props(sb, st, children_tokens.spec_offset() as int) == Ok::<
                    int,
                    StructLexerError,
                >(children_tokens.spec_offset() as int),
            decreases sb.len() + 4 - children_tokens.spec_offset(),
        {
            proof {
                lemma_token_advances(sb, st, children_tokens.spec_offset() as int);
            }
            match children_tokens.split_token() {
                Err(e) => {
                    return Err(ParseStructError::Lexer { source: e });
                },
                Ok(Some((StructTokenWithData::Nop, next))) => {
                    children_tokens = next;
                },
                Ok(Some((StructTokenWithData::Prop(_), next))) => {
                    children_tokens = next;
                },
                Ok(_) => {
                    break ;
                },
            }
        }
        let node = Node { name, address, properties_tokens, children_tokens };
        Ok(node)
    }

    /// The name of the node: its full name up to the first `@`.
    pub fn name(&self) -> (r: &'fdt str)
        ensures
            r@ == self@.name,
    {
        self.name
    }

    /// The unit address of the node: its full name after the first `@`, if
    /// it holds one.
    pub fn address(&self) -> (r: Option<&'fdt str>)
        ensures
            opt_str_view(r) == self@.address,
    {
        self.address
    }

    /// The properties of the node.
    pub fn properties(&self) -> (r: Properties<'fdt, 'tree>)
        ensures
            r.spec_offset() == Some(self@.properties),
            r.spec_devicetree() == self.spec_devicetree(),
            r.spec_ready(),
    {
        proof {
            use_type_invariant(self);
        }
        Properties { lexer: Some(self.properties_tokens) }
    }

    /// The children of the node.
    pub fn children(&self) -> (r: Children<'fdt, 'tree>)
        ensures
            r.spec_offset() == Some(self@.children),
            r.spec_devicetree() == self.spec_devicetree(),
            r.spec_ready(),
            0 <= self@.properties <= self@.children <= self.spec_sb().len() + 4,
    {
        proof {
            use_type_invariant(self);
            lemma_skip_props(
                lexer_sb(self.properties_tokens),
                lexer_st(self.properties_tokens),
                self@.properties,
            );
        }
        Children { lexer: Some(self.children_tokens) }
    }

    /// A lexer after the END_NODE token of the node.
    fn next_tokens(&self) -> (r: Result<StructLexer<'fdt, 'tree>, ParseStructError>)
        ensures
            match (r, spec_node_end(lexer_sb(self.children_tokens), lexer_st(self.children_tokens), self@.children)) {
                (Ok(l), Ok(e)) => {
                    &&& l.spec_offset() == e
                    &&& l.spec_devicetree() == self.properties_tokens.spec_devicetree()
                    &&& self@.children < e <= lexer_sb(self.children_tokens).len()
                },
                (Err(e1), Err(e2)) => e1 == e2,
                _ => false,
            },
        decreases lexer_sb(self.children_tokens).len() + 4 - self@.children,
    {
        proof {
            use_type_invariant(self);
            lemma_skip_props(
                lexer_sb(self.properties_tokens),
                lexer_st(self.properties_tokens),
                self@.properties,
            );
        }
        let ghost sb = lexer_sb(self.children_tokens);
        let ghost st = lexer_st(self.children_tokens);
        let ghost c0 = self@.children;
        let mut child_tokens = self.children_tokens;
        loop
            invariant
                sb == lexer_sb(child_tokens),
                st == lexer_st(child_tokens),
                child_tokens.spec_devicetree() == self.properties_tokens.spec_devicetree(),
                c0 <= child_tokens.spec_offset() <= sb.len() + 4,
                c0 == self@.children,
                sb == lexer_sb(self.children_tokens),
                st == lexer_st(self.children_tokens),
                self.children_tokens.spec_devicetree() == self.properties_tokens.spec_devicetree(),
                spec_node_end(sb, st, c0) == spec_node_end(sb, st, child_tokens.spec_offset() as int),
            decreases sb.len() + 4 - child_tokens.spec_offset(),
        {
            let ghost cur = child_tokens.spec_offset() as int;
            proof {
                lemma_token_advances(sb, st, cur);
            }
            match child_tokens.split_token() {
                Err(e) => {
                    return Err(ParseStructError::Lexer { source: e });
                },
                Ok(Some((StructTokenWithData::Nop, tks))) => {
                    child_tokens = tks;
                },
                Ok(Some((StructTokenWithData::BeginNode { .. }, _))) => {
                    let child = match Node::new(&child_tokens) {
                        Ok(child) => child,
                        Err(e) => {
                            return Err(e);
                        },
                    };
                    proof {
                        use_type_invariant(&child);
                        lemma_skip_props(sb, st, child@.properties);
                    }
                    child_tokens = match child.next_tokens() {
                        Ok(l) => l,
                        Err(e) => {
                            return Err(e);
                        },
                    };
                },
                Ok(Some((StructTokenWithData::EndNode, tks))) => {
                    return Ok(tks);
                },
                Ok(Some((StructTokenWithData::Prop(_), _))) => {
                    return Err(ParseStructError::UnexpectedPropToken);
                },
                Ok(_) => {
                    return Err(ParseStructError::MissingEndNodeToken);
                },
            }
        }
    }

    /// The first child of the node; `None` when it has none.
    pub fn first_child(&self) -> (r: Result<Option<Self>, ParseStructError>)
        ensures
            opt_node_result_is(
                r,
                spec_first_child(
                    self.spec_sb(),
                    self.spec_st(),
                    self@.children,
                ),
                self.spec_devicetree(),
            ),
    {
        proof {
            use_type_invariant(self);
            lemma_skip_props(
                lexer_sb(self.properties_tokens),
                lexer_st(self.properties_tokens),
                self@.properties,
            );
        }
        let child_tokens = &self.children_tokens;
        match child_tokens.split_token() {
            Err(e) => Err(ParseStructError::Lexer { source: e }),
            Ok(Some((StructTokenWithData::BeginNode { .. }, _))) => {
                match Node::new(child_tokens) {
                    Ok(node) => Ok(Some(node)),
                    Err(e) => Err(e),
                }
            },
            Ok(Some((StructTokenWithData::EndNode, _))) => Ok(None),
            Ok(_) => Err(ParseStructError::MissingEndNodeToken),
        }
    }

    /// The node after this one at the same level; `None` when there is none.
    pub fn next_sibling(&self) -> (r: Result<Option<Self>, ParseStructError>)
        ensures
            match spec_node_end(self.spec_sb(), self.spec_st(), self@.children) {
                Err(e) => r == Err::<Option<Self>, ParseStructError>(e),
                Ok(e) => opt_node_result_is(
                    r,
                    spec_sibling_from(
                        self.spec_sb(),
                        self.spec_st(),
                        e,
                    ),
                    self.spec_devicetree(),
                ),
            },
    {
        proof {
            use_type_invariant(self);
        }
        let ghost sb = self.spec_sb();
        let ghost st = self.spec_st();
        assert(sb == lexer_sb(self.children_tokens));
        let mut next_tokens = match self.next_tokens() {
            Ok(l) => l,
            Err(e) => {
                return Err(e);
            },
        };
        let ghost e0 = next_tokens.spec_offset() as int;
        loop
            invariant
                spec_node_end(sb, st, self@.children) == Ok::<int, ParseStructError>(e0),
                sb == self.spec_sb(),
                st == self.spec_st(),
                sb == lexer_sb(next_tokens),
                st == lexer_st(next_tokens),
                next_tokens.spec_devicetree() == self.properties_tokens.spec_devicetree(),
                next_tokens.spec_offset() <= sb.len() + 4,
                spec_sibling_from(sb, st, e0) == spec_sibling_from(
                    sb,
                    st,
                    next_tokens.spec_offset() as int,
                ),
            decreases sb.len() + 4 - next_tokens.spec_offset(),
        {
            proof {
                lemma_token_advances(sb, st, next_tokens.spec_offset() as int);
            }
            match next_tokens.split_token() {
                Err(e) => {
                    return Err(ParseStructError::Lexer { source: e });
                },
                Ok(Some((StructTokenWithData::Nop, tks))) => {
                    next_tokens = tks;
                },
                Ok(Some((StructTokenWithData::BeginNode { .. }, _))) => {
                    return match Node::new(&next_tokens) {
                        Ok(node) => Ok(Some(node)),
                        Err(e) => Err(e),
                    };
                },
                Ok(Some((StructTokenWithData::EndNode, _))) => {
                    return Ok(None);
                },
                Ok(Some((StructTokenWithData::Prop(_), _))) => {
                    return Err(ParseStructError::UnexpectedPropToken);
                },
                Ok(_) => {
                    return Ok(None);
                },
            }
        }
    }
}

} // verus!

verus! {

/// A property as plain values: its name and the bytes of its value.
pub type PropertyView = (Seq<char>, Seq<u8>);

/// Reading the next property from `off`: NOP tokens are skipped; the
/// outcome (`None` when the properties end) and where the reading stands
/// after it (`None` once a node or the end of the block was met).
pub open spec fn spec_next_property(sb: Seq<u8>, st: Seq<u8>, off: int) -> (
    Option<Result<PropertyView, ParseStructError>>,
    Option<int>,
)
    decreases sb.len() + 4 - off,
{
    let (r, n) = spec_read_token_and_data(sb, st, off);
    match r {
        Ok(None) => (None, Some(off)),
        Err(e) => (Some(Err(ParseStructError::Lexer { source: e })), Some(n)),
        Ok(Some(StructTokenView::Prop { name, value })) => (Some(Ok((name, value))), Some(n)),
        Ok(Some(StructTokenView::Nop)) => if advances(sb, off, n) {
            spec_next_property(sb, st, n)
        } else {
            (None, Some(off))
        },
        Ok(Some(_)) => (None, None),
    }
}

/// A property read by `next` reads as `pv`.
pub open spec fn property_is(p: Property, pv: PropertyView) -> bool {
    p.spec_name() == pv.0 && p.spec_value() == pv.1
}

/// Reading properties from `off` on until one is named `name`.
pub open spec fn spec_find(sb: Seq<u8>, st: Seq<u8>, off: Option<int>, name: Seq<char>) -> Result<
    Option<PropertyView>,
    ParseStructError,
>
    decreases (match off {
        Some(o) => sb.len() + 5 - o,
        None => 0,
    }),
{
    match off {
        None => Ok(None),
        Some(o) => if o > sb.len() + 4 {
            Ok(None)
        } else {
            let (r, next) = spec_next_property(sb, st, o);
            match r {
                None => Ok(None),
                Some(Err(e)) => Err(e),
                Some(Ok(pv)) => if pv.0 == name {
                    Ok(Some(pv))
                } else {
                    match next {
                        Some(n) => if advances(sb, o, n) {
                            spec_find(sb, st, Some(n), name)
                        } else {
                            Ok(None)
                        },
                        None => Ok(None),
                    }
                },
            }
        },
    }
}

/// A property that is read ends further on.
pub proof fn lemma_next_property(sb: Seq<u8>, st: Seq<u8>, off: int)
    requires
        off >= 0,
    ensures
        spec_next_property(sb, st, off).0 matches Some(Ok(_)) ==> {
            let n = spec_next_property(sb, st, off).1;
            &&& n matches Some(k) && advances(sb, off, k)
        },
        spec_next_property(sb, st, off).0 is None ==> (spec_next_property(sb, st, off).1 matches Some(k) ==> off <= k),
    decreases sb.len() + 4 - off,
{
    lemma_token_advances(sb, st, off);
    let (r, n) = spec_read_token_and_data(sb, st, off);
    if r matches Ok(Some(StructTokenView::Nop)) {
        if advances(sb, off, n) {
            lemma_next_property(sb, st, n);
        }
    }
}

/// What reading a `reg` value `value` gives, with the outcomes `a` and `s`
/// of looking up `#address-cells` and `#size-cells` in the parent node.
pub open spec fn spec_reg_outcome(
    r: Result<Option<RegIter>, GetPropertyError>,
    value: Seq<u8>,
    a: Result<Option<PropertyView>, ParseStructError>,
    s: Result<Option<PropertyView>, ParseStructError>,
) -> bool {
    match a {
        Err(e) => r matches Err(GetPropertyError::ParseStruct { source: e2 }) && e2 == e,
        Ok(None) => r matches Err(GetPropertyError::MissingParentProperty { name }) && name
            == ADDRESS_CELLS,
        Ok(Some(apv)) => match spec_parse_u32(apv.1) {
            Err(e) => r matches Err(GetPropertyError::ParsePropertyValue { source: e2 }) && e2 == e,
            Ok(ac) => match s {
                Err(e) => r matches Err(GetPropertyError::ParseStruct { source: e2 }) && e2 == e,
                Ok(None) => r matches Err(GetPropertyError::MissingParentProperty { name }) && name
                    == SIZE_CELLS,
                Ok(Some(spv)) => match spec_parse_u32(spv.1) {
                    Err(e) => r matches Err(GetPropertyError::ParsePropertyValue { source: e2 })
                        && e2 == e,
                    Ok(sc) => if !(1 <= ac <= 2) {
                        r matches Err(GetPropertyError::InvalidParentProperty { name }) && name
                            == ADDRESS_CELLS
                    } else if sc > 2 {
                        r matches Err(GetPropertyError::InvalidParentProperty { name }) && name
                            == SIZE_CELLS
                    } else if value.len() as int % ((ac + sc) * 4) != 0 {
                        r matches Err(GetPropertyError::InvalidValueLength { name, len }) && name
                            == REG && len == value.len()
                    } else {
                        r matches Ok(Some(it)) && it@ == (RegIterView {
                            address_cells: ac as usize,
                            size_cells: sc as usize,
                            bytes: value,
                        })
                    },
                },
            },
        },
    }
}

/// With a parent whose `#address-cells` is 1 or 2 and whose `#size-cells`
/// is 0, 1 or 2, a `reg` value of whole entries is read, entries of
/// `#address-cells + #size-cells` cells over the whole value; any other
/// count of cells, or a value of a partial entry, is refused. A
/// `#size-cells` of 0 (entries without a size) is valid.
pub proof fn law_reg_accepts_valid_cells(
    r: Result<Option<RegIter>, GetPropertyError>,
    value: Seq<u8>,
    apv: PropertyView,
    spv: PropertyView,
    ac: u32,
    sc: u32,
)
    requires
        spec_parse_u32(apv.1) == Ok::<u32, ParsePropertyValueError>(ac),
        spec_parse_u32(spv.1) == Ok::<u32, ParsePropertyValueError>(sc),
        spec_reg_outcome(
            r,
            value,
            Ok::<Option<PropertyView>, ParseStructError>(Some(apv)),
            Ok::<Option<PropertyView>, ParseStructError>(Some(spv)),
        ),
    ensures
        r is Ok <==> (1 <= ac <= 2 && 0 <= sc <= 2 && value.len() % (4 * (ac + sc) as nat) == 0),
        (1 <= ac <= 2 && sc == 0 && value.len() % (4 * ac as nat) == 0) ==> (r matches Ok(
            Some(it)) && it@.size_cells == 0 && it@.address_cells == ac && it@.bytes == value),
        r matches Ok(Some(it)) ==> (it@.address_cells == ac && it@.size_cells == sc && it@.bytes
            == value),
        !(r matches Ok(None)),
{
    if 1 <= ac <= 2 && sc <= 2 {
        assert((ac + sc) * 4 == 4 * (ac + sc));
    }
}

/// The properties of a node, read one by one.
#[derive(Debug, Clone, Copy)]
pub struct Properties<'fdt, 'tree> {
    lexer: Option<StructLexer<'fdt, 'tree>>,
}

/// Names the structure of `reg` values depends on.
pub const ADDRESS_CELLS: &'static str = "#address-cells";

/// The name of the number of size cells.
pub const SIZE_CELLS: &'static str = "#size-cells";

/// The name of the register property.
pub const REG: &'static str = "reg";

/// Why a property could not be found or read.
#[derive(Debug)]
#[allow(inconsistent_fields)]
pub enum GetPropertyError {
    /// The structure block could not be read.
    ParseStruct { source: ParseStructError },
    /// The value of the property could not be decoded.
    ParsePropertyValue { source: ParsePropertyValueError },
    /// The parent node lacks the property `name`.
    MissingParentProperty { name: &'static str },
    /// The property `name` of the parent node has a value out of range.
    InvalidParentProperty { name: &'static str },
    /// The value of the property `name` has a length `len` that does not fit.
    InvalidValueLength { name: &'static str, len: usize },
}

impl GetPropertyError {
    /// The text that describes the error.
    pub open spec fn spec_message(&self) -> Seq<char> {
        match self {
            GetPropertyError::ParseStruct { source } => "invalid struct: "@ + source.spec_message(),
            GetPropertyError::ParsePropertyValue { source } => "invalid property value: "@
                + source.spec_message(),
            GetPropertyError::MissingParentProperty { name } => "missing property `"@ + name@
                + "` in parent node"@,
            GetPropertyError::InvalidParentProperty { name } => "invalid property `"@ + name@
                + "` in parent node"@,
            GetPropertyError::InvalidValueLength { name, len } => "invalid `"@ + name@
                + "` value length: "@ + dec_text(*len as nat),
        }
    }

    /// The text that describes the error.
    pub fn message(&self) -> (r: String)
        ensures
            r@ == self.spec_message(),
    {
        let mut s = String::new();
        match self {
            GetPropertyError::ParseStruct { source } => {
                s.append("invalid struct: ");
                let m = source.message();
                s.append(m.as_str());
            },
            GetPropertyError::ParsePropertyValue { source } => {
                s.append("invalid property value: ");
                let m = source.message();
                s.append(m.as_str());
            },
            GetPropertyError::MissingParentProperty { name } => {
                s.append("missing property `");
                s.append(name);
                s.append("` in parent node");
            },
            GetPropertyError::InvalidParentProperty { name } => {
                s.append("invalid property `");
                s.append(name);
                s.append("` in parent node");
            },
            GetPropertyError::InvalidValueLength { name, len } => {
                s.append("invalid `");
                s.append(name);
                s.append("` value length: ");
                push_dec(&mut s, *len as u64);
            },
        }
        s
    }
}

impl<'fdt, 'tree> Properties<'fdt, 'tree> {
    /// Where the reading stands: `None` once the properties have ended.
    pub closed spec fn spec_offset(&self) -> Option<int> {
        match self.lexer {
            Some(l) => Some(l.spec_offset() as int),
            None => None,
        }
    }

    /// The blob the properties are read from.
    pub closed spec fn spec_devicetree(&self) -> Devicetree<'fdt> {
        match self.lexer {
            Some(l) => *l.spec_devicetree(),
            None => arbitrary(),
        }
    }

    /// The structure block read.
    pub open spec fn spec_sb(&self) -> Seq<u8> {
        self.spec_devicetree().spec_struct_block()
    }

    /// The strings block read.
    pub open spec fn spec_st(&self) -> Seq<u8> {
        self.spec_devicetree().spec_string_block()
    }

    /// Where the reading stands is an offset of the block, or past its end.
    pub open spec fn spec_ready(&self) -> bool {
        self.spec_offset() matches Some(o) ==> 0 <= o
    }

    /// The next property; `None` when the properties have ended. NOP tokens
    /// are skipped.
    pub fn next(&mut self) -> (r: Option<Result<Property<'fdt>, ParseStructError>>)
        ensures
            final(self).spec_offset() is Some ==> final(self).spec_devicetree() == old(
                self,
            ).spec_devicetree(),
            final(self).spec_ready(),
            match old(self).spec_offset() {
                None => r is None && final(self).spec_offset() is None,
                Some(o) => {
                    let (sr, so) = spec_next_property(old(self).spec_sb(), old(self).spec_st(), o);
                    &&& final(self).spec_offset() == so
                    &&& match (r, sr) {
                        (None, None) => true,
                        (Some(Ok(p)), Some(Ok(pv))) => property_is(p, pv),
                        (Some(Err(e1)), Some(Err(e2))) => e1 == e2,
                        _ => false,
                    }
                },
            },
    {
        let mut lexer = match self.lexer {
            Some(l) => l,
            None => {
                return None;
            },
        };
        let ghost sb = lexer_sb(lexer);
        let ghost st = lexer_st(lexer);
        let ghost o0 = lexer.spec_offset() as int;
        loop
            invariant
                sb == lexer_sb(lexer),
                st == lexer_st(lexer),
                old(self).spec_offset() == Some(o0),
                old(self).spec_devicetree() == *lexer.spec_devicetree(),
                o0 <= lexer.spec_offset(),
                lexer.spec_offset() <= sb.len() + 4 || lexer.spec_offset() == o0,
                spec_next_property(sb, st, o0) == spec_next_property(sb, st, lexer.spec_offset() as int),
            decreases sb.len() + 4 - lexer.spec_offset(),
        {
            proof {
                lemma_token_advances(sb, st, lexer.spec_offset() as int);
            }
            let ghost cur = lexer.spec_offset() as int;
            match lexer.read_token_and_data() {
                Ok(None) => {
                    self.lexer = Some(lexer);
                    return None;
                },
                Ok(Some(StructTokenWithData::Prop(p))) => {
                    self.lexer = Some(lexer);
                    return Some(Ok(p));
                },
                Ok(Some(StructTokenWithData::Nop)) => {},
                Err(e) => {
                    self.lexer = Some(lexer);
                    return Some(Err(ParseStructError::Lexer { source: e }));
                },
                Ok(Some(_)) => {
                    self.lexer = None;
                    return None;
                },
            }
        }
    }

    /// The first property named `name` from where the reading stands.
    pub fn find(&self, name: &str) -> (r: Result<Option<Property<'fdt>>, GetPropertyError>)
        ensures
            match (r, spec_find(self.spec_sb(), self.spec_st(), self.spec_offset(), name@)) {
                (Ok(None), Ok(None)) => true,
                (Ok(Some(p)), Ok(Some(pv))) => property_is(p, pv),
                (Err(GetPropertyError::ParseStruct { source: e1 }), Err(e2)) => e1 == e2,
                _ => false,
            },
    {
        let mut props = *self;
        let ghost sb = self.spec_sb();
        let ghost st = self.spec_st();
        loop
            invariant
                props.spec_offset() is Some ==> props.spec_devicetree() == self.spec_devicetree(),
                sb == self.spec_sb(),
                st == self.spec_st(),
                spec_find(sb, st, self.spec_offset(), name@) == spec_find(
                    sb,
                    st,
                    props.spec_offset(),
                    name@,
                ),
            decreases (match props.spec_offset() {
                Some(o) => sb.len() + 5 - o,
                None => 0,
            }),
        {
            let ghost before = props.spec_offset();
            proof {
                if let Some(o) = before {
                    lemma_next_property(sb, st, o);
                }
            }
            match props.next() {
                None => {
                    return Ok(None);
                },
                Some(Err(e)) => {
                    return Err(GetPropertyError::ParseStruct { source: e });
                },
                Some(Ok(p)) => {
                    if str_eq(p.name(), name) {
                        return Ok(Some(p));
                    }
                },
            }
        }
    }

    /// The value of the first property named `name`, as a `u32`.
    pub fn find_u32(&self, name: &str) -> (r: Result<Option<u32>, GetPropertyError>)
        ensures
            match spec_find(self.spec_sb(), self.spec_st(), self.spec_offset(), name@) {
                Ok(None) => r matches Ok(None),
                Ok(Some(pv)) => match spec_parse_u32(pv.1) {
                    Ok(n) => r matches Ok(Some(m)) && m == n,
                    Err(e) => r matches Err(GetPropertyError::ParsePropertyValue { source: e2 })
                        && e2 == e,
                },
                Err(e) => r matches Err(GetPropertyError::ParseStruct { source: e2 }) && e2 == e,
            },
    {
        let prop = match self.find(name)? {
            Some(prop) => prop,
            None => {
                return Ok(None);
            },
        };
        match prop.parse_value::<u32>() {
            Ok(n) => Ok(Some(n)),
            Err(e) => Err(GetPropertyError::ParsePropertyValue { source: e }),
        }
    }

    /// The value of `#address-cells`.
    pub fn address_cells(&self) -> (r: Result<Option<usize>, GetPropertyError>)
        ensures
            match spec_find(self.spec_sb(), self.spec_st(), self.spec_offset(), ADDRESS_CELLS@) {
                Ok(None) => r matches Ok(None),
                Ok(Some(pv)) => match spec_parse_u32(pv.1) {
                    Ok(n) => r matches Ok(Some(m)) && m == n,
                    Err(e) => r matches Err(GetPropertyError::ParsePropertyValue { source: e2 })
                        && e2 == e,
                },
                Err(e) => r matches Err(GetPropertyError::ParseStruct { source: e2 }) && e2 == e,
            },
    {
        match self.find_u32(ADDRESS_CELLS)? {
            Some(n) => Ok(Some(n as usize)),
            None => Ok(None),
        }
    }

    /// The `reg` property read by the `#address-cells` and `#size-cells` of
    /// `parent`: `None` without a `reg` property; an error when the parent
    /// lacks either of them or holds one out of range, or when the value is
    /// not made of whole entries.
    pub fn reg(&self, parent: &Node<'_, '_>) -> (r: Result<Option<RegIter<'fdt>>, GetPropertyError>)
        ensures
            match spec_find(self.spec_sb(), self.spec_st(), self.spec_offset(), REG@) {
                Err(e) => r matches Err(GetPropertyError::ParseStruct { source: e2 }) && e2 == e,
                Ok(None) => r matches Ok(None),
                Ok(Some(pv)) => spec_reg_outcome(
                    r,
                    pv.1,
                    spec_find(parent.spec_sb(), parent.spec_st(), Some(parent@.properties), ADDRESS_CELLS@),
                    spec_find(parent.spec_sb(), parent.spec_st(), Some(parent@.properties), SIZE_CELLS@),
                ),
            },
    {
        let reg = match self.find(REG) {
            Err(e) => {
                return Err(e);
            },
            Ok(None) => {
                return Ok(None);
            },
            Ok(Some(reg)) => reg,
        };
        let parent_props = parent.properties();
        let address_cells = match parent_props.address_cells() {
            Err(e) => {
                return Err(e);
            },
            Ok(None) => {
                return Err(GetPropertyError::MissingParentProperty { name: ADDRESS_CELLS });
            },
            Ok(Some(n)) => n,
        };
        let size_cells = match parent_props.size_cells() {
            Err(e) => {
                return Err(e);
            },
            Ok(None) => {
                return Err(GetPropertyError::MissingParentProperty { name: SIZE_CELLS });
            },
            Ok(Some(n)) => n,
        };
        if !(1 <= address_cells && address_cells <= 2) {
            return Err(GetPropertyError::InvalidParentProperty { name: ADDRESS_CELLS });
        }
        if size_cells > 2 {
            return Err(GetPropertyError::InvalidParentProperty { name: SIZE_CELLS });
        }
        let unit_len = 4 * (address_cells + size_cells);
        let value = reg.raw_value();
        if value.len() % unit_len != 0 {
            return Err(GetPropertyError::InvalidValueLength { name: REG, len: value.len() });
        }
        Ok(Some(RegIter::from_parts(address_cells, size_cells, value)))
    }

    /// The value of `#size-cells`.
    pub fn size_cells(&self) -> (r: Result<Option<usize>, GetPropertyError>)
        ensures
            match spec_find(self.spec_sb(), self.spec_st(), self.spec_offset(), SIZE_CELLS@) {
                Ok(None) => r matches Ok(None),
                Ok(Some(pv)) => match spec_parse_u32(pv.1) {
                    Ok(n) => r matches Ok(Some(m)) && m == n,
                    Err(e) => r matches Err(GetPropertyError::ParsePropertyValue { source: e2 })
                        && e2 == e,
                },
                Err(e) => r matches Err(GetPropertyError::ParseStruct { source: e2 }) && e2 == e,
            },
    {
        match self.find_u32(SIZE_CELLS)? {
            Some(n) => Ok(Some(n as usize)),
            None => Ok(None),
        }
    }
}

} // verus!

verus! {

/// Reading the next child from `off`: NOP tokens are skipped, a child node
/// is read with all its descendants, and an END_NODE token ends the
/// children. The outcome and where the reading stands after it (`None` once
/// the children have ended).
pub open spec fn spec_next_child(sb: Seq<u8>, st: Seq<u8>, off: int) -> (
    Result<Option<NodeView>, ParseStructError>,
    Option<int>,
)
    decreases sb.len() + 4 - off,
{
    let (r, n) = spec_read_token_and_data(sb, st, off);
    match r {
        Err(e) => (Err(ParseStructError::Lexer { source: e }), Some(off)),
        Ok(Some(StructTokenView::Nop)) => if advances(sb, off, n) {
            spec_next_child(sb, st, n)
        } else {
            (Err(ParseStructError::MissingEndNodeToken), Some(off))
        },
        Ok(Some(StructTokenView::BeginNode { .. })) => match spec_node_at(sb, st, off) {
            Err(e) => (Err(e), Some(off)),
            Ok(v) => match spec_node_end(sb, st, v.children) {
                Err(e) => (Err(e), Some(off)),
                Ok(e) => (Ok(Some(v)), Some(e)),
            },
        },
        Ok(Some(StructTokenView::EndNode)) => (Ok(None), None),
        _ => (Err(ParseStructError::MissingEndNodeToken), Some(off)),
    }
}

/// The children of a node, read one by one.
pub struct Children<'fdt, 'tree> {
    lexer: Option<StructLexer<'fdt, 'tree>>,
}

impl<'fdt, 'tree> Children<'fdt, 'tree> {
    /// Where the reading stands: `None` once the children have ended.
    pub closed spec fn spec_offset(&self) -> Option<int> {
        match self.lexer {
            Some(l) => Some(l.spec_offset() as int),
            None => None,
        }
    }

    /// The blob the children are read from.
    pub closed spec fn spec_devicetree(&self) -> Devicetree<'fdt> {
        match self.lexer {
            Some(l) => *l.spec_devicetree(),
            None => arbitrary(),
        }
    }

    /// Where the reading stands is an offset of the block, or past its end.
    pub open spec fn spec_ready(&self) -> bool {
        self.spec_offset() matches Some(o) ==> 0 <= o
    }

    /// The next child; `None` when the children have ended.
    pub fn try_next(&mut self) -> (r: Result<Option<Node<'fdt, 'tree>>, ParseStructError>)
        ensures
            final(self).spec_ready(),
            final(self).spec_offset() is Some ==> final(self).spec_devicetree() == old(
                self,
            ).spec_devicetree(),
            match old(self).spec_offset() {
                None => r matches Ok(None) && final(self).spec_offset() is None,
                Some(o) => {
                    let sb = old(self).spec_devicetree().spec_struct_block();
                    let st = old(self).spec_devicetree().spec_string_block();
                    let (sr, so) = spec_next_child(sb, st, o);
                    &&& final(self).spec_offset() == so
                    &&& opt_node_result_is(r, sr, old(self).spec_devicetree())
                },
            },
    {
        let mut next_tokens = match self.lexer {
            Some(l) => l,
            None => {
                return Ok(None);
            },
        };
        let ghost sb = lexer_sb(next_tokens);
        let ghost st = lexer_st(next_tokens);
        let ghost o0 = next_tokens.spec_offset() as int;
        loop
            invariant
                sb == lexer_sb(next_tokens),
                st == lexer_st(next_tokens),
                old(self).spec_offset() == Some(o0),
                old(self).spec_devicetree() == *next_tokens.spec_devicetree(),
                next_tokens.spec_offset() <= sb.len() + 4 || next_tokens.spec_offset() == o0,
                self.spec_offset() == Some(next_tokens.spec_offset() as int),
                self.spec_devicetree() == old(self).spec_devicetree(),
                spec_next_child(sb, st, o0) == spec_next_child(sb, st, next_tokens.spec_offset() as int),
            decreases sb.len() + 4 - next_tokens.spec_offset(),
        {
            proof {
                lemma_token_advances(sb, st, next_tokens.spec_offset() as int);
            }
            match next_tokens.split_token() {
                Err(e) => {
                    return Err(ParseStructError::Lexer { source: e });
                },
                Ok(Some((StructTokenWithData::Nop, tks))) => {
                    next_tokens = tks;
                    self.lexer = Some(next_tokens);
                },
                Ok(Some((StructTokenWithData::BeginNode { .. }, _))) => {
                    let node = match Node::new(&next_tokens) {
                        Ok(node) => node,
                        Err(e) => {
                            return Err(e);
                        },
                    };
                    proof {
                        use_type_invariant(&node);
                        lemma_skip_props(sb, st, node@.properties);
                    }
                    let after = match node.next_tokens() {
                        Ok(l) => l,
                        Err(e) => {
                            return Err(e);
                        },
                    };
                    self.lexer = Some(after);
                    return Ok(Some(node));
                },
                Ok(Some((StructTokenWithData::EndNode, _))) => {
                    self.lexer = None;
                    return Ok(None);
                },
                Ok(_) => {
                    return Err(ParseStructError::MissingEndNodeToken);
                },
            }
        }
    }

    /// The next child, as an iterator gives it: `None` when the children have
    /// ended, an error wrapped in `Some`.
    pub fn next(&mut self) -> (r: Option<Result<Node<'fdt, 'tree>, ParseStructError>>)
        ensures
            final(self).spec_ready(),
            final(self).spec_offset() is Some ==> final(self).spec_devicetree() == old(
                self,
            ).spec_devicetree(),
            match old(self).spec_offset() {
                None => r is None && final(self).spec_offset() is None,
                Some(o) => {
                    let sb = old(self).spec_devicetree().spec_struct_block();
                    let st = old(self).spec_devicetree().spec_string_block();
                    let (sr, so) = spec_next_child(sb, st, o);
                    &&& final(self).spec_offset() == so
                    &&& match (r, sr) {
                        (None, Ok(None)) => true,
                        (Some(Ok(n)), Ok(Some(v))) => n@ == v && n.spec_devicetree()
                            == old(self).spec_devicetree(),
                        (Some(Err(e1)), Err(e2)) => e1 == e2,
                        _ => false,
                    }
                },
            },
    {
        match self.try_next() {
            Ok(Some(n)) => Some(Ok(n)),
            Ok(None) => None,
            Err(e) => Some(Err(e)),
        }
}
}

} // verus!
