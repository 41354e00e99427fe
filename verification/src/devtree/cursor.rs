//! Reading the tokens of a structure block one by one.
use vstd::prelude::*;

use super::devicetree::Devicetree;
use super::util::{be_u32_at, position};
use super::{PATH_SEPARATOR};

verus! {

use super::devicetree::blob_wf;
use super::header::spec_parse_header;
use super::struct_block::{BEGIN_NODE, END_NODE, PROP, NOP, END};
use super::util::{be_u32, is_first_index_of};
use crate::devicetree::text::{dec_text, push_dec};

/// A token of the structure block with its data.
#[derive(Debug, Clone, Copy)]
pub enum Token<'a> {
    /// A node starts; its full name follows.
    BeginNode { full_name: &'a [u8] },
    /// The current node ends.
    EndNode,
    /// A property: the offset of its name in the strings block, and its
    /// value.
    Property { name_offset: usize, value: &'a [u8] },
}

/// A token with its data, as values.
pub enum TokenView {
    BeginNode { full_name: Seq<u8> },
    EndNode,
    Property { name_offset: usize, value: Seq<u8> },
}

impl<'a> View for Token<'a> {
    type V = TokenView;

    open spec fn view(&self) -> TokenView {
        match self {
            Token::BeginNode { full_name } => TokenView::BeginNode { full_name: full_name@ },
            Token::EndNode => TokenView::EndNode,
            Token::Property { name_offset, value } => TokenView::Property {
                name_offset: *name_offset,
                value: value@,
            },
        }
    }
}

/// Errors of reading the name of a node.
#[derive(Debug, Clone, Copy, PartialEq, Eq, Structural)]
#[non_exhaustive]
pub enum ReadBeginNodeTokenError {
    /// No NUL ends the name that starts at `offset`.
    UnterminatedNodeName { offset: usize },
    /// The name that ends before `offset` holds a `/`.
    SlashInName { offset: usize },
}

/// Errors of reading a property.
#[derive(Debug, Clone, Copy, PartialEq, Eq, Structural)]
#[non_exhaustive]
pub enum ReadPropTokenError {
    /// The structure block ends before the property header that starts at
    /// `offset`.
    MissingPropertyHeader { offset: usize },
    /// The name offset points past the strings block.
    PropertyNameOffsetExceedingBlock { offset: usize, name_offset: usize },
    /// The value runs past the structure block.
    PropertyValueExceedingBlock { offset: usize, len: usize },
}

/// Errors of reading a token.
#[derive(Debug, Clone, Copy, PartialEq, Eq, Structural)]
#[allow(inconsistent_fields)]
#[non_exhaustive]
pub enum ReadTokenError {
    /// An unknown token; `offset` is where the data after it starts.
    Unknown { token: u32, offset: usize },
    /// A node's name could not be read.
    BeginNode { source: ReadBeginNodeTokenError },
    /// A property could not be read.
    Prop { source: ReadPropTokenError },
}

impl ReadBeginNodeTokenError {
    /// The text that describes the error.
    pub open spec fn spec_message(&self) -> Seq<char> {
        match *self {
            ReadBeginNodeTokenError::UnterminatedNodeName { offset } =>
                "unterminated node name in DTB structure block: offset="@ + dec_text(offset as nat),
            ReadBeginNodeTokenError::SlashInName { offset } =>
                "node name contains '/' character: offset="@ + dec_text(offset as nat),
        }
    }

    /// The text that describes the error.
    pub fn message(&self) -> (r: String)
        ensures
            r@ == self.spec_message(),
    {
        let mut s = String::new();
        match *self {
            ReadBeginNodeTokenError::UnterminatedNodeName { offset } => {
                s.append("unterminated node name in DTB structure block: offset=");
                push_dec(&mut s, offset as u64);
            },
            ReadBeginNodeTokenError::SlashInName { offset } => {
                s.append("node name contains '/' character: offset=");
                push_dec(&mut s, offset as u64);
            },
        }
        s
    }
}

impl ReadPropTokenError {
    /// The text that describes the error.
    pub open spec fn spec_message(&self) -> Seq<char> {
        match *self {
            ReadPropTokenError::MissingPropertyHeader { offset } =>
                "missing property header in DTB structure block: offset="@ + dec_text(offset as nat),
            ReadPropTokenError::PropertyNameOffsetExceedingBlock { offset, name_offset } =>
                "property name offset exceeds DTB strings block: offset="@ + dec_text(offset as nat)
                + ", name_offset="@ + dec_text(name_offset as nat),
            ReadPropTokenError::PropertyValueExceedingBlock { offset, len } =>
                "property value exceeds DTB structure block: offset="@ + dec_text(offset as nat)
                + ", len="@ + dec_text(len as nat),
        }
    }

    /// The text that describes the error.
    pub fn message(&self) -> (r: String)
        ensures
            r@ == self.spec_message(),
    {
        let mut s = String::new();
        match *self {
            ReadPropTokenError::MissingPropertyHeader { offset } => {
                s.append("missing property header in DTB structure block: offset=");
                push_dec(&mut s, offset as u64);
            },
            ReadPropTokenError::PropertyNameOffsetExceedingBlock { offset, name_offset } => {
                s.append("property name offset exceeds DTB strings block: offset=");
                push_dec(&mut s, offset as u64);
                s.append(", name_offset=");
                push_dec(&mut s, name_offset as u64);
            },
            ReadPropTokenError::PropertyValueExceedingBlock { offset, len } => {
                s.append("property value exceeds DTB structure block: offset=");
                push_dec(&mut s, offset as u64);
                s.append(", len=");
                push_dec(&mut s, len as u64);
            },
        }
        s
    }
}

impl ReadTokenError {
    /// The text that describes the error.
    pub open spec fn spec_message(&self) -> Seq<char> {
        match *self {
            ReadTokenError::Unknown { token, offset } =>
                "unknown token found in DTB structure block: token="@ + dec_text(token as nat)
                + ", offset="@ + dec_text(offset as nat),
            ReadTokenError::BeginNode { .. } => "failed to read BEGIN_NODE token"@,
            ReadTokenError::Prop { .. } => "failed to read PROP token"@,
        }
    }

    /// The text that describes the error.
    pub fn message(&self) -> (r: String)
        ensures
            r@ == self.spec_message(),
    {
        let mut s = String::new();
        match *self {
            ReadTokenError::Unknown { token, offset } => {
                s.append("unknown token found in DTB structure block: token=");
                push_dec(&mut s, token as u64);
                s.append(", offset=");
                push_dec(&mut s, offset as u64);
            },
            ReadTokenError::BeginNode { .. } => {
                s.append("failed to read BEGIN_NODE token");
            },
            ReadTokenError::Prop { .. } => {
                s.append("failed to read PROP token");
            },
        }
        s
    }
}

/// `x` rounded up to a multiple of 4.
pub open spec fn round_up_4(x: int) -> int {
    if x % 4 == 0 {
        x
    } else {
        x + (4 - x % 4)
    }
}

/// Reading a node name that starts at `pos` of structure block `sb`: the
/// outcome and the position after it.
pub open spec fn spec_read_begin_node(sb: Seq<u8>, pos: int) -> (Result<Option<TokenView>, ReadTokenError>, int) {
    let rest = sb.skip(pos);
    if forall|j: int| 0 <= j < rest.len() ==> rest[j] != 0 {
        (
            Err(
                ReadTokenError::BeginNode {
                    source: ReadBeginNodeTokenError::UnterminatedNodeName { offset: pos as usize },
                },
            ),
            pos,
        )
    } else {
        let i = choose|i: int| is_first_index_of(rest, 0, i);
        let name = rest.subrange(0, i);
        let after = pos + i + 1;
        if exists|j: int| 0 <= j < name.len() && name[j] == PATH_SEPARATOR {
            (
                Err(
                    ReadTokenError::BeginNode {
                        source: ReadBeginNodeTokenError::SlashInName { offset: after as usize },
                    },
                ),
                after,
            )
        } else {
            (Ok(Some(TokenView::BeginNode { full_name: name })), round_up_4(after))
        }
    }
}

/// Reading a property whose header starts at `pos` of structure block `sb`,
/// with a strings block of `strings_len` bytes: the outcome and the position
/// after it.
pub open spec fn spec_read_prop(sb: Seq<u8>, strings_len: int, pos: int) -> (Result<Option<TokenView>, ReadTokenError>, int) {
    if pos + 8 > sb.len() {
        (
            Err(
                ReadTokenError::Prop {
                    source: ReadPropTokenError::MissingPropertyHeader { offset: pos as usize },
                },
            ),
            pos,
        )
    } else {
        let len = be_u32(sb, pos);
        let name_offset = be_u32(sb, pos + 4);
        let q = pos + 8;
        if name_offset >= strings_len {
            (
                Err(
                    ReadTokenError::Prop {
                        source: ReadPropTokenError::PropertyNameOffsetExceedingBlock {
                            offset: q as usize,
                            name_offset: name_offset as usize,
                        },
                    },
                ),
                q,
            )
        } else if q + len > sb.len() {
            (
                Err(
                    ReadTokenError::Prop {
                        source: ReadPropTokenError::PropertyValueExceedingBlock {
                            offset: q as usize,
                            len: len as usize,
                        },
                    },
                ),
                q,
            )
        } else {
            (
                Ok(
                    Some(
                        TokenView::Property {
                            name_offset: name_offset as usize,
                            value: sb.subrange(q, q + len),
                        },
                    ),
                ),
                round_up_4(q + len),
            )
        }
    }
}

/// Reading the next token at `pos` of structure block `sb`, with a strings
/// block of `strings_len` bytes: NOP tokens are skipped; the end of the block
/// and the END token give `None`. The outcome and the position after it.
pub open spec fn spec_read_token(sb: Seq<u8>, strings_len: int, pos: int) -> (Result<Option<TokenView>, ReadTokenError>, int)
    decreases sb.len() - pos,
{
    if pos < 0 || pos + 4 > sb.len() {
        (Ok(None), pos)
    } else {
        let t = be_u32(sb, pos);
        let p = pos + 4;
        if t == BEGIN_NODE {
            spec_read_begin_node(sb, p)
        } else if t == END_NODE {
            (Ok(Some(TokenView::EndNode)), p)
        } else if t == PROP {
            spec_read_prop(sb, strings_len, p)
        } else if t == NOP {
            spec_read_token(sb, strings_len, p)
        } else if t == END {
            (Ok(None), p)
        } else {
            (Err(ReadTokenError::Unknown { token: t, offset: p as usize }), p)
        }
    }
}

/// The view of a result of reading a token.
pub open spec fn token_result_view(r: Result<Option<Token>, ReadTokenError>) -> Result<Option<TokenView>, ReadTokenError> {
    match r {
        Ok(Some(t)) => Ok(Some(t@)),
        Ok(None) => Ok(None),
        Err(e) => Err(e),
    }
}

/// A position in the structure block of a devicetree.
#[derive(Clone, Copy)]
pub struct TokenCursor<'a> {
    devicetree: Devicetree<'a>,
    struct_block: &'a [u8],
    strings_len: usize,
    position: usize,
}

impl<'a> TokenCursor<'a> {
    #[verifier::type_invariant]
    spec fn inv(&self) -> bool {
        let s = self.devicetree.spec_bytes();
        let h = spec_parse_header(s);
        &&& blob_wf(s)
        &&& self.struct_block@ == s.subrange(h.off_dt_struct as int, h.off_dt_struct + h.size_dt_struct)
        &&& self.strings_len == h.size_dt_strings
        &&& self.position <= self.struct_block@.len()
    }

    /// The structure block the cursor reads.
    pub closed spec fn spec_struct_block(&self) -> Seq<u8> {
        self.struct_block@
    }

    /// The size of the strings block.
    pub closed spec fn spec_strings_len(&self) -> int {
        self.strings_len as int
    }

    /// The position of the cursor in the structure block.
    pub closed spec fn spec_position(&self) -> usize {
        self.position
    }

    /// The devicetree the cursor reads.
    pub closed spec fn spec_devicetree(&self) -> Devicetree<'a> {
        self.devicetree
    }

    /// A cursor at the start of the structure block of `devicetree`.
    pub fn new(devicetree: Devicetree<'a>) -> (r: Self)
        ensures
            r.spec_devicetree() == devicetree,
            r.spec_position() == 0,
            r.spec_struct_block() == devicetree.spec_bytes().subrange(
                spec_parse_header(devicetree.spec_bytes()).off_dt_struct as int,
                spec_parse_header(devicetree.spec_bytes()).off_dt_struct + spec_parse_header(
                    devicetree.spec_bytes(),
                ).size_dt_struct,
            ),
            r.spec_strings_len() == spec_parse_header(devicetree.spec_bytes()).size_dt_strings,
    {
        Self::from_parts(devicetree, 0)
    }

    /// A cursor at `position` of the structure block of `devicetree`.
    pub fn from_parts(devicetree: Devicetree<'a>, position: usize) -> (r: Self)
        requires
            position <= spec_parse_header(devicetree.spec_bytes()).size_dt_struct,
        ensures
            r.spec_devicetree() == devicetree,
            r.spec_position() == position,
            r.spec_struct_block() == devicetree.spec_bytes().subrange(
                spec_parse_header(devicetree.spec_bytes()).off_dt_struct as int,
                spec_parse_header(devicetree.spec_bytes()).off_dt_struct + spec_parse_header(
                    devicetree.spec_bytes(),
                ).size_dt_struct,
            ),
            r.spec_strings_len() == spec_parse_header(devicetree.spec_bytes()).size_dt_strings,
    {
        let header = devicetree.header();
        let struct_block = devicetree.struct_block();
        let strings_len = header.strings_block_size();
        TokenCursor { devicetree, struct_block, strings_len, position }
    }

    /// The devicetree the cursor reads.
    pub fn devicetree(&self) -> (r: Devicetree<'a>)
        ensures
            r == self.spec_devicetree(),
    {
        self.devicetree
    }

    /// The position of the cursor in the structure block.
    pub fn position(&self) -> (r: usize)
        ensures
            r == self.spec_position(),
            r <= self.spec_struct_block().len(),
    {
        proof {
            use_type_invariant(self);
        }
        self.position
    }

    /// Reads the next token, skipping NOP tokens. `None` at the END token or
    /// at the end of the structure block.
    pub fn read_token(&mut self) -> (r: Result<Option<Token<'a>>, ReadTokenError>)
        ensures
            (token_result_view(r), final(self).spec_position() as int) == spec_read_token(
                old(self).spec_struct_block(),
                old(self).spec_strings_len(),
                old(self).spec_position() as int,
            ),
            final(self).spec_struct_block() == old(self).spec_struct_block(),
            final(self).spec_strings_len() == old(self).spec_strings_len(),
            final(self).spec_devicetree() == old(self).spec_devicetree(),
    {
        proof {
            use_type_invariant(&*self);
        }
        let sb = self.struct_block;
        let strings_len = self.strings_len;
        let mut pos = self.position;
        let ghost start = pos as int;
        assert(sb@.len() % 4 == 0);
        loop
            invariant
                sb@ == old(self).spec_struct_block(),
                sb@ == self.spec_struct_block(),
                strings_len == old(self).spec_strings_len(),
                strings_len == self.spec_strings_len(),
                self.spec_devicetree() == old(self).spec_devicetree(),
                start == old(self).spec_position(),
                sb@.len() % 4 == 0,
                pos <= sb@.len(),
                spec_read_token(sb@, strings_len as int, start) == spec_read_token(
                    sb@,
                    strings_len as int,
                    pos as int,
                ),
            decreases sb@.len() - pos,
        {
            if sb.len() - pos < 4 {
                self.set_position(pos);
                return Ok(None);
            }
            let token = be_u32_at(sb, pos);
            pos = pos + 4;

            if token == BEGIN_NODE {
                let (r, p) = read_begin_node(sb, pos);
                self.set_position(p);
                return r;
            } else if token == END_NODE {
                self.set_position(pos);
                return Ok(Some(Token::EndNode));
            } else if token == PROP {
                let (r, p) = read_prop_token(sb, strings_len, pos);
                self.set_position(p);
                return r;
            } else if token == NOP {
                continue;
            } else if token == END {
                self.set_position(pos);
                return Ok(None);
            } else {
                self.set_position(pos);
                return Err(ReadTokenError::Unknown { token, offset: pos });
            }
        }
    }

    fn set_position(&mut self, position: usize)
        requires
            position <= old(self).spec_struct_block().len(),
        ensures
            final(self).spec_position() == position,
            final(self).spec_struct_block() == old(self).spec_struct_block(),
            final(self).spec_strings_len() == old(self).spec_strings_len(),
            final(self).spec_devicetree() == old(self).spec_devicetree(),
    {
        proof {
            use_type_invariant(&*self);
        }
        self.position = position;
    }
}

/// `x` rounded up to a multiple of 4.
fn round_up_4_exec(x: usize, limit: usize) -> (r: usize)
    requires
        x <= limit,
        limit % 4 == 0,
    ensures
        r == round_up_4(x as int),
        r <= limit,
        r % 4 == 0,
{
    if x % 4 == 0 {
        x
    } else {
        x + (4 - x % 4)
    }
}

/// Reads the node name that starts at `pos`.
fn read_begin_node<'a>(sb: &'a [u8], pos: usize) -> (r: (Result<Option<Token<'a>>, ReadTokenError>, usize))
    requires
        pos <= sb@.len(),
        sb@.len() % 4 == 0,
    ensures
        (token_result_view(r.0), r.1 as int) == spec_read_begin_node(sb@, pos as int),
        r.1 <= sb@.len(),
{
    let rest = &sb[pos..sb.len()];
    let i = match position(rest, 0) {
        None => {
            return (
                Err(
                    ReadTokenError::BeginNode {
                        source: ReadBeginNodeTokenError::UnterminatedNodeName { offset: pos },
                    },
                ),
                pos,
            );
        },
        Some(i) => i,
    };
    proof {
        let k = choose|k: int| is_first_index_of(rest@, 0, k);
        if k < i {
        } else if i < k {
        }
        assert(k == i);
    }
    let name = &rest[0..i];
    let after = pos + i + 1;
    if position(name, PATH_SEPARATOR).is_some() {
        return (
            Err(
                ReadTokenError::BeginNode {
                    source: ReadBeginNodeTokenError::SlashInName { offset: after },
                },
            ),
            after,
        );
    }
    let next = round_up_4_exec(after, sb.len());
    (Ok(Some(Token::BeginNode { full_name: name })), next)
}

/// Reads the property whose header starts at `pos`.
fn read_prop_token<'a>(sb: &'a [u8], strings_len: usize, pos: usize) -> (r: (Result<Option<Token<'a>>, ReadTokenError>, usize))
    requires
        pos <= sb@.len(),
        sb@.len() % 4 == 0,
    ensures
        (token_result_view(r.0), r.1 as int) == spec_read_prop(sb@, strings_len as int, pos as int),
        r.1 <= sb@.len(),
{
    if sb.len() - pos < 8 {
        return (
            Err(
                ReadTokenError::Prop {
                    source: ReadPropTokenError::MissingPropertyHeader { offset: pos },
                },
            ),
            pos,
        );
    }
    let len = be_u32_at(sb, pos) as usize;
    let name_offset = be_u32_at(sb, pos + 4) as usize;
    let q = pos + 8;
    if name_offset >= strings_len {
        return (
            Err(
                ReadTokenError::Prop {
                    source: ReadPropTokenError::PropertyNameOffsetExceedingBlock {
                        offset: q,
                        name_offset,
                    },
                },
            ),
            q,
        );
    }
    if sb.len() - q < len {
        return (
            Err(
                ReadTokenError::Prop {
                    source: ReadPropTokenError::PropertyValueExceedingBlock { offset: q, len },
                },
            ),
            q,
        );
    }
    let value = &sb[q..q + len];
    let next = round_up_4_exec(q + len, sb.len());
    (Ok(Some(Token::Property { name_offset, value })), next)
}

impl<'a> Devicetree<'a> {
    /// A cursor at the start of the structure block.
    pub fn token_cursor(&self) -> (r: TokenCursor<'a>)
        ensures
            r.spec_devicetree() == *self,
            r.spec_position() == 0,
    {
        TokenCursor::new(*self)
    }

    /// A cursor at the start of the structure block, from which the tokens
    /// are read one by one; the same cursor as [`Devicetree::token_cursor`].
    pub fn read_token(&self) -> (r: TokenCursor<'a>)
        ensures
            r.spec_devicetree() == *self,
            r.spec_position() == 0,
    {
        self.token_cursor()
    }
}

} // verus!
