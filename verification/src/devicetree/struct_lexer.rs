//! Reading the structure block of a blob token by token, with the data that
//! follows each token.
use vstd::prelude::*;

use super::blob::Devicetree;
use super::layout::StructToken;
use super::property::Property;
use super::text::{utf8_str, str_split_once, lemma_chars_of_bytes, push_alt_hex, push_dec};
use crate::devtree::util::{position, be_u32_at};

verus! {

use vstd::utf8::{valid_utf8, decode_utf8};
use vstd::string::StringSliceAdditionalSpecFns;
use crate::devtree::util::{be_u32, is_first_index_of};
use crate::devtree::cursor::round_up_4;
use super::text::{alt_hex_text, dec_text};

/// Why the structure block could not be read.
#[derive(Debug, Clone, Copy, PartialEq, Eq, Structural)]
pub enum StructLexerError {
    /// An unknown token; `offset` is where the data after it starts.
    InvalidToken { token: u32, offset: usize },
    /// A node name that starts at `offset` is not UTF-8.
    InvalidStringInStructBlock { offset: usize },
    /// A property name that starts at `offset` of the strings block is not
    /// UTF-8.
    InvalidStringInStringsBlock { offset: usize },
    /// The structure block ends inside the property header at `offset`.
    MissingPropHeader { offset: usize },
    /// The structure block ends before what starts at `offset` does.
    UnexpectedEndOfStructBlock { offset: usize },
    /// The strings block ends before the name at `offset` does.
    UnexpectedEndOfStringsBlock { offset: usize },
}

impl StructLexerError {
    /// The text that describes the error.
    pub open spec fn spec_message(&self) -> Seq<char> {
        match *self {
            StructLexerError::InvalidToken { token, offset } => "invalid token: "@ + alt_hex_text(token as nat) + " at offset "@ + dec_text(offset as nat),
            StructLexerError::InvalidStringInStructBlock { offset } => "invalid string in structure block at offset "@ + dec_text(offset as nat),
            StructLexerError::InvalidStringInStringsBlock { offset } => "invalid string in strings block at offset "@ + dec_text(offset as nat),
            StructLexerError::MissingPropHeader { offset } => "missing prop header at offset "@ + dec_text(offset as nat),
            StructLexerError::UnexpectedEndOfStructBlock { offset } => "unexpected end of struct block at offset "@ + dec_text(offset as nat),
            StructLexerError::UnexpectedEndOfStringsBlock { offset } => "unexpected end of strings block at offset "@ + dec_text(offset as nat),
        }
    }

    /// The text that describes the error.
    pub fn message(&self) -> (r: String)
        ensures
            r@ == self.spec_message(),
    {
        let mut s = String::new();
        match *self {
            StructLexerError::InvalidToken { token, offset } => {
                s.append("invalid token: ");
                push_alt_hex(&mut s, token as u64);
                s.append(" at offset ");
                push_dec(&mut s, offset as u64);
            },
            StructLexerError::InvalidStringInStructBlock { offset } => {
                s.append("invalid string in structure block at offset ");
                push_dec(&mut s, offset as u64);
            },
            StructLexerError::InvalidStringInStringsBlock { offset } => {
                s.append("invalid string in strings block at offset ");
                push_dec(&mut s, offset as u64);
            },
            StructLexerError::MissingPropHeader { offset } => {
                s.append("missing prop header at offset ");
                push_dec(&mut s, offset as u64);
            },
            StructLexerError::UnexpectedEndOfStructBlock { offset } => {
                s.append("unexpected end of struct block at offset ");
                push_dec(&mut s, offset as u64);
            },
            StructLexerError::UnexpectedEndOfStringsBlock { offset } => {
                s.append("unexpected end of strings block at offset ");
                push_dec(&mut s, offset as u64);
            },
        }
        s
    }
}

/// A token of the structure block with the data that follows it.
#[derive(Debug, Clone, Copy)]
pub enum StructTokenWithData<'fdt> {
    /// A node begins: its name, and its unit address when its full name
    /// holds an `@`.
    BeginNode { name: &'fdt str, address: Option<&'fdt str> },
    /// A node ends.
    EndNode,
    /// A property.
    Prop(Property<'fdt>),
    /// Nothing.
    Nop,
    /// The structure block ends.
    End,
}

/// A token with its data, as plain values.
pub enum StructTokenView {
    BeginNode { name: Seq<char>, address: Option<Seq<char>> },
    EndNode,
    Prop { name: Seq<char>, value: Seq<u8> },
    Nop,
    End,
}

impl<'fdt> View for StructTokenWithData<'fdt> {
    type V = StructTokenView;

    open spec fn view(&self) -> StructTokenView {
        match self {
            StructTokenWithData::BeginNode { name, address } => StructTokenView::BeginNode {
                name: name@,
                address: match address {
                    Some(a) => Some(a@),
                    None => None,
                },
            },
            StructTokenWithData::EndNode => StructTokenView::EndNode,
            StructTokenWithData::Prop(p) => StructTokenView::Prop {
                name: p.spec_name(),
                value: p.spec_value(),
            },
            StructTokenWithData::Nop => StructTokenView::Nop,
            StructTokenWithData::End => StructTokenView::End,
        }
    }
}

/// The position of the first `c` in `s`.
pub open spec fn first_char_index(s: Seq<char>, c: char) -> int {
    choose|i: int| 0 <= i < s.len() && s[i] == c && forall|j: int| 0 <= j < i ==> s[j] != c
}

/// A node's full name split at its first `@`: the name and the unit
/// address.
pub open spec fn spec_split_unit_name(s: Seq<char>) -> (Seq<char>, Option<Seq<char>>) {
    if s.contains('@') {
        let i = first_char_index(s, '@');
        (s.take(i), Some(s.skip(i + 1)))
    } else {
        (s, None)
    }
}

/// The NUL-terminated name at `off` of the strings block `strings`.
pub open spec fn spec_read_name(strings: Seq<u8>, off: int) -> Result<Seq<char>, StructLexerError> {
    let rest = strings.skip(off);
    if off >= strings.len() || forall|j: int| 0 <= j < rest.len() ==> rest[j] != 0 {
        Err(StructLexerError::UnexpectedEndOfStringsBlock { offset: off as usize })
    } else {
        let len = choose|i: int| is_first_index_of(rest, 0, i);
        let bytes = rest.take(len);
        if valid_utf8(bytes) {
            Ok(decode_utf8(bytes))
        } else {
            Err(StructLexerError::InvalidStringInStringsBlock { offset: off as usize })
        }
    }
}

/// Reading a node's full name at `p` of the structure block `sb`: the
/// outcome and the offset after it.
pub open spec fn spec_read_begin_node(sb: Seq<u8>, p: int) -> (
    Result<Option<StructTokenView>, StructLexerError>,
    int,
) {
    let rest = sb.skip(p);
    if forall|j: int| 0 <= j < rest.len() ==> rest[j] != 0 {
        (Err(StructLexerError::UnexpectedEndOfStructBlock { offset: p as usize }), p)
    } else {
        let len = choose|i: int| is_first_index_of(rest, 0, i);
        let bytes = rest.take(len);
        if valid_utf8(bytes) {
            let (name, address) = spec_split_unit_name(decode_utf8(bytes));
            (
                Ok(Some(StructTokenView::BeginNode { name, address })),
                round_up_4(p + len + 1),
            )
        } else {
            (Err(StructLexerError::InvalidStringInStructBlock { offset: p as usize }), p + len + 1)
        }
    }
}

/// Reading a property at `p` of the structure block `sb`, with strings
/// block `strings`: the outcome and the offset after it.
pub open spec fn spec_read_prop(sb: Seq<u8>, strings: Seq<u8>, p: int) -> (
    Result<Option<StructTokenView>, StructLexerError>,
    int,
) {
    if p + 8 > sb.len() {
        (Err(StructLexerError::MissingPropHeader { offset: p as usize }), p)
    } else {
        let len = be_u32(sb, p) as int;
        let nameoff = be_u32(sb, p + 4) as int;
        let q = p + 8;
        match spec_read_name(strings, nameoff) {
            Err(e) => (Err(e), q),
            Ok(name) => if q + len > sb.len() {
                (Err(StructLexerError::UnexpectedEndOfStructBlock { offset: q as usize }), q + len)
            } else {
                (
                    Ok(Some(StructTokenView::Prop { name, value: sb.subrange(q, q + len) })),
                    round_up_4(q + len),
                )
            },
        }
    }
}

/// Reading the token at `off` of the structure block `sb`, with strings
/// block `strings`: the outcome and the offset after it. `None` when the
/// block ends before a whole token.
pub open spec fn spec_read_token_and_data(sb: Seq<u8>, strings: Seq<u8>, off: int) -> (
    Result<Option<StructTokenView>, StructLexerError>,
    int,
) {
    if off + 4 > sb.len() {
        (Ok(None), off)
    } else {
        let t = be_u32(sb, off);
        let p = off + 4;
        if t == StructToken::BEGIN_NODE {
            spec_read_begin_node(sb, p)
        } else if t == StructToken::END_NODE {
            (Ok(Some(StructTokenView::EndNode)), p)
        } else if t == StructToken::PROP {
            spec_read_prop(sb, strings, p)
        } else if t == StructToken::NOP {
            (Ok(Some(StructTokenView::Nop)), p)
        } else if t == StructToken::END {
            (Ok(Some(StructTokenView::End)), p)
        } else {
            (Err(StructLexerError::InvalidToken { token: t, offset: p as usize }), p)
        }
    }
}

/// The view of a result of reading a token.
pub open spec fn token_result_view(r: Result<Option<StructTokenWithData>, StructLexerError>) -> Result<
    Option<StructTokenView>,
    StructLexerError,
> {
    match r {
        Ok(Some(t)) => Ok(Some(t@)),
        Ok(None) => Ok(None),
        Err(e) => Err(e),
    }
}

/// A position in the structure block of a blob.
#[derive(Debug, Clone, Copy)]
pub struct StructLexer<'fdt, 'tree> {
    devicetree: &'tree Devicetree<'fdt>,
    offset: u64,
}

impl<'fdt, 'tree> StructLexer<'fdt, 'tree> {
    /// The blob the lexer reads.
    pub closed spec fn spec_devicetree(&self) -> &'tree Devicetree<'fdt> {
        self.devicetree
    }

    /// The offset of the lexer in the structure block.
    pub closed spec fn spec_offset(&self) -> u64 {
        self.offset
    }

    /// What reading the next token gives: the outcome and the offset after
    /// it.
    pub open spec fn spec_next(&self) -> (Result<Option<StructTokenView>, StructLexerError>, int) {
        spec_read_token_and_data(
            self.spec_devicetree().spec_struct_block(),
            self.spec_devicetree().spec_string_block(),
            self.spec_offset() as int,
        )
    }

    /// A lexer at the start of the structure block of `devicetree`.
    pub(crate) fn new(devicetree: &'tree Devicetree<'fdt>) -> (r: Self)
        ensures
            *r.spec_devicetree() == *devicetree,
            r.spec_offset() == 0,
    {
        StructLexer { devicetree, offset: 0 }
    }

    /// The next token with its data, and a lexer after it; `None` when the
    /// structure block ends before a whole token. The lexer itself stays
    /// where it is.
    pub fn split_token(&self) -> (r: Result<Option<(StructTokenWithData<'fdt>, Self)>, StructLexerError>)
        ensures
            match (r, self.spec_next().0) {
                (Ok(None), Ok(None)) => true,
                (Ok(Some((t, next))), Ok(Some(tv))) => {
                    &&& t@ == tv
                    &&& next.spec_offset() == self.spec_next().1
                    &&& next.spec_devicetree() == self.spec_devicetree()
                },
                (Err(e1), Err(e2)) => e1 == e2,
                _ => false,
            },
    {
        let mut this = *self;
        match this.read_token_and_data() {
            Ok(Some(token)) => Ok(Some((token, this))),
            Ok(None) => Ok(None),
            Err(e) => Err(e),
        }
    }

    /// The next token, as an iterator gives it: `None` when the structure
    /// block ends before a whole token, an error wrapped in `Some`.
    pub fn next(&mut self) -> (r: Option<Result<StructTokenWithData<'fdt>, StructLexerError>>)
        ensures
            final(self).spec_offset() == old(self).spec_next().1,
            final(self).spec_devicetree() == old(self).spec_devicetree(),
            match (r, old(self).spec_next().0) {
                (None, Ok(None)) => true,
                (Some(Ok(t)), Ok(Some(tv))) => t@ == tv,
                (Some(Err(e1)), Err(e2)) => e1 == e2,
                _ => false,
            },
    {
        match self.read_token_and_data() {
            Ok(Some(t)) => Some(Ok(t)),
            Ok(None) => None,
            Err(e) => Some(Err(e)),
        }
    }

    /// Reads the next token with its data and moves past it; `None` when the
    /// structure block ends before a whole token.
    pub fn read_token_and_data(&mut self) -> (r: Result<Option<StructTokenWithData<'fdt>>, StructLexerError>)
        ensures
            (token_result_view(r), final(self).spec_offset() as int) == old(self).spec_next(),
            final(self).spec_devicetree() == old(self).spec_devicetree(),
    {
        let sb = self.devicetree.struct_block();
        let strings = self.devicetree.string_block();
        if self.offset > sb.len() as u64 || (sb.len() as u64) - self.offset < 4 {
            return Ok(None);
        }
        let off = self.offset as usize;
        let t = be_u32_at(sb, off);
        let p = off + 4;
        self.offset = p as u64;
        if t == StructToken::BEGIN_NODE {
            let (r, next) = read_begin_node(sb, p);
            self.offset = next;
            r
        } else if t == StructToken::END_NODE {
            Ok(Some(StructTokenWithData::EndNode))
        } else if t == StructToken::PROP {
            let (r, next) = read_prop(sb, strings, p);
            self.offset = next;
            r
        } else if t == StructToken::NOP {
            Ok(Some(StructTokenWithData::Nop))
        } else if t == StructToken::END {
            Ok(Some(StructTokenWithData::End))
        } else {
            Err(StructLexerError::InvalidToken { token: t, offset: p })
        }
    }
}

/// `x` rounded up to a multiple of 4.
fn round_up_4_exec(x: u64) -> (r: u64)
    requires
        x <= u32::MAX as u64 + 1,
    ensures
        r == round_up_4(x as int),
{
    if x % 4 == 0 {
        x
    } else {
        x - x % 4 + 4
    }
}

/// Reads the node name at `p` of `sb`.
fn read_begin_node<'fdt>(sb: &'fdt [u8], p: usize) -> (r: (
    Result<Option<StructTokenWithData<'fdt>>, StructLexerError>,
    u64,
))
    requires
        p <= sb@.len(),
        sb@.len() <= u32::MAX,
    ensures
        (token_result_view(r.0), r.1 as int) == spec_read_begin_node(sb@, p as int),
{
    let rest = &sb[p..sb.len()];
    assert(rest@ == sb@.skip(p as int));
    let len = match position(rest, 0) {
        Some(len) => len,
        None => {
            return (Err(StructLexerError::UnexpectedEndOfStructBlock { offset: p }), p as u64);
        },
    };
    proof {
        let k = choose|i: int| is_first_index_of(rest@, 0, i);
        if k < len {
        } else if len < k {
        }
    }
    let after = (p + len + 1) as u64;
    let bytes = &rest[0..len];
    assert(bytes@ == rest@.take(len as int));
    let unit_name = match utf8_str(bytes) {
        Some(s) => s,
        None => {
            return (Err(StructLexerError::InvalidStringInStructBlock { offset: p }), after);
        },
    };
    proof {
        lemma_chars_of_bytes(unit_name, bytes@);
    }
    let next = round_up_4_exec(after);
    let token = match str_split_once(unit_name, '@') {
        Some((name, address)) => {
            proof {
                lemma_split_at_first(unit_name@, name@, address@, '@');
            }
            StructTokenWithData::BeginNode { name, address: Some(address) }
        },
        None => StructTokenWithData::BeginNode { name: unit_name, address: None },
    };
    (Ok(Some(token)), next)
}

/// Splitting at `c` gives the text before the first `c` and that after it.
proof fn lemma_split_at_first(s: Seq<char>, a: Seq<char>, b: Seq<char>, c: char)
    requires
        s == a + seq![c] + b,
        !a.contains(c),
    ensures
        s.contains(c),
        first_char_index(s, c) == a.len(),
        s.take(a.len() as int) == a,
        s.skip(a.len() + 1 as int) == b,
{
    let n = a.len() as int;
    assert(s[n] == c);
    assert forall|j: int| 0 <= j < n implies s[j] != c by {
        assert(s[j] == a[j]);
        if a[j] == c {
            assert(a.contains(c));
        }
    }
    let i = first_char_index(s, c);
    assert(0 <= i < s.len() && s[i] == c && forall|j: int| 0 <= j < i ==> s[j] != c);
    if i < n {
    } else if n < i {
        assert(s[n] == c);
    }
    assert(s.take(n) =~= a);
    assert(s.skip(n + 1) =~= b);
}

/// Reads the name at `off` of the strings block.
fn read_name<'fdt>(strings: &'fdt [u8], off: usize) -> (r: Result<&'fdt str, StructLexerError>)
    ensures
        match (r, spec_read_name(strings@, off as int)) {
            (Ok(s), Ok(name)) => s@ == name,
            (Err(e1), Err(e2)) => e1 == e2,
            _ => false,
        },
{
    if off >= strings.len() {
        return Err(StructLexerError::UnexpectedEndOfStringsBlock { offset: off });
    }
    let rest = &strings[off..strings.len()];
    assert(rest@ == strings@.skip(off as int));
    let len = match position(rest, 0) {
        Some(len) => len,
        None => {
            return Err(StructLexerError::UnexpectedEndOfStringsBlock { offset: off });
        },
    };
    proof {
        let k = choose|i: int| is_first_index_of(rest@, 0, i);
        if k < len {
        } else if len < k {
        }
    }
    let bytes = &rest[0..len];
    assert(bytes@ == rest@.take(len as int));
    match utf8_str(bytes) {
        Some(s) => {
            proof {
                lemma_chars_of_bytes(s, bytes@);
            }
            Ok(s)
        },
        None => Err(StructLexerError::InvalidStringInStringsBlock { offset: off }),
    }
}

/// Reads the property whose header is at `p` of `sb`.
fn read_prop<'fdt>(sb: &'fdt [u8], strings: &'fdt [u8], p: usize) -> (r: (
    Result<Option<StructTokenWithData<'fdt>>, StructLexerError>,
    u64,
))
    requires
        p <= sb@.len(),
        sb@.len() <= u32::MAX,
    ensures
        (token_result_view(r.0), r.1 as int) == spec_read_prop(sb@, strings@, p as int),
{
    if sb.len() - p < 8 {
        return (Err(StructLexerError::MissingPropHeader { offset: p }), p as u64);
    }
    let len = be_u32_at(sb, p) as usize;
    let nameoff = be_u32_at(sb, p + 4) as usize;
    let q = p + 8;
    let name = match read_name(strings, nameoff) {
        Ok(name) => name,
        Err(e) => {
            return (Err(e), q as u64);
        },
    };
    if len > sb.len() - q {
        return (
            Err(StructLexerError::UnexpectedEndOfStructBlock { offset: q }),
            q as u64 + len as u64,
        );
    }
    let value = &sb[q..q + len];
    let next = round_up_4_exec((q + len) as u64);
    (Ok(Some(StructTokenWithData::Prop(Property::new(name, value)))), next)
}

} // verus!
