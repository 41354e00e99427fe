//! Byte-level helpers: big-endian integers and splitting at a separator.
use vstd::prelude::*;

verus! {

/// The big-endian `u32` at `off..off + 4` of `s`.
pub open spec fn be_u32(s: Seq<u8>, off: int) -> u32 {
    (s[off] as int * 0x100_0000 + s[off + 1] as int * 0x1_0000 + s[off + 2] as int * 0x100
        + s[off + 3] as int) as u32
}

/// The big-endian `u64` at `off..off + 8` of `s`.
pub open spec fn be_u64(s: Seq<u8>, off: int) -> u64 {
    (be_u32(s, off) as int * 0x1_0000_0000 + be_u32(s, off + 4) as int) as u64
}

/// The big-endian bytes of `x`.
pub open spec fn be_bytes_u32(x: u32) -> Seq<u8> {
    seq![
        (x / 0x100_0000) as u8,
        ((x / 0x1_0000) % 0x100) as u8,
        ((x / 0x100) % 0x100) as u8,
        (x % 0x100) as u8,
    ]
}

/// The big-endian bytes of `x`.
pub open spec fn be_bytes_u64(x: u64) -> Seq<u8> {
    be_bytes_u32((x / 0x1_0000_0000) as u32) + be_bytes_u32((x % 0x1_0000_0000) as u32)
}

/// The big-endian bytes of `x` read back give `x`, wherever they stand.
pub proof fn lemma_be_u32_roundtrip(x: u32, pre: Seq<u8>, post: Seq<u8>)
    ensures
        be_u32(pre + be_bytes_u32(x) + post, pre.len() as int) == x,
{
    let s = pre + be_bytes_u32(x) + post;
    let n = pre.len() as int;
    let b0 = (x / 0x100_0000) as u8;
    let b1 = ((x / 0x1_0000) % 0x100) as u8;
    let b2 = ((x / 0x100) % 0x100) as u8;
    let b3 = (x % 0x100) as u8;
    assert(s[n] == b0 && s[n + 1] == b1 && s[n + 2] == b2 && s[n + 3] == b3);
    assert(x / 0x100_0000 < 0x100);
    assert(x == (x / 0x100_0000) * 0x100_0000 + ((x / 0x1_0000) % 0x100) * 0x1_0000 + ((x / 0x100)
        % 0x100) * 0x100 + x % 0x100) by (nonlinear_arith);
}


/// The big-endian bytes of `x` read back give `x`, wherever they stand.
pub proof fn lemma_be_u64_roundtrip(x: u64, pre: Seq<u8>, post: Seq<u8>)
    ensures
        be_u64(pre + be_bytes_u64(x) + post, pre.len() as int) == x,
{
    let hi = (x / 0x1_0000_0000) as u32;
    let lo = (x % 0x1_0000_0000) as u32;
    let s = pre + be_bytes_u64(x) + post;
    assert(s == pre + be_bytes_u32(hi) + (be_bytes_u32(lo) + post));
    assert(s == (pre + be_bytes_u32(hi)) + be_bytes_u32(lo) + post);
    lemma_be_u32_roundtrip(hi, pre, be_bytes_u32(lo) + post);
    lemma_be_u32_roundtrip(lo, pre + be_bytes_u32(hi), post);
    assert(x == (x / 0x1_0000_0000) * 0x1_0000_0000 + x % 0x1_0000_0000) by (nonlinear_arith);
}


/// Reads the big-endian `u32` at `off`; `None` when the bytes run out.
pub fn read_be_u32(bytes: &[u8], off: usize) -> (r: Option<u32>)
    ensures
        r is Some <==> off + 4 <= bytes@.len(),
        r matches Some(v) ==> v == be_u32(bytes@, off as int),
{
    if off > bytes.len() || bytes.len() - off < 4 {
        return None;
    }
    Some(be_u32_at(bytes, off))
}

/// The big-endian `u32` at `off`.
pub fn be_u32_at(bytes: &[u8], off: usize) -> (r: u32)
    requires
        off + 4 <= bytes@.len(),
    ensures
        r == be_u32(bytes@, off as int),
{
    let b0 = bytes[off] as u32;
    let b1 = bytes[off + 1] as u32;
    let b2 = bytes[off + 2] as u32;
    let b3 = bytes[off + 3] as u32;
    b0 * 0x100_0000 + b1 * 0x1_0000 + b2 * 0x100 + b3
}

/// Reads the big-endian `u64` at `off`; `None` when the bytes run out.
pub fn read_be_u64(bytes: &[u8], off: usize) -> (r: Option<u64>)
    ensures
        r is Some <==> off + 8 <= bytes@.len(),
        r matches Some(v) ==> v == be_u64(bytes@, off as int),
{
    if off > bytes.len() || bytes.len() - off < 8 {
        return None;
    }
    let hi = be_u32_at(bytes, off) as u64;
    let lo = be_u32_at(bytes, off + 4) as u64;
    Some(hi * 0x1_0000_0000 + lo)
}

/// The big-endian bytes of `x`.
pub fn u32_to_be_bytes(x: u32) -> (r: Vec<u8>)
    ensures
        r@ == be_bytes_u32(x),
{
    let mut v: Vec<u8> = Vec::new();
    v.push((x / 0x100_0000) as u8);
    v.push(((x / 0x1_0000) % 0x100) as u8);
    v.push(((x / 0x100) % 0x100) as u8);
    v.push((x % 0x100) as u8);
    assert(v@ =~= be_bytes_u32(x));
    v
}

/// The big-endian bytes of `x`.
pub fn u64_to_be_bytes(x: u64) -> (r: Vec<u8>)
    ensures
        r@ == be_bytes_u64(x),
{
    let mut v = u32_to_be_bytes((x / 0x1_0000_0000) as u32);
    let mut lo = u32_to_be_bytes((x % 0x1_0000_0000) as u32);
    v.append(&mut lo);
    v
}

/// The index of the first byte of `s` equal to `b`, if any.
pub open spec fn first_index_of(s: Seq<u8>, b: u8) -> Option<int> {
    if exists|i: int| 0 <= i < s.len() && s[i] == b {
        Some(choose|i: int| 0 <= i < s.len() && s[i] == b && forall|j: int| 0 <= j < i ==> s[j] != b)
    } else {
        None
    }
}

/// Position `i` holds the first `b` of `s`.
pub open spec fn is_first_index_of(s: Seq<u8>, b: u8, i: int) -> bool {
    0 <= i < s.len() && s[i] == b && forall|j: int| 0 <= j < i ==> s[j] != b
}

/// When `s` holds `b` at `j`, it holds a first `b`.
pub proof fn lemma_first_index_exists(s: Seq<u8>, b: u8, j: int)
    requires
        0 <= j < s.len(),
        s[j] == b,
    ensures
        exists|i: int| is_first_index_of(s, b, i),
    decreases j,
{
    if forall|k: int| 0 <= k < j ==> s[k] != b {
        assert(is_first_index_of(s, b, j));
    } else {
        let k = choose|k: int| 0 <= k < j && s[k] == b;
        lemma_first_index_exists(s, b, k);
    }
}

/// Position `i` holds the last `b` of `s`.
pub open spec fn is_last_index_of(s: Seq<u8>, b: u8, i: int) -> bool {
    0 <= i < s.len() && s[i] == b && forall|j: int| i < j < s.len() ==> s[j] != b
}

/// Finds the first byte of `bytes` equal to `b`.
pub fn position(bytes: &[u8], b: u8) -> (r: Option<usize>)
    ensures
        r matches Some(i) ==> is_first_index_of(bytes@, b, i as int),
        r is None ==> forall|j: int| 0 <= j < bytes@.len() ==> bytes@[j] != b,
{
    let mut i: usize = 0;
    while i < bytes.len()
        invariant
            i <= bytes@.len(),
            forall|j: int| 0 <= j < i ==> bytes@[j] != b,
        decreases bytes@.len() - i,
    {
        if bytes[i] == b {
            return Some(i);
        }
        i = i + 1;
    }
    None
}

/// Finds the last byte of `bytes` equal to `b`.
pub fn rposition(bytes: &[u8], b: u8) -> (r: Option<usize>)
    ensures
        r matches Some(i) ==> is_last_index_of(bytes@, b, i as int),
        r is None ==> forall|j: int| 0 <= j < bytes@.len() ==> bytes@[j] != b,
{
    let mut i: usize = bytes.len();
    while i > 0
        invariant
            i <= bytes@.len(),
            forall|j: int| i <= j < bytes@.len() ==> bytes@[j] != b,
        decreases i,
    {
        if bytes[i - 1] == b {
            return Some(i - 1);
        }
        i = i - 1;
    }
    None
}

/// Splits `bytes` at its first `b`: the bytes before it and those after it.
pub fn split_once<'a>(bytes: &'a [u8], b: u8) -> (r: Option<(&'a [u8], &'a [u8])>)
    ensures
        r is None <==> forall|j: int| 0 <= j < bytes@.len() ==> bytes@[j] != b,
        r matches Some((x, y)) ==> {
            &&& is_first_index_of(bytes@, b, x@.len() as int)
            &&& x@ == bytes@.subrange(0, x@.len() as int)
            &&& y@ == bytes@.subrange(x@.len() as int + 1, bytes@.len() as int)
        },
{
    match position(bytes, b) {
        None => None,
        Some(i) => {
            assert(i < bytes.len());
            Some((&bytes[0..i], &bytes[i + 1..bytes.len()]))
        },
    }
}

/// Splits `bytes` at its last `b`: the bytes before it and those after it.
pub fn rsplit_once<'a>(bytes: &'a [u8], b: u8) -> (r: Option<(&'a [u8], &'a [u8])>)
    ensures
        r is None <==> forall|j: int| 0 <= j < bytes@.len() ==> bytes@[j] != b,
        r matches Some((x, y)) ==> {
            &&& is_last_index_of(bytes@, b, x@.len() as int)
            &&& x@ == bytes@.subrange(0, x@.len() as int)
            &&& y@ == bytes@.subrange(x@.len() as int + 1, bytes@.len() as int)
        },
{
    match rposition(bytes, b) {
        None => None,
        Some(i) => {
            assert(i < bytes.len());
            Some((&bytes[0..i], &bytes[i + 1..bytes.len()]))
        },
    }
}

/// A copy of `bytes`.
pub fn copy_bytes(bytes: &[u8]) -> (r: Vec<u8>)
    ensures
        r@ == bytes@,
{
    let mut v: Vec<u8> = Vec::new();
    let mut i: usize = 0;
    while i < bytes.len()
        invariant
            i <= bytes@.len(),
            v@ == bytes@.subrange(0, i as int),
        decreases bytes@.len() - i,
    {
        v.push(bytes[i]);
        i = i + 1;
        assert(v@ =~= bytes@.subrange(0, i as int));
    }
    assert(bytes@.subrange(0, bytes@.len() as int) =~= bytes@);
    v
}

/// How two byte strings compare.
#[derive(Clone, Copy, Debug, PartialEq, Eq, Structural)]
pub enum ByteOrder {
    Less,
    Equal,
    Greater,
}

/// Byte strings compared byte by byte; a proper prefix comes first.
pub open spec fn spec_byte_order(a: Seq<u8>, b: Seq<u8>) -> ByteOrder
    decreases a.len(),
{
    if a.len() == 0 {
        if b.len() == 0 {
            ByteOrder::Equal
        } else {
            ByteOrder::Less
        }
    } else if b.len() == 0 {
        ByteOrder::Greater
    } else if a[0] < b[0] {
        ByteOrder::Less
    } else if a[0] > b[0] {
        ByteOrder::Greater
    } else {
        spec_byte_order(a.drop_first(), b.drop_first())
    }
}

/// The byte order is a total order: two strings compare equal exactly when
/// they are equal, and swapping them swaps less and greater.
pub proof fn law_byte_order_total(a: Seq<u8>, b: Seq<u8>)
    ensures
        (spec_byte_order(a, b) == ByteOrder::Equal) <==> a == b,
        (spec_byte_order(a, b) == ByteOrder::Less) <==> (spec_byte_order(b, a)
            == ByteOrder::Greater),
    decreases a.len(),
{
    if a.len() > 0 && b.len() > 0 && a[0] == b[0] {
        law_byte_order_total(a.drop_first(), b.drop_first());
        if a.drop_first() == b.drop_first() {
            assert(a =~= seq![a[0]] + a.drop_first());
            assert(b =~= seq![b[0]] + b.drop_first());
        }
        if a == b {
            assert(a.drop_first() =~= b.drop_first());
        }
    }
    if a.len() == 0 && b.len() == 0 {
        assert(a =~= b);
    }
}

/// Compares two byte strings byte by byte; a proper prefix comes first.
pub fn byte_order(a: &[u8], b: &[u8]) -> (r: ByteOrder)
    ensures
        r == spec_byte_order(a@, b@),
{
    let mut i: usize = 0;
    assert(a@.skip(0) =~= a@);
    assert(b@.skip(0) =~= b@);
    while i < a.len() && i < b.len()
        invariant
            i <= a@.len(),
            i <= b@.len(),
            spec_byte_order(a@, b@) == spec_byte_order(a@.skip(i as int), b@.skip(i as int)),
        decreases a@.len() - i,
    {
        if a[i] < b[i] {
            return ByteOrder::Less;
        }
        if a[i] > b[i] {
            return ByteOrder::Greater;
        }
        assert(a@.skip(i as int).drop_first() =~= a@.skip(i + 1));
        assert(b@.skip(i as int).drop_first() =~= b@.skip(i + 1));
        i = i + 1;
    }
    if a.len() == b.len() {
        ByteOrder::Equal
    } else if i == a.len() {
        ByteOrder::Less
    } else {
        ByteOrder::Greater
    }
}

/// Tests whether two byte strings are equal.
pub fn bytes_eq(a: &[u8], b: &[u8]) -> (r: bool)
    ensures
        r == (a@ == b@),
{
    if a.len() != b.len() {
        return false;
    }
    let mut i: usize = 0;
    while i < a.len()
        invariant
            a@.len() == b@.len(),
            i <= a@.len(),
            forall|j: int| 0 <= j < i ==> a@[j] == b@[j],
        decreases a@.len() - i,
    {
        if a[i] != b[i] {
            return false;
        }
        i = i + 1;
    }
    assert(a@ =~= b@);
    true
}

} // verus!

verus! {

/// The address of the first byte of `bytes`: calls `<[u8]>::as_ptr`. Where a
/// slice lies in memory is up to whoever allocated it, so nothing is claimed
/// of the result.
#[verifier::external_body]
pub(crate) fn slice_address(bytes: &[u8]) -> usize {
    bytes.as_ptr() as usize
}

} // verus!
