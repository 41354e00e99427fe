//! Decoding the interrupts that a device generates, from the `interrupts`,
//! `interrupt-parent` and `interrupts-extended` properties of its node.
//!
//! The nodes that the decoding consults are handed in as plain values: the
//! node's parent, and the nodes that hold a phandle, in document order, each
//! with its path and `#interrupt-cells`.
use vstd::prelude::*;

use super::de::{
    DeserializeError, DeserializeErrorKind, DeserializeNodeError, DeserializeNodeErrorKind,
    DeserializePropertyError, DeserializePropertyErrorKind,
};
use super::property::Property;
use super::util::{be_u32_at, bytes_eq};
use crate::devicetree::property::Phandle;

verus! {

use super::util::be_u32;

/// A node that can stand as an interrupt parent: its path and the number
/// of cells of an interrupt specifier under it (`#interrupt-cells`).
#[derive(Debug)]
pub struct InterruptParent {
    pub path: String,
    pub interrupt_cells: usize,
}

impl View for InterruptParent {
    type V = (Seq<char>, usize);

    open spec fn view(&self) -> (Seq<char>, usize) {
        (self.path@, self.interrupt_cells)
    }
}

/// A node that holds a phandle, as an interrupt parent.
#[derive(Debug)]
pub struct PhandleTarget {
    pub phandle: u32,
    pub node: InterruptParent,
}

impl View for PhandleTarget {
    type V = (u32, Seq<char>, usize);

    open spec fn view(&self) -> (u32, Seq<char>, usize) {
        (self.phandle, self.node.path@, self.node.interrupt_cells)
    }
}

/// An interrupt: the path of its interrupt parent and its specifier cells.
#[derive(Debug)]
pub struct Interrupt {
    pub parent_path: String,
    pub specifier: Vec<u32>,
}

impl View for Interrupt {
    type V = (Seq<char>, Seq<u32>);

    open spec fn view(&self) -> (Seq<char>, Seq<u32>) {
        (self.parent_path@, self.specifier@)
    }
}

/// Why the interrupts of a device could not be decoded, as plain values.
pub enum InterruptsFailure {
    /// No node holds the phandle.
    MissingPhandle(u32),
    /// A property value could not be decoded.
    Property(DeserializePropertyErrorKind),
    /// The node could not be decoded.
    Node(DeserializeNodeErrorKind),
}

/// `e` is the error that `f` describes.
pub open spec fn error_is(e: DeserializeError, f: InterruptsFailure) -> bool {
    match (e.spec_kind(), f) {
        (DeserializeErrorKind::MissingPhandleNode { phandle }, InterruptsFailure::MissingPhandle(
            p,
        )) => phandle.0 == p,
        (DeserializeErrorKind::DeserializeProperty { source }, InterruptsFailure::Property(k)) =>
            source.spec_kind() == k,
        (DeserializeErrorKind::DeserializeNode { source }, InterruptsFailure::Node(k)) =>
            source.spec_kind() == k,
        _ => false,
    }
}

/// The name `interrupts`.
pub open spec fn name_interrupts() -> Seq<u8> {
    seq![0x69u8, 0x6e, 0x74, 0x65, 0x72, 0x72, 0x75, 0x70, 0x74, 0x73]
}

/// The name `interrupt-parent`.
pub open spec fn name_interrupt_parent() -> Seq<u8> {
    seq![0x69u8, 0x6e, 0x74, 0x65, 0x72, 0x72, 0x75, 0x70, 0x74, 0x2d, 0x70, 0x61, 0x72, 0x65, 0x6e, 0x74]
}

/// The name `interrupts-extended`.
pub open spec fn name_interrupts_extended() -> Seq<u8> {
    seq![
        0x69u8, 0x6e, 0x74, 0x65, 0x72, 0x72, 0x75, 0x70, 0x74, 0x73, 0x2d, 0x65, 0x78, 0x74, 0x65,
        0x6e, 0x64, 0x65, 0x64,
    ]
}

/// The big-endian cells of `b`.
pub open spec fn cells_of(b: Seq<u8>) -> Seq<u32> {
    Seq::new(b.len() / 4, |j: int| be_u32(b, 4 * j))
}

/// `len` rounded up to a multiple of 4, wrapping around past `usize::MAX`
/// as `usize::next_multiple_of` does without overflow checks.
pub open spec fn round_up_cells(len: int) -> int {
    if len % 4 == 0 {
        len
    } else if len + (4 - len % 4) > usize::MAX {
        len + (4 - len % 4) - (usize::MAX + 1)
    } else {
        len + (4 - len % 4)
    }
}

/// Decoding a value of whole cells: the cells, or an error that names the
/// length rounded up to whole cells.
pub open spec fn spec_cells_value(v: Seq<u8>) -> Result<Seq<u32>, InterruptsFailure> {
    if v.len() % 4 != 0 {
        Err(
            InterruptsFailure::Property(
                DeserializePropertyErrorKind::ValueLengthMismatch {
                    expected: round_up_cells(v.len() as int) as usize,
                    actual: v.len() as usize,
                },
            ),
        )
    } else {
        Ok(cells_of(v))
    }
}

/// Scanning the properties `props` in order for `interrupts`,
/// `interrupt-parent` and `interrupts-extended`: a later one of a name
/// takes the place of an earlier one, and the first that cannot be decoded
/// stops the scan.
pub open spec fn spec_scan<'a>(props: Seq<Property<'a>>) -> Result<
    (Option<Seq<u32>>, Option<u32>, Option<Seq<u32>>),
    InterruptsFailure,
>
    decreases props.len(),
{
    if props.len() == 0 {
        Ok((None, None, None))
    } else {
        match spec_scan(props.drop_last()) {
            Err(f) => Err(f),
            Ok((a, b, c)) => {
                let n = props.last().spec_name();
                let v = props.last().spec_value();
                if n == name_interrupts() {
                    match spec_cells_value(v) {
                        Ok(cells) => Ok((Some(cells), b, c)),
                        Err(f) => Err(f),
                    }
                } else if n == name_interrupt_parent() {
                    if v.len() != 4 {
                        Err(
                            InterruptsFailure::Property(
                                DeserializePropertyErrorKind::ValueLengthMismatch {
                                    expected: 4,
                                    actual: v.len() as usize,
                                },
                            ),
                        )
                    } else {
                        Ok((a, Some(be_u32(v, 0)), c))
                    }
                } else if n == name_interrupts_extended() {
                    match spec_cells_value(v) {
                        Ok(cells) => Ok((a, b, Some(cells))),
                        Err(f) => Err(f),
                    }
                } else {
                    Ok((a, b, c))
                }
            },
        }
    }
}

/// The first of `targets` that holds phandle `ph`.
pub open spec fn first_target(targets: Seq<(u32, Seq<char>, usize)>, ph: u32) -> Option<int>
    decreases targets.len(),
{
    if targets.len() == 0 {
        None
    } else if targets[0].0 == ph {
        Some(0)
    } else {
        match first_target(targets.drop_first(), ph) {
            Some(i) => Some(i + 1),
            None => None,
        }
    }
}

/// The interrupts of an `interrupts-extended` value `cells`: each is a
/// phandle and then as many cells as the node with that phandle asks for.
pub open spec fn spec_extended(targets: Seq<(u32, Seq<char>, usize)>, cells: Seq<u32>) -> Result<
    Seq<(Seq<char>, Seq<u32>)>,
    InterruptsFailure,
>
    decreases cells.len(),
{
    if cells.len() == 0 {
        Ok(Seq::empty())
    } else {
        let ph = cells[0];
        let rest = cells.skip(1);
        match first_target(targets, ph) {
            None => Err(InterruptsFailure::MissingPhandle(ph)),
            Some(i) => {
                let n = targets[i].2 as int;
                if n > rest.len() {
                    Err(
                        InterruptsFailure::Property(
                            DeserializePropertyErrorKind::Custom {
                                message: "invalid property value length of `interrupts-extended`",
                            },
                        ),
                    )
                } else {
                    match spec_extended(targets, rest.skip(n)) {
                        Ok(t) => Ok(seq![(targets[i].1, rest.take(n))] + t),
                        Err(f) => Err(f),
                    }
                }
            },
        }
    }
}

/// The interrupts of an `interrupts` value `cells` under the interrupt
/// parent `ip`: the cells cut into specifiers of `#interrupt-cells` each.
pub open spec fn spec_plain(cells: Seq<u32>, ip: (Seq<char>, usize)) -> Result<
    Seq<(Seq<char>, Seq<u32>)>,
    InterruptsFailure,
> {
    let n = ip.1 as int;
    if (n == 0 && cells.len() != 0) || (n != 0 && (cells.len() as int) % n != 0) {
        Err(
            InterruptsFailure::Property(
                DeserializePropertyErrorKind::Custom {
                    message: "invalid property value length of `interrupts`",
                },
            ),
        )
    } else {
        Ok(Seq::new(((cells.len() as int) / n) as nat, |k: int| (ip.0, cells.subrange(k * n, k * n + n))))
    }
}

/// The interrupt parent of a node with `interrupts`: the node whose phandle
/// `interrupt-parent` gives, else the node's parent.
pub open spec fn spec_interrupt_parent(
    ip: Option<u32>,
    parent: Option<(Seq<char>, usize)>,
    targets: Seq<(u32, Seq<char>, usize)>,
) -> Result<(Seq<char>, usize), InterruptsFailure> {
    match ip {
        Some(ph) => match first_target(targets, ph) {
            Some(i) => Ok((targets[i].1, targets[i].2)),
            None => Err(InterruptsFailure::MissingPhandle(ph)),
        },
        None => match parent {
            Some(p) => Ok(p),
            None => Err(InterruptsFailure::Node(DeserializeNodeErrorKind::MissingParentNode)),
        },
    }
}

/// The interrupts of a device whose node has the properties `props`, the
/// parent `parent`, and whose tree holds the phandles `targets`:
/// `interrupts-extended` when the node has it, else `interrupts` under the
/// interrupt parent.
pub open spec fn spec_device_interrupts<'a>(
    props: Seq<Property<'a>>,
    parent: Option<(Seq<char>, usize)>,
    targets: Seq<(u32, Seq<char>, usize)>,
) -> Result<Seq<(Seq<char>, Seq<u32>)>, InterruptsFailure> {
    match spec_scan(props) {
        Err(f) => Err(f),
        Ok((ints, ip, ext)) => match ext {
            Some(c) => spec_extended(targets, c),
            None => match ints {
                Some(c) => match spec_interrupt_parent(ip, parent, targets) {
                    Ok(p) => spec_plain(c, p),
                    Err(f) => Err(f),
                },
                None => Err(
                    InterruptsFailure::Node(
                        DeserializeNodeErrorKind::Custom {
                            message: "`interrupts` and `inteterrupts-extended` property is missing",
                        },
                    ),
                ),
            },
        },
    }
}

/// The decoding would cut an empty `interrupts` value into specifiers of no
/// cells, which it cannot do.
pub open spec fn cuts_into_empty<'a>(
    props: Seq<Property<'a>>,
    parent: Option<(Seq<char>, usize)>,
    targets: Seq<(u32, Seq<char>, usize)>,
) -> bool {
    &&& spec_scan(props) matches Ok((Some(c), ip, None))
    &&& c.len() == 0
    &&& spec_interrupt_parent(ip, parent, targets) matches Ok(p)
    &&& p.1 == 0
}

/// The views of a sequence of interrupts.
pub open spec fn interrupts_view(v: Seq<Interrupt>) -> Seq<(Seq<char>, Seq<u32>)> {
    v.map_values(|i: Interrupt| i@)
}

/// The views of the phandle targets.
pub open spec fn targets_view(v: Seq<PhandleTarget>) -> Seq<(u32, Seq<char>, usize)> {
    v.map_values(|t: PhandleTarget| t@)
}

/// `r` is the outcome `s` describes.
pub open spec fn outcome_is<T>(
    r: Result<T, DeserializeError>,
    s: Result<Seq<(Seq<char>, Seq<u32>)>, InterruptsFailure>,
    view: spec_fn(T) -> Seq<(Seq<char>, Seq<u32>)>,
) -> bool {
    match (r, s) {
        (Ok(v), Ok(w)) => view(v) == w,
        (Err(e), Err(f)) => error_is(e, f),
        _ => false,
    }
}

/// The interrupts that a device generates.
#[derive(Debug)]
pub struct InterruptGeneratingDevice {
    interrupts: Vec<Interrupt>,
}

impl InterruptGeneratingDevice {
    /// The interrupts, as values.
    pub closed spec fn spec_interrupts(&self) -> Seq<(Seq<char>, Seq<u32>)> {
        interrupts_view(self.interrupts@)
    }

    /// The interrupts.
    pub fn interrupts(&self) -> (r: &[Interrupt])
        ensures
            interrupts_view(r@) == self.spec_interrupts(),
    {
        self.interrupts.as_slice()
    }

    /// Decodes the interrupts of a device whose node has the properties
    /// `props` and the parent `parent` (`None` for the root), in a tree whose
    /// nodes with a phandle are `targets`, in document order.
    pub fn deserialize_node(
        props: &[Property<'_>],
        parent: Option<&InterruptParent>,
        targets: &[PhandleTarget],
    ) -> (r: Result<Self, DeserializeError>)
        requires
            !cuts_into_empty(props@, opt_parent_view(parent), targets_view(targets@)),
        ensures
            outcome_is(
                r,
                spec_device_interrupts(props@, opt_parent_view(parent), targets_view(targets@)),
                |d: Self| d.spec_interrupts(),
            ),
    {
        let (ints, ip, ext) = match scan(props) {
            Ok(t) => t,
            Err(e) => {
                return Err(e);
            },
        };
        match ext {
            Some(cells) => {
                return match extended(targets, cells.as_slice()) {
                    Ok(v) => Ok(InterruptGeneratingDevice { interrupts: v }),
                    Err(e) => Err(e),
                };
            },
            None => {},
        }
        let cells = match ints {
            Some(c) => c,
            None => {
                return Err(
                    node_failure(
                        DeserializeNodeErrorKind::Custom {
                            message: "`interrupts` and `inteterrupts-extended` property is missing",
                        },
                    ),
                );
            },
        };
        let (path, n) = match ip {
            Some(ph) => match find_target(targets, ph) {
                Some(i) => (&targets[i].node.path, targets[i].node.interrupt_cells),
                None => {
                    return Err(DeserializeError::missing_phandle_node(Phandle(ph)));
                },
            },
            None => match parent {
                Some(p) => (&p.path, p.interrupt_cells),
                None => {
                    return Err(node_failure(DeserializeNodeErrorKind::MissingParentNode));
                },
            },
        };
        match plain(cells.as_slice(), path, n) {
            Ok(v) => Ok(InterruptGeneratingDevice { interrupts: v }),
            Err(e) => Err(e),
        }
    }
}

/// The view of an optional parent.
pub open spec fn opt_parent_view(p: Option<&InterruptParent>) -> Option<(Seq<char>, usize)> {
    match p {
        Some(q) => Some(q@),
        None => None,
    }
}

/// The error that a property failure of kind `k` gives.
fn property_failure(k: DeserializePropertyErrorKind) -> (r: DeserializeError)
    ensures
        error_is(r, InterruptsFailure::Property(k)),
{
    DeserializeError::new(
        DeserializeErrorKind::DeserializeProperty { source: DeserializePropertyError::new(k) },
    )
}

/// The error that a node failure of kind `k` gives.
fn node_failure(k: DeserializeNodeErrorKind) -> (r: DeserializeError)
    ensures
        error_is(r, InterruptsFailure::Node(k)),
{
    DeserializeError::new(
        DeserializeErrorKind::DeserializeNode { source: DeserializeNodeError::new(k) },
    )
}

/// Decodes a value of whole big-endian cells.
fn cells_value(v: &[u8]) -> (r: Result<Vec<u32>, DeserializeError>)
    ensures
        match (r, spec_cells_value(v@)) {
            (Ok(c), Ok(s)) => c@ == s,
            (Err(e), Err(f)) => error_is(e, f),
            _ => false,
        },
{
    if v.len() % 4 != 0 {
        let pad = 4 - v.len() % 4;
        let expected = if v.len() > usize::MAX - pad {
            v.len() - (usize::MAX - pad) - 1
        } else {
            v.len() + pad
        };
        return Err(
            property_failure(
                DeserializePropertyErrorKind::ValueLengthMismatch { expected, actual: v.len() },
            ),
        );
    }
    let mut out: Vec<u32> = Vec::new();
    let mut k: usize = 0;
    while k < v.len() / 4
        invariant
            v@.len() % 4 == 0,
            k <= v@.len() / 4,
            out@ == cells_of(v@).take(k as int),
        decreases v@.len() / 4 - k,
    {
        out.push(be_u32_at(v, 4 * k));
        k += 1;
        assert(out@ =~= cells_of(v@).take(k as int));
    }
    assert(out@ =~= cells_of(v@));
    Ok(out)
}

/// Scans the properties, as [`spec_scan`] says.
fn scan(props: &[Property<'_>]) -> (r: Result<
    (Option<Vec<u32>>, Option<u32>, Option<Vec<u32>>),
    DeserializeError,
>)
    ensures
        match (r, spec_scan(props@)) {
            (Ok((a, b, c)), Ok((sa, sb, sc))) => opt_cells_view(a) == sa && b == sb && opt_cells_view(
                c,
            ) == sc,
            (Err(e), Err(f)) => error_is(e, f),
            _ => false,
        },
{
    let name_ints: [u8; 10] = [0x69, 0x6e, 0x74, 0x65, 0x72, 0x72, 0x75, 0x70, 0x74, 0x73];
    let name_parent: [u8; 16] = [
        0x69,
        0x6e,
        0x74,
        0x65,
        0x72,
        0x72,
        0x75,
        0x70,
        0x74,
        0x2d,
        0x70,
        0x61,
        0x72,
        0x65,
        0x6e,
        0x74,
    ];
    let name_ext: [u8; 19] = [
        0x69,
        0x6e,
        0x74,
        0x65,
        0x72,
        0x72,
        0x75,
        0x70,
        0x74,
        0x73,
        0x2d,
        0x65,
        0x78,
        0x74,
        0x65,
        0x6e,
        0x64,
        0x65,
        0x64,
    ];
    assert(name_ints@ == name_interrupts());
    assert(name_parent@ == name_interrupt_parent());
    assert(name_ext@ == name_interrupts_extended());
    let mut a: Option<Vec<u32>> = None;
    let mut b: Option<u32> = None;
    let mut c: Option<Vec<u32>> = None;
    let mut k: usize = 0;
    while k < props.len()
        invariant
            k <= props@.len(),
            name_ints@ == name_interrupts(),
            name_parent@ == name_interrupt_parent(),
            name_ext@ == name_interrupts_extended(),
            spec_scan(props@.take(k as int)) == Ok::<
                (Option<Seq<u32>>, Option<u32>, Option<Seq<u32>>),
                InterruptsFailure,
            >((opt_cells_view(a), b, opt_cells_view(c))),
        decreases props@.len() - k,
    {
        let p = props[k];
        let ghost pre = props@.take(k as int);
        let ghost next = props@.take(k + 1);
        assert(next.drop_last() =~= pre);
        assert(next.last() == p);
        let name = p.name();
        let value = p.value();
        if bytes_eq(name, name_ints.as_slice()) {
            match cells_value(value) {
                Ok(v) => {
                    a = Some(v);
                },
                Err(e) => {
                    proof {
                        lemma_scan_err(props@, k as int + 1);
                    }
                    return Err(e);
                },
            }
        } else if bytes_eq(name, name_parent.as_slice()) {
            if value.len() != 4 {
                proof {
                    lemma_scan_err(props@, k as int + 1);
                }
                return Err(
                    property_failure(
                        DeserializePropertyErrorKind::ValueLengthMismatch {
                            expected: 4,
                            actual: value.len(),
                        },
                    ),
                );
            }
            b = Some(be_u32_at(value, 0));
        } else if bytes_eq(name, name_ext.as_slice()) {
            match cells_value(value) {
                Ok(v) => {
                    c = Some(v);
                },
                Err(e) => {
                    proof {
                        lemma_scan_err(props@, k as int + 1);
                    }
                    return Err(e);
                },
            }
        }
        k += 1;
    }
    assert(props@.take(props@.len() as int) =~= props@);
    Ok((a, b, c))
}

/// The view of optional cells.
pub open spec fn opt_cells_view(c: Option<Vec<u32>>) -> Option<Seq<u32>> {
    match c {
        Some(v) => Some(v@),
        None => None,
    }
}

/// Once the scan of a prefix of `props` fails, the scan of `props` fails in
/// the same way.
proof fn lemma_scan_err<'a>(props: Seq<Property<'a>>, n: int)
    requires
        0 <= n <= props.len(),
        spec_scan(props.take(n)) is Err,
    ensures
        spec_scan(props) == spec_scan(props.take(n)),
    decreases props.len() - n,
{
    if n < props.len() {
        assert(props.take(n + 1).drop_last() =~= props.take(n));
        lemma_scan_err(props, n + 1);
    } else {
        assert(props.take(n) =~= props);
    }
}

/// The first of `targets` that holds phandle `ph`.
fn find_target(targets: &[PhandleTarget], ph: u32) -> (r: Option<usize>)
    ensures
        match (r, first_target(targets_view(targets@), ph)) {
            (Some(i), Some(j)) => i == j && i < targets@.len(),
            (None, None) => true,
            _ => false,
        },
{
    let ghost ts = targets_view(targets@);
    assert(ts.skip(0) =~= ts);
    let mut k: usize = 0;
    while k < targets.len()
        invariant
            k <= targets@.len(),
            ts == targets_view(targets@),
            ts.len() == targets@.len(),
            first_target(ts, ph) == match first_target(ts.skip(k as int), ph) {
                Some(i) => Some(i + k),
                None => None::<int>,
            },
        decreases targets@.len() - k,
    {
        assert(ts.skip(k as int).drop_first() =~= ts.skip(k + 1));
        assert(ts.skip(k as int)[0] == ts[k as int]);
        if targets[k].phandle == ph {
            return Some(k);
        }
        k += 1;
    }
    assert(ts.skip(k as int).len() == 0);
    None
}

/// The interrupts of an `interrupts-extended` value, as [`spec_extended`]
/// says.
fn extended(targets: &[PhandleTarget], cells: &[u32]) -> (r: Result<Vec<Interrupt>, DeserializeError>)
    ensures
        outcome_is(
            r,
            spec_extended(targets_view(targets@), cells@),
            |v: Vec<Interrupt>| interrupts_view(v@),
        ),
{
    let ghost ts = targets_view(targets@);
    let mut out: Vec<Interrupt> = Vec::new();
    let mut p: usize = 0;
    proof {
        assert(cells@.skip(0) =~= cells@);
        assert(interrupts_view(out@) =~= Seq::empty());
        match spec_extended(ts, cells@) {
            Ok(t) => {
                assert(Seq::<(Seq<char>, Seq<u32>)>::empty() + t =~= t);
            },
            Err(_) => {},
        }
    }
    while p < cells.len()
        invariant
            p <= cells@.len(),
            ts == targets_view(targets@),
            ts.len() == targets@.len(),
            spec_extended(ts, cells@) == match spec_extended(ts, cells@.skip(p as int)) {
                Ok(t) => Ok(interrupts_view(out@) + t),
                Err(f) => Err(f),
            },
        decreases cells@.len() - p,
    {
        let ghost rest = cells@.skip(p as int);
        let ph = cells[p];
        assert(rest[0] == ph);
        assert(rest.skip(1) =~= cells@.skip(p + 1));
        let i = match find_target(targets, ph) {
            Some(i) => i,
            None => {
                return Err(DeserializeError::missing_phandle_node(Phandle(ph)));
            },
        };
        let n = targets[i].node.interrupt_cells;
        assert(ts[i as int] == targets@[i as int]@);
        if n > cells.len() - (p + 1) {
            return Err(
                property_failure(
                    DeserializePropertyErrorKind::Custom {
                        message: "invalid property value length of `interrupts-extended`",
                    },
                ),
            );
        }
        let q = p + 1 + n;
        let specifier = vstd::slice::slice_to_vec(&cells[p + 1..q]);
        let path = targets[i].node.path.clone();
        let ghost item = (ts[i as int].1, rest.skip(1).take(n as int));
        assert(specifier@ =~= rest.skip(1).take(n as int));
        assert(rest.skip(1).skip(n as int) =~= cells@.skip(q as int));
        let ghost before = interrupts_view(out@);
        out.push(Interrupt { parent_path: path, specifier });
        assert(interrupts_view(out@) =~= before.push(item));
        proof {
            match spec_extended(ts, cells@.skip(q as int)) {
                Ok(t) => {
                    assert(before + (seq![item] + t) =~= before.push(item) + t);
                },
                Err(_) => {},
            }
        }
        p = q;
    }
    assert(cells@.skip(p as int).len() == 0);
    assert(interrupts_view(out@) + Seq::empty() =~= interrupts_view(out@));
    Ok(out)
}

/// The `k`-th of `count` specifiers of `n` cells lies within `len` cells.
proof fn lemma_chunk_in_bounds(k: int, n: int, count: int, len: int)
    requires
        0 <= k < count,
        n > 0,
        len >= 0,
        count == len / n,
        len % n == 0,
    ensures
        k * n + n <= len,
        k * n >= 0,
        k * n + n == (k + 1) * n,
{
    vstd::arithmetic::div_mod::lemma_fundamental_div_mod(len, n);
    assert(k * n + n <= len && k * n >= 0 && k * n + n == (k + 1) * n) by (nonlinear_arith)
        requires
            0 <= k < count,
            n > 0,
            len == n * count + 0,
    ;
}

/// The interrupts of an `interrupts` value under the parent at `path` with
/// `n` cells to a specifier, as [`spec_plain`] says.
fn plain(cells: &[u32], path: &String, n: usize) -> (r: Result<Vec<Interrupt>, DeserializeError>)
    requires
        !(n == 0 && cells@.len() == 0),
    ensures
        outcome_is(r, spec_plain(cells@, (path@, n)), |v: Vec<Interrupt>| interrupts_view(v@)),
{
    if n == 0 || cells.len() % n != 0 {
        return Err(
            property_failure(
                DeserializePropertyErrorKind::Custom {
                    message: "invalid property value length of `interrupts`",
                },
            ),
        );
    }
    let count = cells.len() / n;
    let ghost want = Seq::new(
        count as nat,
        |k: int| (path@, cells@.subrange(k * n, k * n + n)),
    );
    let mut out: Vec<Interrupt> = Vec::new();
    let mut k: usize = 0;
    while k < count
        invariant
            n > 0,
            cells@.len() <= usize::MAX,
            count == (cells@.len() as int) / (n as int),
            (cells@.len() as int) % (n as int) == 0,
            k <= count,
            want == Seq::new(count as nat, |j: int| (path@, cells@.subrange(j * n, j * n + n))),
            interrupts_view(out@) == want.take(k as int),
        decreases count - k,
    {
        proof {
            lemma_chunk_in_bounds(k as int, n as int, count as int, cells@.len() as int);
        }
        let start = k * n;
        let specifier = vstd::slice::slice_to_vec(&cells[start..start + n]);
        let ghost before = interrupts_view(out@);
        let ghost item = (path@, cells@.subrange(k * n, k * n + n));
        assert(specifier@ =~= item.1);
        let parent_path = path.clone();
        out.push(Interrupt { parent_path, specifier });
        assert(interrupts_view(out@) =~= before.push(item));
        assert(want[k as int] == item);
        k += 1;
        assert(interrupts_view(out@) =~= want.take(k as int));
    }
    assert(want.take(count as int) =~= want);
    Ok(out)
}

} // verus!
