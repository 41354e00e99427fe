//! A devicetree read whole into memory: every node with its properties and
//! children, kept in one table where each node knows its parent.
use vstd::prelude::*;

use super::blob::Devicetree as Blob;
use super::node::{Node as FlatNode, ParseStructError};
use super::property::{
    ParsePropertyValue,
    ParsePropertyValueError,
    Phandle,
    Property,
    RegIter,
    RegIterView,
    StringList,
    spec_parse_u32,
    spec_property_value,
    spec_string_list_bytes,
    spec_value_text,
};
use vstd::utf8::decode_utf8;
use vstd::string::{StrSliceExecFns, StringExecFns};
use crate::devtree::util::{be_u32, be_u32_at, copy_bytes};
use super::text::{
    dec_text,
    push_dec,
    char_index,
    lemma_char_index,
    lemma_char_index_range,
    push_indent,
    spaces,
    str_eq,
    str_split_once,
};

verus! {

use super::node::{
    NodeView,
    PropertyView,
    advances,
    lemma_next_property,
    lemma_skip_props,
    lemma_token_advances,
    property_is,
    spec_next_child,
    spec_next_property,
    spec_node_at,
    spec_node_end,
};

/// The properties read from `off` until the first child, the end of the
/// node or the end of the block.
pub open spec fn spec_props(sb: Seq<u8>, st: Seq<u8>, off: int) -> Result<
    Seq<PropertyView>,
    ParseStructError,
>
    decreases sb.len() + 4 - off,
{
    let (r, n) = spec_next_property(sb, st, off);
    match r {
        None => Ok(Seq::empty()),
        Some(Err(e)) => Err(e),
        Some(Ok(pv)) => match n {
            Some(k) => if advances(sb, off, k) {
                match spec_props(sb, st, k) {
                    Ok(rest) => Ok(seq![pv] + rest),
                    Err(e) => Err(e),
                }
            } else {
                Ok(seq![pv])
            },
            None => Ok(seq![pv]),
        },
    }
}

/// A node with all that lies below it, as plain values.
pub struct TreeView {
    pub name: Seq<char>,
    pub address: Option<Seq<char>>,
    pub properties: Seq<PropertyView>,
    pub children: Seq<TreeView>,
}

/// The node `v` read whole: its properties and the trees of its children.
pub open spec fn spec_tree(sb: Seq<u8>, st: Seq<u8>, v: NodeView) -> Result<TreeView, ParseStructError>
    decreases sb.len() + 4 - v.properties, 1int,
{
    if 0 <= v.properties <= v.children <= sb.len() + 4 {
        match spec_props(sb, st, v.properties) {
            Err(e) => Err(e),
            Ok(ps) => match spec_subtrees(sb, st, v.children) {
                Err(e) => Err(e),
                Ok(cs) => Ok(
                    TreeView { name: v.name, address: v.address, properties: ps, children: cs },
                ),
            },
        }
    } else {
        Err(ParseStructError::MissingEndNodeToken)
    }
}

/// The trees of the children that start at `c`.
pub open spec fn spec_subtrees(sb: Seq<u8>, st: Seq<u8>, c: int) -> Result<
    Seq<TreeView>,
    ParseStructError,
>
    decreases sb.len() + 4 - c, 0int,
{
    let (r, n) = spec_next_child(sb, st, c);
    match r {
        Err(e) => Err(e),
        Ok(None) => Ok(Seq::empty()),
        Ok(Some(v)) => if 0 <= c < v.properties <= sb.len() + 4 {
            match spec_tree(sb, st, v) {
                Err(e) => Err(e),
                Ok(t) => match n {
                    Some(e) => if advances(sb, c, e) {
                        match spec_subtrees(sb, st, e) {
                            Err(x) => Err(x),
                            Ok(rest) => Ok(seq![t] + rest),
                        }
                    } else {
                        Err(ParseStructError::MissingEndNodeToken)
                    },
                    None => Err(ParseStructError::MissingEndNodeToken),
                },
            }
        } else {
            Err(ParseStructError::MissingEndNodeToken)
        },
    }
}

/// Reading the next child from an offset: the child's properties start after
/// the offset, and the reading goes on further on.
pub proof fn lemma_next_child(sb: Seq<u8>, st: Seq<u8>, c: int)
    requires
        0 <= c <= sb.len() + 4,
    ensures
        spec_next_child(sb, st, c).0 matches Ok(Some(v)) ==> {
            &&& c < v.properties <= sb.len() + 4
            &&& spec_next_child(sb, st, c).1 matches Some(e) && advances(sb, c, e)
        },
    decreases sb.len() + 4 - c,
{
    lemma_token_advances(sb, st, c);
    let (r, n) = super::struct_lexer::spec_read_token_and_data(sb, st, c);
    match r {
        Ok(Some(super::struct_lexer::StructTokenView::Nop)) => {
            if advances(sb, c, n) {
                lemma_next_child(sb, st, n);
            }
        },
        Ok(Some(super::struct_lexer::StructTokenView::BeginNode { .. })) => {
            if let Ok(v) = spec_node_at(sb, st, c) {
                lemma_skip_props(sb, st, v.properties);
                lemma_node_end(sb, st, v.children);
            }
        },
        _ => {},
    }
}

/// A node whose children start at an offset ends further on, within the
/// block.
pub proof fn lemma_node_end(sb: Seq<u8>, st: Seq<u8>, c: int)
    requires
        0 <= c <= sb.len() + 4,
    ensures
        spec_node_end(sb, st, c) matches Ok(e) ==> c < e <= sb.len(),
    decreases sb.len() + 4 - c,
{
    lemma_token_advances(sb, st, c);
    let (r, n) = super::struct_lexer::spec_read_token_and_data(sb, st, c);
    match r {
        Ok(Some(super::struct_lexer::StructTokenView::Nop)) => {
            if advances(sb, c, n) {
                lemma_node_end(sb, st, n);
            }
        },
        Ok(Some(super::struct_lexer::StructTokenView::BeginNode { .. })) => {
            if let Ok(child) = spec_node_at(sb, st, c) {
                if advances(sb, c, child.children) {
                    lemma_skip_props(sb, st, child.properties);
                    lemma_node_end(sb, st, child.children);
                    if let Ok(e) = spec_node_end(sb, st, child.children) {
                        if advances(sb, c, e) {
                            lemma_node_end(sb, st, e);
                        }
                    }
                }
            }
        },
        _ => {},
    }
}

/// A property of a node read whole: its name and value.
#[derive(Debug)]
pub struct PropertyInner {
    pub(crate) name: String,
    pub(crate) value: Vec<u8>,
}

/// A node read whole, in the table of its tree.
#[derive(Debug)]
pub struct NodeInner {
    pub(crate) name: String,
    pub(crate) address: Option<String>,
    pub(crate) properties: Vec<PropertyInner>,
    pub(crate) parent: Option<usize>,
    pub(crate) children: Vec<usize>,
}

/// A node of the table as plain values.
pub struct NodeInnerView {
    pub name: Seq<char>,
    pub address: Option<Seq<char>>,
    pub properties: Seq<PropertyView>,
    pub parent: Option<usize>,
    pub children: Seq<usize>,
}

/// The view of an optional owned string.
pub open spec fn opt_string_view(s: Option<String>) -> Option<Seq<char>> {
    match s {
        Some(a) => Some(a@),
        None => None,
    }
}

impl View for PropertyInner {
    type V = PropertyView;

    closed spec fn view(&self) -> PropertyView {
        (self.name@, self.value@)
    }
}

impl View for NodeInner {
    type V = NodeInnerView;

    closed spec fn view(&self) -> NodeInnerView {
        NodeInnerView {
            name: self.name@,
            address: opt_string_view(self.address),
            properties: self.properties@.map_values(|p: PropertyInner| p@),
            parent: self.parent,
            children: self.children@,
        }
    }
}

/// The views of the nodes of a table.
pub open spec fn table_view(nodes: Seq<NodeInner>) -> Seq<NodeInnerView> {
    nodes.map_values(|n: NodeInner| n@)
}

/// Node `i` of the table holds tree `t` under parent `parent`: its name,
/// address and properties are those of `t`, and its children, which come
/// after it in the table, hold the children of `t`.
pub open spec fn holds_tree(nodes: Seq<NodeInnerView>, i: int, t: TreeView, parent: Option<usize>) -> bool
    decreases t,
{
    &&& 0 <= i < nodes.len()
    &&& nodes[i].name == t.name
    &&& nodes[i].address == t.address
    &&& nodes[i].properties == t.properties
    &&& nodes[i].parent == parent
    &&& nodes[i].children.len() == t.children.len()
    &&& forall|k: int|
        0 <= k < t.children.len() ==> i < #[trigger] nodes[i].children[k] && holds_tree(
            nodes,
            nodes[i].children[k] as int,
            t.children[k],
            Some(i as usize),
        )
}

/// Adding nodes at the end of the table, or changing one that comes before
/// node `i`, leaves what node `i` holds as it was.
pub proof fn lemma_holds_tree_frame(
    a: Seq<NodeInnerView>,
    b: Seq<NodeInnerView>,
    i: int,
    t: TreeView,
    parent: Option<usize>,
    j: int,
)
    requires
        holds_tree(a, i, t, parent),
        a.len() <= b.len(),
        j < i,
        forall|k: int| 0 <= k < a.len() && k != j ==> b[k] == a[k],
    ensures
        holds_tree(b, i, t, parent),
    decreases t,
{
    assert forall|k: int| 0 <= k < t.children.len() implies i < #[trigger] b[i].children[k]
        && holds_tree(b, b[i].children[k] as int, t.children[k], Some(i as usize)) by {
        assert(a[i].children[k] > i);
        lemma_holds_tree_frame(a, b, a[i].children[k] as int, t.children[k], Some(i as usize), j);
    }
}

/// The node `v` read whole, one step unfolded.
pub proof fn lemma_tree_unfold(sb: Seq<u8>, st: Seq<u8>, v: NodeView)
    ensures
        spec_tree(sb, st, v) == (if 0 <= v.properties <= v.children <= sb.len() + 4 {
            match spec_props(sb, st, v.properties) {
                Err(e) => Err(e),
                Ok(ps) => match spec_subtrees(sb, st, v.children) {
                    Err(e) => Err(e),
                    Ok(cs) => Ok(
                        TreeView { name: v.name, address: v.address, properties: ps, children: cs },
                    ),
                },
            }
        } else {
            Err(ParseStructError::MissingEndNodeToken)
        }),
{
}

/// How far the reading of the children from `c0` has come: the trees read
/// so far are `trees`, and the reading stands at `off`.
pub open spec fn subtrees_from(
    sb: Seq<u8>,
    st: Seq<u8>,
    c0: int,
    trees: Seq<TreeView>,
    off: Option<int>,
) -> bool {
    match off {
        Some(o) => spec_subtrees(sb, st, c0) == match spec_subtrees(sb, st, o) {
            Ok(rest) => Ok(trees + rest),
            Err(e) => Err(e),
        },
        None => spec_subtrees(sb, st, c0) == Ok::<Seq<TreeView>, ParseStructError>(trees),
    }
}

/// One step of reading the children: what the next child read from `o`
/// adds to the trees read so far.
pub proof fn lemma_subtrees_step(sb: Seq<u8>, st: Seq<u8>, c0: int, o: int, trees: Seq<TreeView>)
    requires
        0 <= o <= sb.len() + 4,
        subtrees_from(sb, st, c0, trees, Some(o)),
    ensures
        match spec_next_child(sb, st, o) {
            (Ok(None), _) => spec_subtrees(sb, st, c0) == Ok::<Seq<TreeView>, ParseStructError>(
                trees,
            ),
            (Err(e), _) => spec_subtrees(sb, st, c0) == Err::<Seq<TreeView>, ParseStructError>(e),
            (Ok(Some(v)), n) => {
                &&& o < v.properties <= sb.len() + 4
                &&& n matches Some(e) && advances(sb, o, e)
                &&& match spec_tree(sb, st, v) {
                    Err(x) => spec_subtrees(sb, st, c0) == Err::<Seq<TreeView>, ParseStructError>(x),
                    Ok(t) => subtrees_from(sb, st, c0, trees.push(t), n),
                }
            },
        },
{
    lemma_next_child(sb, st, o);
    let (r, n) = spec_next_child(sb, st, o);
    match r {
        Ok(None) => {
            let empty = Seq::<TreeView>::empty();
            assert(spec_subtrees(sb, st, o) == Ok::<Seq<TreeView>, ParseStructError>(empty));
            assert(trees + empty =~= trees);
            assert(spec_subtrees(sb, st, c0) == Ok::<Seq<TreeView>, ParseStructError>(trees + empty));
            assert(spec_subtrees(sb, st, c0) == Ok::<Seq<TreeView>, ParseStructError>(trees));
            assert(spec_next_child(sb, st, o).0 matches Ok(None));
        },
        Ok(Some(v)) => {
            if let Ok(t) = spec_tree(sb, st, v) {
                assert forall|rest: Seq<TreeView>| #![auto] trees + (seq![t] + rest) =~= trees.push(
                    t,
                ) + rest by {}
            }
        },
        Err(_) => {},
    }
}

/// The children `ids` of node `parent` hold the trees `trees`, in order.
pub open spec fn holds_all(
    nodes: Seq<NodeInnerView>,
    ids: Seq<usize>,
    trees: Seq<TreeView>,
    parent: usize,
) -> bool {
    &&& ids.len() == trees.len()
    &&& forall|k: int|
        0 <= k < trees.len() ==> parent < #[trigger] ids[k] && holds_tree(
            nodes,
            ids[k] as int,
            trees[k],
            Some(parent),
        )
}

/// Adding nodes at the end of the table, or changing one that comes before
/// the children `ids`, leaves what they hold as it was.
pub proof fn lemma_holds_all_frame(
    a: Seq<NodeInnerView>,
    b: Seq<NodeInnerView>,
    ids: Seq<usize>,
    trees: Seq<TreeView>,
    parent: usize,
    j: int,
)
    requires
        holds_all(a, ids, trees, parent),
        a.len() <= b.len(),
        j <= parent,
        forall|k: int| 0 <= k < a.len() && k != j ==> b[k] == a[k],
    ensures
        holds_all(b, ids, trees, parent),
{
    assert forall|k: int| 0 <= k < trees.len() implies holds_tree(
        b,
        ids[k] as int,
        trees[k],
        Some(parent),
    ) by {
        lemma_holds_tree_frame(a, b, ids[k] as int, trees[k], Some(parent), j);
    }
}

/// The table of tree `t` with its root at `base` under parent `parent`: the
/// root first, then the tables of its children one after another.
pub open spec fn flatten_tree(t: TreeView, parent: Option<usize>, base: int) -> Seq<NodeInnerView>
    decreases t, 1int,
{
    let kids = flatten_children(t.children, base, base + 1);
    seq![
        NodeInnerView {
            name: t.name,
            address: t.address,
            properties: t.properties,
            parent,
            children: kids.1,
        },
    ] + kids.0
}

/// The tables of the trees `ts`, children of node `parent`, one after
/// another from `start` on, and where each of them starts.
pub open spec fn flatten_children(ts: Seq<TreeView>, parent: int, start: int) -> (
    Seq<NodeInnerView>,
    Seq<usize>,
)
    decreases ts, 0int,
{
    if ts.len() == 0 {
        (Seq::empty(), Seq::empty())
    } else {
        let first = flatten_tree(ts[0], Some(parent as usize), start);
        let rest = flatten_children(ts.subrange(1, ts.len() as int), parent, start + first.len());
        (first + rest.0, seq![start as usize] + rest.1)
    }
}

/// The tables of `ts` followed by one more tree `t`.
pub proof fn lemma_flatten_push(ts: Seq<TreeView>, t: TreeView, parent: int, start: int)
    ensures
        ({
            let f = flatten_children(ts, parent, start);
            let at = start + f.0.len();
            flatten_children(ts.push(t), parent, start) == (
                f.0 + flatten_tree(t, Some(parent as usize), at),
                f.1.push(at as usize),
            )
        }),
    decreases ts.len(),
{
    let ts2 = ts.push(t);
    if ts.len() == 0 {
        assert(ts2.subrange(1, ts2.len() as int) =~= Seq::<TreeView>::empty());
        let f = flatten_tree(t, Some(parent as usize), start);
        assert(ts2[0] == t);
        let none = flatten_children(ts2.subrange(1, ts2.len() as int), parent, start + f.len());
        assert(none == flatten_children(Seq::<TreeView>::empty(), parent, start + f.len()));
        assert(none == (Seq::<NodeInnerView>::empty(), Seq::<usize>::empty()));
        assert(flatten_children(ts2, parent, start) == (
            f + Seq::<NodeInnerView>::empty(),
            seq![start as usize] + Seq::<usize>::empty(),
        ));
        assert(f + Seq::<NodeInnerView>::empty() =~= Seq::<NodeInnerView>::empty() + f);
        assert(seq![start as usize] + Seq::<usize>::empty() =~= Seq::<usize>::empty().push(
            start as usize,
        ));
    } else {
        let tail = ts.subrange(1, ts.len() as int);
        assert(ts2.subrange(1, ts2.len() as int) =~= tail.push(t));
        assert(ts2[0] == ts[0]);
        let first = flatten_tree(ts[0], Some(parent as usize), start);
        lemma_flatten_push(tail, t, parent, start + first.len());
        let g = flatten_children(tail, parent, start + first.len());
        let at = start + first.len() + g.0.len();
        let h = flatten_children(tail.push(t), parent, start + first.len());
        assert(flatten_children(ts2, parent, start) == (first + h.0, seq![start as usize] + h.1));
        assert(flatten_children(ts, parent, start) == (first + g.0, seq![start as usize] + g.1));
        assert(first + (g.0 + flatten_tree(t, Some(parent as usize), at)) =~= (first + g.0)
            + flatten_tree(t, Some(parent as usize), at));
        assert(seq![start as usize] + g.1.push(at as usize) =~= (seq![start as usize] + g.1).push(
            at as usize,
        ));
    }
}

/// Every child named in the table is a node of the table whose parent is
/// the node that names it, and a parent comes before its children.
pub open spec fn table_wf(nodes: Seq<NodeInnerView>) -> bool {
    &&& forall|i: int, k: int|
        0 <= i < nodes.len() && 0 <= k < nodes[i].children.len() ==> #[trigger] nodes[i].children[k]
            < nodes.len() && nodes[nodes[i].children[k] as int].parent == Some(i as usize)
    &&& forall|i: int|
        0 <= i < nodes.len() ==> (#[trigger] nodes[i].parent matches Some(p) ==> p < i)
}

/// Reads node `node` and all below it into the table: the node goes at the
/// end of the table and its children after it.
fn build(node: &FlatNode, parent: Option<usize>, nodes: &mut Vec<NodeInner>) -> (r: Result<
    usize,
    ParseStructError,
>)
    requires
        table_wf(table_view(old(nodes)@)),
        parent matches Some(p) ==> p < old(nodes)@.len(),
    ensures
        match (r, spec_tree(node.spec_sb(), node.spec_st(), node@)) {
            (Ok(i), Ok(t)) => {
                &&& table_wf(table_view(final(nodes)@))
                &&& i == old(nodes)@.len()
                &&& table_view(final(nodes)@) == table_view(old(nodes)@) + flatten_tree(
                    t,
                    parent,
                    i as int,
                )
                &&& holds_tree(table_view(final(nodes)@), i as int, t, parent)
                &&& final(nodes)@.len() > old(nodes)@.len()
                &&& forall|k: int|
                    0 <= k < old(nodes)@.len() ==> #[trigger] final(nodes)@[k] == old(nodes)@[k]
            },
            (Err(e1), Err(e2)) => e1 == e2,
            _ => false,
        },
    decreases node.spec_sb().len() + 4 - node@.properties,
{
    let ghost sb = node.spec_sb();
    let ghost st = node.spec_st();
    let index = nodes.len();
    nodes.push(
        NodeInner {
            name: String::new(),
            address: None,
            properties: Vec::new(),
            parent,
            children: Vec::new(),
        },
    );
    let ghost old_nodes = old(nodes)@;
    let ghost pushed = nodes@;
    proof {
        let tv = table_view(nodes@);
        let ov = table_view(old_nodes);
        assert(tv[index as int].children.len() == 0);
        assert forall|i: int, k: int|
            0 <= i < tv.len() && 0 <= k < tv[i].children.len() implies #[trigger] tv[i].children[k]
            < tv.len() && tv[tv[i].children[k] as int].parent == Some(i as usize) by {
            assert(tv[i] == ov[i]);
            assert(tv[ov[i].children[k] as int] == ov[ov[i].children[k] as int]);
        }
        assert forall|i: int| 0 <= i < tv.len() implies (#[trigger] tv[i].parent matches Some(
            p,
        ) ==> p < i) by {
            if i < index {
                assert(tv[i] == ov[i]);
            }
        }
    }
    let mut props_vec: Vec<PropertyInner> = Vec::new();
    let mut children = node.children();
    let mut props = node.properties();
    let ghost p0 = node@.properties;
    let ghost c0 = node@.children;
    loop
        invariant_except_break
            props.spec_offset() matches Some(o) ==> spec_props(sb, st, p0) == match spec_props(
                sb,
                st,
                o,
            ) {
                Ok(rest) => Ok(props_vec@.map_values(|p: PropertyInner| p@) + rest),
                Err(e) => Err(e),
            },
            props.spec_offset() is None ==> spec_props(sb, st, p0) == Ok::<
                Seq<PropertyView>,
                ParseStructError,
            >(props_vec@.map_values(|p: PropertyInner| p@)),
        invariant
            props.spec_ready(),
            0 <= p0 <= c0 <= sb.len() + 4,
            c0 == node@.children,
            props.spec_offset() is Some ==> props.spec_devicetree() == node.spec_devicetree(),
            sb == node.spec_sb(),
            st == node.spec_st(),
            p0 == node@.properties,
            nodes@ == pushed,
            nodes@.len() == index + 1,
            table_wf(table_view(nodes@)),
            table_view(nodes@)[index as int].parent == parent,
            parent matches Some(p) ==> p < index,
            index == old_nodes.len(),
            forall|k: int| 0 <= k < old_nodes.len() ==> #[trigger] nodes@[k] == old_nodes[k],
        ensures
            spec_props(sb, st, p0) == Ok::<Seq<PropertyView>, ParseStructError>(
                props_vec@.map_values(|p: PropertyInner| p@),
            ),
        decreases (match props.spec_offset() {
            Some(o) => sb.len() + 5 - o,
            None => 0,
        }),
    {
        let ghost before = props.spec_offset();
        proof {
            if let Some(o) = before {
                lemma_next_property(sb, st, o);
            }
        }
        match props.next() {
            None => {
                proof {
                    let acc = props_vec@.map_values(|q: PropertyInner| q@);
                    assert(acc + Seq::<PropertyView>::empty() =~= acc);
                }
                break ;
            },
            Some(Err(e)) => {
                proof {
                    assert(spec_props(sb, st, p0) == Err::<Seq<PropertyView>, ParseStructError>(e));
                    lemma_tree_unfold(sb, st, node@);
                }
                return Err(e);
            },
            Some(Ok(p)) => {
                let name = p.name().to_owned();
                let value = copy_bytes(p.raw_value());
                let item = PropertyInner { name, value };
                let ghost acc = props_vec@.map_values(|q: PropertyInner| q@);
                props_vec.push(item);
                assert(props_vec@.map_values(|q: PropertyInner| q@) =~= acc.push(item@));
                proof {
                    let o = before.unwrap();
                    let pv = spec_next_property(sb, st, o).0.unwrap().unwrap();
                    assert(item@ == pv);
                    assert(acc.push(pv) =~= acc + seq![pv]);
                    if let Some(k) = props.spec_offset() {
                        assert forall|rest: Seq<PropertyView>| #![auto] acc + (seq![pv] + rest)
                            =~= acc.push(pv) + rest by {}
                    }
                }
            },
        }
    }
    let mut child_ids: Vec<usize> = Vec::new();
    let ghost mut trees: Seq<TreeView> = Seq::empty();
    loop
        invariant_except_break
            children.spec_offset() matches Some(o) ==> c0 <= o && o <= sb.len() + 4,
            subtrees_from(sb, st, c0, trees, children.spec_offset()),
        invariant
            children.spec_ready(),
            children.spec_offset() is Some ==> children.spec_devicetree() == node.spec_devicetree(),
            sb == node.spec_sb(),
            st == node.spec_st(),
            c0 == node@.children,
            p0 == node@.properties,
            0 <= p0 <= c0 <= sb.len() + 4,
            spec_props(sb, st, p0) is Ok,
            holds_all(table_view(nodes@), child_ids@, trees, index),
            pushed.len() == index + 1,
            table_view(nodes@) == table_view(pushed) + flatten_children(trees, index as int, index + 1).0,
            child_ids@ == flatten_children(trees, index as int, index + 1).1,
            nodes@.len() >= index + 1,
            table_wf(table_view(nodes@)),
            table_view(nodes@)[index as int].parent == parent,
            parent matches Some(p) ==> p < index,
            index == old_nodes.len(),
            forall|k: int| 0 <= k < old_nodes.len() ==> #[trigger] nodes@[k] == old_nodes[k],
        ensures
            spec_subtrees(sb, st, c0) == Ok::<Seq<TreeView>, ParseStructError>(trees),
        decreases (match children.spec_offset() {
            Some(o) => sb.len() + 5 - o,
            None => 0,
        }),
    {
        let ghost before = children.spec_offset();
        proof {
            if let Some(o) = before {
                lemma_subtrees_step(sb, st, c0, o, trees);
            }
        }
        match children.next() {
            None => {
                break ;
            },
            Some(Err(e)) => {
                proof {
                    lemma_tree_unfold(sb, st, node@);
                }
                return Err(e);
            },
            Some(Ok(c)) => {
                let ghost nodes_before = nodes@;
                let ci = match build(&c, Some(index), nodes) {
                    Ok(ci) => ci,
                    Err(e) => {
                        proof {
                            lemma_tree_unfold(sb, st, node@);
                        }
                        return Err(e);
                    },
                };
                proof {
                    let t = spec_tree(sb, st, c@).unwrap();
                    assert(table_view(nodes@)[index as int] == table_view(nodes_before)[index as int]);
                    lemma_holds_all_frame(
                        table_view(nodes_before),
                        table_view(nodes@),
                        child_ids@,
                        trees,
                        index,
                        -1,
                    );
                    let f = flatten_children(trees, index as int, index + 1);
                    lemma_flatten_push(trees, t, index as int, index + 1);
                    assert(table_view(nodes@) =~= table_view(pushed) + (f.0 + flatten_tree(
                        t,
                        Some(index),
                        ci as int,
                    )));
                    trees = trees.push(t);
                }
                child_ids.push(ci);
            },
        }
    }
    let name = node.name().to_owned();
    let address = match node.address() {
        Some(a) => Some(a.to_owned()),
        None => None,
    };
    let ghost before_set = nodes@;
    nodes.set(
        index,
        NodeInner { name, address, properties: props_vec, parent, children: child_ids },
    );
    proof {
        lemma_holds_all_frame(
            table_view(before_set),
            table_view(nodes@),
            child_ids@,
            trees,
            index,
            index as int,
        );
        lemma_tree_unfold(sb, st, node@);
        let tv = table_view(nodes@);
        let kids = flatten_children(trees, index as int, index + 1);
        let t = spec_tree(sb, st, node@)->Ok_0;
        assert(t.children == trees);
        assert(tv =~= table_view(old_nodes) + flatten_tree(t, parent, index as int)) by {
            let ov = table_view(old_nodes);
            let bv = table_view(before_set);
            assert(table_view(pushed) =~= ov.push(table_view(pushed)[index as int]));
            assert(bv =~= ov.push(table_view(pushed)[index as int]) + kids.0);
            let root = NodeInnerView {
                name: t.name,
                address: t.address,
                properties: t.properties,
                parent,
                children: kids.1,
            };
            assert(tv[index as int].name == root.name);
            assert(tv[index as int].address == root.address);
            assert(tv[index as int].properties == root.properties);
            assert(tv[index as int].children == root.children);
            assert(tv[index as int] == root);
            assert(flatten_tree(t, parent, index as int) == seq![root] + kids.0);
            assert(tv.len() == bv.len());
            assert forall|j: int| 0 <= j < tv.len() && j != index implies tv[j] == bv[j] by {
                assert(nodes@[j] == before_set[j]);
            }
            let want = ov.push(root) + kids.0;
            assert forall|j: int| 0 <= j < tv.len() implies tv[j] == want[j] by {
                if j != index {
                    assert(bv[j] == (ov.push(table_view(pushed)[index as int]) + kids.0)[j]);
                }
            }
            assert(tv =~= want);
        }
        let bv = table_view(before_set);
        assert forall|i: int, k: int|
            0 <= i < tv.len() && 0 <= k < tv[i].children.len() implies #[trigger] tv[i].children[k]
            < tv.len() && tv[tv[i].children[k] as int].parent == Some(i as usize) by {
            if i == index {
                assert(holds_tree(tv, child_ids@[k] as int, trees[k], Some(index)));
            } else {
                assert(tv[i] == bv[i]);
                let c = bv[i].children[k] as int;
                assert(bv[c].parent == Some(i as usize));
                if c != index {
                    assert(tv[c] == bv[c]);
                }
            }
        }
        assert forall|i: int| 0 <= i < tv.len() implies (#[trigger] tv[i].parent matches Some(
            p,
        ) ==> p < i) by {
            if i != index {
                assert(tv[i] == table_view(before_set)[i]);
            }
        }
    }
    Ok(index)
}

/// What reading the whole tree of a blob gives: the tree of the node whose
/// BEGIN_NODE token starts the structure block.
pub open spec fn spec_parse(sb: Seq<u8>, st: Seq<u8>) -> Result<TreeView, ParseStructError> {
    match spec_node_at(sb, st, 0) {
        Err(e) => Err(e),
        Ok(v) => spec_tree(sb, st, v),
    }
}

impl<'fdt> Blob<'fdt> {
    /// Reads the whole tree into memory. The table of the nodes holds the
    /// root first and then, one after another, the tables of its children:
    /// every node comes before its children.
    pub fn parse(&self) -> (r: Result<Devicetree, ParseStructError>)
        ensures
            match (r, spec_parse(self.spec_struct_block(), self.spec_string_block())) {
                (Ok(d), Ok(t)) => d@ == flatten_tree(t, None, 0) && holds_tree(d@, 0, t, None),
                (Err(e1), Err(e2)) => e1 == e2,
                _ => false,
            },
    {
        let root = match self.root_node() {
            Ok(n) => n,
            Err(e) => {
                return Err(e);
            },
        };
        let mut nodes: Vec<NodeInner> = Vec::new();
        proof {
            assert(table_view(nodes@) =~= Seq::<NodeInnerView>::empty());
        }
        match build(&root, None, &mut nodes) {
            Ok(_) => {
                proof {
                    let t = spec_tree(root.spec_sb(), root.spec_st(), root@)->Ok_0;
                    assert(Seq::<NodeInnerView>::empty() + flatten_tree(t, None, 0) =~= flatten_tree(
                        t,
                        None,
                        0,
                    ));
                }
            },
            Err(e) => {
                return Err(e);
            },
        }
        Ok(Devicetree { nodes })
    }
}

/// A devicetree read whole into memory.
#[derive(Debug)]
pub struct Devicetree {
    nodes: Vec<NodeInner>,
}

impl View for Devicetree {
    type V = Seq<NodeInnerView>;

    /// The table of the nodes: the root first, every node before its
    /// children.
    closed spec fn view(&self) -> Seq<NodeInnerView> {
        table_view(self.nodes@)
    }
}

impl Devicetree {
    #[verifier::type_invariant]
    spec fn inv(&self) -> bool {
        &&& self.nodes@.len() >= 1
        &&& table_wf(table_view(self.nodes@))
    }

    /// The root node.
    pub fn root_node(&self) -> (r: Node<'_>)
        ensures
            r.spec_index() == 0,
            r.spec_tree() == *self,
    {
        proof {
            use_type_invariant(self);
        }
        Node { tree: self, index: 0 }
    }
}

/// A node of a devicetree read whole.
#[derive(Debug, Clone, Copy)]
pub struct Node<'t> {
    tree: &'t Devicetree,
    index: usize,
}

impl<'t> View for Node<'t> {
    type V = NodeInnerView;

    /// The node as plain values.
    closed spec fn view(&self) -> NodeInnerView {
        self.tree@[self.index as int]
    }
}

/// The first of `props` named `name`.
pub open spec fn find_prop(props: Seq<PropertyView>, name: Seq<char>) -> Option<PropertyView>
    decreases props.len(),
{
    if props.len() == 0 {
        None
    } else if props[0].0 == name {
        Some(props[0])
    } else {
        find_prop(props.drop_first(), name)
    }
}

/// Looking a property up by name finds the first property of that name, and
/// finds nothing exactly when no property has that name.
pub proof fn law_find_prop_first(props: Seq<PropertyView>, name: Seq<char>)
    ensures
        find_prop(props, name) is None <==> forall|j: int| 0 <= j < props.len() ==> props[j].0 != name,
        find_prop(props, name) matches Some(pv) ==> exists|i: int|
            0 <= i < props.len() && props[i] == pv && pv.0 == name && forall|j: int|
                0 <= j < i ==> props[j].0 != name,
    decreases props.len(),
{
    if props.len() > 0 {
        law_find_prop_first(props.drop_first(), name);
        if props[0].0 != name {
            if find_prop(props, name) is None {
                assert forall|j: int| 0 <= j < props.len() implies props[j].0 != name by {
                    if j > 0 {
                        assert(props[j] == props.drop_first()[j - 1]);
                    }
                }
            } else {
                let pv = find_prop(props, name)->0;
                let i = choose|i: int|
                    0 <= i < props.drop_first().len() && props.drop_first()[i] == pv && pv.0 == name
                        && forall|j: int| 0 <= j < i ==> props.drop_first()[j].0 != name;
                assert(props[i + 1] == pv);
                assert forall|j: int| 0 <= j < i + 1 implies props[j].0 != name by {
                    if j > 0 {
                        assert(props[j] == props.drop_first()[j - 1]);
                    }
                }
            }
            if forall|j: int| 0 <= j < props.len() ==> props[j].0 != name {
                assert forall|j: int| 0 <= j < props.drop_first().len() implies props.drop_first()[j].0
                    != name by {
                    assert(props.drop_first()[j] == props[j + 1]);
                }
            }
        } else {
            assert(props[0] == find_prop(props, name)->0);
        }
    }
}

impl<'t> Node<'t> {
    #[verifier::type_invariant]
    spec fn inv(&self) -> bool {
        self.index < self.tree@.len()
    }

    /// Where the node stands in the table of its tree.
    pub closed spec fn spec_index(&self) -> int {
        self.index as int
    }

    /// The tree the node belongs to.
    pub closed spec fn spec_tree(&self) -> Devicetree {
        *self.tree
    }

    fn inner(&self) -> (r: &'t NodeInner)
        ensures
            r@ == self@,
    {
        proof {
            use_type_invariant(self);
        }
        &self.tree.nodes[self.index]
    }

    /// The name of the node, without its unit address.
    pub fn name(&self) -> (r: &'t str)
        ensures
            r@ == self@.name,
    {
        self.inner().name.as_str()
    }

    /// The unit address of the node, if it has one.
    pub fn address(&self) -> (r: Option<&'t str>)
        ensures
            r is Some <==> self@.address is Some,
            r matches Some(a) ==> a@ == self@.address->0,
    {
        match &self.inner().address {
            Some(a) => Some(a.as_str()),
            None => None,
        }
    }

    /// The tree the node belongs to.
    pub fn tree(&self) -> (r: &'t Devicetree)
        ensures
            *r == self.spec_tree(),
    {
        self.tree
    }

    /// The parent node; `None` for the root.
    pub fn parent(&self) -> (r: Option<Node<'t>>)
        ensures
            r is Some <==> self@.parent is Some,
            r matches Some(p) ==> p.spec_index() == self@.parent->0 && p.spec_tree()
                == self.spec_tree(),
    {
        proof {
            use_type_invariant(self);
            use_type_invariant(self.tree);
        }
        match self.inner().parent {
            Some(p) => {
                proof {
                    assert(self.tree@[self.index as int].parent matches Some(q) ==> q < self.index);
                }
                Some(Node { tree: self.tree, index: p })
            },
            None => None,
        }
    }

    /// The children of the node, in order.
    pub fn children(&self) -> (r: Vec<Node<'t>>)
        ensures
            r@.len() == self@.children.len(),
            forall|k: int|
                #![trigger r@[k]]
                0 <= k < r@.len() ==> r@[k].spec_index() == self@.children[k] && r@[k].spec_tree()
                    == self.spec_tree() && r@[k]@.parent == Some(self.spec_index() as usize),
    {
        proof {
            use_type_invariant(self);
            use_type_invariant(self.tree);
        }
        let inner = self.inner();
        let mut r: Vec<Node<'t>> = Vec::new();
        let mut k: usize = 0;
        while k < inner.children.len()
            invariant
                inner@ == self@,
                self.index < self.tree@.len(),
                table_wf(self.tree@),
                k <= inner.children@.len(),
                r@.len() == k,
                forall|j: int|
                    #![trigger r@[j]]
                    0 <= j < k ==> r@[j].spec_index() == self@.children[j] && r@[j].spec_tree()
                        == self.spec_tree() && r@[j]@.parent == Some(self.spec_index() as usize),
            decreases inner.children@.len() - k,
        {
            let c = inner.children[k];
            proof {
                assert(self.tree@[self.index as int].children[k as int] < self.tree@.len());
            }
            r.push(Node { tree: self.tree, index: c });
            k += 1;
        }
        r
    }

    /// The properties of the node, in order.
    pub fn properties(&self) -> (r: Vec<Property<'t>>)
        ensures
            r@.len() == self@.properties.len(),
            forall|k: int| 0 <= k < r@.len() ==> property_is(#[trigger] r@[k], self@.properties[k]),
    {
        let inner = self.inner();
        let mut r: Vec<Property<'t>> = Vec::new();
        let mut k: usize = 0;
        while k < inner.properties.len()
            invariant
                inner@ == self@,
                k <= inner.properties@.len(),
                r@.len() == k,
                forall|j: int| 0 <= j < k ==> property_is(#[trigger] r@[j], self@.properties[j]),
            decreases inner.properties@.len() - k,
        {
            let p = &inner.properties[k];
            r.push(Property::new(p.name.as_str(), p.value.as_slice()));
            k += 1;
        }
        r
    }

    /// The first property named `name`.
    pub fn find_property(&self, name: &str) -> (r: Option<Property<'t>>)
        ensures
            match (r, find_prop(self@.properties, name@)) {
                (None, None) => true,
                (Some(p), Some(pv)) => property_is(p, pv),
                _ => false,
            },
    {
        let inner = self.inner();
        let mut k: usize = 0;
        proof {
            assert(self@.properties.subrange(0, self@.properties.len() as int) =~= self@.properties);
        }
        while k < inner.properties.len()
            invariant
                inner@ == self@,
                k <= inner.properties@.len(),
                find_prop(self@.properties, name@) == find_prop(
                    self@.properties.subrange(k as int, self@.properties.len() as int),
                    name@,
                ),
            decreases inner.properties@.len() - k,
        {
            let p = &inner.properties[k];
            let ghost rest = self@.properties.subrange(k as int, self@.properties.len() as int);
            proof {
                assert(rest.drop_first() =~= self@.properties.subrange(
                    k + 1,
                    self@.properties.len() as int,
                ));
            }
            if str_eq(p.name.as_str(), name) {
                return Some(Property::new(p.name.as_str(), p.value.as_slice()));
            }
            k += 1;
        }
        None
    }
}

/// Why a property of a node could not be had.
#[derive(Debug)]
#[allow(inconsistent_fields)]
pub enum PropertyError {
    /// The node has no property `name`.
    MissingProperty { name: String },
    /// The value of the property `name` could not be decoded.
    ParseProperty { name: String, source: ParsePropertyValueError },
    /// The node has no parent.
    MissingParentNode,
    /// No interrupt parent could be found.
    MissingInterruptParentNode,
    /// No node has the phandle `phandle`.
    InvalidPhandle { phandle: Phandle },
}

impl PropertyError {
    /// The text that describes the error; a phandle is written as its
    /// number in decimal.
    pub open spec fn spec_message(&self) -> Seq<char> {
        match self {
            PropertyError::MissingProperty { name } => "missing property `"@ + name@ + "`"@,
            PropertyError::ParseProperty { name, .. } => "failed to parse property `"@ + name@
                + "`"@,
            PropertyError::MissingParentNode => "missing parent node"@,
            PropertyError::MissingInterruptParentNode => "missing interrupt parent node"@,
            PropertyError::InvalidPhandle { phandle } => "invalid phandle `"@ + dec_text(
                phandle.0 as nat,
            ) + "`"@,
        }
    }

    /// The text that describes the error.
    pub fn message(&self) -> (r: String)
        ensures
            r@ == self.spec_message(),
    {
        let mut s = String::new();
        match self {
            PropertyError::MissingProperty { name } => {
                s.append("missing property `");
                s.append(name.as_str());
                s.append("`");
            },
            PropertyError::ParseProperty { name, .. } => {
                s.append("failed to parse property `");
                s.append(name.as_str());
                s.append("`");
            },
            PropertyError::MissingParentNode => {
                s.append("missing parent node");
            },
            PropertyError::MissingInterruptParentNode => {
                s.append("missing interrupt parent node");
            },
            PropertyError::InvalidPhandle { phandle } => {
                s.append("invalid phandle `");
                push_dec(&mut s, phandle.0 as u64);
                s.append("`");
            },
        }
        s
    }
}

/// `r` is what looking up and decoding a property found as `found` gives:
/// nothing when it is missing, else its value decoded as a `T`, or the
/// decoding error under the name `name`.
pub open spec fn found_as<'a, T: ParsePropertyValue<'a>>(
    found: Option<PropertyView>,
    name: Seq<char>,
    r: Result<Option<T>, PropertyError>,
) -> bool {
    match found {
        None => r matches Ok(None),
        Some(pv) => match r {
            Ok(Some(v)) => T::parses_to(pv.1, Ok(v)),
            Err(PropertyError::ParseProperty { name: n, source }) => n@ == name && T::parses_to(
                pv.1,
                Err(source),
            ),
            _ => false,
        },
    }
}

/// A node's own property `name` shadows its parent's: when the node has the
/// property, looking it up on the node or on the node and its parent finds
/// the node's own and accepts the same results; only when the node lacks it
/// is the parent's taken, and a node without a parent inherits nothing.
pub proof fn law_own_property_shadows_parent<'a, T: ParsePropertyValue<'a>>(
    n: Node,
    name: Seq<char>,
    r: Result<Option<T>, PropertyError>,
)
    ensures
        find_prop(n@.properties, name) is Some ==> n.spec_common_found(name) == find_prop(
            n@.properties,
            name,
        ),
        find_prop(n@.properties, name) is Some ==> (found_as(n.spec_common_found(name), name, r)
            <==> found_as(find_prop(n@.properties, name), name, r)),
        find_prop(n@.properties, name) is None && n@.parent is None ==> n.spec_common_found(
            name,
        ) is None,
        find_prop(n@.properties, name) is None ==> (n@.parent matches Some(p)
            ==> n.spec_common_found(name) == find_prop(n.spec_tree()@[p as int].properties, name)),
{
}

/// As `found_as`, where a missing property is the error `MissingProperty`.
pub open spec fn fetched_as<'a, T: ParsePropertyValue<'a>>(
    found: Option<PropertyView>,
    name: Seq<char>,
    r: Result<T, PropertyError>,
) -> bool {
    match found {
        None => r matches Err(PropertyError::MissingProperty { name: n }) && n@ == name,
        Some(pv) => match r {
            Ok(v) => T::parses_to(pv.1, Ok(v)),
            Err(PropertyError::ParseProperty { name: n, source }) => n@ == name && T::parses_to(
                pv.1,
                Err(source),
            ),
            _ => false,
        },
    }
}

/// `r` is the number of cells a property found as `found` holds: its value
/// read as a big-endian `u32`.
pub open spec fn cells_as(
    found: Option<PropertyView>,
    name: Seq<char>,
    r: Result<usize, PropertyError>,
) -> bool {
    match found {
        None => r matches Err(PropertyError::MissingProperty { name: n }) && n@ == name,
        Some(pv) => match spec_parse_u32(pv.1) {
            Ok(n) => r == Ok::<usize, PropertyError>(n as usize),
            Err(e) => r matches Err(PropertyError::ParseProperty { name: n, source }) && n@ == name
                && source == e,
        },
    }
}

/// The phandle of a node: the value of its `phandle` property, when it has
/// one that reads as a `u32`.
pub open spec fn spec_phandle_of(n: NodeInnerView) -> Option<u32> {
    match find_prop(n.properties, "phandle"@) {
        Some(pv) => match spec_parse_u32(pv.1) {
            Ok(v) => Some(v),
            Err(_) => None,
        },
        None => None,
    }
}

impl Devicetree {
    /// The first node, in the order of the table, whose phandle is
    /// `phandle`.
    pub fn get_node_by_phandle(&self, phandle: Phandle) -> (r: Option<Node<'_>>)
        ensures
            match r {
                Some(n) => {
                    &&& n.spec_tree() == *self
                    &&& 0 <= n.spec_index() < self@.len()
                    &&& spec_phandle_of(self@[n.spec_index()]) == Some(phandle.0)
                    &&& forall|j: int|
                        0 <= j < n.spec_index() ==> spec_phandle_of(#[trigger] self@[j]) != Some(
                            phandle.0,
                        )
                },
                None => forall|j: int|
                    0 <= j < self@.len() ==> spec_phandle_of(#[trigger] self@[j]) != Some(
                        phandle.0,
                    ),
            },
    {
        proof {
            use_type_invariant(self);
        }
        let mut i: usize = 0;
        while i < self.nodes.len()
            invariant
                i <= self@.len(),
                self@.len() == self.nodes@.len(),
                self.nodes@.len() >= 1,
                table_wf(self@),
                forall|j: int| 0 <= j < i ==> spec_phandle_of(#[trigger] self@[j]) != Some(phandle.0),
            decreases self@.len() - i,
        {
            let node = Node { tree: self, index: i };
            let found = node.find_property("phandle");
            proof {
                reveal_strlit("phandle");
            }
            match found {
                Some(p) => {
                    match p.parse_value::<u32>() {
                        Ok(v) => {
                            if v == phandle.0 {
                                return Some(node);
                            }
                        },
                        Err(_) => {},
                    }
                },
                None => {},
            }
            i += 1;
        }
        None
    }
}

impl<'t> Node<'t> {
    /// The property `name`; `MissingProperty` when the node has none.
    pub fn fetch_property(&self, name: &str) -> (r: Result<Property<'t>, PropertyError>)
        ensures
            match (r, find_prop(self@.properties, name@)) {
                (Ok(p), Some(pv)) => property_is(p, pv),
                (Err(PropertyError::MissingProperty { name: n }), None) => n@ == name@,
                _ => false,
            },
    {
        match self.find_property(name) {
            Some(p) => Ok(p),
            None => Err(PropertyError::MissingProperty { name: name.to_owned() }),
        }
    }

    /// The value of the property `name` decoded as a `T`; `None` when the
    /// node has no such property.
    pub fn find_property_as<T: ParsePropertyValue<'t>>(&self, name: &str) -> (r: Result<
        Option<T>,
        PropertyError,
    >)
        ensures
            found_as(find_prop(self@.properties, name@), name@, r),
    {
        match self.find_property(name) {
            None => Ok(None),
            Some(p) => match p.parse_value::<T>() {
                Ok(v) => Ok(Some(v)),
                Err(e) => Err(PropertyError::ParseProperty { name: name.to_owned(), source: e }),
            },
        }
    }

    /// The value of the property `name` decoded as a `T`; `MissingProperty`
    /// when the node has no such property.
    pub fn fetch_property_as<T: ParsePropertyValue<'t>>(&self, name: &str) -> (r: Result<
        T,
        PropertyError,
    >)
        ensures
            fetched_as(find_prop(self@.properties, name@), name@, r),
    {
        match self.fetch_property(name) {
            Err(e) => Err(e),
            Ok(p) => match p.parse_value::<T>() {
                Ok(v) => Ok(v),
                Err(e) => Err(PropertyError::ParseProperty { name: name.to_owned(), source: e }),
            },
        }
    }

    /// The property `name` of the node, or else of its parent: where the
    /// property is looked up.
    pub open spec fn spec_common_found(&self, name: Seq<char>) -> Option<PropertyView> {
        match find_prop(self@.properties, name) {
            Some(pv) => Some(pv),
            None => match self@.parent {
                Some(p) => find_prop(self.spec_tree()@[p as int].properties, name),
                None => None,
            },
        }
    }

    /// The value of the property `name` of the node, or else of its parent,
    /// decoded as a `T`.
    pub fn find_common_property_as<T: ParsePropertyValue<'t>>(&self, name: &str) -> (r: Result<
        Option<T>,
        PropertyError,
    >)
        ensures
            found_as(self.spec_common_found(name@), name@, r),
    {
        match self.find_property_as::<T>(name) {
            Err(e) => {
                return Err(e);
            },
            Ok(Some(v)) => {
                return Ok(Some(v));
            },
            Ok(None) => {},
        }
        match self.parent() {
            Some(parent) => parent.find_property_as::<T>(name),
            None => Ok(None),
        }
    }

    /// As `find_common_property_as`, where a property that neither the node
    /// nor its parent has is the error `MissingProperty`.
    pub fn fetch_common_property_as<T: ParsePropertyValue<'t>>(&self, name: &str) -> (r: Result<
        T,
        PropertyError,
    >)
        ensures
            fetched_as(self.spec_common_found(name@), name@, r),
    {
        match self.find_common_property_as::<T>(name) {
            Err(e) => Err(e),
            Ok(Some(v)) => Ok(v),
            Ok(None) => Err(PropertyError::MissingProperty { name: name.to_owned() }),
        }
    }

    /// The phandle of the node: its `phandle` property.
    pub fn phandle(&self) -> (r: Result<Phandle, PropertyError>)
        ensures
            fetched_as(find_prop(self@.properties, "phandle"@), "phandle"@, r),
    {
        self.fetch_property_as::<Phandle>("phandle")
    }

    /// Whether the node has the property `interrupt-controller`.
    pub fn is_interrupt_controller(&self) -> (r: bool)
        ensures
            r == find_prop(self@.properties, "interrupt-controller"@) is Some,
    {
        self.find_property("interrupt-controller").is_some()
    }

    /// The phandle of the interrupt parent named by the node, if it names
    /// one.
    pub fn interrupt_parent(&self) -> (r: Result<Option<Phandle>, PropertyError>)
        ensures
            found_as(find_prop(self@.properties, "interrupt-parent"@), "interrupt-parent"@, r),
    {
        self.find_property_as::<Phandle>("interrupt-parent")
    }

    /// The number of cells of `name`.
    fn cells(&self, name: &str) -> (r: Result<usize, PropertyError>)
        ensures
            cells_as(find_prop(self@.properties, name@), name@, r),
    {
        match self.fetch_property_as::<u32>(name) {
            Ok(n) => Ok(n as usize),
            Err(e) => Err(e),
        }
    }

    /// The number of address cells of the children: `#address-cells`.
    pub fn address_cells(&self) -> (r: Result<usize, PropertyError>)
        ensures
            cells_as(find_prop(self@.properties, "#address-cells"@), "#address-cells"@, r),
    {
        self.cells("#address-cells")
    }

    /// The number of size cells of the children: `#size-cells`.
    pub fn size_cells(&self) -> (r: Result<usize, PropertyError>)
        ensures
            cells_as(find_prop(self@.properties, "#size-cells"@), "#size-cells"@, r),
    {
        self.cells("#size-cells")
    }

    /// The number of cells of an interrupt specifier: `#interrupt-cells`.
    pub fn interrupt_cells(&self) -> (r: Result<usize, PropertyError>)
        ensures
            cells_as(find_prop(self@.properties, "#interrupt-cells"@), "#interrupt-cells"@, r),
    {
        self.cells("#interrupt-cells")
    }
}

/// Node `i` is the first of the table whose phandle is `ph`.
pub open spec fn first_with_phandle(nodes: Seq<NodeInnerView>, ph: u32, i: int) -> bool {
    &&& 0 <= i < nodes.len()
    &&& spec_phandle_of(nodes[i]) == Some(ph)
    &&& forall|j: int| 0 <= j < i ==> spec_phandle_of(#[trigger] nodes[j]) != Some(ph)
}

/// No node of the table has the phandle `ph`.
pub open spec fn no_phandle(nodes: Seq<NodeInnerView>, ph: u32) -> bool {
    forall|j: int| 0 <= j < nodes.len() ==> spec_phandle_of(#[trigger] nodes[j]) != Some(ph)
}

/// What `reg` gives for a node with properties `own` whose parent is `pn`:
/// the parent's cell counts, then the node's `reg` value read with them.
pub open spec fn reg_is(pn: NodeInnerView, own: Seq<PropertyView>, r: Result<RegIter, PropertyError>) -> bool {
    match find_prop(pn.properties, "#address-cells"@) {
        None => r matches Err(PropertyError::MissingProperty { name }) && name@ == "#address-cells"@,
        Some(apv) => match spec_parse_u32(apv.1) {
            Err(e) => r matches Err(PropertyError::ParseProperty { name, source }) && name@
                == "#address-cells"@ && source == e,
            Ok(ac) => match find_prop(pn.properties, "#size-cells"@) {
                None => r matches Err(PropertyError::MissingProperty { name }) && name@
                    == "#size-cells"@,
                Some(spv) => match spec_parse_u32(spv.1) {
                    Err(e) => r matches Err(PropertyError::ParseProperty { name, source }) && name@
                        == "#size-cells"@ && source == e,
                    Ok(sc) => match find_prop(own, "reg"@) {
                        None => r matches Err(PropertyError::MissingProperty { name }) && name@
                            == "reg"@,
                        Some(rpv) => if !(1 <= ac <= 2) {
                            r matches Err(
                                PropertyError::ParseProperty {
                                    name,
                                    source: ParsePropertyValueError::InvalidAddressCells {
                                        address_cells,
                                    },
                                },
                            ) && name@ == "reg"@ && address_cells == ac
                        } else if sc > 2 {
                            r matches Err(
                                PropertyError::ParseProperty {
                                    name,
                                    source: ParsePropertyValueError::InvalidSizeCells { size_cells },
                                },
                            ) && name@ == "reg"@ && size_cells == sc
                        } else if rpv.1.len() as int % ((ac + sc) * 4) != 0 {
                            r matches Err(
                                PropertyError::ParseProperty {
                                    name,
                                    source: ParsePropertyValueError::ValueLengthIsNotMultipleOf {
                                        unit,
                                        len,
                                    },
                                },
                            ) && name@ == "reg"@ && unit == ac + sc && len == rpv.1.len()
                        } else {
                            r matches Ok(it) && it@ == (RegIterView {
                                address_cells: ac as usize,
                                size_cells: sc as usize,
                                bytes: rpv.1,
                            })
                        },
                    },
                },
            },
        },
    }
}

impl<'t> Node<'t> {
    /// The interrupt parent of the node: the node named by its
    /// `interrupt-parent` property, or else its parent.
    pub fn interrupt_parent_node(&self) -> (r: Result<Option<Node<'t>>, PropertyError>)
        ensures
            match (r, spec_interrupt_parent(self.spec_tree()@, self.spec_index())) {
                (Ok(Some(n)), Ok(Some(i))) => n.spec_index() == i && n.spec_tree() == self.spec_tree(),
                (Ok(None), Ok(None)) => true,
                (Err(e), Err(ev)) => e@ == ev,
                _ => false,
            },
    {
        match self.interrupt_parent() {
            Err(e) => Err(e),
            Ok(Some(phandle)) => match self.tree.get_node_by_phandle(phandle) {
                Some(n) => {
                    proof {
                        lemma_first_phandle(self.spec_tree()@, phandle.0, n.spec_index());
                    }
                    Ok(Some(n))
                },
                None => {
                    proof {
                        lemma_no_phandle(self.spec_tree()@, phandle.0);
                    }
                    Err(PropertyError::InvalidPhandle { phandle })
                },
            },
            Ok(None) => Ok(self.parent()),
        }
    }

    /// The `reg` entries of the node, read with the cell counts of its
    /// parent.
    pub fn reg(&self) -> (r: Result<RegIter<'t>, PropertyError>)
        ensures
            match self@.parent {
                None => r matches Err(PropertyError::MissingParentNode),
                Some(p) => reg_is(self.spec_tree()@[p as int], self@.properties, r),
            },
    {
        let parent = match self.parent() {
            Some(p) => p,
            None => {
                return Err(PropertyError::MissingParentNode);
            },
        };
        let address_cells = match parent.address_cells() {
            Ok(n) => n,
            Err(e) => {
                return Err(e);
            },
        };
        let size_cells = match parent.size_cells() {
            Ok(n) => n,
            Err(e) => {
                return Err(e);
            },
        };
        let prop = match self.find_property("reg") {
            Some(p) => p,
            None => {
                return Err(PropertyError::MissingProperty { name: "reg".to_owned() });
            },
        };
        match prop.parse_value_as_reg(address_cells, size_cells) {
            Ok(it) => Ok(it),
            Err(e) => Err(PropertyError::ParseProperty { name: "reg".to_owned(), source: e }),
        }
    }
}

/// Whether the list of NUL-terminated strings `v` holds the string `m`.
pub open spec fn list_has(v: Seq<char>, m: Seq<char>) -> bool
    decreases v.len(),
{
    if v.len() == 0 {
        false
    } else {
        let i = char_index(v, '\0');
        proof {
            lemma_char_index_range(v, '\0');
        }
        if i >= v.len() {
            false
        } else if v.subrange(0, i) == m {
            true
        } else {
            list_has(v.subrange(i + 1, v.len() as int), m)
        }
    }
}

impl<'t> Node<'t> {
    /// Whether `model` is one of the strings of the node's `compatible`
    /// property. A missing or undecodable property holds none.
    pub fn is_compatible_to(&self, model: &str) -> (r: bool)
        ensures
            r == (find_prop(self@.properties, "compatible"@) matches Some(pv)
                && spec_string_list_bytes(pv.1) matches Ok(b) && list_has(decode_utf8(b), model@)),
    {
        let list = match self.fetch_property_as::<StringList<'t>>("compatible") {
            Ok(l) => l,
            Err(_) => {
                return false;
            },
        };
        let ghost want = (find_prop(self@.properties, "compatible"@) matches Some(pv)
            && spec_string_list_bytes(pv.1) matches Ok(b) && list_has(decode_utf8(b), model@));
        let mut it = list.iter();
        loop
            invariant
                want == list_has(it@, model@),
                want == (find_prop(self@.properties, "compatible"@) matches Some(pv)
                    && spec_string_list_bytes(pv.1) matches Ok(b) && list_has(
                    decode_utf8(b),
                    model@,
                )),
            decreases it@.len(),
        {
            let ghost before = it@;
            match it.next() {
                None => {
                    return false;
                },
                Some(s) => {
                    proof {
                        lemma_char_index(s@, '\0', it@);
                        assert(before.subrange(0, s@.len() as int) =~= s@);
                        assert(before.subrange(s@.len() + 1int, before.len() as int) =~= it@);
                    }
                    if str_eq(s, model) {
                        return true;
                    }
                },
            }
        }
    }
}

/// The path of node `i`: `/` for the root, else the path of its parent, a
/// `/` unless that path already ends with one, the node's name and, if it
/// has one, `@` and its unit address.
pub open spec fn spec_path(nodes: Seq<NodeInnerView>, i: int) -> Seq<char>
    decreases i,
{
    match nodes[i].parent {
        Some(p) => if 0 <= p < i {
            let pp = spec_path(nodes, p as int);
            let base = if pp.len() > 0 && pp.last() == '/' {
                pp
            } else {
                pp.push('/')
            };
            match nodes[i].address {
                Some(a) => base + nodes[i].name + seq!['@'] + a,
                None => base + nodes[i].name,
            }
        } else {
            seq!['/']
        },
        None => seq!['/'],
    }
}

impl<'t> Node<'t> {
    /// The full path of the node from the root.
    pub fn path(&self) -> (r: String)
        ensures
            r@ == spec_path(self.spec_tree()@, self.spec_index()),
        decreases self.spec_index(),
    {
        proof {
            use_type_invariant(self);
            use_type_invariant(self.tree);
            reveal_strlit("/");
            reveal_strlit("@");
        }
        let parent = match self.parent() {
            Some(p) => p,
            None => {
                return "/".to_owned();
            },
        };
        proof {
            assert(self.tree@[self.index as int].parent matches Some(q) ==> q < self.index);
        }
        let mut path = parent.path();
        let n = path.as_str().unicode_len();
        if n == 0 || path.as_str().get_char(n - 1) != '/' {
            path.append("/");
        }
        path.append(self.name());
        match self.address() {
            Some(a) => {
                path.append("@");
                path.append(a);
            },
            None => {},
        }
        path
    }
}

/// The text of `v` before its first `c`, and the text after it if it has
/// one.
pub open spec fn split_at_char(v: Seq<char>, c: char) -> (Seq<char>, Option<Seq<char>>) {
    let i = char_index(v, c);
    if i < v.len() {
        (v.subrange(0, i), Some(v.subrange(i + 1, v.len() as int)))
    } else {
        (v, None)
    }
}

/// The first of the nodes `ids` named `name` with unit address `address`.
pub open spec fn find_child(
    nodes: Seq<NodeInnerView>,
    ids: Seq<usize>,
    name: Seq<char>,
    address: Option<Seq<char>>,
) -> Option<int>
    decreases ids.len(),
{
    if ids.len() == 0 {
        None
    } else if nodes[ids[0] as int].name == name && nodes[ids[0] as int].address == address {
        Some(ids[0] as int)
    } else {
        find_child(nodes, ids.drop_first(), name, address)
    }
}

/// Where one component `comp` of a path leads from node `cur`: an empty
/// component and `.` stay, `..` goes to the parent, and a name, with `@` and
/// a unit address or without, goes to the first child so named.
pub open spec fn spec_step(nodes: Seq<NodeInnerView>, cur: int, comp: Seq<char>) -> Option<int> {
    if comp.len() == 0 || comp == seq!['.'] {
        Some(cur)
    } else if comp == seq!['.', '.'] {
        match nodes[cur].parent {
            Some(p) => Some(p as int),
            None => None,
        }
    } else {
        let (name, address) = split_at_char(comp, '@');
        find_child(nodes, nodes[cur].children, name, address)
    }
}

/// Where the components of `rest`, separated by `/`, lead from node `cur`.
pub open spec fn spec_walk(nodes: Seq<NodeInnerView>, cur: int, rest: Seq<char>) -> Option<int>
    decreases rest.len(),
{
    let (comp, tail) = split_at_char(rest, '/');
    match spec_step(nodes, cur, comp) {
        None => None,
        Some(c) => match tail {
            Some(t) => if t.len() < rest.len() {
                spec_walk(nodes, c, t)
            } else {
                None
            },
            None => Some(c),
        },
    }
}

/// The node a path leads to from the root: what comes before the first `/`
/// is passed over, and a path without `/` leads to the root.
pub open spec fn spec_find_path(nodes: Seq<NodeInnerView>, path: Seq<char>) -> Option<int> {
    match split_at_char(path, '/').1 {
        None => Some(0),
        Some(rest) => spec_walk(nodes, 0, rest),
    }
}

/// Splitting with `str::split_once` agrees with `split_at_char`.
proof fn lemma_split_once(v: Seq<char>, c: char, r: Option<(Seq<char>, Seq<char>)>)
    requires
        r is None <==> !v.contains(c),
        r matches Some((a, b)) ==> v == a + seq![c] + b && !a.contains(c),
    ensures
        match r {
            None => split_at_char(v, c) == (v, None::<Seq<char>>),
            Some((a, b)) => split_at_char(v, c) == (a, Some(b)),
        },
{
    lemma_char_index_range(v, c);
    if let Some((a, b)) = r {
        lemma_char_index(a, c, b);
        assert(v.subrange(0, a.len() as int) =~= a);
        assert(v.subrange(a.len() + 1int, v.len() as int) =~= b);
    }
}

/// Splitting `x` + `c` + `y`, where `x` holds no `c`, at its first `c`.
proof fn lemma_split_concat(x: Seq<char>, c: char, y: Seq<char>)
    requires
        !x.contains(c),
    ensures
        split_at_char(x + seq![c] + y, c) == (x, Some(y)),
        split_at_char(x, c) == (x, None::<Seq<char>>),
{
    let v = x + seq![c] + y;
    lemma_char_index(x, c, y);
    lemma_char_index_range(v, c);
    lemma_char_index_range(x, c);
    assert(v.subrange(0, x.len() as int) =~= x);
    assert(v.subrange(x.len() + 1int, v.len() as int) =~= y);
}

/// The text before the first `c` of `v` holds no `c`.
proof fn lemma_before_char(v: Seq<char>, c: char)
    ensures
        !v.subrange(0, char_index(v, c)).contains(c),
    decreases v.len(),
{
    lemma_char_index_range(v, c);
    if v.len() > 0 && v[0] != c {
        lemma_before_char(v.drop_first(), c);
        let k = char_index(v, c);
        if v.subrange(0, k).contains(c) {
            let j = choose|j: int| 0 <= j < k && v.subrange(0, k)[j] == c;
            assert(j != 0);
            assert(v.drop_first().subrange(0, k - 1)[j - 1] == c);
        }
    } else {
        assert(v.subrange(0, char_index(v, c)) =~= Seq::<char>::empty());
    }
}

/// Walking `x`, then `/`, then `y` walks `x` and goes on from where it led.
proof fn lemma_walk_concat(nodes: Seq<NodeInnerView>, cur: int, x: Seq<char>, y: Seq<char>)
    ensures
        spec_walk(nodes, cur, x + seq!['/'] + y) == match spec_walk(nodes, cur, x) {
            Some(c) => spec_walk(nodes, c, y),
            None => None,
        },
    decreases x.len(),
{
    let v = x + seq!['/'] + y;
    if !x.contains('/') {
        lemma_split_concat(x, '/', y);
    } else {
        lemma_char_index_range(x, '/');
        let k = char_index(x, '/');
        let head = x.subrange(0, k);
        let x2 = x.subrange(k + 1, x.len() as int);
        lemma_before_char(x, '/');
        assert(x =~= head + seq!['/'] + x2);
        assert(v =~= head + seq!['/'] + (x2 + seq!['/'] + y));
        lemma_split_concat(head, '/', x2);
        lemma_split_concat(head, '/', x2 + seq!['/'] + y);
        lemma_walk_concat(nodes, cur, x2, y);
        match spec_step(nodes, cur, head) {
            Some(c) => lemma_walk_concat(nodes, c, x2, y),
            None => {},
        }
    }
}

/// The component of a path that names node `n`: its name and, if it has
/// one, `@` and its unit address.
pub open spec fn path_component(n: NodeInnerView) -> Seq<char> {
    match n.address {
        Some(a) => n.name + seq!['@'] + a,
        None => n.name,
    }
}

/// The path of node `i` after its leading `/`: the components of the nodes
/// from below the root down to it, separated by `/`.
pub open spec fn relative_path(nodes: Seq<NodeInnerView>, i: int) -> Seq<char>
    decreases i,
{
    match nodes[i].parent {
        Some(p) => if 0 < p < i {
            relative_path(nodes, p as int) + seq!['/'] + path_component(nodes[i])
        } else {
            path_component(nodes[i])
        },
        None => Seq::empty(),
    }
}

/// Node `i` can be told apart from its siblings by its path component: it
/// has a parent, a name without `/` or `@` that is neither `.` nor `..`, a
/// unit address without `/`, and it is the first of its parent's children
/// with its name and unit address.
pub open spec fn named_apart(nodes: Seq<NodeInnerView>, i: int) -> bool {
    let n = nodes[i];
    &&& n.parent is Some
    &&& n.name.len() > 0
    &&& !n.name.contains('/')
    &&& !n.name.contains('@')
    &&& n.name != seq!['.']
    &&& n.name != seq!['.', '.']
    &&& (n.address matches Some(a) ==> !a.contains('/'))
    &&& find_child(nodes, nodes[n.parent->0 as int].children, n.name, n.address) == Some(i)
}

/// The path of node `i` leads back to it: its chain of parents goes down in
/// index to the root, node 0, and it and each of its ancestors below the
/// root are named apart from their siblings.
pub open spec fn path_resolves(nodes: Seq<NodeInnerView>, i: int) -> bool
    decreases i,
{
    if i <= 0 {
        i == 0
    } else {
        match nodes[i].parent {
            Some(p) => p < i && named_apart(nodes, i) && path_resolves(nodes, p as int),
            None => false,
        }
    }
}

/// The component of a node other than the root holds no `/` and is not
/// empty, and one step along it from the parent leads to the node.
proof fn lemma_component_step(nodes: Seq<NodeInnerView>, i: int)
    requires
        named_apart(nodes, i),
    ensures
        path_component(nodes[i]).len() > 0,
        !path_component(nodes[i]).contains('/'),
        spec_step(nodes, nodes[i].parent->0 as int, path_component(nodes[i])) == Some(i),
{
    let n = nodes[i];
    let c = path_component(n);
    match n.address {
        Some(a) => {
            assert(c.contains('@')) by {
                assert(c[n.name.len() as int] == '@');
            }
            assert(!seq!['.'].contains('@'));
            assert(!seq!['.', '.'].contains('@'));
            lemma_split_concat(n.name, '@', a);
            if c.contains('/') {
                let j = choose|j: int| 0 <= j < c.len() && c[j] == '/';
                if j < n.name.len() {
                    assert(n.name[j] == '/');
                } else if j > n.name.len() {
                    assert(a[j - n.name.len() - 1] == '/');
                }
            }
        },
        None => {
            lemma_char_index_range(n.name, '@');
            assert(n.name.subrange(0, n.name.len() as int) =~= n.name);
        },
    }
}

/// The path of a node is `/` and then its relative path.
proof fn lemma_path_is_relative(nodes: Seq<NodeInnerView>, i: int)
    requires
        nodes[0].parent is None,
        path_resolves(nodes, i),
    ensures
        spec_path(nodes, i) == seq!['/'] + relative_path(nodes, i),
        i > 0 ==> relative_path(nodes, i).len() > 0 && relative_path(nodes, i).last() != '/',
    decreases i,
{
    if i > 0 {
        let n = nodes[i];
        let p = n.parent->0 as int;
        assert(p < i);
        lemma_component_step(nodes, i);
        lemma_path_is_relative(nodes, p);
        let c = path_component(n);
        assert(c[c.len() - 1] != '/');
        let pp = spec_path(nodes, p);
        if p == 0 {
            assert(pp == seq!['/']);
            assert(relative_path(nodes, i) == c);
            match n.address {
                Some(a) => assert(pp + n.name + seq!['@'] + a =~= seq!['/'] + c),
                None => assert(pp + n.name =~= seq!['/'] + c),
            }
        } else {
            let rp = relative_path(nodes, p);
            assert(pp.last() == rp.last());
            assert(relative_path(nodes, i) == rp + seq!['/'] + c);
            match n.address {
                Some(a) => assert(pp.push('/') + n.name + seq!['@'] + a =~= seq!['/'] + (rp + seq![
                    '/',
                ] + c)),
                None => assert(pp.push('/') + n.name =~= seq!['/'] + (rp + seq!['/'] + c)),
            }
            assert((rp + seq!['/'] + c).last() == c.last());
        }
    }
}

/// Walking the relative path of a node from the root leads to the node.
proof fn lemma_walk_relative(nodes: Seq<NodeInnerView>, i: int)
    requires
        path_resolves(nodes, i),
        0 < i,
    ensures
        spec_walk(nodes, 0, relative_path(nodes, i)) == Some(i),
    decreases i,
{
    let n = nodes[i];
    let p = n.parent->0 as int;
    assert(p < i);
    lemma_component_step(nodes, i);
    let c = path_component(n);
    lemma_char_index_range(c, '/');
    assert(c.subrange(0, c.len() as int) =~= c);
    if p == 0 {
        assert(relative_path(nodes, i) == c);
    } else {
        lemma_walk_relative(nodes, p);
        lemma_walk_concat(nodes, 0, relative_path(nodes, p), c);
    }
}

/// Following the path of a node from the root leads back to the node,
/// where the node and its ancestors are named apart from their siblings.
pub proof fn law_path_leads_back(nodes: Seq<NodeInnerView>, i: int)
    requires
        nodes[0].parent is None,
        0 <= i < nodes.len(),
        path_resolves(nodes, i),
    ensures
        spec_find_path(nodes, spec_path(nodes, i)) == Some(i),
{
    lemma_path_is_relative(nodes, i);
    let r = relative_path(nodes, i);
    lemma_split_concat(Seq::<char>::empty(), '/', r);
    assert(Seq::<char>::empty() + seq!['/'] + r =~= seq!['/'] + r);
    if i == 0 {
        assert(r == Seq::<char>::empty());
        lemma_char_index_range(r, '/');
    } else {
        lemma_walk_relative(nodes, i);
    }
}

/// The path `/` leads to the root, and `/..` leads nowhere.
pub proof fn law_root_path(nodes: Seq<NodeInnerView>)
    requires
        nodes.len() >= 1,
        nodes[0].parent is None,
    ensures
        spec_find_path(nodes, seq!['/']) == Some(0int),
        spec_find_path(nodes, seq!['/', '.', '.']) is None,
{
    let e = Seq::<char>::empty();
    let up = seq!['.', '.'];
    assert(!e.contains('/'));
    assert(!up.contains('/')) by {
        assert(up[0] != '/' && up[1] != '/');
    }
    lemma_split_concat(e, '/', e);
    lemma_split_concat(e, '/', up);
    lemma_split_concat(up, '/', e);
    assert(e + seq!['/'] + e =~= seq!['/']);
    assert(e + seq!['/'] + up =~= seq!['/', '.', '.']);
}

impl<'t> Node<'t> {
    /// The first child named `name` with unit address `address`.
    fn find_child(&self, name: &str, address: Option<&str>) -> (r: Option<Node<'t>>)
        ensures
            match (r, find_child(self.spec_tree()@, self@.children, name@, opt_str_chars(address))) {
                (Some(n), Some(i)) => n.spec_index() == i && n.spec_tree() == self.spec_tree(),
                (None, None) => true,
                _ => false,
            },
    {
        let children = self.children();
        let mut k: usize = 0;
        let ghost ids = self@.children;
        proof {
            assert(ids.subrange(0, ids.len() as int) =~= ids);
        }
        while k < children.len()
            invariant
                children@.len() == ids.len(),
                ids == self@.children,
                forall|j: int|
                    #![trigger children@[j]]
                    0 <= j < children@.len() ==> children@[j].spec_index() == ids[j]
                        && children@[j].spec_tree() == self.spec_tree(),
                k <= ids.len(),
                find_child(self.spec_tree()@, ids, name@, opt_str_chars(address)) == find_child(
                    self.spec_tree()@,
                    ids.subrange(k as int, ids.len() as int),
                    name@,
                    opt_str_chars(address),
                ),
            decreases ids.len() - k,
        {
            let c = children[k];
            proof {
                assert(ids.subrange(k as int, ids.len() as int).drop_first() =~= ids.subrange(
                    k + 1,
                    ids.len() as int,
                ));
                assert(c.spec_index() == ids[k as int]);
                assert(c@ == self.spec_tree()@[ids[k as int] as int]);
            }
            let same_address = match (c.address(), address) {
                (Some(a), Some(b)) => str_eq(a, b),
                (None, None) => true,
                _ => false,
            };
            if same_address && str_eq(c.name(), name) {
                return Some(c);
            }
            k += 1;
        }
        None
    }

    /// Where the path component `comp` leads from the node.
    fn step(&self, comp: &str) -> (r: Option<Node<'t>>)
        ensures
            match (r, spec_step(self.spec_tree()@, self.spec_index(), comp@)) {
                (Some(n), Some(i)) => n.spec_index() == i && n.spec_tree() == self.spec_tree(),
                (None, None) => true,
                _ => false,
            },
    {
        proof {
            reveal_strlit(".");
            reveal_strlit("..");
            assert("."@ =~= seq!['.']);
            assert(".."@ =~= seq!['.', '.']);
        }
        if comp.is_empty() || str_eq(comp, ".") {
            return Some(*self);
        }
        if str_eq(comp, "..") {
            return self.parent();
        }
        let parts = str_split_once(comp, '@');
        proof {
            lemma_split_once(
                comp@,
                '@',
                match parts {
                    Some((a, b)) => Some((a@, b@)),
                    None => None,
                },
            );
        }
        match parts {
            Some((name, address)) => self.find_child(name, Some(address)),
            None => self.find_child(comp, None),
        }
    }
}

/// The characters of an optional string.
pub open spec fn opt_str_chars(s: Option<&str>) -> Option<Seq<char>> {
    match s {
        Some(a) => Some(a@),
        None => None,
    }
}

impl Devicetree {
    /// The node a path leads to: components are separated by `/`, an empty
    /// component and `.` stay where they are, `..` goes to the parent, and a
    /// name, with `@` and a unit address or without, goes to the first child
    /// so named. What comes before the first `/` is passed over.
    pub fn find_node_by_path(&self, path: &str) -> (r: Option<Node<'_>>)
        ensures
            match (r, spec_find_path(self@, path@)) {
                (Some(n), Some(i)) => n.spec_index() == i && n.spec_tree() == *self,
                (None, None) => true,
                _ => false,
            },
    {
        let mut current = self.root_node();
        let first = str_split_once(path, '/');
        proof {
            lemma_split_once(
                path@,
                '/',
                match first {
                    Some((a, b)) => Some((a@, b@)),
                    None => None,
                },
            );
        }
        let mut rest = match first {
            None => {
                return Some(current);
            },
            Some((_, b)) => b,
        };
        loop
            invariant
                current.spec_tree() == *self,
                spec_find_path(self@, path@) == spec_walk(self@, current.spec_index(), rest@),
            decreases rest@.len(),
        {
            let parts = str_split_once(rest, '/');
            proof {
                lemma_split_once(
                    rest@,
                    '/',
                    match parts {
                        Some((a, b)) => Some((a@, b@)),
                        None => None,
                    },
                );
            }
            let (comp, tail) = match parts {
                Some((a, b)) => (a, Some(b)),
                None => (rest, None),
            };
            current = match current.step(comp) {
                Some(c) => c,
                None => {
                    return None;
                },
            };
            match tail {
                Some(t) => {
                    rest = t;
                },
                None => {
                    return Some(current);
                },
            }
        }
    }
}

/// A `PropertyError` as plain values.
pub enum PropertyErrorView {
    MissingProperty { name: Seq<char> },
    ParseProperty { name: Seq<char>, source: ParsePropertyValueError },
    MissingParentNode,
    MissingInterruptParentNode,
    InvalidPhandle { phandle: Phandle },
}

impl View for PropertyError {
    type V = PropertyErrorView;

    open spec fn view(&self) -> PropertyErrorView {
        match self {
            PropertyError::MissingProperty { name } => PropertyErrorView::MissingProperty {
                name: name@,
            },
            PropertyError::ParseProperty { name, source } => PropertyErrorView::ParseProperty {
                name: name@,
                source: *source,
            },
            PropertyError::MissingParentNode => PropertyErrorView::MissingParentNode,
            PropertyError::MissingInterruptParentNode => PropertyErrorView::MissingInterruptParentNode,
            PropertyError::InvalidPhandle { phandle } => PropertyErrorView::InvalidPhandle {
                phandle: *phandle,
            },
        }
    }
}

/// The first node of the table whose phandle is `ph`.
pub open spec fn spec_first_phandle(nodes: Seq<NodeInnerView>, ph: u32) -> Option<int> {
    if exists|i: int| first_with_phandle(nodes, ph, i) {
        Some(choose|i: int| first_with_phandle(nodes, ph, i))
    } else {
        None
    }
}

/// Only one node is the first with a given phandle.
pub proof fn lemma_first_phandle(nodes: Seq<NodeInnerView>, ph: u32, i: int)
    requires
        first_with_phandle(nodes, ph, i),
    ensures
        spec_first_phandle(nodes, ph) == Some(i),
{
    let j = choose|j: int| first_with_phandle(nodes, ph, j);
    if j < i {
        assert(spec_phandle_of(nodes[j]) != Some(ph));
    } else if i < j {
        assert(spec_phandle_of(nodes[i]) != Some(ph));
    }
}

/// Without a node of phandle `ph` there is no first one.
pub proof fn lemma_no_phandle(nodes: Seq<NodeInnerView>, ph: u32)
    requires
        no_phandle(nodes, ph),
    ensures
        spec_first_phandle(nodes, ph) is None,
{
    if exists|i: int| first_with_phandle(nodes, ph, i) {
        let j = choose|j: int| first_with_phandle(nodes, ph, j);
        assert(spec_phandle_of(nodes[j]) != Some(ph));
    }
}

/// The interrupt parent of node `cur`: the node named by its
/// `interrupt-parent` property, or else its parent.
pub open spec fn spec_interrupt_parent(nodes: Seq<NodeInnerView>, cur: int) -> Result<
    Option<int>,
    PropertyErrorView,
> {
    match find_prop(nodes[cur].properties, "interrupt-parent"@) {
        None => Ok(
            match nodes[cur].parent {
                Some(p) => Some(p as int),
                None => None,
            },
        ),
        Some(pv) => match spec_parse_u32(pv.1) {
            Err(e) => Err(PropertyErrorView::ParseProperty { name: "interrupt-parent"@, source: e }),
            Ok(ph) => match spec_first_phandle(nodes, ph) {
                Some(i) => Ok(Some(i)),
                None => Err(PropertyErrorView::InvalidPhandle { phandle: Phandle(ph) }),
            },
        },
    }
}

/// Whether a node is an interrupt controller.
pub open spec fn spec_is_controller(n: NodeInnerView) -> bool {
    find_prop(n.properties, "interrupt-controller"@) is Some
}

/// The root of the interrupt domain of node `cur`: the first interrupt
/// controller met going up the interrupt parents, taking at most `fuel`
/// steps.
pub open spec fn spec_domain_root(nodes: Seq<NodeInnerView>, cur: int, fuel: nat) -> Result<
    int,
    PropertyErrorView,
>
    decreases fuel,
{
    if spec_is_controller(nodes[cur]) {
        Ok(cur)
    } else if fuel == 0 {
        Err(PropertyErrorView::MissingInterruptParentNode)
    } else {
        match spec_interrupt_parent(nodes, cur) {
            Err(e) => Err(e),
            Ok(None) => Err(PropertyErrorView::MissingInterruptParentNode),
            Ok(Some(n)) => spec_domain_root(nodes, n, (fuel - 1) as nat),
        }
    }
}

/// The number held by a node's property `name`, read as a `u32`.
pub open spec fn spec_cells(n: NodeInnerView, name: Seq<char>) -> Result<int, PropertyErrorView> {
    match find_prop(n.properties, name) {
        None => Err(PropertyErrorView::MissingProperty { name }),
        Some(pv) => match spec_parse_u32(pv.1) {
            Ok(v) => Ok(v as int),
            Err(e) => Err(PropertyErrorView::ParseProperty { name, source: e }),
        },
    }
}

/// The big-endian `u32` cells of `b`.
pub open spec fn be_cells(b: Seq<u8>) -> Seq<u32> {
    Seq::new(b.len() / 4, |j: int| be_u32(b, 4 * j))
}

/// An interrupt as plain values: the table indexes of the root of its
/// domain and of its interrupt parent, and its specifier cells.
pub struct InterruptView {
    pub domain_root: int,
    pub parent: int,
    pub specifier: Seq<u32>,
}

/// An interrupt read from the front of `bytes`, the value of property
/// `name`, for the interrupt parent `ip`, and the bytes after it.
pub open spec fn spec_from_parts(nodes: Seq<NodeInnerView>, name: Seq<char>, ip: int, bytes: Seq<u8>) -> Result<
    (InterruptView, Seq<u8>),
    PropertyErrorView,
> {
    match spec_domain_root(nodes, ip, nodes.len()) {
        Err(e) => Err(e),
        Ok(root) => match spec_cells(nodes[root], "#interrupt-cells"@) {
            Err(e) => Err(e),
            Ok(n) => if n * 4 > bytes.len() {
                Err(
                    PropertyErrorView::ParseProperty {
                        name,
                        source: ParsePropertyValueError::ValueLengthIsTooSmall,
                    },
                )
            } else {
                Ok(
                    (
                        InterruptView {
                            domain_root: root,
                            parent: ip,
                            specifier: be_cells(bytes.subrange(0, n * 4)),
                        },
                        bytes.subrange(n * 4, bytes.len() as int),
                    ),
                )
            },
        },
    }
}

/// A node's interrupt: the root of its interrupt domain, its interrupt
/// parent and its specifier.
#[derive(Debug, Clone)]
pub struct Interrupt<'t> {
    pub interrupt_domain_root: Node<'t>,
    pub interrupt_parent: Node<'t>,
    pub specifier: Vec<u32>,
}

/// `r` is the interrupt `v` of the tree `tree`.
pub open spec fn interrupt_is(r: Interrupt, v: InterruptView, tree: Devicetree) -> bool {
    &&& r.interrupt_domain_root.spec_index() == v.domain_root
    &&& r.interrupt_domain_root.spec_tree() == tree
    &&& r.interrupt_parent.spec_index() == v.parent
    &&& r.interrupt_parent.spec_tree() == tree
    &&& r.specifier@ == v.specifier
}

impl<'t> Interrupt<'t> {
    /// Reads one interrupt of property `property_name` for the interrupt
    /// parent `interrupt_parent` from the front of `source_bytes`, which
    /// then holds what follows it. The root of the interrupt domain is
    /// sought up the interrupt parents; a chain that goes round without
    /// meeting an interrupt controller has none.
    pub fn from_parts(
        property_name: &str,
        interrupt_parent: Node<'t>,
        source_bytes: &mut &[u8],
    ) -> (r: Result<Self, PropertyError>)
        ensures
            match (
                r,
                spec_from_parts(
                    interrupt_parent.spec_tree()@,
                    property_name@,
                    interrupt_parent.spec_index(),
                    old(source_bytes)@,
                ),
            ) {
                (Ok(i), Ok((v, rest))) => interrupt_is(i, v, interrupt_parent.spec_tree())
                    && final(source_bytes)@ == rest,
                (Err(e), Err(ev)) => e@ == ev,
                _ => false,
            },
    {
        let root = match interrupt_parent.domain_root() {
            Ok(n) => n,
            Err(e) => {
                return Err(e);
            },
        };
        let cells = match root.interrupt_cells() {
            Ok(n) => n,
            Err(e) => {
                return Err(e);
            },
        };
        proof {
            reveal_strlit("#interrupt-cells");
        }
        let bytes: &[u8] = *source_bytes;
        if cells > bytes.len() / 4 {
            proof {
                assert(cells * 4 > bytes@.len()) by (nonlinear_arith)
                    requires
                        cells > bytes@.len() / 4,
                ;
            }
            return Err(
                PropertyError::ParseProperty {
                    name: property_name.to_owned(),
                    source: ParsePropertyValueError::ValueLengthIsTooSmall,
                },
            );
        }
        proof {
            assert(cells * 4 <= bytes@.len()) by (nonlinear_arith)
                requires
                    cells <= bytes@.len() / 4,
            ;
        }
        let len = cells * 4;
        proof {
            assert((len as int) / 4 == cells) by (nonlinear_arith)
                requires
                    len == cells * 4,
            ;
        }
        let mut specifier: Vec<u32> = Vec::new();
        let mut k: usize = 0;
        while k < cells
            invariant
                k <= cells,
                cells * 4 <= bytes@.len(),
                len == cells * 4,
                specifier@ =~= be_cells(bytes@.subrange(0, len as int)).subrange(0, k as int),
            decreases cells - k,
        {
            let v = be_u32_at(bytes, 4 * k);
            proof {
                assert(be_u32(bytes@, 4 * k) == be_u32(bytes@.subrange(0, len as int), 4 * k)) by {
                    lemma_be_u32_prefix(bytes@, len as int, 4 * k);
                }
            }
            specifier.push(v);
            k += 1;
        }
        proof {
            assert(be_cells(bytes@.subrange(0, len as int)).len() == cells);
            assert(specifier@ =~= be_cells(bytes@.subrange(0, len as int)));
        }
        *source_bytes = slice_from(bytes, len);
        Ok(Interrupt { interrupt_domain_root: root, interrupt_parent, specifier })
    }
}

/// Reading a big-endian `u32` within the first `len` bytes of `s` reads the
/// same in the prefix.
proof fn lemma_be_u32_prefix(s: Seq<u8>, len: int, off: int)
    requires
        0 <= off,
        off + 4 <= len <= s.len(),
    ensures
        be_u32(s, off) == be_u32(s.subrange(0, len), off),
{
    let p = s.subrange(0, len);
    assert(p[off] == s[off] && p[off + 1] == s[off + 1] && p[off + 2] == s[off + 2] && p[off + 3]
        == s[off + 3]);
}

/// The bytes of `b` from `from` on.
fn slice_from<'a>(b: &'a [u8], from: usize) -> (r: &'a [u8])
    requires
        from <= b@.len(),
    ensures
        r@ == b@.subrange(from as int, b@.len() as int),
{
    &b[from..b.len()]
}

impl<'t> Node<'t> {
    /// The root of the interrupt domain of the node: the first interrupt
    /// controller met going up the interrupt parents, starting with the
    /// node itself.
    fn domain_root(&self) -> (r: Result<Node<'t>, PropertyError>)
        ensures
            match (r, spec_domain_root(self.spec_tree()@, self.spec_index(), self.spec_tree()@.len())) {
                (Ok(n), Ok(i)) => n.spec_index() == i && n.spec_tree() == self.spec_tree(),
                (Err(e), Err(ev)) => e@ == ev,
                _ => false,
            },
    {
        proof {
            use_type_invariant(self);
        }
        let mut cur = *self;
        let mut fuel: usize = self.tree.nodes.len();
        loop
            invariant
                cur.spec_tree() == self.spec_tree(),
                spec_domain_root(self.spec_tree()@, self.spec_index(), self.spec_tree()@.len())
                    == spec_domain_root(self.spec_tree()@, cur.spec_index(), fuel as nat),
            decreases fuel,
        {
            if cur.is_interrupt_controller() {
                return Ok(cur);
            }
            if fuel == 0 {
                return Err(PropertyError::MissingInterruptParentNode);
            }
            match cur.interrupt_parent_node() {
                Err(e) => {
                    return Err(e);
                },
                Ok(None) => {
                    return Err(PropertyError::MissingInterruptParentNode);
                },
                Ok(Some(n)) => {
                    cur = n;
                },
            }
            fuel -= 1;
        }
    }
}

/// The interrupts of an `interrupts-extended` value `bytes`: each is the
/// phandle of its interrupt parent followed by its specifier.
pub open spec fn spec_interrupts_extended(nodes: Seq<NodeInnerView>, bytes: Seq<u8>) -> Result<
    Seq<InterruptView>,
    PropertyErrorView,
>
    decreases bytes.len(),
{
    if bytes.len() == 0 {
        Ok(Seq::empty())
    } else if bytes.len() < 4 {
        Err(
            PropertyErrorView::ParseProperty {
                name: "interrupts-extended"@,
                source: ParsePropertyValueError::ValueLengthIsTooSmall,
            },
        )
    } else {
        let ph = be_u32(bytes, 0);
        match spec_first_phandle(nodes, ph) {
            None => Err(PropertyErrorView::InvalidPhandle { phandle: Phandle(ph) }),
            Some(ip) => match spec_from_parts(
                nodes,
                "interrupts-extended"@,
                ip,
                bytes.subrange(4, bytes.len() as int),
            ) {
                Err(e) => Err(e),
                Ok((iv, rest)) => if rest.len() < bytes.len() {
                    match spec_interrupts_extended(nodes, rest) {
                        Ok(tail) => Ok(seq![iv] + tail),
                        Err(e) => Err(e),
                    }
                } else {
                    Err(PropertyErrorView::MissingInterruptParentNode)
                },
            },
        }
    }
}

/// The interrupts of an `interrupts` value `bytes`, all for the interrupt
/// parent `ip`. With specifiers of no cells, a value that is not empty is
/// refused as too long.
pub open spec fn spec_interrupts_plain(nodes: Seq<NodeInnerView>, ip: int, bytes: Seq<u8>) -> Result<
    Seq<InterruptView>,
    PropertyErrorView,
>
    decreases bytes.len(),
{
    if bytes.len() == 0 {
        Ok(Seq::empty())
    } else {
        match spec_from_parts(nodes, "interrupts"@, ip, bytes) {
            Err(e) => Err(e),
            Ok((iv, rest)) => if rest.len() < bytes.len() {
                match spec_interrupts_plain(nodes, ip, rest) {
                    Ok(tail) => Ok(seq![iv] + tail),
                    Err(e) => Err(e),
                }
            } else {
                Err(
                    PropertyErrorView::ParseProperty {
                        name: "interrupts"@,
                        source: ParsePropertyValueError::ValueLengthIsTooLarge,
                    },
                )
            },
        }
    }
}

/// The interrupts of node `i`: from `interrupts-extended` if it has it,
/// else from `interrupts` with the node's interrupt parent.
pub open spec fn spec_interrupts(nodes: Seq<NodeInnerView>, i: int) -> Result<
    Seq<InterruptView>,
    PropertyErrorView,
> {
    match find_prop(nodes[i].properties, "interrupts-extended"@) {
        Some(pv) => spec_interrupts_extended(nodes, pv.1),
        None => match find_prop(nodes[i].properties, "interrupts"@) {
            Some(pv) => match spec_interrupt_parent(nodes, i) {
                Err(e) => Err(e),
                Ok(None) => Err(PropertyErrorView::MissingInterruptParentNode),
                Ok(Some(ip)) => spec_interrupts_plain(nodes, ip, pv.1),
            },
            None => Err(
                PropertyErrorView::MissingProperty { name: "interrupts or interrupts-extended"@ },
            ),
        },
    }
}

/// `r` holds the interrupts `v` of the tree `tree`, in order.
pub open spec fn interrupts_are(r: Seq<Interrupt>, v: Seq<InterruptView>, tree: Devicetree) -> bool {
    &&& r.len() == v.len()
    &&& forall|k: int| 0 <= k < r.len() ==> interrupt_is(#[trigger] r[k], v[k], tree)
}

/// Appending one more read interrupt to those read so far.
proof fn lemma_append_interrupt(done: Seq<InterruptView>, iv: InterruptView)
    ensures
        forall|tail: Seq<InterruptView>| #![auto] done + (seq![iv] + tail) == done.push(iv) + tail,
{
    assert forall|tail: Seq<InterruptView>| #![auto] done + (seq![iv] + tail) =~= done.push(iv)
        + tail by {}
}

impl<'t> Node<'t> {
    /// The interrupts the node generates: those of its `interrupts-extended`
    /// property if it has it, else those of its `interrupts` property with
    /// its interrupt parent.
    pub fn interrupts(&self) -> (r: Result<Vec<Interrupt<'t>>, PropertyError>)
        ensures
            match (r, spec_interrupts(self.spec_tree()@, self.spec_index())) {
                (Ok(v), Ok(s)) => interrupts_are(v@, s, self.spec_tree()),
                (Err(e), Err(ev)) => e@ == ev,
                _ => false,
            },
    {
        let ghost nodes = self.spec_tree()@;
        let ghost tree = self.spec_tree();
        proof {
            reveal_strlit("interrupts-extended");
        }
        if let Some(prop) = self.find_property("interrupts-extended") {
            let mut value: &[u8] = prop.raw_value();
            let mut interrupts: Vec<Interrupt<'t>> = Vec::new();
            let ghost v0 = value@;
            let ghost mut done: Seq<InterruptView> = Seq::empty();
            loop
                invariant
                    nodes == tree@,
                    tree == self.spec_tree(),
                    spec_interrupts(nodes, self.spec_index()) == spec_interrupts_extended(nodes, v0),
                    spec_interrupts_extended(nodes, v0) == match spec_interrupts_extended(
                        nodes,
                        value@,
                    ) {
                        Ok(tail) => Ok(done + tail),
                        Err(e) => Err(e),
                    },
                    interrupts_are(interrupts@, done, tree),
                ensures
                    spec_interrupts_extended(nodes, v0) == Ok::<
                        Seq<InterruptView>,
                        PropertyErrorView,
                    >(done),
                    interrupts_are(interrupts@, done, tree),
                decreases value@.len(),
            {
                if value.len() == 0 {
                    proof {
                        assert(done + Seq::<InterruptView>::empty() =~= done);
                    }
                    break ;
                }
                if value.len() < 4 {
                    return Err(
                        PropertyError::ParseProperty {
                            name: "interrupts-extended".to_owned(),
                            source: ParsePropertyValueError::ValueLengthIsTooSmall,
                        },
                    );
                }
                let phandle = Phandle(be_u32_at(value, 0));
                let interrupt_parent = match self.tree.get_node_by_phandle(phandle) {
                    Some(n) => n,
                    None => {
                        proof {
                            lemma_no_phandle(nodes, phandle.0);
                        }
                        return Err(PropertyError::InvalidPhandle { phandle });
                    },
                };
                proof {
                    lemma_first_phandle(nodes, phandle.0, interrupt_parent.spec_index());
                }
                let mut rest = slice_from(value, 4);
                let ghost parts = spec_from_parts(
                    nodes,
                    "interrupts-extended"@,
                    interrupt_parent.spec_index(),
                    rest@,
                );
                let interrupt = match Interrupt::from_parts(
                    "interrupts-extended",
                    interrupt_parent,
                    &mut rest,
                ) {
                    Ok(i) => i,
                    Err(e) => {
                        return Err(e);
                    },
                };
                proof {
                    let iv = parts->Ok_0.0;
                    lemma_append_interrupt(done, iv);
                    done = done.push(iv);
                }
                interrupts.push(interrupt);
                value = rest;
            }
            return Ok(interrupts);
        }
        proof {
            reveal_strlit("interrupts");
        }
        if let Some(prop) = self.find_property("interrupts") {
            let mut value: &[u8] = prop.raw_value();
            let interrupt_parent = match self.interrupt_parent_node() {
                Err(e) => {
                    return Err(e);
                },
                Ok(None) => {
                    return Err(PropertyError::MissingInterruptParentNode);
                },
                Ok(Some(n)) => n,
            };
            let mut interrupts: Vec<Interrupt<'t>> = Vec::new();
            let ghost v0 = value@;
            let ghost ip = interrupt_parent.spec_index();
            let ghost mut done: Seq<InterruptView> = Seq::empty();
            loop
                invariant
                    nodes == tree@,
                    tree == self.spec_tree(),
                    interrupt_parent.spec_tree() == tree,
                    interrupt_parent.spec_index() == ip,
                    spec_interrupts(nodes, self.spec_index()) == spec_interrupts_plain(nodes, ip, v0),
                    spec_interrupts_plain(nodes, ip, v0) == match spec_interrupts_plain(
                        nodes,
                        ip,
                        value@,
                    ) {
                        Ok(tail) => Ok(done + tail),
                        Err(e) => Err(e),
                    },
                    interrupts_are(interrupts@, done, tree),
                ensures
                    spec_interrupts_plain(nodes, ip, v0) == Ok::<
                        Seq<InterruptView>,
                        PropertyErrorView,
                    >(done),
                    interrupts_are(interrupts@, done, tree),
                decreases value@.len(),
            {
                if value.len() == 0 {
                    proof {
                        assert(done + Seq::<InterruptView>::empty() =~= done);
                    }
                    break ;
                }
                let mut rest = value;
                let ghost parts = spec_from_parts(nodes, "interrupts"@, ip, rest@);
                let interrupt = match Interrupt::from_parts("interrupts", interrupt_parent, &mut rest) {
                    Ok(i) => i,
                    Err(e) => {
                        return Err(e);
                    },
                };
                if rest.len() == value.len() {
                    return Err(
                        PropertyError::ParseProperty {
                            name: "interrupts".to_owned(),
                            source: ParsePropertyValueError::ValueLengthIsTooLarge,
                        },
                    );
                }
                proof {
                    let iv = parts->Ok_0.0;
                    lemma_append_interrupt(done, iv);
                    done = done.push(iv);
                }
                interrupts.push(interrupt);
                value = rest;
            }
            return Ok(interrupts);
        }
        Err(PropertyError::MissingProperty { name: "interrupts or interrupts-extended".to_owned() })
    }
}

/// Appends `t` to `w` when there is a `t`.
pub open spec fn then_text(w: Seq<char>, t: Option<Seq<char>>) -> Option<Seq<char>> {
    match t {
        Some(x) => Some(w + x),
        None => None,
    }
}

/// The line that opens node `n` at depth `nest`, after an empty line: its
/// name (`/` for a nameless node at depth 0), its unit address, and `{`.
pub open spec fn head_text(n: NodeInnerView, nest: nat) -> Seq<char> {
    let name = if nest == 0 && n.name.len() == 0 {
        seq!['/']
    } else {
        n.name
    };
    seq!['\n'] + spaces(4 * nest) + name + (match n.address {
        Some(a) => seq!['@'] + a,
        None => Seq::empty(),
    }) + seq![' ', '{', '\n']
}

/// The lines of the properties `props` at depth `nest`: `name = value;`;
/// `None` when a value cannot be decoded.
pub open spec fn props_text(props: Seq<PropertyView>, nest: nat) -> Option<Seq<char>>
    decreases props.len(),
{
    if props.len() == 0 {
        Some(Seq::empty())
    } else {
        match spec_property_value(props[0].0, props[0].1) {
            Err(_) => None,
            Ok(v) => then_text(
                spaces(4 * nest) + props[0].0 + seq![' ', '=', ' '] + spec_value_text(v) + seq![
                    ';',
                    '\n',
                ],
                props_text(props.drop_first(), nest),
            ),
        }
    }
}

/// The text of node `i` at depth `nest` with all below it, as the
/// devicetree source format writes it; `None` when a property value cannot
/// be decoded.
pub open spec fn node_text(nodes: Seq<NodeInnerView>, i: int, nest: nat) -> Option<Seq<char>>
    decreases nodes.len() - i, 1int, 0int,
{
    if 0 <= i < nodes.len() {
        match props_text(nodes[i].properties, nest + 1) {
            None => None,
            Some(pt) => match children_text(nodes, i, nodes[i].children, nest + 1) {
                None => None,
                Some(ct) => Some(head_text(nodes[i], nest) + pt + ct + spaces(4 * nest) + seq![
                    '}',
                    ';',
                    '\n',
                ]),
            },
        }
    } else {
        None
    }
}

/// The texts of the children `ids` of node `parent`, one after another.
pub open spec fn children_text(nodes: Seq<NodeInnerView>, parent: int, ids: Seq<usize>, nest: nat) -> Option<
    Seq<char>,
>
    decreases nodes.len() - parent, 0int, ids.len(),
{
    if ids.len() == 0 {
        Some(Seq::empty())
    } else if parent < ids[0] < nodes.len() {
        match node_text(nodes, ids[0] as int, nest) {
            None => None,
            Some(t) => then_text(t, children_text(nodes, parent, ids.drop_first(), nest)),
        }
    } else {
        None
    }
}

impl<'t> Node<'t> {
    /// The text of the node and all below it, as the devicetree source
    /// format writes it; `None` when a property value cannot be decoded.
    pub fn to_text(&self) -> (r: Option<String>)
        ensures
            match (r, node_text(self.spec_tree()@, self.spec_index(), 0)) {
                (Some(s), Some(t)) => s@ == t,
                (None, None) => true,
                _ => false,
            },
    {
        let mut out = String::new();
        if self.write_text(0, &mut out) {
            assert(out@ =~= Seq::<char>::empty() + node_text(
                self.spec_tree()@,
                self.spec_index(),
                0,
            )->0);
            Some(out)
        } else {
            None
        }
    }

    /// Appends the text of the node at depth `nest`.
    fn write_text(&self, nest: usize, out: &mut String) -> (ok: bool)
        requires
            nest <= self.spec_index(),
        ensures
            match node_text(self.spec_tree()@, self.spec_index(), nest as nat) {
                Some(t) => ok && final(out)@ == old(out)@ + t,
                None => !ok,
            },
        decreases self.spec_tree()@.len() - self.spec_index(),
    {
        proof {
            use_type_invariant(self);
            use_type_invariant(self.tree);
            reveal_strlit("\n");
            reveal_strlit("/");
            reveal_strlit("@");
            reveal_strlit(" {\n");
        }
        let ghost nodes = self.spec_tree()@;
        let ghost i = self.spec_index();
        let table_len = self.tree.nodes.len();
        assert(nest < table_len);
        out.append("\n");
        push_indent(out, nest);
        let name = self.name();
        if nest == 0 && name.is_empty() {
            out.append("/");
        } else {
            out.append(name);
        }
        match self.address() {
            Some(a) => {
                out.append("@");
                out.append(a);
            },
            None => {},
        }
        out.append(" {\n");
        assert(out@ =~= old(out)@ + head_text(self@, nest as nat));
        let ghost head = old(out)@ + head_text(self@, nest as nat);
        let ghost n1 = (nest + 1) as nat;
        let props = self.properties();
        let ghost ps = self@.properties;
        let ghost mut w: Seq<char> = Seq::empty();
        let mut k: usize = 0;
        proof {
            assert(ps.subrange(0, ps.len() as int) =~= ps);
            assert(out@ =~= head + w);
            match props_text(ps, n1) {
                Some(t) => assert(w + t =~= t),
                None => {},
            }
        }
        while k < props.len()
            invariant
                props@.len() == ps.len(),
                forall|j: int| 0 <= j < props@.len() ==> property_is(#[trigger] props@[j], ps[j]),
                k <= ps.len(),
                nest < usize::MAX,
                n1 == nest + 1,
                out@ == head + w,
                props_text(ps, n1) == then_text(w, props_text(ps.subrange(k as int, ps.len() as int), n1)),
                nodes == self.spec_tree()@,
                0 <= i < nodes.len(),
                i == self.spec_index(),
                ps == nodes[i].properties,
            decreases ps.len() - k,
        {
            let p = props[k];
            let ghost rest = ps.subrange(k as int, ps.len() as int);
            proof {
                assert(rest.drop_first() =~= ps.subrange(k + 1, ps.len() as int));
                assert(rest[0] == ps[k as int]);
            }
            match p.value() {
                Err(_) => {
                    return false;
                },
                Ok(v) => {
                    let ghost before = out@;
                    push_indent(out, nest + 1);
                    out.append(p.name());
                    proof {
                        reveal_strlit(" = ");
                        reveal_strlit(";\n");
                    }
                    out.append(" = ");
                    let t = v.to_text();
                    out.append(t.as_str());
                    out.append(";\n");
                    let ghost line = spaces(4 * n1) + ps[k as int].0 + seq![' ', '=', ' ']
                        + spec_value_text(v@) + seq![';', '\n'];
                    proof {
                        assert(out@ =~= before + line);
                        match props_text(ps.subrange(k + 1, ps.len() as int), n1) {
                            Some(x) => assert(w + (line + x) =~= (w + line) + x),
                            None => {},
                        }
                        w = w + line;
                    }
                },
            }
            k += 1;
        }
        let ghost pt = w;
        proof {
            assert(ps.subrange(k as int, ps.len() as int) =~= Seq::<PropertyView>::empty());
            assert(w + Seq::<char>::empty() =~= w);
        }
        let ghost tail = spaces(4 * nest as nat) + seq!['}', ';', '\n'];
        let children = self.children();
        let ghost ids = self@.children;
        let ghost mut cw: Seq<char> = Seq::empty();
        let mut k: usize = 0;
        proof {
            assert(ids.subrange(0, ids.len() as int) =~= ids);
            assert(out@ =~= head + pt + cw);
            match children_text(nodes, i, ids, n1) {
                Some(t) => assert(cw + t =~= t),
                None => {},
            }
        }
        while k < children.len()
            invariant
                children@.len() == ids.len(),
                forall|j: int|
                    #![trigger children@[j]]
                    0 <= j < children@.len() ==> children@[j].spec_index() == ids[j]
                        && children@[j].spec_tree() == self.spec_tree() && children@[j]@.parent
                        == Some(self.spec_index() as usize),
                nodes == self.spec_tree()@,
                table_wf(nodes),
                0 <= i < nodes.len(),
                i == self.spec_index(),
                ids == nodes[i].children,
                k <= ids.len(),
                nest <= i,
                n1 == nest + 1,
                out@ == head + pt + cw,
                node_text(nodes, i, nest as nat) == match children_text(nodes, i, ids, n1) {
                    None => None,
                    Some(ct) => Some(head_text(nodes[i], nest as nat) + pt + ct + tail),
                },
                children_text(nodes, i, ids, n1) == then_text(
                    cw,
                    children_text(nodes, i, ids.subrange(k as int, ids.len() as int), n1),
                ),
            decreases ids.len() - k,
        {
            let c = children[k];
            let ghost rest = ids.subrange(k as int, ids.len() as int);
            proof {
                assert(rest.drop_first() =~= ids.subrange(k + 1, ids.len() as int));
                assert(rest[0] == ids[k as int]);
                assert(nodes[i].children[k as int] < nodes.len());
                assert(nodes[ids[k as int] as int].parent == Some(i as usize));
            }
            let ghost before = out@;
            if !c.write_text(nest + 1, out) {
                return false;
            }
            proof {
                let t = node_text(nodes, ids[k as int] as int, n1)->0;
                match children_text(nodes, i, ids.subrange(k + 1, ids.len() as int), n1) {
                    Some(x) => assert(cw + (t + x) =~= (cw + t) + x),
                    None => {},
                }
                assert(out@ =~= head + pt + (cw + t));
                cw = cw + t;
            }
            k += 1;
        }
        proof {
            assert(ids.subrange(k as int, ids.len() as int) =~= Seq::<usize>::empty());
            assert(cw + Seq::<char>::empty() =~= cw);
            reveal_strlit("};\n");
        }
        push_indent(out, nest);
        out.append("};\n");
        assert(out@ =~= old(out)@ + (head_text(self@, nest as nat) + pt + cw + tail));
        true
    }
}

} // verus!
