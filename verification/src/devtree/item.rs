//! An item of a node: a property or a child node.
use vstd::prelude::*;

use super::node::Node;
use super::property::Property;

verus! {

/// An item of a node: a property or a child node.
#[derive(Clone, Copy, Debug, PartialEq, Eq)]
pub enum Item<'a> {
    Property(Property<'a>),
    Node(Node<'a>),
}

impl<'a> Item<'a> {
    /// The property, if the item is one.
    pub fn into_property(self) -> (r: Option<Property<'a>>)
        ensures
            r == (match self {
                Item::Property(p) => Some(p),
                Item::Node(_) => None,
            }),
    {
        match self {
            Item::Property(prop) => Some(prop),
            Item::Node(_) => None,
        }
    }

    /// The node, if the item is one.
    pub fn into_node(self) -> (r: Option<Node<'a>>)
        ensures
            r == (match self {
                Item::Property(_) => None,
                Item::Node(n) => Some(n),
            }),
    {
        match self {
            Item::Property(_) => None,
            Item::Node(node) => Some(node),
        }
    }

    /// The property, if the item is one.
    pub fn as_property(&self) -> (r: Option<&Property<'a>>)
        ensures
            r == (match self {
                Item::Property(p) => Some(p),
                Item::Node(_) => None,
            }),
    {
        match self {
            Item::Property(prop) => Some(prop),
            Item::Node(_) => None,
        }
    }

    /// The node, if the item is one.
    pub fn as_node(&self) -> (r: Option<&Node<'a>>)
        ensures
            r == (match self {
                Item::Property(_) => None,
                Item::Node(n) => Some(n),
            }),
    {
        match self {
            Item::Property(_) => None,
            Item::Node(node) => Some(node),
        }
    }

    /// Whether the item is a property.
    pub fn is_property(&self) -> (r: bool)
        ensures
            r == (self is Property),
    {
        matches!(self, Item::Property(_))
    }

    /// Whether the item is a node.
    pub fn is_node(&self) -> (r: bool)
        ensures
            r == (self is Node),
    {
        matches!(self, Item::Node(_))
    }
}

} // verus!
