//! Documents as trees of plain values: what a template is read from.

use vstd::prelude::*;
use crate::template::Text;

verus! {

/// A node of a document.
#[derive(Debug, PartialEq, Eq)]
pub enum Node {
    Null,
    Bool(bool),
    /// A number, as it is written.
    Number(String),
    Str(String),
    List(Vec<Node>),
    /// The entries of a mapping, in declared order.
    Table(Vec<(Node, Node)>),
    /// A node under a tag.
    Tagged(String, Box<Node>),
}

pub enum NodeView {
    Null,
    Bool(bool),
    Number(Text),
    Str(Text),
    List(Seq<NodeView>),
    Table(Seq<(NodeView, NodeView)>),
    Tagged(Text, Box<NodeView>),
}

/// The tree that a node stands for.
pub open spec fn tree(node: Node) -> NodeView
    decreases node,
{
    match node {
        Node::Null => NodeView::Null,
        Node::Bool(b) => NodeView::Bool(b),
        Node::Number(n) => NodeView::Number(n@),
        Node::Str(t) => NodeView::Str(t@),
        Node::List(items) => NodeView::List(
            Seq::new(
                items@.len(),
                |i: int|
                    if 0 <= i < items@.len() {
                        tree(items@[i])
                    } else {
                        NodeView::Null
                    },
            ),
        ),
        Node::Table(entries) => NodeView::Table(
            Seq::new(
                entries@.len(),
                |i: int|
                    if 0 <= i < entries@.len() {
                        (tree(entries@[i].0), tree(entries@[i].1))
                    } else {
                        (NodeView::Null, NodeView::Null)
                    },
            ),
        ),
        Node::Tagged(tag, node) => NodeView::Tagged(tag@, Box::new(tree(*node))),
    }
}

impl View for Node {
    type V = NodeView;

    open spec fn view(&self) -> NodeView {
        tree(*self)
    }
}

/// A value of `serde_yaml`, carried from the parser to the conversion.
#[verifier::external_type_specification]
#[verifier::external_body]
pub struct ExValue(serde_yaml::Value);

/// What `serde_yaml::from_str` reads out of a text: the tree of the value it
/// returns, or the message of its error.
pub uninterp spec fn yaml_value(text: Seq<char>) -> Result<NodeView, Seq<char>>;

/// The tree that a value of `serde_yaml` holds: its variant with its
/// contents, sequences and mappings in their order.
pub uninterp spec fn value_tree(value: serde_yaml::Value) -> NodeView;

/// What has been read out of a text, by its tree.
pub open spec fn read_view(r: Result<serde_yaml::Value, String>) -> Result<NodeView, Seq<char>> {
    match r {
        Ok(value) => Ok(value_tree(value)),
        Err(message) => Err(message@),
    }
}

/// Calls `serde_yaml::from_str` for a `serde_yaml::Value`. The contract gives
/// the outcome its name and claims nothing else of it. The error is handed on
/// as its message.
#[verifier::external_body]
fn read_yaml(text: &str) -> (r: Result<serde_yaml::Value, String>)
    ensures
        read_view(r) == yaml_value(text@),
{
    match serde_yaml::from_str::<serde_yaml::Value>(text) {
        Ok(value) => Ok(value),
        Err(e) => Err(e.to_string()),
    }
}

/// Takes a `serde_yaml::Value` apart, variant by variant, into a node. The
/// contract claims that the node stands for the tree the value holds. A number
/// is kept as `serde_yaml` prints it, a tag likewise.
#[verifier::external_body]
fn node_of(value: &serde_yaml::Value) -> (node: Node)
    ensures
        node@ == value_tree(*value),
{
    match value {
        serde_yaml::Value::Null => Node::Null,
        serde_yaml::Value::Bool(b) => Node::Bool(*b),
        serde_yaml::Value::Number(n) => Node::Number(n.to_string()),
        serde_yaml::Value::String(s) => Node::Str(s.clone()),
        serde_yaml::Value::Sequence(items) => Node::List(items.iter().map(node_of).collect()),
        serde_yaml::Value::Mapping(m) => Node::Table(m.iter().map(|(k, v)| (node_of(k), node_of(v))).collect()),
        serde_yaml::Value::Tagged(t) => Node::Tagged(t.tag.to_string(), Box::new(node_of(&t.value))),
    }
}

/// What has been parsed, by its view.
pub open spec fn parsed_view(r: Result<Node, String>) -> Result<NodeView, Seq<char>> {
    match r {
        Ok(node) => Ok(node@),
        Err(message) => Err(message@),
    }
}

/// Parses a text into a document: the tree that `serde_yaml` reads out of it,
/// or the message of its error.
pub fn parse_document(text: &str) -> (r: Result<Node, String>)
    ensures
        parsed_view(r) == yaml_value(text@),
{
    match read_yaml(text) {
        Ok(value) => Ok(node_of(&value)),
        Err(message) => Err(message),
    }
}

} // verus!
