//! Documents as YAML text, read and written by `serde_yaml`.

use crate::document::{
    entries_view, items_view, lemma_mapping_view, lemma_sequence_view, Node, NodeView,
};
use crate::error::RunError;
use serde_yaml::value::Tag;
use serde_yaml::Number;
use vstd::prelude::*;

verus! {

/// `serde_yaml::Value`, the tree that the parser builds and the writer reads.
#[verifier::external_type_specification]
#[verifier::external_body]
pub struct ExYamlValue(serde_yaml::Value);

/// `serde_yaml::Error`, carried from the parser or writer to the error message.
#[verifier::external_type_specification]
#[verifier::external_body]
pub struct ExYamlError(serde_yaml::Error);

/// What a `serde_yaml::Value` holds: its variant, and in it the scalar, the
/// elements in order, the entries in order, or the tag and what it is on.
pub uninterp spec fn yaml_tree(value: serde_yaml::Value) -> NodeView;

/// What `serde_yaml` reads from `text` as a single value; `None` where it
/// reports an error.
pub uninterp spec fn yaml_parsed(text: Seq<char>) -> Option<NodeView>;

/// The entries of the `serde_yaml::Mapping` that is collected from `entries`:
/// where `serde_yaml` finds two keys equal, one entry stands for both.
pub uninterp spec fn yaml_collected(entries: Seq<(NodeView, NodeView)>) -> Seq<(NodeView, NodeView)>;

/// The YAML text that `serde_yaml` writes for a value that holds `tree`;
/// `None` where it reports an error.
pub uninterp spec fn yaml_text(tree: NodeView) -> Option<Seq<char>>;

/// One level of a `serde_yaml::Value`: its variant, with what is below still
/// in the outside type.
pub enum Level {
    Null,
    Bool(bool),
    Number(Number),
    String(String),
    Sequence(Vec<serde_yaml::Value>),
    Mapping(Vec<(serde_yaml::Value, serde_yaml::Value)>),
    Tagged(Tag, Box<serde_yaml::Value>),
}

/// The trees of `items`, in order.
pub open spec fn item_trees(items: Seq<serde_yaml::Value>) -> Seq<NodeView> {
    Seq::new(items.len(), |at: int| yaml_tree(items[at]))
}

/// The trees of the keys and values of `entries`, in order.
pub open spec fn entry_trees(entries: Seq<(serde_yaml::Value, serde_yaml::Value)>) -> Seq<
    (NodeView, NodeView),
> {
    Seq::new(entries.len(), |at: int| (yaml_tree(entries[at].0), yaml_tree(entries[at].1)))
}

/// The tree that a level stands for.
pub open spec fn level_tree(level: Level) -> NodeView {
    match level {
        Level::Null => NodeView::Null,
        Level::Bool(flag) => NodeView::Bool(flag),
        Level::Number(number) => NodeView::Number(number),
        Level::String(text) => NodeView::String(text@),
        Level::Sequence(items) => NodeView::Sequence(item_trees(items@)),
        Level::Mapping(entries) => NodeView::Mapping(entry_trees(entries@)),
        Level::Tagged(tag, inner) => NodeView::Tagged(tag, Box::new(yaml_tree(*inner))),
    }
}

/// `serde_yaml::from_str` at the type `serde_yaml::Value`: the value holds
/// what the text denotes, and an error comes exactly where it denotes nothing.
#[verifier::external_body]
fn yaml_from_str(text: &str) -> (outcome: Result<serde_yaml::Value, serde_yaml::Error>)
    ensures
        match outcome {
            Ok(value) => yaml_parsed(text@) == Some(yaml_tree(value)),
            Err(_) => yaml_parsed(text@) is None,
        },
{
    serde_yaml::from_str(text)
}

/// Takes a `serde_yaml::Value` apart, one variant to one variant: the level
/// stands for the tree that the value holds.
#[verifier::external_body]
fn yaml_level(value: serde_yaml::Value) -> (level: Level)
    ensures
        level_tree(level) == yaml_tree(value),
{
    match value {
        serde_yaml::Value::Null => Level::Null,
        serde_yaml::Value::Bool(flag) => Level::Bool(flag),
        serde_yaml::Value::Number(number) => Level::Number(number),
        serde_yaml::Value::String(text) => Level::String(text),
        serde_yaml::Value::Sequence(items) => Level::Sequence(items),
        serde_yaml::Value::Mapping(entries) => Level::Mapping(entries.into_iter().collect()),
        serde_yaml::Value::Tagged(tagged) => Level::Tagged(tagged.tag, Box::new(tagged.value)),
    }
}

/// Puts a level together as a `serde_yaml::Value`, one variant to one
/// variant, the entries of a mapping collected into a `serde_yaml::Mapping`:
/// the value holds the tree that the level stands for, a mapping with the
/// entries that were collected.
#[verifier::external_body]
fn yaml_from_level(level: Level) -> (value: serde_yaml::Value)
    ensures
        yaml_tree(value) == match level_tree(level) {
            NodeView::Mapping(entries) => NodeView::Mapping(yaml_collected(entries)),
            tree => tree,
        },
{
    match level {
        Level::Null => serde_yaml::Value::Null,
        Level::Bool(flag) => serde_yaml::Value::Bool(flag),
        Level::Number(number) => serde_yaml::Value::Number(number),
        Level::String(text) => serde_yaml::Value::String(text),
        Level::Sequence(items) => serde_yaml::Value::Sequence(items),
        Level::Mapping(entries) => serde_yaml::Value::Mapping(entries.into_iter().collect()),
        Level::Tagged(tag, inner) => serde_yaml::Value::Tagged(
            Box::new(serde_yaml::value::TaggedValue { tag, value: *inner }),
        ),
    }
}

/// `serde_yaml::to_string` at the type `serde_yaml::Value`: the text is the
/// one written for what the value holds, and an error comes exactly where
/// none is written.
#[verifier::external_body]
fn yaml_to_string(value: &serde_yaml::Value) -> (outcome: Result<String, serde_yaml::Error>)
    ensures
        match outcome {
            Ok(text) => yaml_text(yaml_tree(*value)) == Some(text@),
            Err(_) => yaml_text(yaml_tree(*value)) is None,
        },
{
    serde_yaml::to_string(value)
}

/// The `Display` text of a `serde_yaml::Error`. Nothing is claimed of it.
#[verifier::external_body]
fn yaml_error_text(error: &serde_yaml::Error) -> String {
    error.to_string()
}

/// The document that `value` holds.
pub fn node_from_yaml(value: serde_yaml::Value) -> (node: Node)
    ensures
        node@ == yaml_tree(value),
    decreases yaml_tree(value),
{
    match yaml_level(value) {
        Level::Null => Node::Null,
        Level::Bool(flag) => Node::Bool(flag),
        Level::Number(number) => Node::Number(number),
        Level::String(text) => Node::String(text),
        Level::Sequence(items) => {
            let ghost trees = item_trees(items@);
            let mut nodes: Vec<Node> = Vec::new();
            for item in iter: items
                invariant
                    trees == item_trees(iter.seq()),
                    yaml_tree(value) == NodeView::Sequence(trees),
                    nodes.len() == iter.index(),
                    forall|at: int| 0 <= at < nodes.len() ==> (#[trigger] nodes@[at])@ == trees[at],
            {
                assert(yaml_tree(item) == yaml_tree(value)->Sequence_0[nodes.len() as int]);
                nodes.push(node_from_yaml(item));
            }
            proof {
                lemma_sequence_view(nodes);
                assert(items_view(nodes@) =~= trees);
            }
            Node::Sequence(nodes)
        },
        Level::Mapping(entries) => {
            let ghost trees = entry_trees(entries@);
            let mut nodes: Vec<(Node, Node)> = Vec::new();
            for entry in iter: entries
                invariant
                    trees == entry_trees(iter.seq()),
                    yaml_tree(value) == NodeView::Mapping(trees),
                    nodes.len() == iter.index(),
                    forall|at: int|
                        0 <= at < nodes.len() ==> ((#[trigger] nodes@[at]).0@, nodes@[at].1@)
                            == trees[at],
            {
                assert(yaml_tree(entry.0) == yaml_tree(value)->Mapping_0[nodes.len() as int].0);
                assert(yaml_tree(entry.1) == yaml_tree(value)->Mapping_0[nodes.len() as int].1);
                let key = node_from_yaml(entry.0);
                let held = node_from_yaml(entry.1);
                nodes.push((key, held));
            }
            proof {
                lemma_mapping_view(nodes);
                assert(entries_view(nodes@) =~= trees);
            }
            Node::Mapping(nodes)
        },
        Level::Tagged(tag, inner) => {
            assert(*(yaml_tree(value)->Tagged_1) == yaml_tree(*inner));
            Node::Tagged(tag, Box::new(node_from_yaml(*inner)))
        },
    }
}

/// The tree of the `serde_yaml::Value` that is built for a document: the
/// document's own, but that the entries of every mapping are collected into a
/// `serde_yaml::Mapping`.
pub open spec fn yaml_form(tree: NodeView) -> NodeView
    decreases tree, 0nat,
{
    match tree {
        NodeView::Sequence(items) => NodeView::Sequence(items_formed(items)),
        NodeView::Mapping(entries) => NodeView::Mapping(yaml_collected(entries_formed(entries))),
        NodeView::Tagged(tag, inner) => NodeView::Tagged(tag, Box::new(yaml_form(*inner))),
        _ => tree,
    }
}

/// The forms of `items`, in order.
pub open spec fn items_formed(items: Seq<NodeView>) -> Seq<NodeView>
    decreases items, 1nat,
{
    Seq::new(
        items.len(),
        |at: int|
            if 0 <= at < items.len() {
                yaml_form(items[at])
            } else {
                NodeView::Null
            },
    )
}

/// The forms of the keys and values of `entries`, in order.
pub open spec fn entries_formed(entries: Seq<(NodeView, NodeView)>) -> Seq<(NodeView, NodeView)>
    decreases entries, 1nat,
{
    Seq::new(
        entries.len(),
        |at: int|
            if 0 <= at < entries.len() {
                (yaml_form(entries[at].0), yaml_form(entries[at].1))
            } else {
                (NodeView::Null, NodeView::Null)
            },
    )
}

/// The `serde_yaml::Value` for the document `node`.
pub fn node_to_yaml(node: &Node) -> (value: serde_yaml::Value)
    ensures
        yaml_tree(value) == yaml_form(node@),
    decreases node,
{
    match node {
        Node::Null => yaml_from_level(Level::Null),
        Node::Bool(flag) => yaml_from_level(Level::Bool(*flag)),
        Node::Number(number) => yaml_from_level(Level::Number(number.clone())),
        Node::String(text) => yaml_from_level(Level::String(text.clone())),
        Node::Sequence(nodes) => {
            let mut items: Vec<serde_yaml::Value> = Vec::new();
            let mut index: usize = 0;
            while index < nodes.len()
                invariant
                    index <= nodes.len(),
                    items.len() == index,
                    *node == Node::Sequence(*nodes),
                    forall|at: int|
                        0 <= at < index ==> yaml_tree(#[trigger] items@[at]) == yaml_form(
                            nodes@[at]@,
                        ),
                decreases nodes.len() - index,
            {
                assert(nodes[index as int] == node->Sequence_0[index as int]);
                items.push(node_to_yaml(&nodes[index]));
                index += 1;
            }
            proof {
                lemma_sequence_view(*nodes);
                assert(item_trees(items@) =~= items_formed(node@->Sequence_0));
            }
            yaml_from_level(Level::Sequence(items))
        },
        Node::Mapping(nodes) => {
            let mut entries: Vec<(serde_yaml::Value, serde_yaml::Value)> = Vec::new();
            let mut index: usize = 0;
            while index < nodes.len()
                invariant
                    index <= nodes.len(),
                    entries.len() == index,
                    *node == Node::Mapping(*nodes),
                    forall|at: int|
                        0 <= at < index ==> {
                            &&& yaml_tree((#[trigger] entries@[at]).0) == yaml_form(nodes@[at].0@)
                            &&& yaml_tree(entries@[at].1) == yaml_form(nodes@[at].1@)
                        },
                decreases nodes.len() - index,
            {
                assert(nodes[index as int] == node->Mapping_0[index as int]);
                let key = node_to_yaml(&nodes[index].0);
                let held = node_to_yaml(&nodes[index].1);
                entries.push((key, held));
                index += 1;
            }
            proof {
                lemma_mapping_view(*nodes);
                assert(entry_trees(entries@) =~= entries_formed(node@->Mapping_0));
            }
            yaml_from_level(Level::Mapping(entries))
        },
        Node::Tagged(tag, inner) => {
            let below = node_to_yaml(inner);
            yaml_from_level(Level::Tagged(tag.clone(), Box::new(below)))
        },
    }
}

/// The document that the YAML text `text` holds.
pub fn parse_document(text: &str) -> (outcome: Result<Node, RunError>)
    ensures
        match outcome {
            Ok(document) => yaml_parsed(text@) == Some(document@),
            Err(error) => yaml_parsed(text@) is None && error@ is Document,
        },
{
    match yaml_from_str(text) {
        Ok(value) => Ok(node_from_yaml(value)),
        Err(error) => Err(RunError::Document { message: yaml_error_text(&error) }),
    }
}

/// The YAML text for `document`.
pub fn render_document(document: &Node) -> (outcome: Result<String, RunError>)
    ensures
        match outcome {
            Ok(text) => yaml_text(yaml_form(document@)) == Some(text@),
            Err(error) => yaml_text(yaml_form(document@)) is None && error@ is Render,
        },
{
    let value = node_to_yaml(document);
    match yaml_to_string(&value) {
        Ok(text) => Ok(text),
        Err(error) => Err(RunError::Render { message: yaml_error_text(&error) }),
    }
}

} // verus!
