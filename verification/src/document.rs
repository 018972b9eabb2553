//! The configuration document: a tree of mappings, sequences and scalars.

use crate::table::Text;
use serde_yaml::value::Tag;
use serde_yaml::Number;
use vstd::prelude::*;

verus! {

/// `serde_yaml::Number`, carried through unread.
#[verifier::external_type_specification]
#[verifier::external_body]
pub struct ExNumber(serde_yaml::Number);

/// `serde_yaml::value::Tag`, carried through unread.
#[verifier::external_type_specification]
#[verifier::external_body]
pub struct ExTag(serde_yaml::value::Tag);

/// `Clone::clone` of `serde_yaml::Number` returns the number it was given.
pub assume_specification[ <serde_yaml::Number as Clone>::clone ](
    number: &serde_yaml::Number,
) -> (copy: serde_yaml::Number)
    ensures
        copy == *number,
;

/// `Clone::clone` of `serde_yaml::value::Tag` returns the tag it was given.
pub assume_specification[ <serde_yaml::value::Tag as Clone>::clone ](
    tag: &serde_yaml::value::Tag,
) -> (copy: serde_yaml::value::Tag)
    ensures
        copy == *tag,
;

/// A node of a configuration document.
#[derive(Debug, PartialEq)]
pub enum Node {
    Null,
    Bool(bool),
    Number(Number),
    String(String),
    /// The elements, in document order.
    Sequence(Vec<Node>),
    /// The entries as (key, value), in document order.
    Mapping(Vec<(Node, Node)>),
    /// A node under a tag.
    Tagged(Tag, Box<Node>),
}

/// The model of a [`Node`]: the same tree over texts and sequences.
pub enum NodeView {
    Null,
    Bool(bool),
    Number(Number),
    String(Text),
    Sequence(Seq<NodeView>),
    Mapping(Seq<(NodeView, NodeView)>),
    Tagged(Tag, Box<NodeView>),
}

/// The model of `node`.
pub open spec fn node_view(node: Node) -> NodeView
    decreases node,
{
    match node {
        Node::Null => NodeView::Null,
        Node::Bool(b) => NodeView::Bool(b),
        Node::Number(n) => NodeView::Number(n),
        Node::String(s) => NodeView::String(s@),
        Node::Sequence(items) => NodeView::Sequence(
            Seq::new(
                items.len() as nat,
                |i: int|
                    if 0 <= i < items.len() {
                        node_view(items[i])
                    } else {
                        NodeView::Null
                    },
            ),
        ),
        Node::Mapping(entries) => NodeView::Mapping(
            Seq::new(
                entries.len() as nat,
                |i: int|
                    if 0 <= i < entries.len() {
                        (node_view(entries[i].0), node_view(entries[i].1))
                    } else {
                        (NodeView::Null, NodeView::Null)
                    },
            ),
        ),
        Node::Tagged(tag, inner) => NodeView::Tagged(tag, Box::new(node_view(*inner))),
    }
}

impl View for Node {
    type V = NodeView;

    open spec fn view(&self) -> NodeView {
        node_view(*self)
    }
}

impl Clone for Node {
    /// A copy that holds what `self` holds.
    fn clone(&self) -> (copy: Self)
        ensures
            copy@ == self@,
        decreases self,
    {
        match self {
            Node::Null => Node::Null,
            Node::Bool(flag) => Node::Bool(*flag),
            Node::Number(number) => Node::Number(number.clone()),
            Node::String(text) => Node::String(text.clone()),
            Node::Sequence(items) => {
                let mut copies: Vec<Node> = Vec::new();
                let mut index: usize = 0;
                while index < items.len()
                    invariant
                        index <= items.len(),
                        copies.len() == index,
                        *self == Node::Sequence(*items),
                        forall|at: int|
                            0 <= at < index ==> (#[trigger] copies@[at])@ == items@[at]@,
                    decreases items.len() - index,
                {
                    assert(items[index as int] == self->Sequence_0[index as int]);
                    copies.push(items[index].clone());
                    index += 1;
                }
                proof {
                    lemma_sequence_view(*items);
                    lemma_sequence_view(copies);
                    assert(items_view(copies@) =~= items_view(items@));
                }
                Node::Sequence(copies)
            },
            Node::Mapping(entries) => {
                let mut copies: Vec<(Node, Node)> = Vec::new();
                let mut index: usize = 0;
                while index < entries.len()
                    invariant
                        index <= entries.len(),
                        copies.len() == index,
                        *self == Node::Mapping(*entries),
                        forall|at: int|
                            0 <= at < index ==> {
                                &&& (#[trigger] copies@[at]).0@ == entries@[at].0@
                                &&& copies@[at].1@ == entries@[at].1@
                            },
                    decreases entries.len() - index,
                {
                    assert(entries[index as int] == self->Mapping_0[index as int]);
                    let key = entries[index].0.clone();
                    let held = entries[index].1.clone();
                    copies.push((key, held));
                    index += 1;
                }
                proof {
                    lemma_mapping_view(*entries);
                    lemma_mapping_view(copies);
                    assert(entries_view(copies@) =~= entries_view(entries@));
                }
                Node::Mapping(copies)
            },
            Node::Tagged(tag, inner) => Node::Tagged(tag.clone(), Box::new((**inner).clone())),
        }
    }
}

/// `value` without the tags around it.
pub open spec fn untagged(value: NodeView) -> NodeView
    decreases value,
{
    match value {
        NodeView::Tagged(_, inner) => untagged(*inner),
        _ => value,
    }
}

/// Entry `index` of `entries` is the first whose key is the string `key`.
pub open spec fn first_key_at(entries: Seq<(NodeView, NodeView)>, key: Text, index: int) -> bool {
    &&& 0 <= index < entries.len()
    &&& entries[index].0 == NodeView::String(key)
    &&& forall|earlier: int|
        0 <= earlier < index ==> (#[trigger] entries[earlier]).0 != NodeView::String(key)
}

/// The index of the first entry of `entries` whose key is the string `key`.
pub open spec fn position_of(entries: Seq<(NodeView, NodeView)>, key: Text) -> Option<int> {
    if exists|index: int| first_key_at(entries, key, index) {
        Some(choose|index: int| first_key_at(entries, key, index))
    } else {
        None
    }
}

/// At most one index is the first for a key.
pub proof fn lemma_first_key_unique(
    entries: Seq<(NodeView, NodeView)>,
    key: Text,
    index: int,
)
    requires
        first_key_at(entries, key, index),
    ensures
        position_of(entries, key) == Some(index),
{
    let chosen = choose|other: int| first_key_at(entries, key, other);
    assert(first_key_at(entries, key, chosen));
    if chosen < index {
        assert(entries[chosen].0 != NodeView::String(key));
    } else if index < chosen {
        assert(entries[index].0 != NodeView::String(key));
    }
}

/// No entry has the key, so there is no position for it.
pub proof fn lemma_key_absent(entries: Seq<(NodeView, NodeView)>, key: Text)
    requires
        forall|index: int|
            0 <= index < entries.len() ==> (#[trigger] entries[index]).0 != NodeView::String(
                key,
            ),
    ensures
        position_of(entries, key) is None,
{
    if exists|index: int| first_key_at(entries, key, index) {
        let index = choose|index: int| first_key_at(entries, key, index);
        assert(entries[index].0 != NodeView::String(key));
    }
}

/// The model of the entries of a mapping.
pub open spec fn entries_view(entries: Seq<(Node, Node)>) -> Seq<(NodeView, NodeView)> {
    Seq::new(entries.len(), |i: int| (entries[i].0@, entries[i].1@))
}

/// The model of the elements of a sequence.
pub open spec fn items_view(items: Seq<Node>) -> Seq<NodeView> {
    Seq::new(items.len(), |i: int| items[i]@)
}

/// A mapping's model is made of its entries' models.
pub proof fn lemma_mapping_view(entries: Vec<(Node, Node)>)
    ensures
        Node::Mapping(entries)@ == NodeView::Mapping(entries_view(entries@)),
{
    assert(Node::Mapping(entries)@->Mapping_0 =~= entries_view(entries@));
}

/// A sequence's model is made of its elements' models.
pub proof fn lemma_sequence_view(items: Vec<Node>)
    ensures
        Node::Sequence(items)@ == NodeView::Sequence(items_view(items@)),
{
    assert(Node::Sequence(items)@->Sequence_0 =~= items_view(items@));
}

/// The index of the first entry of `entries` whose key is the string `key`.
pub fn find_key(entries: &Vec<(Node, Node)>, key: &String) -> (found: Option<usize>)
    ensures
        match found {
            Some(index) => position_of(entries_view(entries@), key@) == Some(index as int),
            None => position_of(entries_view(entries@), key@) is None,
        },
{
    let ghost view = entries_view(entries@);
    let mut index: usize = 0;
    while index < entries.len()
        invariant
            index <= entries.len(),
            view == entries_view(entries@),
            forall|earlier: int|
                0 <= earlier < index ==> (#[trigger] view[earlier]).0 != NodeView::String(key@),
        decreases entries.len() - index,
    {
        let hit = match &entries[index].0 {
            Node::String(text) => *text == *key,
            _ => false,
        };
        if hit {
            proof {
                assert(view[index as int].0 == NodeView::String(key@));
                lemma_first_key_unique(view, key@, index as int);
            }
            return Some(index);
        }
        assert(view[index as int].0 != NodeView::String(key@));
        index += 1;
    }
    proof {
        lemma_key_absent(view, key@);
    }
    None
}

} // verus!
