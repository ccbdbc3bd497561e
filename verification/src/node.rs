//! The node tree that a markup parser hands over: tagged elements with
//! attributes, optional text and owned children in document order.

use vstd::prelude::*;
use vstd::string::*;
use crate::text::same_text;

verus! {

/// One markup element. `id` tells nodes of one parse apart; `children` are in
/// document order; `text` is the inline text that the element owns itself.
#[derive(Debug, PartialEq, Eq)]
pub struct Node {
    pub id: usize,
    pub name: String,
    pub attributes: Vec<(String, String)>,
    pub children: Vec<Node>,
    pub text: Option<String>,
}

/// What a node is, as mathematics: its identity, its tag, its attributes in
/// the order they were written, its children in document order, its text.
pub struct NodeView {
    pub id: usize,
    pub name: Seq<char>,
    pub attributes: Seq<(Seq<char>, Seq<char>)>,
    pub children: Seq<NodeView>,
    pub text: Option<Seq<char>>,
}

/// The view of an optional string.
pub open spec fn text_view(text: Option<String>) -> Option<Seq<char>> {
    match text {
        Some(t) => Some(t@),
        None => None,
    }
}

/// The views of a list of attributes.
pub open spec fn attribute_views(attrs: Seq<(String, String)>) -> Seq<(Seq<char>, Seq<char>)> {
    attrs.map_values(|pair: (String, String)| (pair.0@, pair.1@))
}

/// What `node` is, as mathematics.
pub open spec fn node_view(node: Node) -> NodeView
    decreases node,
{
    NodeView {
        id: node.id,
        name: node.name@,
        attributes: attribute_views(node.attributes@),
        children: Seq::new(
            node.children@.len(),
            |i: int|
                if 0 <= i < node.children@.len() {
                    node_view(node.children[i])
                } else {
                    arbitrary()
                },
        ),
        text: text_view(node.text),
    }
}

impl View for Node {
    type V = NodeView;

    open spec fn view(&self) -> NodeView {
        node_view(*self)
    }
}

/// The views of a list of nodes.
pub open spec fn node_views(nodes: Seq<Node>) -> Seq<NodeView> {
    nodes.map_values(|node: Node| node@)
}

/// The value of the first pair in `attrs` whose key is `key`.
pub open spec fn lookup(attrs: Seq<(Seq<char>, Seq<char>)>, key: Seq<char>) -> Option<Seq<char>>
    decreases attrs.len(),
{
    if attrs.len() == 0 {
        None
    } else if attrs[0].0 == key {
        Some(attrs[0].1)
    } else {
        lookup(attrs.skip(1), key)
    }
}

impl NodeView {
    /// The value of the attribute `key`, if the node has one. Where a
    /// malformed element repeats a name, the first occurrence counts.
    pub open spec fn attribute(self, key: Seq<char>) -> Option<Seq<char>> {
        lookup(self.attributes, key)
    }
}

/// The first node in `nodes` whose tag is `name`.
pub open spec fn first_named(nodes: Seq<NodeView>, name: Seq<char>) -> Option<NodeView>
    decreases nodes.len(),
{
    if nodes.len() == 0 {
        None
    } else if nodes[0].name == name {
        Some(nodes[0])
    } else {
        first_named(nodes.skip(1), name)
    }
}

/// The first node in `nodes` whose identity is `id`.
pub open spec fn first_with_id(nodes: Seq<NodeView>, id: usize) -> Option<NodeView>
    decreases nodes.len(),
{
    if nodes.len() == 0 {
        None
    } else if nodes[0].id == id {
        Some(nodes[0])
    } else {
        first_with_id(nodes.skip(1), id)
    }
}

/// The children of a node's view are the views of its children.
pub proof fn lemma_children_views(node: Node)
    ensures
        node@.children == node_views(node.children@),
{
    assert(node@.children =~= node_views(node.children@));
}

/// Scans `nodes` in order for the first one tagged `name`.
pub fn find_named<'a>(nodes: &'a Vec<Node>, name: &str) -> (found: Option<&'a Node>)
    ensures
        match found {
            Some(node) => first_named(node_views(nodes@), name@) == Some(node@),
            None => first_named(node_views(nodes@), name@).is_none(),
        },
{
    let ghost all = node_views(nodes@);
    let mut i: usize = 0;
    assert(all.skip(0) =~= all);
    while i < nodes.len()
        invariant
            i <= nodes@.len(),
            all == node_views(nodes@),
            first_named(all, name@) == first_named(all.skip(i as int), name@),
        decreases nodes@.len() - i,
    {
        let node = &nodes[i];
        proof {
            assert(all.skip(i as int)[0] == nodes@[i as int]@);
            assert(all.skip(i as int).skip(1) =~= all.skip(i + 1));
        }
        if same_text(node.name.as_str(), name) {
            return Some(node);
        }
        i += 1;
    }
    None
}

/// Scans `nodes` in order for the first one whose identity is `id`.
pub fn find_by_id<'a>(nodes: &'a Vec<Node>, id: usize) -> (found: Option<&'a Node>)
    ensures
        match found {
            Some(node) => first_with_id(node_views(nodes@), id) == Some(node@),
            None => first_with_id(node_views(nodes@), id).is_none(),
        },
{
    let ghost all = node_views(nodes@);
    let mut i: usize = 0;
    assert(all.skip(0) =~= all);
    while i < nodes.len()
        invariant
            i <= nodes@.len(),
            all == node_views(nodes@),
            first_with_id(all, id) == first_with_id(all.skip(i as int), id),
        decreases nodes@.len() - i,
    {
        let node = &nodes[i];
        proof {
            assert(all.skip(i as int)[0] == nodes@[i as int]@);
            assert(all.skip(i as int).skip(1) =~= all.skip(i + 1));
        }
        if node.id == id {
            return Some(node);
        }
        i += 1;
    }
    None
}

impl Node {
    /// A node without attributes, children or text.
    pub fn new(id: usize, name: String) -> (node: Node)
        ensures
            node@ == (NodeView {
                id,
                name: name@,
                attributes: Seq::empty(),
                children: Seq::empty(),
                text: None,
            }),
    {
        let node = Node { id, name, attributes: Vec::new(), children: Vec::new(), text: None };
        assert(node@.attributes =~= Seq::empty());
        assert(node@.children =~= Seq::empty());
        node
    }

    /// The node's identity within its parse.
    pub fn get_id(&self) -> (id: usize)
        ensures
            id == self@.id,
    {
        self.id
    }

    /// The node's tag.
    pub fn get_name(&self) -> (name: &String)
        ensures
            name@ == self@.name,
    {
        &self.name
    }

    /// The node's children, in document order.
    pub fn get_children(&self) -> (children: &Vec<Node>)
        ensures
            node_views(children@) == self@.children,
    {
        proof {
            lemma_children_views(*self);
        }
        &self.children
    }

    /// The text that the node owns itself, if any.
    pub fn get_contents(&self) -> (text: &Option<String>)
        ensures
            text_view(*text) == self@.text,
    {
        &self.text
    }

    /// Looks an attribute up by name. Where a malformed element repeats a
    /// name, the first occurrence is the one that counts.
    pub fn get_attribute(&self, key: &str) -> (value: Option<&String>)
        ensures
            match value {
                Some(v) => self@.attribute(key@) == Some(v@),
                None => self@.attribute(key@).is_none(),
            },
    {
        let ghost all = self@.attributes;
        let mut i: usize = 0;
        assert(all.skip(0) =~= all);
        while i < self.attributes.len()
            invariant
                i <= self.attributes@.len(),
                all == attribute_views(self.attributes@),
                lookup(all, key@) == lookup(all.skip(i as int), key@),
            decreases self.attributes@.len() - i,
        {
            let pair = &self.attributes[i];
            proof {
                assert(all.skip(i as int)[0] == (pair.0@, pair.1@));
                assert(all.skip(i as int).skip(1) =~= all.skip(i + 1));
            }
            if same_text(pair.0.as_str(), key) {
                return Some(&pair.1);
            }
            i += 1;
        }
        None
    }
}

} // verus!
