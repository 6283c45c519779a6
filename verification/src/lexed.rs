//! The flat stream of tags, attributes and content that the tokenizer produces.
use vstd::prelude::*;
use vstd::std_specs::iter::IteratorSpec;
use crate::node::opt_view;

verus! {

/// What a lexed node is, as a mathematical value.
pub enum LexedV {
    TagOpen { name: Seq<char>, namespace: Option<Seq<char>> },
    TagClose { name: Seq<char>, namespace: Option<Seq<char>> },
    TagSelfClosing { name: Seq<char>, namespace: Option<Seq<char>> },
    Attribute { key: Seq<char>, value: Option<Seq<char>> },
    Content(Seq<char>),
    Comment(Seq<char>),
}

/// One item of the tokenizer's output.
#[derive(Clone, Debug, PartialEq)]
pub enum LexedXmlNode {
    TagOpen { name: String, namespace: Option<String> },
    TagClose { name: String, namespace: Option<String> },
    TagSelfClosing { name: String, namespace: Option<String> },
    Attribute { key: String, value: Option<String> },
    Content(String),
    Comment(String),
}

impl View for LexedXmlNode {
    type V = LexedV;

    open spec fn view(&self) -> LexedV {
        match self {
            LexedXmlNode::TagOpen { name, namespace } => LexedV::TagOpen {
                name: name@,
                namespace: opt_view(*namespace),
            },
            LexedXmlNode::TagClose { name, namespace } => LexedV::TagClose {
                name: name@,
                namespace: opt_view(*namespace),
            },
            LexedXmlNode::TagSelfClosing { name, namespace } => LexedV::TagSelfClosing {
                name: name@,
                namespace: opt_view(*namespace),
            },
            LexedXmlNode::Attribute { key, value } => LexedV::Attribute {
                key: key@,
                value: opt_view(*value),
            },
            LexedXmlNode::Content(s) => LexedV::Content(s@),
            LexedXmlNode::Comment(s) => LexedV::Comment(s@),
        }
    }
}

/// The name of a tag, if `n` is one.
pub open spec fn spec_name(n: LexedV) -> Option<Seq<char>> {
    match n {
        LexedV::TagOpen { name, .. } => Some(name),
        LexedV::TagClose { name, .. } => Some(name),
        LexedV::TagSelfClosing { name, .. } => Some(name),
        _ => None,
    }
}

/// The namespace prefix of a tag, if `n` is a tag with one.
pub open spec fn spec_namespace(n: LexedV) -> Option<Seq<char>> {
    match n {
        LexedV::TagOpen { namespace, .. } => namespace,
        LexedV::TagClose { namespace, .. } => namespace,
        LexedV::TagSelfClosing { namespace, .. } => namespace,
        _ => None,
    }
}

impl LexedXmlNode {
    /// An opening tag.
    pub fn new_tag_open(name: String, namespace: Option<String>) -> (r: Self)
        ensures
            r@ == (LexedV::TagOpen { name: name@, namespace: opt_view(namespace) }),
    {
        LexedXmlNode::TagOpen { name, namespace }
    }

    /// A closing tag.
    pub fn new_tag_close(name: String, namespace: Option<String>) -> (r: Self)
        ensures
            r@ == (LexedV::TagClose { name: name@, namespace: opt_view(namespace) }),
    {
        LexedXmlNode::TagClose { name, namespace }
    }

    /// A self-closing tag.
    pub fn new_tag_self_closing(name: String, namespace: Option<String>) -> (r: Self)
        ensures
            r@ == (LexedV::TagSelfClosing { name: name@, namespace: opt_view(namespace) }),
    {
        LexedXmlNode::TagSelfClosing { name, namespace }
    }

    /// An attribute, with or without a value.
    pub fn new_attribute(key: String, value: Option<String>) -> (r: Self)
        ensures
            r@ == (LexedV::Attribute { key: key@, value: opt_view(value) }),
    {
        LexedXmlNode::Attribute { key, value }
    }

    /// Text content.
    pub fn new_content(data: String) -> (r: Self)
        ensures
            r@ == LexedV::Content(data@),
    {
        LexedXmlNode::Content(data)
    }

    /// The tag's name, if this is a tag.
    pub fn get_name(&self) -> (r: Option<&String>)
        ensures
            match spec_name(self@) {
                Some(n) => r is Some && r->0@ == n,
                None => r is None,
            },
    {
        match self {
            LexedXmlNode::TagOpen { name, .. } => Some(name),
            LexedXmlNode::TagClose { name, .. } => Some(name),
            LexedXmlNode::TagSelfClosing { name, .. } => Some(name),
            LexedXmlNode::Attribute { .. } => None,
            LexedXmlNode::Content(_) => None,
            LexedXmlNode::Comment(_) => None,
        }
    }

    /// Whether this is a tag with a namespace prefix.
    pub fn has_namespace(&self) -> (r: bool)
        ensures
            r == spec_namespace(self@) is Some,
    {
        match self {
            LexedXmlNode::TagOpen { namespace, .. } => namespace.is_some(),
            LexedXmlNode::TagClose { namespace, .. } => namespace.is_some(),
            LexedXmlNode::TagSelfClosing { namespace, .. } => namespace.is_some(),
            LexedXmlNode::Attribute { .. } => false,
            LexedXmlNode::Content(_) => false,
            LexedXmlNode::Comment(_) => false,
        }
    }

    /// The tag's namespace prefix, if this is a tag with one.
    pub fn get_namespace(&self) -> (r: Option<&String>)
        ensures
            match spec_namespace(self@) {
                Some(n) => r is Some && r->0@ == n,
                None => r is None,
            },
    {
        match self {
            LexedXmlNode::TagOpen { namespace, .. } => namespace.as_ref(),
            LexedXmlNode::TagClose { namespace, .. } => namespace.as_ref(),
            LexedXmlNode::TagSelfClosing { namespace, .. } => namespace.as_ref(),
            LexedXmlNode::Attribute { .. } => None,
            LexedXmlNode::Content(_) => None,
            LexedXmlNode::Comment(_) => None,
        }
    }

    /// Whether this is a closing tag.
    pub fn is_close_tag(&self) -> (r: bool)
        ensures
            r == self@ is TagClose,
    {
        match self {
            LexedXmlNode::TagClose { .. } => true,
            _ => false,
        }
    }
}

/// The tokenizer's output: lexed nodes in input order.
#[derive(Debug, Default, PartialEq)]
pub struct LexedXmlDocument {
    nodes: Vec<LexedXmlNode>,
}

/// The views of a sequence of lexed nodes.
pub open spec fn lexed_view(s: Seq<LexedXmlNode>) -> Seq<LexedV> {
    s.map_values(|n: LexedXmlNode| n@)
}

impl View for LexedXmlDocument {
    type V = Seq<LexedV>;

    closed spec fn view(&self) -> Seq<LexedV> {
        lexed_view(self.nodes@)
    }
}

impl LexedXmlDocument {
    /// An empty document.
    pub fn new() -> (r: Self)
        ensures
            r@ == Seq::<LexedV>::empty(),
    {
        LexedXmlDocument { nodes: Vec::new() }
    }

    /// A document holding `nodes`.
    pub fn from_nodes(nodes: Vec<LexedXmlNode>) -> (r: Self)
        ensures
            r@ == lexed_view(nodes@),
    {
        LexedXmlDocument { nodes }
    }

    /// An iterator over the nodes, in order.
    pub fn iter(&self) -> (r: std::slice::Iter<'_, LexedXmlNode>)
        ensures
            r.remaining().len() == self@.len(),
            forall|i: int| 0 <= i < self@.len() ==> (#[trigger] r.remaining()[i])@ == self@[i],
    {
        self.nodes.iter()
    }

    /// The nodes, to change in place.
    pub fn iter_mut(&mut self) -> (r: &mut [LexedXmlNode])
        ensures
            lexed_view(r@) == old(self)@,
            final(self)@ == lexed_view(final(r)@),
    {
        self.nodes.as_mut_slice()
    }

    /// An iterator that hands out the nodes, in order.
    pub fn into_iter(self) -> (r: std::vec::IntoIter<LexedXmlNode>)
        ensures
            lexed_view(r.remaining()) == self@,
    {
        self.nodes.into_iter()
    }

    /// Hands over the nodes, in order.
    pub(crate) fn take_nodes(self) -> (r: Vec<LexedXmlNode>)
        ensures
            lexed_view(r@) == self@,
    {
        self.nodes
    }

    /// Appends a node.
    pub fn push_node(&mut self, node: LexedXmlNode)
        ensures
            final(self)@ == old(self)@.push(node@),
    {
        self.nodes.push(node);
        assert(lexed_view(self.nodes@) == lexed_view(old(self).nodes@).push(node@));
    }

    /// The nodes.
    pub fn get_nodes(&self) -> (r: &Vec<LexedXmlNode>)
        ensures
            lexed_view(r@) == self@,
    {
        &self.nodes
    }

    /// Returns the number of nodes in the [LexedXmlDocument]
    pub fn len(&self) -> (r: usize)
        ensures
            r == self@.len(),
    {
        self.nodes.len()
    }

    /// The node at `index`, if there is one.
    pub fn get_node_at(&self, index: usize) -> (r: Option<&LexedXmlNode>)
        ensures
            index < self@.len() ==> r is Some && r->0@ == self@[index as int],
            index >= self@.len() ==> r is None,
    {
        if index < self.nodes.len() {
            Some(&self.nodes[index])
        } else {
            None
        }
    }

    /// The node at `index`, if there is one, to change in place.
    pub fn get_node_at_mut(&mut self, index: usize) -> (r: Option<&mut LexedXmlNode>)
        ensures
            index < old(self)@.len() ==> r is Some && (*r.unwrap())@ == old(self)@[index as int]
                && final(self)@ == old(self)@.update(index as int, (*final(r.unwrap()))@),
            index >= old(self)@.len() ==> r is None && final(self)@ == old(self)@,
    {
        if index < self.nodes.len() {
            Some(&mut self.nodes[index])
        } else {
            None
        }
    }
}

} // verus!
