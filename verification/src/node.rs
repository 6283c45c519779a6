//! The document tree: nodes, elements and their attributes.
use vstd::prelude::*;
use crate::text::{str_eq, string_of};

verus! {

/// What a node is, as a mathematical value.
pub enum NodeV {
    Element(ElementV),
    Text(Seq<char>),
    Comment(Seq<char>),
    CData(Seq<char>),
}

/// What an element is, as a mathematical value.
pub struct ElementV {
    pub name: Seq<char>,
    pub namespace: Option<Seq<char>>,
    pub attributes: Map<Seq<char>, Seq<char>>,
    pub children: Seq<NodeV>,
}

/// A node of an XML document.
#[derive(Debug)]
pub enum XmlNode {
    Element(XmlElement),
    Text(String),
    Comment(String),
    CData(String),
}

/// An element: a name, an optional namespace prefix, attributes and child nodes.
#[derive(Debug)]
pub struct XmlElement {
    name: String,
    namespace: Option<String>,
    attributes: XmlAttributes,
    children: Vec<XmlNode>,
}

/// The attributes of an element: a map from attribute names to values.
#[derive(Debug)]
pub struct XmlAttributes {
    entries: Vec<(String, String)>,
}

/// One attribute of an element, borrowed from it.
pub struct XmlAttribute<'a> {
    key: &'a str,
    value: &'a str,
}

pub open spec fn opt_view(o: Option<String>) -> Option<Seq<char>> {
    match o {
        Some(s) => Some(s@),
        None => None,
    }
}

pub closed spec fn node_view(n: XmlNode) -> NodeV
    decreases n, 0nat,
{
    match n {
        XmlNode::Element(e) => NodeV::Element(element_view(e)),
        XmlNode::Text(t) => NodeV::Text(t@),
        XmlNode::Comment(t) => NodeV::Comment(t@),
        XmlNode::CData(t) => NodeV::CData(t@),
    }
}

pub closed spec fn element_view(e: XmlElement) -> ElementV
    decreases e, 1nat,
{
    ElementV {
        name: e.name@,
        namespace: opt_view(e.namespace),
        attributes: entries_map(e.attributes.entries@),
        children: nodes_view(e.children@),
    }
}

/// The views of a sequence of nodes.
pub closed spec fn nodes_view(s: Seq<XmlNode>) -> Seq<NodeV>
    decreases s, 2nat,
{
    Seq::new(
        s.len(),
        |i: int|
            if 0 <= i < s.len() {
                node_view(s[i])
            } else {
                NodeV::Text(Seq::empty())
            },
    )
}

pub broadcast proof fn lemma_nodes_view(s: Seq<XmlNode>)
    ensures
        #[trigger] nodes_view(s).len() == s.len(),
        forall|i: int| 0 <= i < s.len() ==> nodes_view(s)[i] == (#[trigger] s[i])@,
{
}

/// The map that a list of (key, value) entries stands for; a later entry for a
/// key wins over an earlier one.
pub open spec fn entries_map(s: Seq<(String, String)>) -> Map<Seq<char>, Seq<char>>
    decreases s.len(),
{
    if s.len() == 0 {
        Map::empty()
    } else {
        entries_map(s.drop_last()).insert(s.last().0@, s.last().1@)
    }
}

/// No key occurs twice among the entries.
pub open spec fn distinct_keys(s: Seq<(String, String)>) -> bool {
    forall|i: int, j: int| 0 <= i < j < s.len() ==> s[i].0@ != s[j].0@
}

impl View for XmlNode {
    type V = NodeV;

    closed spec fn view(&self) -> NodeV {
        node_view(*self)
    }
}

impl View for XmlElement {
    type V = ElementV;

    closed spec fn view(&self) -> ElementV {
        element_view(*self)
    }
}

impl View for XmlAttributes {
    type V = Map<Seq<char>, Seq<char>>;

    closed spec fn view(&self) -> Map<Seq<char>, Seq<char>> {
        entries_map(self.entries@)
    }
}

pub proof fn lemma_entries_map_dom(s: Seq<(String, String)>)
    ensures
        entries_map(s).dom().finite(),
        forall|k: Seq<char>|
            entries_map(s).dom().contains(k) <==> exists|i: int| 0 <= i < s.len() && #[trigger] s[i].0@ == k,
        distinct_keys(s) ==> entries_map(s).dom().len() == s.len(),
    decreases s.len(),
{
    if s.len() > 0 {
        let t = s.drop_last();
        lemma_entries_map_dom(t);
        assert forall|k: Seq<char>|
            entries_map(s).dom().contains(k) <==> exists|i: int| 0 <= i < s.len() && #[trigger] s[i].0@ == k by {
            if entries_map(s).dom().contains(k) {
                if k != s.last().0@ {
                    let i = choose|i: int| 0 <= i < t.len() && #[trigger] t[i].0@ == k;
                    assert(s[i].0@ == k);
                } else {
                    assert(s[s.len() - 1].0@ == k);
                }
            }
            if exists|i: int| 0 <= i < s.len() && #[trigger] s[i].0@ == k {
                let i = choose|i: int| 0 <= i < s.len() && #[trigger] s[i].0@ == k;
                if i < s.len() - 1 {
                    assert(t[i].0@ == k);
                }
            }
        }
        if distinct_keys(s) {
            assert(distinct_keys(t));
            if entries_map(t).dom().contains(s.last().0@) {
                let i = choose|i: int| 0 <= i < t.len() && #[trigger] t[i].0@ == s.last().0@;
                assert(s[i].0@ == s[s.len() - 1].0@);
            }
        }
    }
}

pub proof fn lemma_entries_map_get(s: Seq<(String, String)>, i: int)
    requires
        distinct_keys(s),
        0 <= i < s.len(),
    ensures
        entries_map(s).dom().contains(s[i].0@),
        entries_map(s)[s[i].0@] == s[i].1@,
    decreases s.len(),
{
    if i < s.len() - 1 {
        lemma_entries_map_get(s.drop_last(), i);
    }
}

pub proof fn lemma_entries_map_update(s: Seq<(String, String)>, i: int, e: (String, String))
    requires
        distinct_keys(s),
        0 <= i < s.len(),
        s[i].0@ == e.0@,
    ensures
        entries_map(s.update(i, e)) == entries_map(s).insert(e.0@, e.1@),
        distinct_keys(s.update(i, e)),
    decreases s.len(),
{
    let u = s.update(i, e);
    if i == s.len() - 1 {
        assert(u.drop_last() == s.drop_last());
        lemma_entries_map_dom(s.drop_last());
        if entries_map(s.drop_last()).dom().contains(e.0@) {
            let j = choose|j: int| 0 <= j < s.drop_last().len() && #[trigger] s.drop_last()[j].0@ == e.0@;
            assert(s[j].0@ == s[i].0@);
        }
        assert(entries_map(u) == entries_map(s).insert(e.0@, e.1@));
    } else {
        lemma_entries_map_update(s.drop_last(), i, e);
        assert(u.drop_last() == s.drop_last().update(i, e));
        assert(s.last().0@ != e.0@);
        assert(entries_map(u) == entries_map(s).insert(e.0@, e.1@));
    }
}

impl XmlAttributes {
    #[verifier::type_invariant]
    spec fn keys_distinct(self) -> bool {
        distinct_keys(self.entries@)
    }

    /// An empty attribute map.
    pub fn new() -> (r: Self)
        ensures
            r@ == Map::<Seq<char>, Seq<char>>::empty(),
    {
        XmlAttributes { entries: Vec::new() }
    }

    /// The number of attributes.
    pub fn len(&self) -> (r: usize)
        ensures
            r == self@.dom().len(),
    {
        proof {
            use_type_invariant(self);
            lemma_entries_map_dom(self.entries@);
        }
        self.entries.len()
    }

    /// Whether there are no attributes.
    pub fn is_empty(&self) -> (r: bool)
        ensures
            r == (self@.dom().len() == 0),
    {
        self.len() == 0
    }

    fn find(&self, key: &str) -> (r: Option<usize>)
        ensures
            match r {
                Some(i) => i < self.entries@.len() && self.entries@[i as int].0@ == key@,
                None => forall|i: int| 0 <= i < self.entries@.len() ==> #[trigger] self.entries@[i].0@ != key@,
            },
    {
        let mut i: usize = 0;
        while i < self.entries.len()
            invariant
                i <= self.entries@.len(),
                forall|j: int| 0 <= j < i ==> #[trigger] self.entries@[j].0@ != key@,
            decreases self.entries@.len() - i,
        {
            if str_eq(self.entries[i].0.as_str(), key) {
                return Some(i);
            }
            i = i + 1;
        }
        None
    }

    /// Whether an attribute named `key` is present.
    pub fn contains_key(&self, key: &str) -> (r: bool)
        ensures
            r == self@.dom().contains(key@),
    {
        proof {
            lemma_entries_map_dom(self.entries@);
        }
        self.find(key).is_some()
    }

    /// The value of the attribute named `key`, if present.
    pub fn get(&self, key: &str) -> (r: Option<&String>)
        ensures
            match r {
                Some(v) => self@.dom().contains(key@) && v@ == self@[key@],
                None => !self@.dom().contains(key@),
            },
    {
        proof {
            use_type_invariant(self);
            lemma_entries_map_dom(self.entries@);
        }
        match self.find(key) {
            Some(i) => {
                proof {
                    lemma_entries_map_get(self.entries@, i as int);
                }
                Some(&self.entries[i].1)
            },
            None => None,
        }
    }

    /// Sets the attribute `key` to `value`, and hands back the value it had.
    pub fn insert(&mut self, key: String, value: String) -> (r: Option<String>)
        ensures
            final(self)@ == old(self)@.insert(key@, value@),
            match r {
                Some(v) => old(self)@.dom().contains(key@) && v@ == old(self)@[key@],
                None => !old(self)@.dom().contains(key@),
            },
    {
        proof {
            use_type_invariant(&*self);
            lemma_entries_map_dom(self.entries@);
        }
        match self.find(key.as_str()) {
            Some(i) => {
                proof {
                    lemma_entries_map_get(self.entries@, i as int);
                    lemma_entries_map_update(self.entries@, i as int, (key, value));
                }
                let old_value = self.entries[i].1.clone();
                let mut entries = Vec::new();
                std::mem::swap(&mut entries, &mut self.entries);
                entries.set(i, (key, value));
                self.entries = entries;
                Some(old_value)
            },
            None => {
                let ghost s = self.entries@;
                let mut entries = Vec::new();
                std::mem::swap(&mut entries, &mut self.entries);
                entries.push((key, value));
                proof {
                    assert(entries@.drop_last() == s);
                }
                self.entries = entries;
                None
            },
        }
    }
}


impl XmlAttributes {
    /// A copy of this attribute map.
    pub fn duplicate(&self) -> (r: Self)
        ensures
            r@ == self@,
    {
        proof {
            use_type_invariant(self);
        }
        let mut entries: Vec<(String, String)> = Vec::new();
        let mut i: usize = 0;
        while i < self.entries.len()
            invariant
                i <= self.entries@.len(),
                distinct_keys(self.entries@),
                entries@.len() == i,
                forall|j: int| 0 <= j < i ==> (#[trigger] entries@[j]).0@ == self.entries@[j].0@
                    && entries@[j].1@ == self.entries@[j].1@,
            decreases self.entries@.len() - i,
        {
            let k = self.entries[i].0.clone();
            let v = self.entries[i].1.clone();
            entries.push((k, v));
            i = i + 1;
        }
        proof {
            lemma_entries_map_same(entries@, self.entries@);
        }
        XmlAttributes { entries }
    }
}

proof fn lemma_entries_map_same(a: Seq<(String, String)>, b: Seq<(String, String)>)
    requires
        a.len() == b.len(),
        forall|j: int| 0 <= j < a.len() ==> (#[trigger] a[j]).0@ == b[j].0@ && a[j].1@ == b[j].1@,
    ensures
        entries_map(a) == entries_map(b),
        distinct_keys(b) ==> distinct_keys(a),
    decreases a.len(),
{
    if a.len() > 0 {
        lemma_entries_map_same(a.drop_last(), b.drop_last());
        assert(a.last() == a[a.len() - 1]);
    }
    if distinct_keys(b) {
        assert forall|i: int, j: int| 0 <= i < j < a.len() implies a[i].0@ != a[j].0@ by {
            assert(a[i].0@ == b[i].0@);
            assert(a[j].0@ == b[j].0@);
        }
    }
}

/// The element children among `s`, in order.
pub open spec fn element_children(s: Seq<NodeV>) -> Seq<ElementV>
    decreases s.len(),
{
    if s.len() == 0 {
        Seq::empty()
    } else {
        match s.last() {
            NodeV::Element(e) => element_children(s.drop_last()).push(e),
            _ => element_children(s.drop_last()),
        }
    }
}

/// `s` with its element children, in order, replaced by the entries of `news`.
pub open spec fn with_elements(s: Seq<NodeV>, news: Seq<ElementV>) -> Seq<NodeV>
    decreases s.len(),
{
    if s.len() == 0 {
        Seq::empty()
    } else {
        match s.last() {
            NodeV::Element(_) => with_elements(s.drop_last(), news).push(
                NodeV::Element(news[element_children(s.drop_last()).len() as int]),
            ),
            other => with_elements(s.drop_last(), news).push(other),
        }
    }
}

/// Replacing the element children looks only at as many entries as there are
/// element children.
proof fn lemma_with_elements_prefix(s: Seq<NodeV>, a: Seq<ElementV>, b: Seq<ElementV>)
    requires
        forall|i: int| 0 <= i < element_children(s).len() ==> a[i] == b[i],
    ensures
        with_elements(s, a) == with_elements(s, b),
    decreases s.len(),
{
    if s.len() > 0 {
        let t = s.drop_last();
        match s.last() {
            NodeV::Element(e) => {
                assert(element_children(s) == element_children(t).push(e));
                assert forall|i: int| 0 <= i < element_children(t).len() implies a[i] == b[i] by {
                    assert(element_children(s)[i] == element_children(t)[i]);
                }
            },
            _ => {},
        }
        lemma_with_elements_prefix(t, a, b);
    }
}

/// The first element among `s` named `name`, if any.
pub open spec fn first_named(s: Seq<NodeV>, name: Seq<char>) -> Option<ElementV>
    decreases s.len(),
{
    if s.len() == 0 {
        None
    } else {
        match s[0] {
            NodeV::Element(e) => if e.name == name {
                Some(e)
            } else {
                first_named(s.drop_first(), name)
            },
            _ => first_named(s.drop_first(), name),
        }
    }
}

pub broadcast proof fn lemma_node_view(n: XmlNode)
    ensures
        #[trigger] n@ == match n {
            XmlNode::Element(e) => NodeV::Element(e@),
            XmlNode::Text(t) => NodeV::Text(t@),
            XmlNode::Comment(t) => NodeV::Comment(t@),
            XmlNode::CData(t) => NodeV::CData(t@),
        },
{
}

impl XmlNode {
    /// A new element node.
    pub fn new_element(
        name: String,
        namespace: Option<String>,
        attributes: XmlAttributes,
        children: Vec<XmlNode>,
    ) -> (r: Self)
        ensures
            r@ == NodeV::Element(
                ElementV {
                    name: name@,
                    namespace: opt_view(namespace),
                    attributes: attributes@,
                    children: nodes_view(children@),
                },
            ),
    {
        XmlNode::Element(XmlElement::new(name, namespace, attributes, children))
    }

    /// A new text node.
    pub fn new_text(text: String) -> (r: Self)
        ensures
            r@ == NodeV::Text(text@),
    {
        XmlNode::Text(text)
    }

    /// A new comment node.
    pub fn new_comment(comment: String) -> (r: Self)
        ensures
            r@ == NodeV::Comment(comment@),
    {
        XmlNode::Comment(comment)
    }

    /// A new CDATA node.
    pub fn new_cdata(data: String) -> (r: Self)
        ensures
            r@ == NodeV::CData(data@),
    {
        XmlNode::CData(data)
    }

    /// The element this node is, if it is one.
    pub fn as_element(&self) -> (r: Option<&XmlElement>)
        ensures
            match *self {
                XmlNode::Element(e) => r == Some(&e),
                _ => r is None,
            },
            match self@ {
                NodeV::Element(e) => r is Some && r->0@ == e,
                _ => r is None,
            },
    {
        match self {
            XmlNode::Element(element) => Some(element),
            _ => None,
        }
    }

    /// The element this node is, if it is one, to change in place.
    pub fn as_element_mut(&mut self) -> (r: Option<&mut XmlElement>)
        ensures
            match *old(self) {
                XmlNode::Element(e) => r is Some && *r.unwrap() == e && *final(self)
                    == XmlNode::Element(*final(r.unwrap())),
                _ => r is None && *final(self) == *old(self),
            },
    {
        match self {
            XmlNode::Element(element) => Some(element),
            _ => None,
        }
    }

    /// A copy of this node and everything under it.
    pub fn duplicate(&self) -> (r: Self)
        ensures
            r@ == self@,
        decreases self, 0nat,
    {
        match self {
            XmlNode::Element(e) => XmlNode::Element(e.duplicate()),
            XmlNode::Text(t) => XmlNode::Text(t.clone()),
            XmlNode::Comment(t) => XmlNode::Comment(t.clone()),
            XmlNode::CData(t) => XmlNode::CData(t.clone()),
        }
    }
}

/// Copies of the nodes `s`, in order.
pub fn duplicate_nodes(s: &[XmlNode]) -> (r: Vec<XmlNode>)
    ensures
        nodes_view(r@) == nodes_view(s@),
{
    let mut r: Vec<XmlNode> = Vec::new();
    let mut i: usize = 0;
    while i < s.len()
        invariant
            i <= s@.len(),
            r@.len() == i,
            forall|j: int| 0 <= j < i ==> (#[trigger] r@[j])@ == s@[j]@,
        decreases s@.len() - i,
    {
        r.push(s[i].duplicate());
        i = i + 1;
    }
    assert(nodes_view(r@) == nodes_view(s@));
    r
}

// Querying
impl XmlElement {
    /// A new element.
    pub fn new(
        name: String,
        namespace: Option<String>,
        attributes: XmlAttributes,
        children: Vec<XmlNode>,
    ) -> (r: Self)
        ensures
            r@ == (ElementV {
                name: name@,
                namespace: opt_view(namespace),
                attributes: attributes@,
                children: nodes_view(children@),
            }),
    {
        XmlElement { name, namespace, attributes, children }
    }

    /// A copy of this element and everything under it.
    pub fn duplicate(&self) -> (r: Self)
        ensures
            r@ == self@,
        decreases self, 1nat,
    {
        let mut children: Vec<XmlNode> = Vec::new();
        let mut i: usize = 0;
        while i < self.children.len()
            invariant
                i <= self.children@.len(),
                children@.len() == i,
                forall|j: int| 0 <= j < i ==> (#[trigger] children@[j])@ == self.children@[j]@,
            decreases self.children@.len() - i,
        {
            proof {
                assert(decreases_to!(self => self.children));
                assert(decreases_to!(self.children => self.children@));
                assert(decreases_to!(self.children@ => self.children@[i as int]));
            }
            children.push(self.children[i].duplicate());
            i = i + 1;
        }
        assert(nodes_view(children@) == nodes_view(self.children@));
        XmlElement {
            name: self.name.clone(),
            namespace: match &self.namespace {
                Some(n) => Some(n.clone()),
                None => None,
            },
            attributes: self.attributes.duplicate(),
            children,
        }
    }

    /// The element's name.
    pub fn name(&self) -> (r: &String)
        ensures
            r@ == self@.name,
    {
        &self.name
    }

    /// The element's namespace prefix, if it has one.
    pub fn namespace(&self) -> (r: Option<&String>)
        ensures
            r is Some <==> self@.namespace is Some,
            r is Some ==> r->0@ == self@.namespace->0,
    {
        self.namespace.as_ref()
    }

    /// The element's attributes.
    pub fn attributes(&self) -> (r: &XmlAttributes)
        ensures
            r@ == self@.attributes,
    {
        &self.attributes
    }

    /// The element's attributes, to change in place.
    pub fn attributes_mut(&mut self) -> (r: &mut XmlAttributes)
        ensures
            r@ == old(self)@.attributes,
            final(self)@ == (ElementV { attributes: final(r)@, ..old(self)@ }),
    {
        &mut self.attributes
    }

    /// The attribute named `key`, if the element has one.
    pub fn attr<'a>(&'a self, key: &'a str) -> (r: Option<XmlAttribute<'a>>)
        ensures
            match r {
                Some(a) => self@.attributes.dom().contains(key@) && a@ == (key@, self@.attributes[key@]),
                None => !self@.attributes.dom().contains(key@),
            },
    {
        match self.attributes.get(key) {
            Some(value) => Some(XmlAttribute { key, value: value.as_str() }),
            None => None,
        }
    }

    /// The element's child nodes.
    pub fn children(&self) -> (r: &[XmlNode])
        ensures
            nodes_view(r@) == self@.children,
    {
        self.children.as_slice()
    }

    /// The element's child nodes, to change in place.
    pub fn children_mut(&mut self) -> (r: &mut [XmlNode])
        ensures
            nodes_view(r@) == old(self)@.children,
            final(self)@ == (ElementV { children: nodes_view(final(r)@), ..old(self)@ }),
    {
        self.children.as_mut_slice()
    }

    /// Removes the element's child nodes and hands them back.
    pub fn take_children(&mut self) -> (r: Vec<XmlNode>)
        ensures
            nodes_view(r@) == old(self)@.children,
            final(self)@ == (ElementV { children: Seq::empty(), ..old(self)@ }),
    {
        let mut children: Vec<XmlNode> = Vec::new();
        std::mem::swap(&mut children, &mut self.children);
        assert(nodes_view(self.children@) == Seq::<NodeV>::empty());
        children
    }

    /// The children that are elements, in order.
    pub fn elements(&self) -> (r: Vec<&XmlElement>)
        ensures
            r@.len() == element_children(self@.children).len(),
            forall|i: int| 0 <= i < r@.len() ==> (#[trigger] r@[i])@ == element_children(self@.children)[i],
    {
        let mut r: Vec<&XmlElement> = Vec::new();
        let mut i: usize = 0;
        while i < self.children.len()
            invariant
                i <= self.children@.len(),
                r@.len() == element_children(nodes_view(self.children@.subrange(0, i as int))).len(),
                forall|j: int| 0 <= j < r@.len() ==> (#[trigger] r@[j])@ == element_children(
                    nodes_view(self.children@.subrange(0, i as int)),
                )[j],
            decreases self.children@.len() - i,
        {
            let ghost before = nodes_view(self.children@.subrange(0, i as int));
            let ghost after = nodes_view(self.children@.subrange(0, i + 1));
            assert(after.drop_last() == before);
            assert(after.last() == self.children@[i as int]@);
            match &self.children[i] {
                XmlNode::Element(e) => {
                    r.push(e);
                },
                _ => {},
            }
            i = i + 1;
        }
        assert(self.children@.subrange(0, self.children@.len() as int) == self.children@);
        r
    }

    /// The children that are elements, in order, to change in place.
    pub fn elements_mut(&mut self) -> (r: Vec<&mut XmlElement>)
        ensures
            r@.len() == element_children(old(self)@.children).len(),
            forall|i: int| 0 <= i < r@.len() ==> (*r@[i])@ == element_children(old(self)@.children)[i],
            final(self)@ == (ElementV {
                children: with_elements(old(self)@.children, Seq::new(r@.len(), |i: int| (*final(r@[i]))@)),
                ..old(self)@
            }),
    {
        let ghost orig = self@.children;
        let ghost fin = nodes_view(final(self).children@);
        let mut out: Vec<&mut XmlElement> = Vec::new();
        let mut rest: &mut [XmlNode] = self.children.as_mut_slice();
        let ghost n = orig.len();
        let ghost mut k: int = 0;
        while rest.len() > 0
            invariant
                0 <= k <= n,
                n == orig.len(),
                rest@.len() == n - k,
                nodes_view(rest@) == orig.subrange(k, n as int),
                out@.len() == element_children(orig.subrange(0, k)).len(),
                forall|i: int| 0 <= i < out@.len() ==> (*out@[i])@ == element_children(orig.subrange(0, k))[i],
                fin == with_elements(orig.subrange(0, k), Seq::new(out@.len(), |i: int| (*final(out@[i]))@)) + nodes_view(final(rest)@),
            decreases rest@.len(),
        {
            let ghost before = rest@;
            let ghost out_before = out@;
            let ghost fr = final(rest)@;
            let (first, tail) = rest.split_at_mut(1);
            proof {
                assert(first@[0] == before[0]);
                assert(nodes_view(tail@) == orig.subrange(k + 1, n as int)) by {
                    assert(tail@ == before.subrange(1, before.len() as int));
                    assert forall|j: int| 0 <= j < tail@.len() implies #[trigger] nodes_view(tail@)[j]
                        == orig.subrange(k + 1, n as int)[j] by {
                        assert(nodes_view(before)[j + 1] == orig.subrange(k, n as int)[j + 1]);
                    }
                }
                let s1 = orig.subrange(0, k + 1);
                assert(s1.drop_last() == orig.subrange(0, k));
                assert(s1.last() == before[0]@) by {
                    assert(nodes_view(before)[0] == orig.subrange(k, n as int)[0]);
                }
            }
            let node = first.first_mut().unwrap();
            let ghost node_final = (*final(node))@;
            if let XmlNode::Element(e) = node {
                out.push(e);
            }
            proof {
                let news_before = Seq::new(out_before.len(), |i: int| (*final(out_before[i]))@);
                let news = Seq::new(out@.len(), |i: int| (*final(out@[i]))@);
                lemma_with_elements_prefix(orig.subrange(0, k), news_before, news);
                assert(nodes_view(fr) == seq![node_final] + nodes_view(final(tail)@));
            }
            rest = tail;
            proof {
                k = k + 1;
            }
        }
        out
    }

    /// The first child element named `name`, if any.
    pub fn first_named_child(&self, name: &str) -> (r: Option<&XmlElement>)
        ensures
            match first_named(self@.children, name@) {
                Some(e) => r is Some && r->0@ == e,
                None => r is None,
            },
    {
        let mut i: usize = 0;
        assert(self.children@.subrange(0, self.children@.len() as int) == self.children@);
        while i < self.children.len()
            invariant
                i <= self.children@.len(),
                first_named(self@.children, name@) == first_named(
                    nodes_view(self.children@.subrange(i as int, self.children@.len() as int)),
                    name@,
                ),
            decreases self.children@.len() - i,
        {
            let ghost rest = nodes_view(self.children@.subrange(i as int, self.children@.len() as int));
            assert(rest[0] == self.children@[i as int]@);
            assert(rest.drop_first() == nodes_view(
                self.children@.subrange(i + 1, self.children@.len() as int),
            ));
            match &self.children[i] {
                XmlNode::Element(e) => {
                    if str_eq(e.name.as_str(), name) {
                        return Some(e);
                    }
                },
                _ => {},
            }
            i = i + 1;
        }
        None
    }
}

// Mutation
impl XmlElement {
    /// Sets the attribute `key` to `value`.
    pub fn set_attr(&mut self, key: String, value: String)
        ensures
            final(self)@ == (ElementV {
                attributes: old(self)@.attributes.insert(key@, value@),
                ..old(self)@
            }),
    {
        self.attributes.insert(key, value);
    }

    /// Appends a text node holding `text`.
    pub fn add_text(&mut self, text: &str)
        ensures
            final(self)@ == (ElementV {
                children: old(self)@.children.push(NodeV::Text(text@)),
                ..old(self)@
            }),
    {
        self.children.push(XmlNode::new_text(string_of(text)));
        assert(nodes_view(self.children@) == nodes_view(old(self).children@).push(NodeV::Text(text@)));
    }

    /// Appends a child node.
    pub fn add_child(&mut self, child: XmlNode)
        ensures
            final(self)@ == (ElementV { children: old(self)@.children.push(child@), ..old(self)@ }),
    {
        self.children.push(child);
        assert(nodes_view(self.children@) == nodes_view(old(self).children@).push(child@));
    }

    /// Appends a child element.
    pub fn add_element(&mut self, element: XmlElement)
        ensures
            final(self)@ == (ElementV {
                children: old(self)@.children.push(NodeV::Element(element@)),
                ..old(self)@
            }),
    {
        self.add_child(XmlNode::Element(element));
    }
}

impl<'a> View for XmlAttribute<'a> {
    type V = (Seq<char>, Seq<char>);

    closed spec fn view(&self) -> (Seq<char>, Seq<char>) {
        (self.key@, self.value@)
    }
}

impl<'a> XmlAttribute<'a> {
    /// The attribute's name.
    pub fn key(&self) -> (r: &'a str)
        ensures
            r@ == self@.0,
    {
        self.key
    }

    /// The attribute's value.
    pub fn value(&self) -> (r: &'a str)
        ensures
            r@ == self@.1,
    {
        self.value
    }
}

/// The first of `es` named `name`, if any.
pub open spec fn find_named(es: Seq<ElementV>, name: Seq<char>) -> Option<ElementV>
    decreases es.len(),
{
    if es.len() == 0 {
        None
    } else if es[0].name == name {
        Some(es[0])
    } else {
        find_named(es.drop_first(), name)
    }
}

/// The element children of a non-empty `s`, read from its first node.
proof fn lemma_element_children_front(s: Seq<NodeV>)
    requires
        s.len() > 0,
    ensures
        element_children(s) == match s[0] {
            NodeV::Element(e) => seq![e] + element_children(s.drop_first()),
            _ => element_children(s.drop_first()),
        },
    decreases s.len(),
{
    if s.len() == 1 {
        assert(s.drop_last() == Seq::<NodeV>::empty());
        assert(s.drop_first() == Seq::<NodeV>::empty());
        assert(s.last() == s[0]);
    } else {
        let d = s.drop_last();
        lemma_element_children_front(d);
        assert(d[0] == s[0]);
        assert(d.drop_first() == s.drop_first().drop_last());
        assert(s.drop_first().last() == s.last());
        assert(s.drop_first().len() > 0);
        match s[0] {
            NodeV::Element(e) => {
                match s.last() {
                    NodeV::Element(l) => {
                        assert((seq![e] + element_children(d.drop_first())).push(l) == seq![e]
                            + element_children(d.drop_first()).push(l));
                    },
                    _ => {},
                }
            },
            _ => {},
        }
    }
}

proof fn lemma_find_named(es: Seq<ElementV>, name: Seq<char>)
    ensures
        find_named(es, name) is None <==> forall|i: int| 0 <= i < es.len() ==> (#[trigger] es[i]).name != name,
        find_named(es, name) matches Some(e) ==> exists|i: int|
            0 <= i < es.len() && #[trigger] es[i] == e && e.name == name && forall|j: int|
                0 <= j < i ==> (#[trigger] es[j]).name != name,
    decreases es.len(),
{
    if es.len() > 0 {
        let t = es.drop_first();
        lemma_find_named(t, name);
        if es[0].name != name {
            assert forall|i: int| 0 <= i < t.len() implies #[trigger] t[i] == es[i + 1] by {}
            if find_named(t, name) is None {
                assert forall|i: int| 0 <= i < es.len() implies (#[trigger] es[i]).name != name by {
                    if i > 0 {
                        assert(t[i - 1] == es[i]);
                    }
                }
            } else {
                let e = find_named(t, name)->0;
                let i = choose|i: int|
                    0 <= i < t.len() && #[trigger] t[i] == e && e.name == name && forall|j: int|
                        0 <= j < i ==> (#[trigger] t[j]).name != name;
                assert(es[i + 1] == e);
                assert forall|j: int| 0 <= j < i + 1 implies (#[trigger] es[j]).name != name by {
                    if j > 0 {
                        assert(t[j - 1] == es[j]);
                    }
                }
            }
        }
    }
}

/// The first child element named `name` is what a search of the element
/// children, in order, for that name finds: the first of them with that name,
/// and none exactly when no element child has it. Deeper descendants and
/// children that are not elements are never found.
pub proof fn law_first_named_child_is_find(children: Seq<NodeV>, name: Seq<char>)
    ensures
        first_named(children, name) == find_named(element_children(children), name),
        first_named(children, name) is None <==> forall|i: int|
            0 <= i < element_children(children).len() ==> (#[trigger] element_children(children)[i]).name
                != name,
        first_named(children, name) matches Some(e) ==> exists|i: int|
            0 <= i < element_children(children).len() && #[trigger] element_children(children)[i] == e
                && e.name == name && forall|j: int|
                0 <= j < i ==> (#[trigger] element_children(children)[j]).name != name,
    decreases children.len(),
{
    if children.len() > 0 {
        lemma_element_children_front(children);
        law_first_named_child_is_find(children.drop_first(), name);
        let rest = element_children(children.drop_first());
        match children[0] {
            NodeV::Element(e) => {
                let es = seq![e] + rest;
                assert(es[0] == e);
                assert(es.drop_first() == rest);
            },
            _ => {},
        }
    }
    lemma_find_named(element_children(children), name);
}

/// Reading an attribute back after setting it gives the value set; the other
/// attributes, the name, the namespace and the children stay as they were.
pub proof fn law_attr_reads_back_set_attr(e: ElementV, key: Seq<char>, value: Seq<char>, other: Seq<char>)
    ensures
        ({
            let after = ElementV { attributes: e.attributes.insert(key, value), ..e };
            &&& after.attributes.dom().contains(key)
            &&& after.attributes[key] == value
            &&& other != key ==> after.attributes.dom().contains(other) == e.attributes.dom().contains(other)
                && after.attributes.get(other) == e.attributes.get(other)
            &&& after.name == e.name && after.namespace == e.namespace && after.children == e.children
        }),
{
}
} // verus!
