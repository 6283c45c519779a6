//! Documents: building the element tree out of the tokenizer's output, and
//! walking it.
use vstd::prelude::*;
use crate::error::{ParseError, ParseErrorV, strings_view};
use crate::lexed::{LexedV, LexedXmlDocument, LexedXmlNode, lexed_view};
use crate::node::{
    ElementV, NodeV, XmlAttributes, XmlElement, XmlNode, duplicate_nodes, lemma_node_view,
    lemma_nodes_view, nodes_view, opt_view,
};
use crate::parser::{KbXmlParser, spec_lex};
use crate::text::{spec_trim, str_eq};

verus! {

broadcast use lemma_nodes_view, lemma_node_view;

/// An XML document: at most one root node.
#[derive(Debug)]
pub struct XmlDocument {
    root: Option<XmlNode>,
}

impl View for XmlDocument {
    type V = Option<NodeV>;

    closed spec fn view(&self) -> Option<NodeV> {
        match self.root {
            Some(n) => Some(n@),
            None => None,
        }
    }
}

/// The tree builder's state: the elements still open (innermost last), and the
/// root once it is closed.
pub struct BuildModel {
    pub stack: Seq<ElementV>,
    pub root: Option<ElementV>,
}

/// A new element with no attributes and no children.
pub open spec fn fresh_element(name: Seq<char>, namespace: Option<Seq<char>>) -> ElementV {
    ElementV { name, namespace, attributes: Map::empty(), children: Seq::empty() }
}

/// Replaces the innermost open element.
pub open spec fn set_top(m: BuildModel, e: ElementV) -> BuildModel {
    BuildModel { stack: m.stack.update(m.stack.len() - 1, e), ..m }
}

/// Places a finished element: as the last child of the innermost open element,
/// or as the root.
pub open spec fn attach(m: BuildModel, el: ElementV) -> Result<BuildModel, ParseErrorV> {
    if m.stack.len() > 0 {
        let parent = m.stack.last();
        Ok(set_top(m, ElementV { children: parent.children.push(NodeV::Element(el)), ..parent }))
    } else if m.root is None {
        Ok(BuildModel { root: Some(el), ..m })
    } else {
        Err(ParseErrorV::UnexpectedRoot)
    }
}

/// How the tree builder takes in one lexed node.
pub open spec fn build_step(m: BuildModel, n: LexedV) -> Result<BuildModel, ParseErrorV> {
    match n {
        LexedV::TagOpen { name, namespace } => Ok(
            BuildModel { stack: m.stack.push(fresh_element(name, namespace)), ..m },
        ),
        LexedV::TagSelfClosing { name, namespace } => attach(m, fresh_element(name, namespace)),
        LexedV::Attribute { key, value } => if m.stack.len() > 0 {
            let parent = m.stack.last();
            let v = match value {
                Some(v) => v,
                None => Seq::empty(),
            };
            Ok(set_top(m, ElementV { attributes: parent.attributes.insert(key, v), ..parent }))
        } else {
            Err(ParseErrorV::InvalidParent)
        },
        LexedV::Content(text) => if m.stack.len() > 0 {
            let parent = m.stack.last();
            Ok(set_top(m, ElementV { children: parent.children.push(NodeV::Text(text)), ..parent }))
        } else {
            Err(ParseErrorV::ContentOutsideRoot)
        },
        LexedV::TagClose { name, namespace } => if m.stack.len() == 0 {
            Err(ParseErrorV::UnmatchedCloseTag(name))
        } else {
            let closed = m.stack.last();
            let mismatch = closed.name != name || closed.namespace != namespace;
            let is_empty = name.len() == 0 && namespace is None;
            if mismatch && !is_empty {
                Err(
                    ParseErrorV::TagMismatch {
                        expected: (closed.name, closed.namespace),
                        found: (name, namespace),
                    },
                )
            } else {
                attach(BuildModel { stack: m.stack.drop_last(), ..m }, closed)
            }
        },
        LexedV::Comment(_) => Ok(m),
    }
}

/// The tree builder after taking in `s[i..]`, or the first error.
pub open spec fn build_run(m: BuildModel, s: Seq<LexedV>, i: nat) -> Result<BuildModel, ParseErrorV>
    decreases s.len() - i,
{
    if i >= s.len() {
        Ok(m)
    } else {
        match build_step(m, s[i as int]) {
            Ok(m1) => build_run(m1, s, i + 1),
            Err(e) => Err(e),
        }
    }
}

/// The tree that the lexed nodes `s` stand for: no root for no nodes, else the
/// root element, or why there is none.
pub open spec fn spec_build(s: Seq<LexedV>) -> Result<Option<ElementV>, ParseErrorV> {
    if s.len() == 0 {
        Ok(None)
    } else {
        match build_run(BuildModel { stack: Seq::empty(), root: None }, s, 0) {
            Err(e) => Err(e),
            Ok(m) => if m.stack.len() > 0 {
                Err(ParseErrorV::UnclosedTags(m.stack.map_values(|e: ElementV| e.name)))
            } else {
                match m.root {
                    None => Err(ParseErrorV::EmptyDocument),
                    Some(r) => Ok(Some(r)),
                }
            },
        }
    }
}

/// What `XmlDocument::parse` makes of `data`.
pub open spec fn spec_parse(data: Seq<char>) -> Result<Option<NodeV>, ParseErrorV> {
    match spec_lex(data) {
        Err(e) => Err(e),
        Ok(nodes) => match spec_build(nodes) {
            Err(e) => Err(e),
            Ok(None) => Ok(None),
            Ok(Some(r)) => Ok(Some(NodeV::Element(r))),
        },
    }
}

/// The views of a stack of elements.
pub open spec fn elements_view(s: Seq<XmlElement>) -> Seq<ElementV> {
    s.map_values(|e: XmlElement| e@)
}

pub open spec fn opt_element_view(o: Option<XmlElement>) -> Option<ElementV> {
    match o {
        Some(e) => Some(e@),
        None => None,
    }
}

/// Places a finished element (see `attach`).
fn attach_element(
    stack: &mut Vec<XmlElement>,
    root: &mut Option<XmlElement>,
    el: XmlElement,
) -> (r: Result<(), ParseError>)
    ensures
        ({
            let m = BuildModel {
                stack: elements_view(old(stack)@),
                root: opt_element_view(*old(root)),
            };
            match attach(m, el@) {
                Ok(m1) => r is Ok && elements_view(final(stack)@) == m1.stack && m1.root
                    == opt_element_view(*final(root)),
                Err(e) => r is Err && r->Err_0@ == e,
            }
        }),
{
    if stack.len() > 0 {
        let mut parent = stack.pop().unwrap();
        parent.add_element(el);
        stack.push(parent);
        assert(elements_view(stack@) == elements_view(old(stack)@).update(
            old(stack)@.len() - 1,
            stack@.last()@,
        ));
        Ok(())
    } else if root.is_none() {
        *root = Some(el);
        Ok(())
    } else {
        Err(ParseError::UnexpectedRoot)
    }
}

/// Whether two optional namespaces are the same.
fn same_namespace(a: Option<&String>, b: &Option<String>) -> (r: bool)
    ensures
        r == (match a {
            Some(x) => Some(x@),
            None => None,
        } == opt_view(*b)),
{
    match (a, b) {
        (Some(x), Some(y)) => str_eq(x.as_str(), y.as_str()),
        (None, None) => true,
        _ => false,
    }
}

impl XmlDocument {
    /// A document without a root.
    pub fn new() -> (r: Self)
        ensures
            r@ is None,
    {
        XmlDocument { root: None }
    }

    /// A document with the root `root`.
    pub fn new_from_root(root: XmlNode) -> (r: Self)
        ensures
            r@ == Some(root@),
    {
        XmlDocument { root: Some(root) }
    }

    /// The root node, if there is one.
    pub fn root(&self) -> (r: Option<&XmlNode>)
        ensures
            match self@ {
                Some(n) => r is Some && r->0@ == n,
                None => r is None,
            },
    {
        self.root.as_ref()
    }

    /// The root node, if there is one, to change in place.
    pub fn root_mut(&mut self) -> (r: Option<&mut XmlNode>)
        ensures
            match old(self)@ {
                Some(n) => r is Some && (*r.unwrap())@ == n && final(self)@ == Some(
                    (*final(r.unwrap()))@,
                ),
                None => r is None && final(self)@ is None,
            },
    {
        self.root.as_mut()
    }

    /// Builds the element tree out of lexed nodes.
    pub fn try_from(value: LexedXmlDocument) -> (r: Result<Self, ParseError>)
        ensures
            match spec_build(value@) {
                Ok(None) => r is Ok && r->Ok_0@ is None,
                Ok(Some(e)) => r is Ok && r->Ok_0@ == Some(NodeV::Element(e)),
                Err(e) => r is Err && r->Err_0@ == e,
            },
    {
        if value.len() == 0 {
            return Ok(XmlDocument::new());
        }
        let ghost s = value@;
        let nodes = value.take_nodes();
        // The nodes in reverse, so that popping hands them out in order.
        let mut pending: Vec<LexedXmlNode> = Vec::new();
        let mut source = nodes;
        while source.len() > 0
            invariant
                lexed_view(source@) + lexed_view(pending@).reverse() == s,
            decreases source@.len(),
        {
            let ghost before_source = source@;
            let ghost before_pending = pending@;
            let n = source.pop().unwrap();
            pending.push(n);
            proof {
                assert(lexed_view(before_source) == lexed_view(source@).push(n@));
                assert(lexed_view(pending@) == lexed_view(before_pending).push(n@));
                assert(lexed_view(pending@).reverse() == seq![n@] + lexed_view(before_pending).reverse());
                assert(lexed_view(source@) + lexed_view(pending@).reverse() == s);
            }
        }
        assert(lexed_view(source@) == Seq::<LexedV>::empty());
        assert(lexed_view(pending@).reverse() == s);
        let mut stack: Vec<XmlElement> = Vec::new();
        let mut root: Option<XmlElement> = None;
        let ghost mut i: nat = 0;
        assert(elements_view(stack@) == Seq::<ElementV>::empty());
        while pending.len() > 0
            invariant
                s == value@,
                s.len() > 0,
                i + pending@.len() == s.len(),
                forall|j: int| 0 <= j < pending@.len() ==> (#[trigger] pending@[j])@ == s[s.len() - 1 - j],
                build_run(BuildModel { stack: Seq::empty(), root: None }, s, 0) == build_run(
                    BuildModel {
                        stack: elements_view(stack@),
                        root: opt_element_view(root),
                    },
                    s,
                    i,
                ),
            decreases pending@.len(),
        {
            let lexed = pending.pop().unwrap();
            let ghost m = BuildModel {
                stack: elements_view(stack@),
                root: opt_element_view(root),
            };
            assert(lexed@ == s[i as int]);
            match lexed {
                LexedXmlNode::TagOpen { name, namespace } => {
                    let ghost fresh = fresh_element(name@, opt_view(namespace));
                    let el = XmlElement::new(name, namespace, XmlAttributes::new(), Vec::new());
                    assert(el@.children == Seq::<NodeV>::empty());
                    assert(el@ == fresh);
                    stack.push(el);
                    assert(elements_view(stack@) == m.stack.push(stack@.last()@));
                },
                LexedXmlNode::TagSelfClosing { name, namespace } => {
                    let ghost fresh = fresh_element(name@, opt_view(namespace));
                    let el = XmlElement::new(name, namespace, XmlAttributes::new(), Vec::new());
                    assert(el@.children == Seq::<NodeV>::empty());
                    assert(el@ == fresh);
                    attach_element(&mut stack, &mut root, el)?;
                },
                LexedXmlNode::Attribute { key, value } => {
                    if stack.len() > 0 {
                        let value = if let Some(value) = value {
                            value
                        } else {
                            String::new()
                        };
                        let mut parent = stack.pop().unwrap();
                        parent.set_attr(key, value);
                        stack.push(parent);
                        assert(elements_view(stack@) == m.stack.update(
                            m.stack.len() - 1,
                            stack@.last()@,
                        ));
                    } else {
                        assert(build_run(m, s, i) == Err::<BuildModel, ParseErrorV>(
                            ParseErrorV::InvalidParent,
                        ));
                        return Err(ParseError::InvalidParent);
                    }
                },
                LexedXmlNode::Content(text) => {
                    if stack.len() > 0 {
                        let mut parent = stack.pop().unwrap();
                        parent.add_text(text.as_str());
                        stack.push(parent);
                        assert(elements_view(stack@) == m.stack.update(
                            m.stack.len() - 1,
                            stack@.last()@,
                        ));
                    } else {
                        assert(build_run(m, s, i) == Err::<BuildModel, ParseErrorV>(
                            ParseErrorV::ContentOutsideRoot,
                        ));
                        return Err(ParseError::ContentOutsideRoot);
                    }
                },
                LexedXmlNode::TagClose { name, namespace } => {
                    if stack.len() == 0 {
                        return Err(ParseError::UnmatchedCloseTag(name));
                    }
                    let closed = stack.pop().unwrap();
                    assert(elements_view(stack@) == m.stack.drop_last());
                    let names_mismatch = !str_eq(closed.name().as_str(), name.as_str())
                        || !same_namespace(closed.namespace(), &namespace);
                    let is_empty = name.as_str().is_empty() && namespace.is_none();
                    if names_mismatch && !is_empty {
                        let expected_ns = match closed.namespace() {
                            Some(n) => Some(n.clone()),
                            None => None,
                        };
                        return Err(
                            ParseError::TagMismatch {
                                expected: (closed.name().clone(), expected_ns),
                                found: (name, namespace),
                            },
                        );
                    }
                    attach_element(&mut stack, &mut root, closed)?;
                },
                LexedXmlNode::Comment(_comment) => {},
            }
            assert(build_step(m, s[i as int]) == Ok::<BuildModel, ParseErrorV>(
                BuildModel { stack: elements_view(stack@), root: opt_element_view(root) },
            ));
            proof {
                i = i + 1;
                assert forall|j: int| 0 <= j < pending@.len() implies (#[trigger] pending@[j])@ == s[s.len()
                    - 1 - j] by {}
            }
        }
        if stack.len() > 0 {
            let mut names: Vec<String> = Vec::new();
            let mut k: usize = 0;
            while k < stack.len()
                invariant
                    k <= stack@.len(),
                    strings_view(names@) == elements_view(stack@).subrange(0, k as int).map_values(
                        |e: ElementV| e.name,
                    ),
                decreases stack@.len() - k,
            {
                let ghost before = names@;
                names.push(stack[k].name().clone());
                assert(strings_view(names@) == strings_view(before).push(stack@[k as int]@.name));
                assert(elements_view(stack@).subrange(0, k + 1) == elements_view(stack@).subrange(
                    0,
                    k as int,
                ).push(stack@[k as int]@));
                k = k + 1;
            }
            assert(elements_view(stack@).subrange(0, stack@.len() as int) == elements_view(stack@));
            return Err(ParseError::UnclosedTags(names));
        }
        match root {
            Some(r) => Ok(XmlDocument::new_from_root(XmlNode::Element(r))),
            None => Err(ParseError::EmptyDocument),
        }
    }
}


/// The nodes of the tree under `n`, `n` first, in document order (depth first,
/// children left to right).
pub open spec fn preorder(n: NodeV) -> Seq<NodeV>
    decreases n, 0nat,
{
    match n {
        NodeV::Element(e) => seq![n] + preorder_all(e.children),
        _ => seq![n],
    }
}

/// The pre-order walks of the trees `s`, one after the other.
pub open spec fn preorder_all(s: Seq<NodeV>) -> Seq<NodeV>
    decreases s, 1nat,
{
    if s.len() == 0 {
        Seq::empty()
    } else {
        preorder(s[0]) + preorder_all(s.drop_first())
    }
}

/// The nodes a walk still has to hand out, given its stack of subtrees (the
/// next subtree on top, that is, last).
pub open spec fn pending(stack: Seq<NodeV>) -> Seq<NodeV>
    decreases stack.len(),
{
    if stack.len() == 0 {
        Seq::empty()
    } else {
        preorder(stack.last()) + pending(stack.drop_last())
    }
}

/// The views of a stack of borrowed nodes.
pub open spec fn refs_view<'a>(s: Seq<&'a XmlNode>) -> Seq<NodeV> {
    s.map_values(|n: &'a XmlNode| n@)
}

/// The views of a stack of nodes.
pub open spec fn owned_view(s: Seq<XmlNode>) -> Seq<NodeV> {
    s.map_values(|n: XmlNode| n@)
}

proof fn lemma_preorder_nonempty(n: NodeV)
    ensures
        preorder(n).len() >= 1,
        preorder(n)[0] == n,
{
}

proof fn lemma_pending_empty(stack: Seq<NodeV>)
    ensures
        pending(stack).len() == 0 <==> stack.len() == 0,
{
    if stack.len() > 0 {
        lemma_preorder_nonempty(stack.last());
    }
}

/// Taking the children `cs[j-1]` on top of a stack puts its walk in front.
proof fn lemma_pending_push_child(stack: Seq<NodeV>, cs: Seq<NodeV>, j: int, rest: Seq<NodeV>)
    requires
        0 < j <= cs.len(),
        pending(stack) == preorder_all(cs.subrange(j, cs.len() as int)) + pending(rest),
    ensures
        pending(stack.push(cs[j - 1])) == preorder_all(cs.subrange(j - 1, cs.len() as int))
            + pending(rest),
{
    let t = cs.subrange(j - 1, cs.len() as int);
    assert(t.drop_first() == cs.subrange(j, cs.len() as int));
    assert(stack.push(cs[j - 1]).drop_last() == stack);
    assert(preorder_all(t) == preorder(cs[j - 1]) + preorder_all(t.drop_first()));
}

/// A pre-order walk over the nodes of a document.
pub struct XmlNodeIter<'a> {
    stack: Vec<&'a XmlNode>,
}

impl<'a> View for XmlNodeIter<'a> {
    type V = Seq<NodeV>;

    /// The nodes still to come, in order.
    closed spec fn view(&self) -> Seq<NodeV> {
        pending(refs_view(self.stack@))
    }
}

impl<'a> XmlNodeIter<'a> {
    /// The next node of the walk, if any is left.
    pub fn next(&mut self) -> (r: Option<&'a XmlNode>)
        ensures
            old(self)@.len() == 0 ==> r is None && final(self)@ == old(self)@,
            old(self)@.len() > 0 ==> r is Some && r->0@ == old(self)@[0] && final(self)@
                == old(self)@.drop_first(),
    {
        proof {
            lemma_pending_empty(refs_view(self.stack@));
        }
        let node = match self.stack.pop() {
            Some(n) => n,
            None => return None,
        };
        let ghost rest = refs_view(self.stack@);
        proof {
            assert(refs_view(old(self).stack@) == rest.push(node@));
            assert(refs_view(old(self).stack@).drop_last() == rest);
        }
        if let XmlNode::Element(el) = node {
            let children = el.children();
            let ghost cs = nodes_view(children@);
            let mut j = children.len();
            assert(cs.subrange(j as int, cs.len() as int) == Seq::<NodeV>::empty());
            while j > 0
                invariant
                    j <= children@.len(),
                    cs == nodes_view(children@),
                    pending(refs_view(self.stack@)) == preorder_all(cs.subrange(j as int, cs.len() as int))
                        + pending(rest),
                decreases j,
            {
                let ghost before = refs_view(self.stack@);
                self.stack.push(&children[j - 1]);
                proof {
                    assert(refs_view(self.stack@) == before.push(cs[j - 1]));
                    lemma_pending_push_child(before, cs, j as int, rest);
                }
                j = j - 1;
            }
            assert(cs.subrange(0, cs.len() as int) == cs);
        }
        Some(node)
    }
}

/// A pre-order walk that hands out copies of the nodes of a document: each
/// element it hands out keeps its children.
pub struct XmlNodeIntoIter {
    stack: Vec<XmlNode>,
}

impl View for XmlNodeIntoIter {
    type V = Seq<NodeV>;

    /// The nodes still to come, in order.
    closed spec fn view(&self) -> Seq<NodeV> {
        pending(owned_view(self.stack@))
    }
}

impl XmlNodeIntoIter {
    /// The next node of the walk, if any is left.
    pub fn next(&mut self) -> (r: Option<XmlNode>)
        ensures
            old(self)@.len() == 0 ==> r is None && final(self)@ == old(self)@,
            old(self)@.len() > 0 ==> r is Some && r->0@ == old(self)@[0] && final(self)@
                == old(self)@.drop_first(),
    {
        proof {
            lemma_pending_empty(owned_view(self.stack@));
        }
        let node = match self.stack.pop() {
            Some(n) => n,
            None => return None,
        };
        let ghost rest = owned_view(self.stack@);
        proof {
            assert(owned_view(old(self).stack@) == rest.push(node@));
            assert(owned_view(old(self).stack@).drop_last() == rest);
        }
        if let XmlNode::Element(el) = node {
            // Copies, so that the element handed out keeps its children.
            let mut children = duplicate_nodes(el.children());
            let ghost cs = nodes_view(children@);
            assert(cs.subrange(children@.len() as int, cs.len() as int) == Seq::<NodeV>::empty());
            while children.len() > 0
                invariant
                    children@.len() <= cs.len(),
                    forall|k: int| 0 <= k < children@.len() ==> (#[trigger] children@[k])@ == cs[k],
                    pending(owned_view(self.stack@)) == preorder_all(
                        cs.subrange(children@.len() as int, cs.len() as int),
                    ) + pending(rest),
                decreases children@.len(),
            {
                let ghost j = children@.len();
                let ghost before = owned_view(self.stack@);
                let child = children.pop().unwrap();
                self.stack.push(child);
                proof {
                    assert(owned_view(self.stack@) == before.push(cs[j - 1]));
                    lemma_pending_push_child(before, cs, j as int, rest);
                }
            }
            assert(cs.subrange(0, cs.len() as int) == cs);
            Some(XmlNode::Element(el))
        } else {
            Some(node)
        }
    }
}

impl XmlDocument {
    /// Parses `data` into a document.
    pub fn parse(data: &str) -> (r: Result<Self, ParseError>)
        ensures
            match spec_parse(data@) {
                Ok(root) => r is Ok && r->Ok_0@ == root,
                Err(e) => r is Err && r->Err_0@ == e,
            },
    {
        // The number of characters fits a `usize`, and so does the tokenizer's count.
        let _char_count = data.unicode_len();
        let mut parser = KbXmlParser::new();
        let internal_doc = parser.parse(data)?;
        XmlDocument::try_from(internal_doc)
    }

    /// A pre-order walk over all nodes of the document.
    pub fn iter(&self) -> (r: XmlNodeIter<'_>)
        ensures
            r@ == match self@ {
                Some(n) => preorder(n),
                None => Seq::empty(),
            },
    {
        let mut stack: Vec<&XmlNode> = Vec::new();
        if let Some(root) = &self.root {
            stack.push(root);
            assert(refs_view(stack@).drop_last() == Seq::<NodeV>::empty());
            assert(preorder(root@) + Seq::<NodeV>::empty() == preorder(root@));
            assert(pending(Seq::<NodeV>::empty()) == Seq::<NodeV>::empty());
            assert(refs_view(stack@).last() == root@);
        } else {
            assert(refs_view(stack@) == Seq::<NodeV>::empty());
        }
        XmlNodeIter { stack }
    }

    /// A pre-order walk over copies of all nodes of the document.
    pub fn into_iter(self) -> (r: XmlNodeIntoIter)
        ensures
            r@ == match self@ {
                Some(n) => preorder(n),
                None => Seq::empty(),
            },
    {
        let mut stack: Vec<XmlNode> = Vec::new();
        match self.root {
            Some(root) => {
                let ghost rv = root@;
                stack.push(root);
                assert(owned_view(stack@).drop_last() == Seq::<NodeV>::empty());
                assert(preorder(rv) + Seq::<NodeV>::empty() == preorder(rv));
                assert(pending(Seq::<NodeV>::empty()) == Seq::<NodeV>::empty());
                assert(owned_view(stack@).last() == rv);
            },
            None => {
                assert(owned_view(stack@) == Seq::<NodeV>::empty());
            },
        }
        XmlNodeIntoIter { stack }
    }
}

/// A document that is only an XML declaration has no root.
pub proof fn law_parse_declaration_only(body: Seq<char>)
    requires
        forall|j: int| 0 <= j < body.len() ==> body[j] != '?',
    ensures
        spec_parse(seq!['<', '?'] + body + seq!['?', '>']) == Ok::<Option<NodeV>, ParseErrorV>(None),
{
    crate::parser::law_declaration_yields_nothing(body);
}

/// A document that is one self-closing tag has as root an element of that
/// name, without namespace, attributes or children.
pub proof fn law_parse_self_closing(name: Seq<char>, spaces: nat)
    requires
        name.len() > 0,
        forall|j: int| 0 <= j < name.len() ==> crate::parser::spec_token(#[trigger] name[j])
            == crate::parser::Token::Char,
    ensures
        spec_parse(seq!['<'] + name + Seq::new(spaces, |j: int| ' ') + seq!['/', '>']) == Ok::<
            Option<NodeV>,
            ParseErrorV,
        >(Some(NodeV::Element(fresh_element(name, None)))),
{
    crate::parser::law_self_closing_tag(name, spaces);
    let s = seq![LexedV::TagSelfClosing { name: name, namespace: None }];
    let m0 = BuildModel { stack: Seq::empty(), root: None };
    let m1 = BuildModel { stack: Seq::empty(), root: Some(fresh_element(name, None)) };
    assert(build_step(m0, s[0]) == Ok::<BuildModel, ParseErrorV>(m1));
    assert(build_run(m0, s, 0) == build_run(m1, s, 1));
}

/// A document that is one element holding text (`<name>`, text without `<`,
/// `</name>`) has as root that element, without namespace or attributes, its
/// one child the text trimmed (no child when nothing is left of it).
pub proof fn law_parse_element_with_text(name: Seq<char>, text: Seq<char>)
    requires
        name.len() > 0,
        forall|j: int| 0 <= j < name.len() ==> crate::parser::spec_token(#[trigger] name[j])
            == crate::parser::Token::Char,
        forall|j: int| 0 <= j < text.len() ==> text[j] != '<',
    ensures
        spec_parse(seq!['<'] + name + seq!['>'] + text + seq!['<', '/'] + name + seq!['>']) == Ok::<
            Option<NodeV>,
            ParseErrorV,
        >(
            Some(
                NodeV::Element(
                    ElementV {
                        children: if spec_trim(text).len() > 0 {
                            seq![NodeV::Text(spec_trim(text))]
                        } else {
                            Seq::empty()
                        },
                        ..fresh_element(name, None)
                    },
                ),
            ),
        ),
{
    crate::parser::law_element_with_text(name, text);
    let s = crate::parser::element_with_text_nodes(name, text);
    let t = spec_trim(text);
    let m0 = BuildModel { stack: Seq::empty(), root: None };
    let m1 = BuildModel { stack: seq![fresh_element(name, None)], root: None };
    assert(s[0] == LexedV::TagOpen { name: name, namespace: None });
    assert(build_step(m0, s[0]) == Ok::<BuildModel, ParseErrorV>(m1));
    assert(build_run(m0, s, 0) == build_run(m1, s, 1));
    let el = ElementV {
        children: if t.len() > 0 {
            seq![NodeV::Text(t)]
        } else {
            Seq::empty()
        },
        ..fresh_element(name, None)
    };
    let m2 = BuildModel { stack: seq![el], root: None };
    let last = BuildModel { stack: Seq::empty(), root: Some(el) };
    if t.len() > 0 {
        assert(s.len() == 3);
        assert(s[1] == LexedV::Content(t));
        assert(s[2] == LexedV::TagClose { name: name, namespace: None });
        assert(Seq::<NodeV>::empty().push(NodeV::Text(t)) =~= seq![NodeV::Text(t)]);
        assert(m1.stack.update(0, el) =~= seq![el]);
        assert(build_step(m1, s[1]) == Ok::<BuildModel, ParseErrorV>(m2));
        assert(build_run(m1, s, 1) == build_run(m2, s, 2));
        assert(m2.stack.drop_last() == Seq::<ElementV>::empty());
        assert(build_step(m2, s[2]) == Ok::<BuildModel, ParseErrorV>(last));
        assert(build_run(m2, s, 2) == build_run(last, s, 3));
    } else {
        assert(s.len() == 2);
        assert(s[1] == LexedV::TagClose { name: name, namespace: None });
        assert(m1 == m2);
        assert(m2.stack.drop_last() == Seq::<ElementV>::empty());
        assert(build_step(m2, s[1]) == Ok::<BuildModel, ParseErrorV>(last));
        assert(build_run(m2, s, 1) == build_run(last, s, 2));
    }
}
} // verus!
