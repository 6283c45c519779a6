//! Turning what the model streams back into chat responses: the model answers
//! in XML, a `response` element for prose and a `code` element for code.
use vstd::prelude::*;
use crate::document::{XmlDocument, preorder, spec_parse};
use crate::error::ParseError;
use crate::message::{LlmMessage, llm_content, llm_id};
use crate::node::{NodeV, XmlNode, lemma_node_view};
use crate::text::str_eq;

verus! {

broadcast use {crate::node::lemma_node_view, crate::node::lemma_nodes_view};

pub const RESPONSE_TAG_NAME: &'static str = "response";

pub const CODE_TAG_NAME: &'static str = "code";

pub const KB_TAG_NAMESPACE: &'static str = "kb";

/// The length of a message id.
pub const MESSAGE_ID_LEN: usize = 9;

/// Something the model said.
#[derive(Debug)]
pub enum ChatResponse {
    Response(String),
    Code(String),
    EndStream { message: LlmMessage },
}

/// One event of the model's stream.
#[derive(Debug)]
pub enum ChatResponseStream {
    LlmResponseEvent { content: String },
}

/// What a chat response is, as a mathematical value: the end of the stream
/// carries the id and text of the model's message.
pub enum ChatResponseV {
    Response(Seq<char>),
    Code(Seq<char>),
    EndStream { message_id: Option<Seq<char>>, content: Seq<char> },
}

impl View for ChatResponse {
    type V = ChatResponseV;

    open spec fn view(&self) -> ChatResponseV {
        match self {
            ChatResponse::Response(s) => ChatResponseV::Response(s@),
            ChatResponse::Code(s) => ChatResponseV::Code(s@),
            ChatResponse::EndStream { message } => ChatResponseV::EndStream {
                message_id: llm_id(*message),
                content: llm_content(*message),
            },
        }
    }
}

/// The views of a sequence of responses.
pub open spec fn responses_view(s: Seq<ChatResponse>) -> Seq<ChatResponseV> {
    s.map_values(|r: ChatResponse| r@)
}

/// The response a node stands for: an element named `response` or `code` whose
/// first child is text gives that text as prose or code; other nodes give none.
pub open spec fn node_response(n: NodeV) -> Option<ChatResponseV> {
    match n {
        NodeV::Element(e) => if e.children.len() > 0 && e.children[0] is Text {
            let content = e.children[0]->Text_0;
            if e.name == RESPONSE_TAG_NAME@ {
                Some(ChatResponseV::Response(content))
            } else if e.name == CODE_TAG_NAME@ {
                Some(ChatResponseV::Code(content))
            } else {
                None
            }
        } else {
            None
        },
        _ => None,
    }
}

/// The responses of `nodes`, in order.
pub open spec fn nodes_responses(nodes: Seq<NodeV>) -> Seq<ChatResponseV>
    decreases nodes.len(),
{
    if nodes.len() == 0 {
        Seq::empty()
    } else {
        match node_response(nodes[0]) {
            Some(r) => seq![r] + nodes_responses(nodes.drop_first()),
            None => nodes_responses(nodes.drop_first()),
        }
    }
}

/// The responses of `n` alone: its response, if it has one.
pub open spec fn own_responses(n: NodeV) -> Seq<ChatResponseV> {
    match node_response(n) {
        Some(r) => seq![r],
        None => Seq::empty(),
    }
}

/// Nodes give their responses in order and independently of each other: the
/// responses of nodes put one after the other are their responses put one
/// after the other, so every response or code element whose first child is
/// text gives exactly one response, where it stands, whatever comes before or
/// after it.
pub proof fn law_responses_in_document_order(a: Seq<NodeV>, b: Seq<NodeV>, n: NodeV)
    ensures
        nodes_responses(Seq::empty()) == Seq::<ChatResponseV>::empty(),
        nodes_responses(seq![n]) == own_responses(n),
        nodes_responses(a + b) == nodes_responses(a) + nodes_responses(b),
    decreases a.len(),
{
    assert(seq![n].drop_first() =~= Seq::<NodeV>::empty());
    assert(nodes_responses(Seq::<NodeV>::empty()) == Seq::<ChatResponseV>::empty());
    assert(nodes_responses(seq![n]) =~= own_responses(n));
    if a.len() == 0 {
        assert(a + b =~= b);
        assert(nodes_responses(a) + nodes_responses(b) =~= nodes_responses(b));
    } else {
        law_responses_in_document_order(a.drop_first(), b, n);
        assert((a + b).drop_first() =~= a.drop_first() + b);
        assert((a + b)[0] == a[0]);
        match node_response(a[0]) {
            Some(r) => {
                assert(seq![r] + (nodes_responses(a.drop_first()) + nodes_responses(b)) =~= (seq![r]
                    + nodes_responses(a.drop_first())) + nodes_responses(b));
            },
            None => {},
        }
    }
}

/// The responses of a message that parsed into a document with root `root`:
/// those of its nodes in document order.
pub open spec fn document_responses(root: Option<NodeV>) -> Seq<ChatResponseV> {
    match root {
        Some(n) => nodes_responses(preorder(n)),
        None => Seq::empty(),
    }
}

/// Whether `c` is an ASCII letter or digit.
pub open spec fn is_ascii_alphanumeric(c: char) -> bool {
    ('0' <= c && c <= '9') || ('A' <= c && c <= 'Z') || ('a' <= c && c <= 'z')
}

/// Calls `<rand::distr::Alphanumeric as rand::distr::SampleString>::sample_string`
/// with the thread's generator (`rand::rng()`): `len` characters drawn from the
/// ASCII letters and digits. Which characters come out is left open; the
/// generator's own failure to start (no randomness from the system) is not
/// excluded.
#[verifier::external_body]
fn random_alphanumeric(len: usize) -> (r: String)
    ensures
        r@.len() == len,
        forall|i: int| 0 <= i < len ==> is_ascii_alphanumeric(#[trigger] r@[i]),
{
    rand::distr::SampleString::sample_string(&rand::distr::Alphanumeric, &mut rand::rng(), len)
}

/// Reads the model's streamed answer into chat responses.
pub struct ChatResponseParser {
    message_id: String,
    message_buffer: String,
}

impl ChatResponseParser {
    /// The id given to the message the stream makes.
    pub closed spec fn message_id(&self) -> Seq<char> {
        self.message_id@
    }

    /// The text of the message read so far.
    pub closed spec fn message_buffer(&self) -> Seq<char> {
        self.message_buffer@
    }

    /// A parser for a new stream, its message id random letters and digits.
    pub fn new() -> (r: Self)
        ensures
            r.message_id().len() == MESSAGE_ID_LEN,
            forall|i: int| 0 <= i < MESSAGE_ID_LEN ==> is_ascii_alphanumeric(#[trigger] r.message_id()[i]),
            r.message_buffer() == Seq::<char>::empty(),
    {
        ChatResponseParser { message_id: random_alphanumeric(MESSAGE_ID_LEN), message_buffer: String::new() }
    }

    /// The responses for the next event of the stream: those of the model's
    /// XML text, or at the end of the stream (`None`) the model's whole message,
    /// with the parser's message id.
    pub fn next(&mut self, event: Option<ChatResponseStream>) -> (r: Result<Vec<ChatResponse>, ParseError>)
        ensures
            final(self).message_id() == old(self).message_id(),
            match event {
                Some(ChatResponseStream::LlmResponseEvent { content }) => {
                    &&& final(self).message_buffer() == old(self).message_buffer()
                    &&& match spec_parse(content@) {
                        Ok(root) => r is Ok && responses_view(r->Ok_0@) == document_responses(root),
                        Err(e) => r is Err && r->Err_0@ == e,
                    }
                },
                None => {
                    &&& final(self).message_buffer() == Seq::<char>::empty()
                    &&& r is Ok
                    &&& responses_view(r->Ok_0@) == seq![
                        ChatResponseV::EndStream {
                            message_id: Some(old(self).message_id()),
                            content: old(self).message_buffer(),
                        },
                    ]
                },
            },
    {
        match event {
            Some(ChatResponseStream::LlmResponseEvent { content }) => self.parse_xml_to_chat_response(content),
            None => {
                let mut message = String::new();
                std::mem::swap(&mut message, &mut self.message_buffer);
                let llm_message = LlmMessage::new_response(Some(self.message_id.clone()), message);
                let mut responses: Vec<ChatResponse> = Vec::new();
                responses.push(ChatResponse::EndStream { message: llm_message });
                assert(responses_view(responses@) =~= seq![
                    ChatResponseV::EndStream {
                        message_id: Some(old(self).message_id()),
                        content: old(self).message_buffer(),
                    },
                ]);
                Ok(responses)
            },
        }
    }

    /// The responses of the model's XML text `message`: one for each `response`
    /// or `code` element whose first child is text, in document order.
    pub fn parse_xml_to_chat_response(&mut self, message: String) -> (r: Result<Vec<ChatResponse>, ParseError>)
        ensures
            *final(self) == *old(self),
            match spec_parse(message@) {
                Ok(root) => r is Ok && responses_view(r->Ok_0@) == document_responses(root),
                Err(e) => r is Err && r->Err_0@ == e,
            },
    {
        let doc = XmlDocument::parse(message.as_str())?;
        let ghost all = doc@;
        let mut iter = doc.into_iter();
        let mut chat_responses: Vec<ChatResponse> = Vec::new();
        loop
            invariant
                document_responses(all) == responses_view(chat_responses@) + nodes_responses(iter@),
            ensures
                document_responses(all) == responses_view(chat_responses@),
            decreases iter@.len(),
        {
            let ghost rest = iter@;
            match iter.next() {
                None => {
                    assert(responses_view(chat_responses@) + Seq::<ChatResponseV>::empty()
                        == responses_view(chat_responses@));
                    break;
                },
                Some(node) => {
                    let ghost nv = node@;
                    let response = node_to_response(node);
                    let ghost before = chat_responses@;
                    match response {
                        Some(resp) => {
                            chat_responses.push(resp);
                            assert(responses_view(chat_responses@) == responses_view(before).push(
                                node_response(nv)->0,
                            ));
                            assert(responses_view(before) + nodes_responses(rest) == responses_view(
                                before,
                            ).push(node_response(nv)->0) + nodes_responses(iter@));
                        },
                        None => {},
                    }
                },
            }
        }
        Ok(chat_responses)
    }
}

/// The response `node` stands for (see [`node_response`]).
fn node_to_response(node: XmlNode) -> (r: Option<ChatResponse>)
    ensures
        match node_response(node@) {
            Some(v) => r is Some && r->0@ == v,
            None => r is None,
        },
{
    proof {
        lemma_node_view(node);
    }
    match node {
        XmlNode::Element(mut element) => {
            let children = element.take_children();
            if children.len() == 0 {
                return None;
            }
            let content = match &children[0] {
                XmlNode::Text(text) => text.clone(),
                _ => return None,
            };
            if str_eq(element.name().as_str(), RESPONSE_TAG_NAME) {
                Some(ChatResponse::Response(content))
            } else if str_eq(element.name().as_str(), CODE_TAG_NAME) {
                Some(ChatResponse::Code(content))
            } else {
                None
            }
        },
        _ => None,
    }
}

} // verus!
