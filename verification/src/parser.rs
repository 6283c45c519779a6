//! The tokenizer: a character-by-character state machine that turns XML text
//! into a flat list of tags, attributes, text content and comments.
use vstd::prelude::*;
use crate::error::{ParseError, ParseErrorV, err_view};
use crate::lexed::{LexedV, LexedXmlDocument, LexedXmlNode};
use crate::text::{push_char, spec_trim, trim};
use crate::node::opt_view;

verus! {

/// The class of a character, as far as the tokenizer cares.
#[derive(Clone, Copy, Debug, PartialEq, Eq, Structural)]
pub enum Token {
    Space,
    LessThan,
    GreaterThan,
    Slash,
    Colon,
    Char,
    Equal,
    Quote,
    Question,
    Exclamation,
    Hyphen,
}

/// The class of `ch`.
pub open spec fn spec_token(ch: char) -> Token {
    if ch == ' ' || ch == '\n' || ch == '\t' || ch == '\r' {
        Token::Space
    } else if ch == '<' {
        Token::LessThan
    } else if ch == '>' {
        Token::GreaterThan
    } else if ch == '/' {
        Token::Slash
    } else if ch == ':' {
        Token::Colon
    } else if ch == '=' {
        Token::Equal
    } else if ch == '\'' || ch == '"' {
        Token::Quote
    } else if ch == '!' {
        Token::Exclamation
    } else if ch == '?' {
        Token::Question
    } else if ch == '-' {
        Token::Hyphen
    } else {
        Token::Char
    }
}

impl Token {
    /// The class of `ch`.
    pub fn char_to_token(ch: char) -> (r: Token)
        ensures
            r == spec_token(ch),
    {
        match ch {
            ' ' | '\n' | '\t' | '\r' => Token::Space,
            '<' => Token::LessThan,
            '>' => Token::GreaterThan,
            '/' => Token::Slash,
            ':' => Token::Colon,
            '=' => Token::Equal,
            '\'' | '\"' => Token::Quote,
            '!' => Token::Exclamation,
            '?' => Token::Question,
            '-' => Token::Hyphen,
            _ => Token::Char,
        }
    }
}

/// Where in the markup the tokenizer is.
#[derive(Clone, Copy, Debug, PartialEq, Eq, Structural)]
pub enum ParserState {
    Data,
    TagBegin,
    TagName,
    TagEnd,
    AttributeNameBegin,
    AttributeName,
    AttributeNameEnd,
    AttributeValueBegin,
    AttributeValue,
    CommentBegin,
    Comment,
    CommentEnd,
    DeclarationBegin,
    Declaration,
    DeclarationEnd,
}

/// The quote character that opened an attribute value.
#[derive(Clone, Copy, Debug, PartialEq, Eq, Structural)]
pub enum QuoteChar {
    Single,
    Double,
}

/// The quote kind of a quote character.
pub open spec fn spec_quote(ch: char) -> QuoteChar {
    if ch == '\'' {
        QuoteChar::Single
    } else {
        QuoteChar::Double
    }
}

/// The tokenizer's state as a mathematical value.
#[verifier::ext_equal]
pub struct ParserModel {
    pub state: ParserState,
    pub peek: Option<char>,
    pub data_buffer: Seq<char>,
    pub tag_name: Seq<char>,
    pub tag_namespace: Seq<char>,
    pub attribute_name: Seq<char>,
    pub attribute_value: Seq<char>,
    pub is_closing: bool,
    pub is_self_closing: bool,
    pub is_comment: bool,
    pub is_declaration: bool,
    pub hyphen_count: nat,
    pub open_quote: Option<QuoteChar>,
    pub nodes: Seq<LexedV>,
}

/// The tokenizer.
pub struct KbXmlParser {
    current_state: ParserState,
    peek_buffer: Option<char>,
    /// Internal data buffer to store parsed content
    data_buffer: String,
    tag_name: String,
    tag_namespace: String,
    attribute_name: String,
    attribute_value: String,
    is_closing: bool,
    is_self_closing: bool,
    is_comment: bool,
    /// Handles flag for whether we are parsing an XML declaration tag
    is_declaration: bool,
    hyphen_count: usize,
    open_quote: Option<QuoteChar>,
    document: LexedXmlDocument,
}

impl View for KbXmlParser {
    type V = ParserModel;

    closed spec fn view(&self) -> ParserModel {
        ParserModel {
            state: self.current_state,
            peek: self.peek_buffer,
            data_buffer: self.data_buffer@,
            tag_name: self.tag_name@,
            tag_namespace: self.tag_namespace@,
            attribute_name: self.attribute_name@,
            attribute_value: self.attribute_value@,
            is_closing: self.is_closing,
            is_self_closing: self.is_self_closing,
            is_comment: self.is_comment,
            is_declaration: self.is_declaration,
            hyphen_count: self.hyphen_count as nat,
            open_quote: self.open_quote,
            nodes: self.document@,
        }
    }
}

/// The state of a tokenizer that has read nothing.
pub open spec fn initial_model() -> ParserModel {
    ParserModel {
        state: ParserState::Data,
        peek: None,
        data_buffer: Seq::empty(),
        tag_name: Seq::empty(),
        tag_namespace: Seq::empty(),
        attribute_name: Seq::empty(),
        attribute_value: Seq::empty(),
        is_closing: false,
        is_self_closing: false,
        is_comment: false,
        is_declaration: false,
        hyphen_count: 0,
        open_quote: None,
        nodes: Seq::empty(),
    }
}

/// The outcome of one step: the state after it, and the error that stopped it, if any.
pub type StepOutcome = (ParserModel, Option<ParseErrorV>);

pub open spec fn goto(m: ParserModel, s: ParserState) -> StepOutcome {
    (ParserModel { state: s, ..m }, None)
}

pub open spec fn fail(m: ParserModel, e: ParseErrorV) -> StepOutcome {
    (m, Some(e))
}

/// Takes the tag name and namespace buffers: the model after, the name, and the
/// namespace if one was given.
pub open spec fn consume_name(m: ParserModel) -> (ParserModel, Seq<char>, Option<Seq<char>>) {
    (
        ParserModel { tag_name: Seq::empty(), tag_namespace: Seq::empty(), ..m },
        m.tag_name,
        if m.tag_namespace.len() != 0 {
            Some(m.tag_namespace)
        } else {
            None
        },
    )
}

/// Emits the buffered attribute and clears its buffers.
pub open spec fn push_attribute(m: ParserModel) -> ParserModel {
    ParserModel {
        attribute_name: Seq::empty(),
        attribute_value: Seq::empty(),
        nodes: m.nodes.push(
            LexedV::Attribute {
                key: m.attribute_name,
                value: if m.attribute_value.len() != 0 {
                    Some(m.attribute_value)
                } else {
                    None
                },
            },
        ),
        ..m
    }
}

/// Emits the buffered comment and clears the buffer.
pub open spec fn push_comment(m: ParserModel) -> ParserModel {
    ParserModel {
        data_buffer: Seq::empty(),
        nodes: m.nodes.push(LexedV::Comment(m.data_buffer)),
        ..m
    }
}

/// The class of the next character, if there is one.
pub open spec fn peek_tok(m: ParserModel) -> Option<Token> {
    match m.peek {
        Some(c) => Some(spec_token(c)),
        None => None,
    }
}

pub open spec fn unexpected(m: ParserModel, tok: Token) -> StepOutcome {
    fail(m, ParseErrorV::UnexpectedToken(m.state, tok))
}

pub open spec fn step_data(m: ParserModel, ch: char) -> StepOutcome {
    match spec_token(ch) {
        Token::LessThan => {
            let t = spec_trim(m.data_buffer);
            let m1 = if t.len() != 0 {
                ParserModel { nodes: m.nodes.push(LexedV::Content(t)), data_buffer: Seq::empty(), ..m }
            } else {
                m
            };
            goto(
                ParserModel {
                    tag_name: Seq::empty(),
                    is_closing: false,
                    is_self_closing: false,
                    is_comment: false,
                    is_declaration: false,
                    hyphen_count: 0,
                    ..m1
                },
                ParserState::TagBegin,
            )
        },
        _ => goto(ParserModel { data_buffer: m.data_buffer.push(ch), ..m }, ParserState::Data),
    }
}

pub open spec fn step_tag_begin(m: ParserModel, ch: char) -> StepOutcome {
    match spec_token(ch) {
        Token::Char => goto(ParserModel { tag_name: m.tag_name.push(ch), ..m }, ParserState::TagName),
        Token::GreaterThan => goto(m, m.state),
        Token::Slash => goto(ParserModel { is_closing: true, ..m }, ParserState::TagBegin),
        Token::Exclamation => goto(m, ParserState::CommentBegin),
        Token::Question => goto(m, ParserState::Declaration),
        tok => unexpected(m, tok),
    }
}

pub open spec fn step_tag_name(m: ParserModel, ch: char) -> StepOutcome {
    match spec_token(ch) {
        Token::Colon => goto(
            ParserModel { tag_name: m.tag_namespace, tag_namespace: m.tag_name, ..m },
            ParserState::TagBegin,
        ),
        Token::Char => goto(ParserModel { tag_name: m.tag_name.push(ch), ..m }, ParserState::TagName),
        Token::Space => if m.is_closing {
            goto(m, ParserState::TagEnd)
        } else {
            match peek_tok(m) {
                Some(Token::Slash) => goto(ParserModel { is_self_closing: true, ..m }, ParserState::TagEnd),
                Some(Token::Space) => goto(m, m.state),
                Some(_) => {
                    let (m1, name, ns) = consume_name(m);
                    goto(
                        ParserModel {
                            nodes: m1.nodes.push(LexedV::TagOpen { name, namespace: ns }),
                            ..m1
                        },
                        ParserState::AttributeNameBegin,
                    )
                },
                None => fail(m, ParseErrorV::InvalidStateError(m.state, Token::Space)),
            }
        },
        Token::Slash => if !m.is_closing {
            goto(ParserModel { is_self_closing: true, ..m }, ParserState::TagEnd)
        } else {
            fail(m, ParseErrorV::InvalidStateError(m.state, Token::Slash))
        },
        Token::GreaterThan => {
            let (m1, name, ns) = consume_name(m);
            let node = if m.is_closing {
                LexedV::TagClose { name, namespace: ns }
            } else {
                LexedV::TagOpen { name, namespace: ns }
            };
            goto(ParserModel { nodes: m1.nodes.push(node), ..m1 }, ParserState::Data)
        },
        tok => unexpected(m, tok),
    }
}

pub open spec fn step_tag_end(m: ParserModel, ch: char) -> StepOutcome {
    match spec_token(ch) {
        Token::GreaterThan => {
            let (m1, name, ns) = consume_name(m);
            if m.is_closing {
                goto(
                    ParserModel { nodes: m1.nodes.push(LexedV::TagClose { name, namespace: ns }), ..m1 },
                    ParserState::Data,
                )
            } else if m.is_self_closing {
                goto(
                    ParserModel {
                        nodes: m1.nodes.push(LexedV::TagSelfClosing { name, namespace: ns }),
                        ..m1
                    },
                    ParserState::Data,
                )
            } else {
                fail(m1, ParseErrorV::InvalidStateError(m.state, Token::GreaterThan))
            }
        },
        Token::Slash => if m.is_self_closing {
            goto(m, m.state)
        } else {
            unexpected(m, Token::Slash)
        },
        Token::Char => goto(m, m.state),
        tok => unexpected(m, tok),
    }
}

pub open spec fn step_attribute_name_begin(m: ParserModel, ch: char) -> StepOutcome {
    match spec_token(ch) {
        Token::Char => goto(
            ParserModel { attribute_name: m.attribute_name.push(ch), ..m },
            ParserState::AttributeName,
        ),
        Token::GreaterThan => goto(ParserModel { data_buffer: Seq::empty(), ..m }, ParserState::Data),
        Token::Space => goto(m, m.state),
        Token::Slash => goto(ParserModel { is_closing: true, ..m }, ParserState::TagEnd),
        tok => unexpected(m, tok),
    }
}

pub open spec fn step_attribute_name(m: ParserModel, ch: char) -> StepOutcome {
    match spec_token(ch) {
        Token::Char => goto(
            ParserModel { attribute_name: m.attribute_name.push(ch), ..m },
            ParserState::AttributeName,
        ),
        Token::Space => goto(m, m.state),
        Token::Equal => goto(m, ParserState::AttributeValueBegin),
        Token::GreaterThan => goto(
            push_attribute(ParserModel { attribute_value: Seq::empty(), ..m }),
            ParserState::AttributeNameEnd,
        ),
        Token::Slash => goto(
            push_attribute(ParserModel { is_closing: true, attribute_value: Seq::empty(), ..m }),
            ParserState::TagEnd,
        ),
        tok => unexpected(m, tok),
    }
}

pub open spec fn step_attribute_name_end(m: ParserModel, ch: char) -> StepOutcome {
    match spec_token(ch) {
        Token::Char => goto(
            ParserModel {
                attribute_name: seq![ch],
                ..push_attribute(ParserModel { attribute_value: Seq::empty(), ..m })
            },
            ParserState::AttributeNameBegin,
        ),
        Token::Space => goto(m, m.state),
        Token::Equal => goto(m, m.state),
        Token::GreaterThan => goto(
            ParserModel { data_buffer: Seq::empty(), ..push_attribute(m) },
            ParserState::Data,
        ),
        tok => unexpected(m, tok),
    }
}

pub open spec fn step_attribute_value_begin(m: ParserModel, ch: char) -> StepOutcome {
    match spec_token(ch) {
        Token::Char => fail(m, ParseErrorV::InvalidDocumentError),
        Token::Space => goto(m, m.state),
        Token::Quote => goto(
            ParserModel { attribute_value: Seq::empty(), open_quote: Some(spec_quote(ch)), ..m },
            ParserState::AttributeValue,
        ),
        Token::GreaterThan => goto(
            ParserModel {
                data_buffer: Seq::empty(),
                ..push_attribute(ParserModel { attribute_value: Seq::empty(), ..m })
            },
            ParserState::Data,
        ),
        tok => unexpected(m, tok),
    }
}

pub open spec fn step_attribute_value(m: ParserModel, ch: char) -> StepOutcome {
    let quoted = m.open_quote is Some;
    let keep = goto(
        ParserModel { attribute_value: m.attribute_value.push(ch), ..m },
        ParserState::AttributeValue,
    );
    match spec_token(ch) {
        Token::Char => keep,
        Token::Colon => if quoted {
            keep
        } else {
            unexpected(m, Token::Colon)
        },
        Token::Space => if quoted {
            keep
        } else {
            goto(push_attribute(m), ParserState::AttributeNameBegin)
        },
        Token::Quote => if m.open_quote == Some(spec_quote(ch)) {
            goto(push_attribute(m), ParserState::AttributeNameBegin)
        } else {
            keep
        },
        Token::GreaterThan => if quoted {
            keep
        } else {
            goto(ParserModel { data_buffer: Seq::empty(), ..push_attribute(m) }, ParserState::Data)
        },
        Token::Slash => if quoted {
            keep
        } else {
            goto(ParserModel { is_closing: true, ..push_attribute(m) }, ParserState::TagEnd)
        },
        tok => unexpected(m, tok),
    }
}

pub open spec fn step_comment_begin(m: ParserModel, ch: char) -> StepOutcome {
    match spec_token(ch) {
        Token::Hyphen => if m.hyphen_count + 1 == 2 {
            goto(ParserModel { hyphen_count: 0, ..m }, ParserState::Comment)
        } else {
            goto(ParserModel { hyphen_count: m.hyphen_count + 1, ..m }, m.state)
        },
        Token::Space => goto(m, m.state),
        Token::GreaterThan => if m.is_comment {
            goto(ParserModel { data_buffer: m.data_buffer.push(ch), ..m }, m.state)
        } else {
            unexpected(m, Token::GreaterThan)
        },
        tok => unexpected(m, tok),
    }
}

pub open spec fn step_comment(m: ParserModel, ch: char) -> StepOutcome {
    match spec_token(ch) {
        Token::Hyphen => {
            let m1 = ParserModel { hyphen_count: m.hyphen_count + 1, ..m };
            match peek_tok(m) {
                Some(Token::Hyphen) => goto(m1, ParserState::CommentEnd),
                Some(_) => goto(
                    ParserModel { data_buffer: m.data_buffer.push(ch), ..m1 },
                    ParserState::Comment,
                ),
                None => fail(m1, ParseErrorV::InvalidDocumentError),
            }
        },
        _ => goto(ParserModel { data_buffer: m.data_buffer.push(ch), ..m }, m.state),
    }
}

pub open spec fn step_comment_end(m: ParserModel, ch: char) -> StepOutcome {
    match spec_token(ch) {
        Token::GreaterThan => goto(push_comment(m), ParserState::Data),
        Token::Hyphen => match peek_tok(m) {
            Some(Token::GreaterThan) => goto(m, ParserState::CommentEnd),
            Some(_) => goto(
                ParserModel { data_buffer: m.data_buffer + seq!['-', '-'], ..m },
                ParserState::Comment,
            ),
            None => fail(m, ParseErrorV::InvalidDocumentError),
        },
        _ => goto(
            ParserModel { hyphen_count: 0, data_buffer: m.data_buffer.push(ch), ..m },
            m.state,
        ),
    }
}

pub open spec fn step_declaration(m: ParserModel, ch: char) -> StepOutcome {
    match m.state {
        ParserState::DeclarationBegin => goto(
            ParserModel { is_declaration: true, ..m },
            ParserState::Declaration,
        ),
        ParserState::Declaration => match spec_token(ch) {
            Token::Question => goto(m, ParserState::DeclarationEnd),
            _ => goto(m, m.state),
        },
        _ => match spec_token(ch) {
            Token::GreaterThan => goto(ParserModel { data_buffer: Seq::empty(), ..m }, ParserState::Data),
            tok => unexpected(m, tok),
        },
    }
}

/// One step of the tokenizer on the character `ch` (the next character, if any,
/// is `m.peek`).
pub open spec fn spec_step(m: ParserModel, ch: char) -> StepOutcome {
    match m.state {
        ParserState::Data => step_data(m, ch),
        ParserState::TagBegin => step_tag_begin(m, ch),
        ParserState::TagName => step_tag_name(m, ch),
        ParserState::TagEnd => step_tag_end(m, ch),
        ParserState::AttributeNameBegin => step_attribute_name_begin(m, ch),
        ParserState::AttributeName => step_attribute_name(m, ch),
        ParserState::AttributeNameEnd => step_attribute_name_end(m, ch),
        ParserState::AttributeValueBegin => step_attribute_value_begin(m, ch),
        ParserState::AttributeValue => step_attribute_value(m, ch),
        ParserState::CommentBegin => step_comment_begin(m, ch),
        ParserState::Comment => step_comment(m, ch),
        ParserState::CommentEnd => step_comment_end(m, ch),
        _ => step_declaration(m, ch),
    }
}

/// Runs the tokenizer over `s[i..]`, with the next character of each step as
/// its look-ahead, until the end or the first error.
pub open spec fn spec_run(m: ParserModel, s: Seq<char>, i: nat) -> StepOutcome
    decreases s.len() - i,
{
    if i >= s.len() {
        (m, None)
    } else {
        let m1 = ParserModel {
            peek: if i + 1 < s.len() {
                Some(s[i + 1int])
            } else {
                None
            },
            ..m
        };
        let (m2, e) = spec_step(m1, s[i as int]);
        if e is Some {
            (m2, e)
        } else {
            spec_run(m2, s, i + 1)
        }
    }
}

/// What a fresh tokenizer makes of `data`: its nodes, or the error it stops on.
pub open spec fn spec_lex(data: Seq<char>) -> Result<Seq<LexedV>, ParseErrorV> {
    let (m, e) = spec_run(initial_model(), data, 0);
    match e {
        Some(err) => Err(err),
        None => Ok(m.nodes),
    }
}


/// Takes a string out of `s`, leaving it empty.
fn take_string(s: &mut String) -> (r: String)
    ensures
        r@ == old(s)@,
        final(s)@ == Seq::<char>::empty(),
{
    let mut r = String::new();
    std::mem::swap(&mut r, s);
    r
}

impl KbXmlParser {
    /// A tokenizer that has read nothing.
    pub fn new() -> (r: Self)
        ensures
            r@ == initial_model(),
    {
        KbXmlParser {
            current_state: ParserState::Data,
            peek_buffer: None,
            data_buffer: String::new(),
            tag_name: String::new(),
            tag_namespace: String::new(),
            attribute_name: String::new(),
            attribute_value: String::new(),
            is_closing: false,
            is_self_closing: false,
            is_declaration: false,
            is_comment: false,
            hyphen_count: 0,
            open_quote: None,
            document: LexedXmlDocument::new(),
        }
    }

    /// Runs the tokenizer over `data` and hands back what it produced.
    ///
    /// On an error the tokenizer keeps the state it stopped in.
    pub fn parse(&mut self, data: &str) -> (r: Result<LexedXmlDocument, ParseError>)
        requires
            old(self)@.hyphen_count + data@.len() <= usize::MAX,
        ensures
            ({
                let (m, e) = spec_run(old(self)@, data@, 0);
                match e {
                    Some(err) => r is Err && r->Err_0@ == err && final(self)@ == m,
                    None => r is Ok && r->Ok_0@ == m.nodes && final(self)@ == (ParserModel {
                        nodes: Seq::empty(),
                        ..m
                    }),
                }
            }),
    {
        let len = data.unicode_len();
        let mut i: usize = 0;
        while i < len
            invariant
                len == data@.len(),
                i <= len,
                old(self)@.hyphen_count + data@.len() <= usize::MAX,
                self@.hyphen_count <= old(self)@.hyphen_count + i,
                spec_run(old(self)@, data@, 0) == spec_run(self@, data@, i as nat),
            decreases len - i,
        {
            self.peek_buffer = if i + 1 < len {
                Some(data.get_char(i + 1))
            } else {
                None
            };
            let ch = data.get_char(i);
            proof {
                lemma_step_hyphen_count(self@, ch);
            }
            let res = self.step(ch);
            match res {
                Ok(()) => {},
                Err(e) => {
                    return Err(e);
                },
            }
            i = i + 1;
        }
        let mut doc = LexedXmlDocument::new();
        std::mem::swap(&mut doc, &mut self.document);
        Ok(doc)
    }

    /// One step of the tokenizer on `ch`.
    fn step(&mut self, ch: char) -> (r: Result<(), ParseError>)
        requires
            old(self)@.hyphen_count < usize::MAX,
        ensures
            final(self)@ == spec_step(old(self)@, ch).0,
            err_view(r) == spec_step(old(self)@, ch).1,
    {
        let tok = Token::char_to_token(ch);
        match self.current_state {
            ParserState::Data => self.step_data(ch, tok),
            ParserState::TagBegin => self.step_tag_begin(ch, tok),
            ParserState::TagName => self.step_tag_name(ch, tok),
            ParserState::TagEnd => self.step_tag_end(ch, tok),
            ParserState::AttributeNameBegin => self.step_attribute_name_begin(ch, tok),
            ParserState::AttributeName => self.step_attribute_name(ch, tok),
            ParserState::AttributeNameEnd => self.step_attribute_name_end(ch, tok),
            ParserState::AttributeValueBegin => self.step_attribute_value_begin(ch, tok),
            ParserState::AttributeValue => self.step_attribute_value(ch, tok),
            ParserState::CommentBegin => self.step_comment_begin(ch, tok),
            ParserState::Comment => self.step_comment(ch, tok),
            ParserState::CommentEnd => self.step_comment_end(ch, tok),
            _ => self.step_declaration(ch, tok),
        }
    }

    fn goto(&mut self, s: ParserState) -> (r: Result<(), ParseError>)
        ensures
            final(self)@ == (ParserModel { state: s, ..old(self)@ }),
            r is Ok,
    {
        self.current_state = s;
        Ok(())
    }

    fn unexpected(&self, tok: Token) -> (r: Result<(), ParseError>)
        ensures
            err_view(r) == Some(ParseErrorV::UnexpectedToken(self@.state, tok)),
    {
        Err(ParseError::UnexpectedToken(self.current_state, tok))
    }

    fn step_data(&mut self, ch: char, tok: Token) -> (r: Result<(), ParseError>)
        requires
            old(self)@.state == ParserState::Data,
            tok == spec_token(ch),
        ensures
            final(self)@ == step_data(old(self)@, ch).0,
            err_view(r) == step_data(old(self)@, ch).1,
    {
        match tok {
            Token::LessThan => {
                let trimmed_buffer = trim(self.data_buffer.as_str());
                if !trimmed_buffer.as_str().is_empty() {
                    self.push_node(LexedXmlNode::new_content(trimmed_buffer));
                    self.data_buffer = String::new();
                }
                self.tag_name = String::new();
                self.is_closing = false;
                self.is_self_closing = false;
                self.is_comment = false;
                self.is_declaration = false;
                self.hyphen_count = 0;
                self.goto(ParserState::TagBegin)
            },
            _ => {
                push_char(&mut self.data_buffer, ch);
                self.goto(ParserState::Data)
            },
        }
    }

    fn step_tag_begin(&mut self, ch: char, tok: Token) -> (r: Result<(), ParseError>)
        requires
            old(self)@.state == ParserState::TagBegin,
            tok == spec_token(ch),
        ensures
            final(self)@ == step_tag_begin(old(self)@, ch).0,
            err_view(r) == step_tag_begin(old(self)@, ch).1,
    {
        match tok {
            Token::Char => {
                push_char(&mut self.tag_name, ch);
                self.goto(ParserState::TagName)
            },
            Token::GreaterThan => {
                let s = self.noop_state_transition();
                self.goto(s)
            },
            Token::Slash => {
                self.is_closing = true;
                self.goto(ParserState::TagBegin)
            },
            Token::Exclamation => self.goto(ParserState::CommentBegin),
            Token::Question => self.goto(ParserState::Declaration),
            _ => self.unexpected(tok),
        }
    }

    fn step_tag_name(&mut self, ch: char, tok: Token) -> (r: Result<(), ParseError>)
        requires
            old(self)@.state == ParserState::TagName,
            tok == spec_token(ch),
        ensures
            final(self)@ == step_tag_name(old(self)@, ch).0,
            err_view(r) == step_tag_name(old(self)@, ch).1,
    {
        match tok {
            Token::Colon => {
                std::mem::swap(&mut self.tag_name, &mut self.tag_namespace);
                self.goto(ParserState::TagBegin)
            },
            Token::Char => {
                push_char(&mut self.tag_name, ch);
                self.goto(ParserState::TagName)
            },
            Token::Space => {
                if self.is_closing {
                    self.goto(ParserState::TagEnd)
                } else {
                    match self.peek_token() {
                        Some(Token::Slash) => {
                            self.is_self_closing = true;
                            self.goto(ParserState::TagEnd)
                        },
                        Some(Token::Space) => {
                            let s = self.noop_state_transition();
                            self.goto(s)
                        },
                        Some(_) => {
                            let (name, namespace) = self.consume_name_and_namespace();
                            self.push_node(LexedXmlNode::TagOpen { name, namespace });
                            self.goto(ParserState::AttributeNameBegin)
                        },
                        None => Err(ParseError::InvalidStateError(self.current_state, tok)),
                    }
                }
            },
            Token::Slash => {
                if !self.is_closing {
                    self.is_self_closing = true;
                    self.goto(ParserState::TagEnd)
                } else {
                    Err(ParseError::InvalidStateError(self.current_state, tok))
                }
            },
            Token::GreaterThan => {
                let (name, namespace) = self.consume_name_and_namespace();
                if self.is_closing {
                    self.push_node(LexedXmlNode::new_tag_close(name, namespace))
                } else {
                    self.push_node(LexedXmlNode::new_tag_open(name, namespace))
                }
                self.goto(ParserState::Data)
            },
            _ => self.unexpected(tok),
        }
    }

    fn step_tag_end(&mut self, ch: char, tok: Token) -> (r: Result<(), ParseError>)
        requires
            old(self)@.state == ParserState::TagEnd,
            tok == spec_token(ch),
        ensures
            final(self)@ == step_tag_end(old(self)@, ch).0,
            err_view(r) == step_tag_end(old(self)@, ch).1,
    {
        match tok {
            Token::GreaterThan => {
                let (name, namespace) = self.consume_name_and_namespace();
                if self.is_closing {
                    self.push_node(LexedXmlNode::new_tag_close(name, namespace));
                } else if self.is_self_closing {
                    self.push_node(LexedXmlNode::TagSelfClosing { name, namespace })
                } else {
                    return Err(ParseError::InvalidStateError(self.current_state, tok));
                }
                self.goto(ParserState::Data)
            },
            Token::Slash => {
                if self.is_self_closing {
                    let s = self.noop_state_transition();
                    self.goto(s)
                } else {
                    self.unexpected(tok)
                }
            },
            Token::Char => {
                let s = self.noop_state_transition();
                self.goto(s)
            },
            _ => self.unexpected(tok),
        }
    }

    fn step_attribute_name_begin(&mut self, ch: char, tok: Token) -> (r: Result<(), ParseError>)
        requires
            old(self)@.state == ParserState::AttributeNameBegin,
            tok == spec_token(ch),
        ensures
            final(self)@ == step_attribute_name_begin(old(self)@, ch).0,
            err_view(r) == step_attribute_name_begin(old(self)@, ch).1,
    {
        match tok {
            Token::Char => {
                push_char(&mut self.attribute_name, ch);
                self.goto(ParserState::AttributeName)
            },
            Token::GreaterThan => {
                self.data_buffer = String::new();
                self.goto(ParserState::Data)
            },
            Token::Space => {
                let s = self.noop_state_transition();
                self.goto(s)
            },
            Token::Slash => {
                self.is_closing = true;
                self.goto(ParserState::TagEnd)
            },
            _ => self.unexpected(tok),
        }
    }

    fn step_attribute_name(&mut self, ch: char, tok: Token) -> (r: Result<(), ParseError>)
        requires
            old(self)@.state == ParserState::AttributeName,
            tok == spec_token(ch),
        ensures
            final(self)@ == step_attribute_name(old(self)@, ch).0,
            err_view(r) == step_attribute_name(old(self)@, ch).1,
    {
        match tok {
            Token::Char => {
                push_char(&mut self.attribute_name, ch);
                self.goto(ParserState::AttributeName)
            },
            Token::Space => {
                let s = self.noop_state_transition();
                self.goto(s)
            },
            Token::Equal => self.goto(ParserState::AttributeValueBegin),
            Token::GreaterThan => {
                self.attribute_value = String::new();
                self.push_attribute_node();
                self.goto(ParserState::AttributeNameEnd)
            },
            Token::Slash => {
                self.is_closing = true;
                self.attribute_value = String::new();
                self.push_attribute_node();
                self.goto(ParserState::TagEnd)
            },
            _ => self.unexpected(tok),
        }
    }

    fn step_attribute_name_end(&mut self, ch: char, tok: Token) -> (r: Result<(), ParseError>)
        requires
            old(self)@.state == ParserState::AttributeNameEnd,
            tok == spec_token(ch),
        ensures
            final(self)@ == step_attribute_name_end(old(self)@, ch).0,
            err_view(r) == step_attribute_name_end(old(self)@, ch).1,
    {
        match tok {
            Token::Char => {
                self.attribute_value = String::new();
                self.push_attribute_node();
                let mut name = String::new();
                push_char(&mut name, ch);
                self.attribute_name = name;
                self.goto(ParserState::AttributeNameBegin)
            },
            Token::Space | Token::Equal => {
                let s = self.noop_state_transition();
                self.goto(s)
            },
            Token::GreaterThan => {
                self.push_attribute_node();
                self.data_buffer = String::new();
                self.goto(ParserState::Data)
            },
            _ => self.unexpected(tok),
        }
    }

    fn step_attribute_value_begin(&mut self, ch: char, tok: Token) -> (r: Result<(), ParseError>)
        requires
            old(self)@.state == ParserState::AttributeValueBegin,
            tok == spec_token(ch),
        ensures
            final(self)@ == step_attribute_value_begin(old(self)@, ch).0,
            err_view(r) == step_attribute_value_begin(old(self)@, ch).1,
    {
        match tok {
            Token::Char => Err(ParseError::InvalidDocumentError),
            Token::Space => {
                let s = self.noop_state_transition();
                self.goto(s)
            },
            Token::Quote => {
                self.attribute_value = String::new();
                self.open_quote = Some(quote_of(ch));
                self.goto(ParserState::AttributeValue)
            },
            Token::GreaterThan => {
                self.attribute_value = String::new();
                self.push_attribute_node();
                self.data_buffer = String::new();
                self.goto(ParserState::Data)
            },
            _ => self.unexpected(tok),
        }
    }

    fn step_attribute_value(&mut self, ch: char, tok: Token) -> (r: Result<(), ParseError>)
        requires
            old(self)@.state == ParserState::AttributeValue,
            tok == spec_token(ch),
        ensures
            final(self)@ == step_attribute_value(old(self)@, ch).0,
            err_view(r) == step_attribute_value(old(self)@, ch).1,
    {
        let quoted = self.open_quote.is_some();
        match tok {
            Token::Char => {
                push_char(&mut self.attribute_value, ch);
                self.goto(ParserState::AttributeValue)
            },
            Token::Colon => {
                if quoted {
                    push_char(&mut self.attribute_value, ch);
                    self.goto(ParserState::AttributeValue)
                } else {
                    self.unexpected(tok)
                }
            },
            Token::Space => {
                if quoted {
                    push_char(&mut self.attribute_value, ch);
                    self.goto(ParserState::AttributeValue)
                } else {
                    self.push_attribute_node();
                    self.goto(ParserState::AttributeNameBegin)
                }
            },
            Token::Quote => {
                let end_quote = quote_of(ch);
                let same = match self.open_quote {
                    Some(q) => q == end_quote,
                    None => false,
                };
                if same {
                    self.push_attribute_node();
                    self.goto(ParserState::AttributeNameBegin)
                } else {
                    push_char(&mut self.attribute_value, ch);
                    self.goto(ParserState::AttributeValue)
                }
            },
            Token::GreaterThan => {
                if quoted {
                    push_char(&mut self.attribute_value, ch);
                    self.goto(ParserState::AttributeValue)
                } else {
                    self.push_attribute_node();
                    self.data_buffer = String::new();
                    self.goto(ParserState::Data)
                }
            },
            Token::Slash => {
                if quoted {
                    push_char(&mut self.attribute_value, ch);
                    self.goto(ParserState::AttributeValue)
                } else {
                    self.push_attribute_node();
                    self.is_closing = true;
                    self.goto(ParserState::TagEnd)
                }
            },
            _ => self.unexpected(tok),
        }
    }

    fn step_comment_begin(&mut self, ch: char, tok: Token) -> (r: Result<(), ParseError>)
        requires
            old(self)@.state == ParserState::CommentBegin,
            tok == spec_token(ch),
            old(self)@.hyphen_count < usize::MAX,
        ensures
            final(self)@ == step_comment_begin(old(self)@, ch).0,
            err_view(r) == step_comment_begin(old(self)@, ch).1,
    {
        match tok {
            Token::Hyphen => {
                self.hyphen_count = self.hyphen_count + 1;
                if self.hyphen_count == 2 {
                    self.hyphen_count = 0;
                    self.goto(ParserState::Comment)
                } else {
                    let s = self.noop_state_transition();
                    self.goto(s)
                }
            },
            Token::Space => {
                let s = self.noop_state_transition();
                self.goto(s)
            },
            Token::GreaterThan => {
                if self.is_comment {
                    push_char(&mut self.data_buffer, ch);
                    let s = self.noop_state_transition();
                    self.goto(s)
                } else {
                    self.unexpected(tok)
                }
            },
            _ => self.unexpected(tok),
        }
    }

    fn step_comment(&mut self, ch: char, tok: Token) -> (r: Result<(), ParseError>)
        requires
            old(self)@.state == ParserState::Comment,
            tok == spec_token(ch),
            old(self)@.hyphen_count < usize::MAX,
        ensures
            final(self)@ == step_comment(old(self)@, ch).0,
            err_view(r) == step_comment(old(self)@, ch).1,
    {
        match tok {
            Token::Hyphen => {
                self.hyphen_count = self.hyphen_count + 1;
                match self.peek_token() {
                    Some(Token::Hyphen) => self.goto(ParserState::CommentEnd),
                    Some(_) => {
                        push_char(&mut self.data_buffer, ch);
                        self.goto(ParserState::Comment)
                    },
                    None => Err(ParseError::InvalidDocumentError),
                }
            },
            _ => {
                push_char(&mut self.data_buffer, ch);
                let s = self.noop_state_transition();
                self.goto(s)
            },
        }
    }

    fn step_comment_end(&mut self, ch: char, tok: Token) -> (r: Result<(), ParseError>)
        requires
            old(self)@.state == ParserState::CommentEnd,
            tok == spec_token(ch),
        ensures
            final(self)@ == step_comment_end(old(self)@, ch).0,
            err_view(r) == step_comment_end(old(self)@, ch).1,
    {
        match tok {
            Token::GreaterThan => {
                self.push_comment_node();
                self.goto(ParserState::Data)
            },
            Token::Hyphen => {
                match self.peek_token() {
                    Some(Token::GreaterThan) => self.goto(ParserState::CommentEnd),
                    Some(_) => {
                        push_char(&mut self.data_buffer, '-');
                        push_char(&mut self.data_buffer, '-');
                        self.goto(ParserState::Comment)
                    },
                    None => Err(ParseError::InvalidDocumentError),
                }
            },
            _ => {
                self.hyphen_count = 0;
                push_char(&mut self.data_buffer, ch);
                let s = self.noop_state_transition();
                self.goto(s)
            },
        }
    }

    fn step_declaration(&mut self, ch: char, tok: Token) -> (r: Result<(), ParseError>)
        requires
            old(self)@.state == ParserState::DeclarationBegin || old(self)@.state
                == ParserState::Declaration || old(self)@.state == ParserState::DeclarationEnd,
            tok == spec_token(ch),
        ensures
            final(self)@ == step_declaration(old(self)@, ch).0,
            err_view(r) == step_declaration(old(self)@, ch).1,
    {
        match self.current_state {
            ParserState::DeclarationBegin => {
                self.is_declaration = true;
                self.goto(ParserState::Declaration)
            },
            ParserState::Declaration => match tok {
                Token::Question => self.goto(ParserState::DeclarationEnd),
                _ => {
                    let s = self.noop_state_transition();
                    self.goto(s)
                },
            },
            _ => match tok {
                Token::GreaterThan => {
                    self.data_buffer = String::new();
                    self.goto(ParserState::Data)
                },
                _ => self.unexpected(tok),
            },
        }
    }

    fn noop_state_transition(&self) -> (r: ParserState)
        ensures
            r == self@.state,
    {
        self.current_state
    }

    fn consume_name_and_namespace(&mut self) -> (r: (String, Option<String>))
        ensures
            final(self)@ == consume_name(old(self)@).0,
            r.0@ == consume_name(old(self)@).1,
            opt_view(r.1) == consume_name(old(self)@).2,
    {
        let name = take_string(&mut self.tag_name);
        let namespace = if !self.tag_namespace.as_str().is_empty() {
            Some(take_string(&mut self.tag_namespace))
        } else {
            None
        };
        (name, namespace)
    }

    fn consume_attribute_buffers(&mut self) -> (r: (String, Option<String>))
        ensures
            final(self)@ == (ParserModel {
                attribute_name: Seq::empty(),
                attribute_value: Seq::empty(),
                ..old(self)@
            }),
            r.0@ == old(self)@.attribute_name,
            opt_view(r.1) == (if old(self)@.attribute_value.len() != 0 {
                Some(old(self)@.attribute_value)
            } else {
                None
            }),
    {
        let name = take_string(&mut self.attribute_name);
        let value = if !self.attribute_value.as_str().is_empty() {
            Some(take_string(&mut self.attribute_value))
        } else {
            None
        };
        (name, value)
    }

    fn push_node(&mut self, xml_node: LexedXmlNode)
        ensures
            final(self)@ == (ParserModel { nodes: old(self)@.nodes.push(xml_node@), ..old(self)@ }),
    {
        self.document.push_node(xml_node);
    }

    fn push_comment_node(&mut self)
        ensures
            final(self)@ == push_comment(old(self)@),
    {
        let comment = take_string(&mut self.data_buffer);
        self.push_node(LexedXmlNode::Comment(comment))
    }

    fn push_attribute_node(&mut self)
        ensures
            final(self)@ == push_attribute(old(self)@),
    {
        let (name, value) = self.consume_attribute_buffers();
        self.push_node(LexedXmlNode::new_attribute(name, value));
    }

    fn peek_char(&self) -> (r: Option<char>)
        ensures
            r == self@.peek,
    {
        self.peek_buffer
    }

    fn peek_token(&self) -> (r: Option<Token>)
        ensures
            r == peek_tok(self@),
    {
        match self.peek_char() {
            Some(c) => Some(Token::char_to_token(c)),
            None => None,
        }
    }
}

impl QuoteChar {
    /// The quote kind of `value`; other characters are unexpected.
    pub fn try_from(value: char) -> (r: Result<QuoteChar, ParseError>)
        ensures
            value == '\'' ==> r matches Ok(QuoteChar::Single),
            value == '"' ==> r matches Ok(QuoteChar::Double),
            value != '\'' && value != '"' ==> (r matches Err(ParseError::UnexpectedCharacterError(c))
                && c == value),
    {
        match value {
            '\'' => Ok(QuoteChar::Single),
            '"' => Ok(QuoteChar::Double),
            _ => Err(ParseError::UnexpectedCharacterError(value)),
        }
    }
}

/// The quote kind of a quote character.
fn quote_of(ch: char) -> (r: QuoteChar)
    ensures
        r == spec_quote(ch),
{
    if ch == '\'' {
        QuoteChar::Single
    } else {
        QuoteChar::Double
    }
}

/// A step raises the hyphen count by at most one.
proof fn lemma_step_hyphen_count(m: ParserModel, ch: char)
    ensures
        spec_step(m, ch).0.hyphen_count <= m.hyphen_count + 1,
{
}

proof fn lemma_run_ignores_peek(m: ParserModel, p: Option<char>, s: Seq<char>, i: nat)
    requires
        i < s.len(),
    ensures
        spec_run(m, s, i) == spec_run(ParserModel { peek: p, ..m }, s, i),
{
    let q = if i + 1 < s.len() {
        Some(s[i + 1int])
    } else {
        None
    };
    assert(ParserModel { peek: q, ..m } == ParserModel { peek: q, ..ParserModel { peek: p, ..m } });
}

/// Inside a declaration, characters other than `?` are skipped.
proof fn lemma_run_declaration_body(m: ParserModel, s: Seq<char>, i: nat, k: nat)
    requires
        m.state == ParserState::Declaration,
        i <= k < s.len(),
        forall|j: int| i <= j < k ==> s[j] != '?',
    ensures
        spec_run(m, s, i) == spec_run(m, s, k),
    decreases k - i,
{
    if i < k {
        let m1 = ParserModel {
            peek: if i + 1 < s.len() {
                Some(s[i + 1int])
            } else {
                None
            },
            ..m
        };
        assert(spec_token(s[i as int]) != Token::Question);
        assert(spec_step(m1, s[i as int]) == (m1, None::<ParseErrorV>));
        lemma_run_declaration_body(m1, s, i + 1, k);
        lemma_run_ignores_peek(m, m1.peek, s, k);
    }
}

/// Inside a tag name, name characters are added to the name.
proof fn lemma_run_tag_name(m: ParserModel, s: Seq<char>, i: nat, k: nat)
    requires
        m.state == ParserState::TagName,
        i <= k < s.len(),
        forall|j: int| i <= j < k ==> spec_token(#[trigger] s[j]) == Token::Char,
    ensures
        spec_run(m, s, i) == spec_run(ParserModel { tag_name: m.tag_name + s.subrange(i as int, k as int), ..m }, s, k),
    decreases k - i,
{
    if i == k {
        assert(m.tag_name + s.subrange(i as int, k as int) == m.tag_name);
        assert(ParserModel { tag_name: m.tag_name, ..m } == m);
    } else {
        let q = if i + 1 < s.len() {
            Some(s[i + 1int])
        } else {
            None
        };
        let m1 = ParserModel { peek: q, ..m };
        assert(spec_token(s[i as int]) == Token::Char);
        let m2 = ParserModel { tag_name: m.tag_name.push(s[i as int]), peek: q, ..m };
        assert(spec_step(m1, s[i as int]) == (m2, None::<ParseErrorV>));
        lemma_run_tag_name(m2, s, i + 1, k);
        assert(m2.tag_name + s.subrange(i + 1int, k as int) == m.tag_name + s.subrange(i as int, k as int));
        let target = ParserModel { tag_name: m.tag_name + s.subrange(i as int, k as int), ..m };
        lemma_run_ignores_peek(target, q, s, k);
        assert(ParserModel { tag_name: m2.tag_name + s.subrange(i + 1int, k as int), ..m2 } == ParserModel {
            peek: q,
            ..target
        });
    }
}

/// Inside a tag name, a space followed by another space is skipped.
proof fn lemma_run_tag_spaces(m: ParserModel, s: Seq<char>, i: nat, k: nat)
    requires
        m.state == ParserState::TagName,
        !m.is_closing,
        i <= k < s.len(),
        forall|j: int| i <= j <= k ==> s[j] == ' ',
    ensures
        spec_run(m, s, i) == spec_run(m, s, k),
    decreases k - i,
{
    if i < k {
        let m1 = ParserModel { peek: Some(s[i + 1int]), ..m };
        assert(s[i as int] == ' ' && s[i + 1int] == ' ');
        assert(spec_step(m1, s[i as int]) == (m1, None::<ParseErrorV>));
        lemma_run_tag_spaces(m1, s, i + 1, k);
        lemma_run_ignores_peek(m, m1.peek, s, k);
    }
}

/// Inside a comment, characters other than `-` are added to the comment.
proof fn lemma_run_comment_body(m: ParserModel, s: Seq<char>, i: nat, k: nat)
    requires
        m.state == ParserState::Comment,
        i <= k < s.len(),
        forall|j: int| i <= j < k ==> s[j] != '-',
    ensures
        spec_run(m, s, i) == spec_run(
            ParserModel { data_buffer: m.data_buffer + s.subrange(i as int, k as int), ..m },
            s,
            k,
        ),
    decreases k - i,
{
    if i == k {
        assert(m.data_buffer + s.subrange(i as int, k as int) == m.data_buffer);
        assert(ParserModel { data_buffer: m.data_buffer, ..m } == m);
    } else {
        let q = if i + 1 < s.len() {
            Some(s[i + 1int])
        } else {
            None
        };
        let m1 = ParserModel { peek: q, ..m };
        assert(spec_token(s[i as int]) != Token::Hyphen);
        let m2 = ParserModel { data_buffer: m.data_buffer.push(s[i as int]), peek: q, ..m };
        assert(spec_step(m1, s[i as int]) == (m2, None::<ParseErrorV>));
        lemma_run_comment_body(m2, s, i + 1, k);
        assert(m2.data_buffer + s.subrange(i + 1int, k as int) == m.data_buffer + s.subrange(i as int, k as int));
        let target = ParserModel { data_buffer: m.data_buffer + s.subrange(i as int, k as int), ..m };
        lemma_run_ignores_peek(target, q, s, k);
        assert(ParserModel { data_buffer: m2.data_buffer + s.subrange(i + 1int, k as int), ..m2 } == ParserModel {
            peek: q,
            ..target
        });
    }
}

/// The model after reading `<` at the start of a document.
spec fn after_open_angle(peek: Option<char>) -> ParserModel {
    ParserModel { state: ParserState::TagBegin, peek, ..initial_model() }
}

proof fn lemma_first_open_angle(s: Seq<char>)
    requires
        s.len() > 1,
        s[0] == '<',
    ensures
        spec_run(initial_model(), s, 0) == spec_run(after_open_angle(Some(s[1])), s, 1),
{
    assert(spec_trim(Seq::<char>::empty()) =~= Seq::<char>::empty());
    let m1 = ParserModel { peek: Some(s[1]), ..initial_model() };
    assert(spec_step(m1, s[0]) == (after_open_angle(Some(s[1])), None::<ParseErrorV>));
}

/// An XML declaration (`<?`, text without `?`, `?>`) yields no nodes.
pub proof fn law_declaration_yields_nothing(body: Seq<char>)
    requires
        forall|j: int| 0 <= j < body.len() ==> body[j] != '?',
    ensures
        spec_lex(seq!['<', '?'] + body + seq!['?', '>']) == Ok::<Seq<LexedV>, ParseErrorV>(Seq::empty()),
{
    let s = seq!['<', '?'] + body + seq!['?', '>'];
    let n = body.len() as int;
    assert(s.len() == n + 4);
    assert(s[0] == '<' && s[1] == '?');
    assert(s[n + 2] == '?' && s[n + 3] == '>');
    assert forall|j: int| 2 <= j < n + 2 implies s[j] != '?' by {
        assert(s[j] == body[j - 2]);
    }
    lemma_first_open_angle(s);
    let a = after_open_angle(Some(s[1]));
    let m2 = ParserModel { state: ParserState::Declaration, peek: Some(s[2]), ..a };
    assert(spec_step(ParserModel { peek: Some(s[2]), ..a }, s[1]) == (m2, None::<ParseErrorV>));
    assert(spec_run(a, s, 1) == spec_run(m2, s, 2));
    lemma_run_declaration_body(m2, s, 2, (n + 2) as nat);
    let m3 = ParserModel { state: ParserState::DeclarationEnd, peek: Some(s[n + 3]), ..m2 };
    assert(spec_step(ParserModel { peek: Some(s[n + 3]), ..m2 }, s[n + 2]) == (m3, None::<ParseErrorV>));
    assert(spec_run(m2, s, (n + 2) as nat) == spec_run(m3, s, (n + 3) as nat));
    let m4 = ParserModel { state: ParserState::Data, data_buffer: Seq::empty(), peek: None, ..m3 };
    assert(spec_step(ParserModel { peek: None, ..m3 }, s[n + 3]) == (m4, None::<ParseErrorV>));
    assert(spec_run(m3, s, (n + 3) as nat) == spec_run(m4, s, (n + 4) as nat));
    assert(spec_run(m4, s, (n + 4) as nat) == (m4, None::<ParseErrorV>));
}

/// A self-closing tag (`<`, a name of plain characters, any number of spaces,
/// `/>`) yields that tag, without namespace.
pub proof fn law_self_closing_tag(name: Seq<char>, spaces: nat)
    requires
        name.len() > 0,
        forall|j: int| 0 <= j < name.len() ==> spec_token(#[trigger] name[j]) == Token::Char,
    ensures
        spec_lex(seq!['<'] + name + Seq::new(spaces, |j: int| ' ') + seq!['/', '>']) == Ok::<
            Seq<LexedV>,
            ParseErrorV,
        >(seq![LexedV::TagSelfClosing { name: name, namespace: None }]),
{
    let sp = Seq::new(spaces, |j: int| ' ');
    let s = seq!['<'] + name + sp + seq!['/', '>'];
    let n = name.len() as int;
    let e = n + 1 + spaces;
    assert(s.len() == e + 2);
    assert(s[0] == '<');
    assert(s[e] == '/' && s[e + 1] == '>');
    assert forall|j: int| 1 <= j < n + 1 implies spec_token(#[trigger] s[j]) == Token::Char by {
        assert(s[j] == name[j - 1]);
    }
    assert forall|j: int| n + 1 <= j < e implies s[j] == ' ' by {
        assert(s[j] == sp[j - n - 1]);
    }
    assert(s.subrange(1, n + 1) == name);
    lemma_first_open_angle(s);
    let a = after_open_angle(Some(s[1]));
    let m2 = ParserModel { state: ParserState::TagName, tag_name: seq![s[1]], peek: Some(s[2]), ..a };
    assert(spec_token(s[1]) == Token::Char);
    assert(spec_step(ParserModel { peek: Some(s[2]), ..a }, s[1]) == (m2, None::<ParseErrorV>));
    assert(spec_run(a, s, 1) == spec_run(m2, s, 2));
    lemma_run_tag_name(m2, s, 2, (n + 1) as nat);
    assert(seq![s[1]] + s.subrange(2, n + 1) == name);
    let m3 = ParserModel { tag_name: name, ..m2 };
    assert(spec_run(m2, s, 2) == spec_run(m3, s, (n + 1) as nat));
    // now at the spaces (if any), then `/`
    let m4 = ParserModel { is_self_closing: true, state: ParserState::TagEnd, peek: Some(s[e + 1]), ..m3 };
    if spaces == 0 {
        assert(spec_token(s[e]) == Token::Slash);
        assert(spec_step(ParserModel { peek: Some(s[e + 1]), ..m3 }, s[e]) == (m4, None::<ParseErrorV>));
        assert(spec_run(m3, s, e as nat) == spec_run(m4, s, (e + 1) as nat));
    } else {
        lemma_run_tag_spaces(m3, s, (n + 1) as nat, (e - 1) as nat);
        let m3b = ParserModel { peek: Some(s[e]), ..m3 };
        let m4b = ParserModel { is_self_closing: true, state: ParserState::TagEnd, peek: Some(s[e]), ..m3 };
        assert(spec_token(s[e - 1]) == Token::Space);
        assert(spec_step(m3b, s[e - 1]) == (m4b, None::<ParseErrorV>));
        assert(spec_run(m3, s, (e - 1) as nat) == spec_run(m4b, s, e as nat));
        let m5 = ParserModel { peek: Some(s[e + 1]), ..m4b };
        assert(spec_step(m5, s[e]) == (m5, None::<ParseErrorV>));
        assert(spec_run(m4b, s, e as nat) == spec_run(m5, s, (e + 1) as nat));
        assert(m5 == m4);
    }
    let (m6, name6, ns6) = consume_name(ParserModel { peek: None, ..m4 });
    assert(name6 == name && ns6 is None);
    let m7 = ParserModel {
        nodes: m6.nodes.push(LexedV::TagSelfClosing { name: name6, namespace: ns6 }),
        state: ParserState::Data,
        ..m6
    };
    assert(spec_step(ParserModel { peek: None, ..m4 }, s[e + 1]) == (m7, None::<ParseErrorV>));
    assert(spec_run(m4, s, (e + 1) as nat) == spec_run(m7, s, (e + 2) as nat));
    assert(m7.nodes =~= seq![LexedV::TagSelfClosing { name: name, namespace: None }]);
}

/// A comment (`<!--`, text without `-`, `-->`) yields one comment node with
/// that text.
pub proof fn law_comment_yields_its_text(text: Seq<char>)
    requires
        forall|j: int| 0 <= j < text.len() ==> text[j] != '-',
    ensures
        spec_lex(seq!['<', '!', '-', '-'] + text + seq!['-', '-', '>']) == Ok::<Seq<LexedV>, ParseErrorV>(
            seq![LexedV::Comment(text)],
        ),
{
    let s = seq!['<', '!', '-', '-'] + text + seq!['-', '-', '>'];
    let n = text.len() as int;
    let e = n + 4;
    assert(s.len() == e + 3);
    assert(s[0] == '<' && s[1] == '!' && s[2] == '-' && s[3] == '-');
    assert(s[e] == '-' && s[e + 1] == '-' && s[e + 2] == '>');
    assert forall|j: int| 4 <= j < e implies s[j] != '-' by {
        assert(s[j] == text[j - 4]);
    }
    assert(s.subrange(4, e) == text);
    lemma_first_open_angle(s);
    let a = after_open_angle(Some(s[1]));
    let m2 = ParserModel { state: ParserState::CommentBegin, peek: Some(s[2]), ..a };
    assert(spec_step(ParserModel { peek: Some(s[2]), ..a }, s[1]) == (m2, None::<ParseErrorV>));
    assert(spec_run(a, s, 1) == spec_run(m2, s, 2));
    let m3 = ParserModel { hyphen_count: 1, peek: Some(s[3]), ..m2 };
    assert(spec_step(ParserModel { peek: Some(s[3]), ..m2 }, s[2]) == (m3, None::<ParseErrorV>));
    assert(spec_run(m2, s, 2) == spec_run(m3, s, 3));
    let m4 = ParserModel { hyphen_count: 0, state: ParserState::Comment, peek: Some(s[4]), ..m3 };
    assert(spec_step(ParserModel { peek: Some(s[4]), ..m3 }, s[3]) == (m4, None::<ParseErrorV>));
    assert(spec_run(m3, s, 3) == spec_run(m4, s, 4));
    lemma_run_comment_body(m4, s, 4, e as nat);
    assert(m4.data_buffer + text == text);
    let m5 = ParserModel { data_buffer: text, ..m4 };
    assert(spec_run(m4, s, 4) == spec_run(m5, s, e as nat));
    let m6 = ParserModel { hyphen_count: 1, state: ParserState::CommentEnd, peek: Some(s[e + 1]), ..m5 };
    assert(spec_step(ParserModel { peek: Some(s[e + 1]), ..m5 }, s[e]) == (m6, None::<ParseErrorV>));
    assert(spec_run(m5, s, e as nat) == spec_run(m6, s, (e + 1) as nat));
    let m7 = ParserModel { peek: Some(s[e + 2]), ..m6 };
    assert(spec_step(m7, s[e + 1]) == (m7, None::<ParseErrorV>));
    assert(spec_run(m6, s, (e + 1) as nat) == spec_run(m7, s, (e + 2) as nat));
    let m8 = ParserModel { state: ParserState::Data, ..push_comment(ParserModel { peek: None, ..m7 }) };
    assert(spec_step(ParserModel { peek: None, ..m7 }, s[e + 2]) == (m8, None::<ParseErrorV>));
    assert(spec_run(m7, s, (e + 2) as nat) == spec_run(m8, s, (e + 3) as nat));
    assert(m8.nodes =~= seq![LexedV::Comment(text)]);
}

/// In text content, characters other than `<` are added to the text.
proof fn lemma_run_data(m: ParserModel, s: Seq<char>, i: nat, k: nat)
    requires
        m.state == ParserState::Data,
        i <= k < s.len(),
        forall|j: int| i <= j < k ==> s[j] != '<',
    ensures
        spec_run(m, s, i) == spec_run(
            ParserModel { data_buffer: m.data_buffer + s.subrange(i as int, k as int), ..m },
            s,
            k,
        ),
    decreases k - i,
{
    if i == k {
        assert(m.data_buffer + s.subrange(i as int, k as int) == m.data_buffer);
        assert(ParserModel { data_buffer: m.data_buffer, ..m } == m);
    } else {
        let q = if i + 1 < s.len() {
            Some(s[i + 1int])
        } else {
            None
        };
        let m1 = ParserModel { peek: q, ..m };
        assert(spec_token(s[i as int]) != Token::LessThan);
        let m2 = ParserModel { data_buffer: m.data_buffer.push(s[i as int]), peek: q, ..m };
        assert(spec_step(m1, s[i as int]) == (m2, None::<ParseErrorV>));
        lemma_run_data(m2, s, i + 1, k);
        assert(m2.data_buffer + s.subrange(i + 1int, k as int) == m.data_buffer + s.subrange(i as int, k as int));
        let target = ParserModel { data_buffer: m.data_buffer + s.subrange(i as int, k as int), ..m };
        lemma_run_ignores_peek(target, q, s, k);
        assert(ParserModel { data_buffer: m2.data_buffer + s.subrange(i + 1int, k as int), ..m2 } == ParserModel {
            peek: q,
            ..target
        });
    }
}

/// The nodes of an element holding text: the opening tag, the text trimmed
/// (when anything is left of it), and the closing tag.
pub open spec fn element_with_text_nodes(name: Seq<char>, text: Seq<char>) -> Seq<LexedV> {
    seq![LexedV::TagOpen { name: name, namespace: None }] + (if spec_trim(text).len() > 0 {
        seq![LexedV::Content(spec_trim(text))]
    } else {
        Seq::empty()
    }) + seq![LexedV::TagClose { name: name, namespace: None }]
}

/// An element holding text (`<name>`, text without `<`, `</name>`, the name of
/// plain characters) yields its opening tag, its text trimmed (when anything is
/// left of it), and its closing tag.
pub proof fn law_element_with_text(name: Seq<char>, text: Seq<char>)
    requires
        name.len() > 0,
        forall|j: int| 0 <= j < name.len() ==> spec_token(#[trigger] name[j]) == Token::Char,
        forall|j: int| 0 <= j < text.len() ==> text[j] != '<',
    ensures
        spec_lex(seq!['<'] + name + seq!['>'] + text + seq!['<', '/'] + name + seq!['>']) == Ok::<
            Seq<LexedV>,
            ParseErrorV,
        >(element_with_text_nodes(name, text)),
{
    let s = seq!['<'] + name + seq!['>'] + text + seq!['<', '/'] + name + seq!['>'];
    let n = name.len() as int;
    let t = text.len() as int;
    let a = n + 2 + t;
    assert(s.len() == a + 3 + n);
    assert(s[0] == '<' && s[n + 1] == '>' && s[a] == '<' && s[a + 1] == '/' && s[a + 2 + n] == '>');
    assert forall|j: int| 1 <= j < n + 1 implies spec_token(#[trigger] s[j]) == Token::Char by {
        assert(s[j] == name[j - 1]);
    }
    assert forall|j: int| a + 2 <= j < a + 2 + n implies spec_token(#[trigger] s[j]) == Token::Char by {
        assert(s[j] == name[j - a - 2]);
    }
    assert forall|j: int| n + 2 <= j < a implies s[j] != '<' by {
        assert(s[j] == text[j - n - 2]);
    }
    assert(s.subrange(1, n + 1) == name);
    assert(s.subrange(a + 2, a + 2 + n) == name);
    assert(s.subrange(n + 2, a) == text);
    // `<` and the opening tag's name
    lemma_first_open_angle(s);
    let m1 = after_open_angle(Some(s[1]));
    assert(spec_token(s[1]) == Token::Char);
    let m2 = spec_step(ParserModel { peek: Some(s[2]), ..m1 }, s[1]).0;
    assert(spec_step(ParserModel { peek: Some(s[2]), ..m1 }, s[1]).1 is None);
    assert(spec_run(m1, s, 1) == spec_run(m2, s, 2));
    lemma_run_tag_name(m2, s, 2, (n + 1) as nat);
    assert(seq![s[1]] + s.subrange(2, n + 1) == name);
    let m3 = ParserModel { tag_name: name, ..m2 };
    assert(spec_run(m2, s, 2) == spec_run(m3, s, (n + 1) as nat));
    // `>` ends the opening tag
    let p3 = ParserModel { peek: Some(s[n + 2]), ..m3 };
    let m4 = spec_step(p3, s[n + 1]).0;
    assert(spec_step(p3, s[n + 1]).1 is None);
    assert(m4.state == ParserState::Data);
    assert(m4.nodes == seq![LexedV::TagOpen { name: name, namespace: None }]);
    assert(m4.data_buffer == Seq::<char>::empty());
    assert(spec_run(m3, s, (n + 1) as nat) == spec_run(m4, s, (n + 2) as nat));
    // the text
    lemma_run_data(m4, s, (n + 2) as nat, a as nat);
    assert(m4.data_buffer + text == text);
    let m5 = ParserModel { data_buffer: text, ..m4 };
    assert(spec_run(m4, s, (n + 2) as nat) == spec_run(m5, s, a as nat));
    // `<` emits the trimmed text, `/` marks a closing tag
    let p5 = ParserModel { peek: Some(s[a + 1]), ..m5 };
    let m6 = spec_step(p5, s[a]).0;
    assert(spec_step(p5, s[a]).1 is None);
    assert(m6.state == ParserState::TagBegin && m6.tag_name == Seq::<char>::empty());
    assert(m6.tag_namespace == Seq::<char>::empty());
    let mid = if spec_trim(text).len() > 0 {
        seq![LexedV::Content(spec_trim(text))]
    } else {
        Seq::<LexedV>::empty()
    };
    assert(m6.nodes == seq![LexedV::TagOpen { name: name, namespace: None }] + mid);
    assert(spec_run(m5, s, a as nat) == spec_run(m6, s, (a + 1) as nat));
    let p6 = ParserModel { peek: Some(s[a + 2]), ..m6 };
    let m7 = spec_step(p6, s[a + 1]).0;
    assert(spec_step(p6, s[a + 1]).1 is None);
    assert(m7.state == ParserState::TagBegin && m7.is_closing);
    assert(spec_run(m6, s, (a + 1) as nat) == spec_run(m7, s, (a + 2) as nat));
    // the closing tag's name
    assert(spec_token(s[a + 2]) == Token::Char);
    let p7 = ParserModel { peek: Some(s[a + 3]), ..m7 };
    let m8 = spec_step(p7, s[a + 2]).0;
    assert(spec_step(p7, s[a + 2]).1 is None);
    assert(m8.state == ParserState::TagName && m8.tag_name == seq![s[a + 2]] && m8.is_closing);
    assert(spec_run(m7, s, (a + 2) as nat) == spec_run(m8, s, (a + 3) as nat));
    lemma_run_tag_name(m8, s, (a + 3) as nat, (a + 2 + n) as nat);
    assert(seq![s[a + 2]] + s.subrange(a + 3, a + 2 + n) == name);
    let m9 = ParserModel { tag_name: name, ..m8 };
    assert(spec_run(m8, s, (a + 3) as nat) == spec_run(m9, s, (a + 2 + n) as nat));
    // `>` ends the closing tag
    let p9 = ParserModel { peek: None, ..m9 };
    let m10 = spec_step(p9, s[a + 2 + n]).0;
    assert(spec_step(p9, s[a + 2 + n]).1 is None);
    assert(m10.nodes == m6.nodes.push(LexedV::TagClose { name: name, namespace: None }));
    assert(spec_run(m9, s, (a + 2 + n) as nat) == spec_run(m10, s, (a + 3 + n) as nat));
    assert(spec_run(m10, s, (a + 3 + n) as nat) == (m10, None::<ParseErrorV>));
    assert(m10.nodes =~= element_with_text_nodes(name, text));
}

/// Inside an attribute name, name characters are added to the name.
proof fn lemma_run_attribute_name(m: ParserModel, s: Seq<char>, i: nat, k: nat)
    requires
        m.state == ParserState::AttributeName,
        i <= k < s.len(),
        forall|j: int| i <= j < k ==> spec_token(#[trigger] s[j]) == Token::Char,
    ensures
        spec_run(m, s, i) == spec_run(
            ParserModel { attribute_name: m.attribute_name + s.subrange(i as int, k as int), ..m },
            s,
            k,
        ),
    decreases k - i,
{
    if i == k {
        assert(m.attribute_name + s.subrange(i as int, k as int) == m.attribute_name);
        assert(ParserModel { attribute_name: m.attribute_name, ..m } == m);
    } else {
        let q = if i + 1 < s.len() {
            Some(s[i + 1int])
        } else {
            None
        };
        let m1 = ParserModel { peek: q, ..m };
        assert(spec_token(s[i as int]) == Token::Char);
        let m2 = ParserModel { attribute_name: m.attribute_name.push(s[i as int]), peek: q, ..m };
        assert(spec_step(m1, s[i as int]) == (m2, None::<ParseErrorV>));
        lemma_run_attribute_name(m2, s, i + 1, k);
        assert(m2.attribute_name + s.subrange(i + 1int, k as int) == m.attribute_name + s.subrange(
            i as int,
            k as int,
        ));
        let target = ParserModel { attribute_name: m.attribute_name + s.subrange(i as int, k as int), ..m };
        lemma_run_ignores_peek(target, q, s, k);
        assert(ParserModel { attribute_name: m2.attribute_name + s.subrange(i + 1int, k as int), ..m2 }
            == ParserModel { peek: q, ..target });
    }
}

/// Whether `c` can stand inside an attribute value quoted with `quote`: any
/// character but that quote and the markup characters `<`, `=`, `?`, `!`, `-`.
pub open spec fn in_quoted_value(c: char, quote: char) -> bool {
    c != quote && c != '<' && c != '=' && c != '?' && c != '!' && c != '-'
}

/// Inside an attribute value opened with `quote`, the characters that can
/// stand there are all kept, white space included.
proof fn lemma_run_quoted_value(m: ParserModel, s: Seq<char>, i: nat, k: nat, quote: char)
    requires
        m.state == ParserState::AttributeValue,
        quote == '"' || quote == '\'',
        m.open_quote == Some(spec_quote(quote)),
        i <= k < s.len(),
        forall|j: int| i <= j < k ==> in_quoted_value(#[trigger] s[j], quote),
    ensures
        spec_run(m, s, i) == spec_run(
            ParserModel { attribute_value: m.attribute_value + s.subrange(i as int, k as int), ..m },
            s,
            k,
        ),
    decreases k - i,
{
    if i == k {
        assert(m.attribute_value + s.subrange(i as int, k as int) == m.attribute_value);
        assert(ParserModel { attribute_value: m.attribute_value, ..m } == m);
    } else {
        let q = if i + 1 < s.len() {
            Some(s[i + 1int])
        } else {
            None
        };
        let c = s[i as int];
        assert(in_quoted_value(c, quote));
        let m1 = ParserModel { peek: q, ..m };
        let m2 = ParserModel { attribute_value: m.attribute_value.push(c), peek: q, ..m };
        if c == '"' || c == '\'' {
            assert(spec_quote(c) != spec_quote(quote));
        }
        assert(spec_step(m1, c) == (m2, None::<ParseErrorV>));
        lemma_run_quoted_value(m2, s, i + 1, k, quote);
        assert(m2.attribute_value + s.subrange(i + 1int, k as int) == m.attribute_value + s.subrange(
            i as int,
            k as int,
        ));
        let target = ParserModel { attribute_value: m.attribute_value + s.subrange(i as int, k as int), ..m };
        lemma_run_ignores_peek(target, q, s, k);
        assert(ParserModel { attribute_value: m2.attribute_value + s.subrange(i + 1int, k as int), ..m2 }
            == ParserModel { peek: q, ..target });
    }
}

/// An opening tag with one quoted attribute (`<`, a name, a space, a key, `=`,
/// a quote, the value, the same quote, `>`; name and key of plain characters)
/// yields the tag and the attribute with its value exactly as written between
/// the quotes: every character up to the closing quote, white space
/// included, is kept.
pub proof fn law_quoted_attribute_value_is_kept(name: Seq<char>, key: Seq<char>, value: Seq<char>, quote: char)
    requires
        name.len() > 0,
        forall|j: int| 0 <= j < name.len() ==> spec_token(#[trigger] name[j]) == Token::Char,
        key.len() > 0,
        forall|j: int| 0 <= j < key.len() ==> spec_token(#[trigger] key[j]) == Token::Char,
        value.len() > 0,
        quote == '"' || quote == '\'',
        forall|j: int| 0 <= j < value.len() ==> in_quoted_value(#[trigger] value[j], quote),
    ensures
        spec_lex(seq!['<'] + name + seq![' '] + key + seq!['=', quote] + value + seq![quote, '>']) == Ok::<
            Seq<LexedV>,
            ParseErrorV,
        >(
            seq![
                LexedV::TagOpen { name: name, namespace: None },
                LexedV::Attribute { key: key, value: Some(value) },
            ],
        ),
{
    let s = seq!['<'] + name + seq![' '] + key + seq!['=', quote] + value + seq![quote, '>'];
    let n = name.len() as int;
    let kk = key.len() as int;
    let t = value.len() as int;
    let p = n + 2 + kk;
    let e = p + 2 + t;
    assert(s.len() == e + 2);
    assert(s[0] == '<' && s[n + 1] == ' ' && s[p] == '=' && s[p + 1] == quote && s[e] == quote && s[e + 1]
        == '>');
    assert forall|j: int| 1 <= j < n + 1 implies spec_token(#[trigger] s[j]) == Token::Char by {
        assert(s[j] == name[j - 1]);
    }
    assert forall|j: int| n + 2 <= j < p implies spec_token(#[trigger] s[j]) == Token::Char by {
        assert(s[j] == key[j - n - 2]);
    }
    assert forall|j: int| p + 2 <= j < e implies in_quoted_value(#[trigger] s[j], quote) by {
        assert(s[j] == value[j - p - 2]);
    }
    assert(s.subrange(1, n + 1) == name);
    assert(s.subrange(n + 2, p) == key);
    assert(s.subrange(p + 2, e) == value);
    // `<` and the tag's name
    lemma_first_open_angle(s);
    let m1 = after_open_angle(Some(s[1]));
    assert(spec_token(s[1]) == Token::Char);
    let m2 = spec_step(ParserModel { peek: Some(s[2]), ..m1 }, s[1]).0;
    assert(spec_step(ParserModel { peek: Some(s[2]), ..m1 }, s[1]).1 is None);
    assert(spec_run(m1, s, 1) == spec_run(m2, s, 2));
    lemma_run_tag_name(m2, s, 2, (n + 1) as nat);
    assert(seq![s[1]] + s.subrange(2, n + 1) == name);
    let m3 = ParserModel { tag_name: name, ..m2 };
    assert(spec_run(m2, s, 2) == spec_run(m3, s, (n + 1) as nat));
    // the space before a key emits the opening tag
    assert(spec_token(s[n + 2]) == Token::Char);
    let p3 = ParserModel { peek: Some(s[n + 2]), ..m3 };
    let m4 = spec_step(p3, s[n + 1]).0;
    assert(spec_step(p3, s[n + 1]).1 is None);
    assert(m4.state == ParserState::AttributeNameBegin);
    assert(m4.nodes == seq![LexedV::TagOpen { name: name, namespace: None }]);
    assert(m4.attribute_name == Seq::<char>::empty());
    assert(spec_run(m3, s, (n + 1) as nat) == spec_run(m4, s, (n + 2) as nat));
    // the key
    let p4 = ParserModel { peek: Some(s[n + 3]), ..m4 };
    let m5 = spec_step(p4, s[n + 2]).0;
    assert(spec_step(p4, s[n + 2]).1 is None);
    assert(m5.state == ParserState::AttributeName && m5.attribute_name == seq![s[n + 2]]);
    assert(spec_run(m4, s, (n + 2) as nat) == spec_run(m5, s, (n + 3) as nat));
    lemma_run_attribute_name(m5, s, (n + 3) as nat, p as nat);
    assert(seq![s[n + 2]] + s.subrange(n + 3, p) == key);
    let m6 = ParserModel { attribute_name: key, ..m5 };
    assert(spec_run(m5, s, (n + 3) as nat) == spec_run(m6, s, p as nat));
    // `=` and the opening quote
    let p6 = ParserModel { peek: Some(s[p + 1]), ..m6 };
    let m7 = spec_step(p6, s[p]).0;
    assert(spec_step(p6, s[p]).1 is None);
    assert(m7.state == ParserState::AttributeValueBegin);
    assert(spec_run(m6, s, p as nat) == spec_run(m7, s, (p + 1) as nat));
    let p7 = ParserModel { peek: Some(s[p + 2]), ..m7 };
    let m8 = spec_step(p7, s[p + 1]).0;
    assert(spec_step(p7, s[p + 1]).1 is None);
    assert(m8.state == ParserState::AttributeValue && m8.open_quote == Some(spec_quote(quote)));
    assert(m8.attribute_value == Seq::<char>::empty());
    assert(spec_run(m7, s, (p + 1) as nat) == spec_run(m8, s, (p + 2) as nat));
    // the value
    lemma_run_quoted_value(m8, s, (p + 2) as nat, e as nat, quote);
    assert(m8.attribute_value + value == value);
    let m9 = ParserModel { attribute_value: value, ..m8 };
    assert(spec_run(m8, s, (p + 2) as nat) == spec_run(m9, s, e as nat));
    // the closing quote emits the attribute
    let p9 = ParserModel { peek: Some(s[e + 1]), ..m9 };
    let m10 = spec_step(p9, s[e]).0;
    assert(spec_step(p9, s[e]).1 is None);
    assert(m10.state == ParserState::AttributeNameBegin);
    assert(m10.nodes == seq![
        LexedV::TagOpen { name: name, namespace: None },
        LexedV::Attribute { key: key, value: Some(value) },
    ]);
    assert(spec_run(m9, s, e as nat) == spec_run(m10, s, (e + 1) as nat));
    // `>` ends the tag
    let p10 = ParserModel { peek: None, ..m10 };
    let m11 = spec_step(p10, s[e + 1]).0;
    assert(spec_step(p10, s[e + 1]).1 is None);
    assert(m11.nodes == m10.nodes);
    assert(spec_run(m10, s, (e + 1) as nat) == spec_run(m11, s, (e + 2) as nat));
    assert(spec_run(m11, s, (e + 2) as nat) == (m11, None::<ParseErrorV>));
}

} // verus!
