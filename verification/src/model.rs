//! The messages exchanged with a language model service, and which service and
//! model to use.
use vstd::prelude::*;
use crate::text::{push_str, string_of};

verus! {

/// A copy of an optional string.
pub fn duplicate_opt(s: &Option<String>) -> (r: Option<String>)
    ensures
        r == *s,
{
    match s {
        Some(x) => Some(x.clone()),
        None => None,
    }
}

/// An environment variable of the user's shell.
#[derive(Debug)]
pub struct EnvVar {
    pub key: String,
    pub value: String,
}

/// Facts about the user's working environment: operating system, working
/// directory, environment variables.
#[derive(Debug)]
pub struct EnvState {
    /// Operating system
    pub os: Option<String>,
    /// Current working directory
    pub cwd: Option<String>,
    pub env_variables: Vec<EnvVar>,
}

/// Facts about the user's git working copy (none are collected yet).
#[derive(Debug, Clone, Copy)]
pub struct GitState {}

/// Stores context from the user's "working environment", such as environment variables,
/// git status, etc.
#[derive(Debug)]
pub struct UserInputMessageContext {
    pub env_state: Option<EnvState>,
    pub git_state: Option<GitState>,
}

/// A message from the user to the model.
#[derive(Debug)]
pub struct UserInputMessage {
    pub content: String,
    pub user_input_message_context: Option<UserInputMessageContext>,
}

/// A message from the model, replayed to it as history.
#[derive(Debug)]
pub struct LlmResponseMessage {
    pub content: String,
}

/// One message of a conversation's history.
#[derive(Debug)]
pub enum ChatMessage {
    UserInputMessage(UserInputMessage),
    LlmResponseMessage(LlmResponseMessage),
}

/// ConversationState capable of being sent as a message via the streaming client
#[derive(Debug)]
pub struct ConversationStateMessage {
    conversation_id: Option<String>,
    user_input_message: Option<UserInputMessage>,
    history: Option<Vec<ChatMessage>>,
}

impl View for EnvState {
    type V = (Option<String>, Option<String>, Seq<EnvVar>);

    open spec fn view(&self) -> (Option<String>, Option<String>, Seq<EnvVar>) {
        (self.os, self.cwd, self.env_variables@)
    }
}

/// The view of an optional environment state.
pub open spec fn env_view(e: Option<EnvState>) -> Option<(Option<String>, Option<String>, Seq<EnvVar>)> {
    match e {
        Some(x) => Some(x@),
        None => None,
    }
}

impl EnvState {
    /// A copy of this environment state.
    pub fn duplicate(&self) -> (r: Self)
        ensures
            r@ == self@,
    {
        let mut vars: Vec<EnvVar> = Vec::new();
        let mut i: usize = 0;
        while i < self.env_variables.len()
            invariant
                i <= self.env_variables@.len(),
                vars@ == self.env_variables@.subrange(0, i as int),
            decreases self.env_variables@.len() - i,
        {
            let v = &self.env_variables[i];
            vars.push(EnvVar { key: v.key.clone(), value: v.value.clone() });
            assert(self.env_variables@.subrange(0, i + 1) == self.env_variables@.subrange(
                0,
                i as int,
            ).push(self.env_variables@[i as int]));
            i = i + 1;
        }
        assert(self.env_variables@.subrange(0, self.env_variables@.len() as int)
            == self.env_variables@);
        EnvState { os: duplicate_opt(&self.os), cwd: duplicate_opt(&self.cwd), env_variables: vars }
    }
}

/// A copy of an optional environment state.
pub fn duplicate_env(s: &Option<EnvState>) -> (r: Option<EnvState>)
    ensures
        env_view(r) == env_view(*s),
{
    match s {
        Some(x) => Some(x.duplicate()),
        None => None,
    }
}

impl UserInputMessageContext {
    /// The context from an environment state and a git state.
    pub fn new(env_state: Option<EnvState>, git_state: Option<GitState>) -> (r: Self)
        ensures
            r.env_state == env_state,
            r.git_state == git_state,
    {
        Self { env_state, git_state }
    }
}

impl LlmResponseMessage {
    /// A model message with the text `content`.
    pub fn new(content: String) -> (r: Self)
        ensures
            r.content == content,
    {
        LlmResponseMessage { content }
    }
}

impl ConversationStateMessage {
    /// The message for a conversation: its id, the next user message, and the
    /// history before it.
    pub fn new(
        conversation_id: String,
        user_input_message: Option<UserInputMessage>,
        history: Vec<ChatMessage>,
    ) -> (r: Self)
        ensures
            r@ == (Some(conversation_id), user_input_message, Some(history)),
    {
        Self { conversation_id: Some(conversation_id), user_input_message, history: Some(history) }
    }

    /// The conversation's id, if set.
    pub fn conversation_id(&self) -> (r: Option<&String>)
        ensures
            match r {
                Some(x) => self@.0 == Some(*x),
                None => self@.0 is None,
            },
    {
        self.conversation_id.as_ref()
    }

    /// The next user message, if set.
    pub fn user_input_message(&self) -> (r: Option<&UserInputMessage>)
        ensures
            match r {
                Some(x) => self@.1 == Some(*x),
                None => self@.1 is None,
            },
    {
        self.user_input_message.as_ref()
    }

    /// The history, oldest first, if set.
    pub fn history(&self) -> (r: Option<&Vec<ChatMessage>>)
        ensures
            match r {
                Some(x) => self@.2 == Some(*x),
                None => self@.2 is None,
            },
    {
        self.history.as_ref()
    }
}

impl View for ConversationStateMessage {
    type V = (Option<String>, Option<UserInputMessage>, Option<Vec<ChatMessage>>);

    closed spec fn view(&self) -> (Option<String>, Option<UserInputMessage>, Option<Vec<ChatMessage>>) {
        (self.conversation_id, self.user_input_message, self.history)
    }
}

pub const GEMINI_2_5_FLASH: &'static str = "gemini-2.5-flash";

/// GenAI Model Name(s) for Google AI Studio
#[derive(Clone, Copy, Debug, PartialEq, Eq, Structural)]
pub enum GoogleModel {
    Gemini25Flash,
}

impl GoogleModel {
    /// The name the service knows the model by.
    pub fn to_model_name<'a>(&self) -> (r: &'a str)
        ensures
            r@ == GEMINI_2_5_FLASH@,
    {
        match self {
            GoogleModel::Gemini25Flash => GEMINI_2_5_FLASH,
        }
    }
}

/// Which service answers the chat.
#[derive(Clone, Copy, Debug, PartialEq, Eq, Structural)]
pub enum LlmServerProvider {
    LlamaCpp,
    GoogleAiStudio { model: GoogleModel },
}

/// The client's settings for a Google model.
#[derive(Clone, Copy, Debug)]
pub struct GoogleStreamingClientConfig {
    pub model: GoogleModel,
}

pub const USER_ENV_CONTEXT_HEADER_START: &'static str = "<user-env-context>";

pub const USER_ENV_CONTEXT_HEADER_END: &'static str = "</user-env-context>";

pub const LLM_RESPONSE_CONTEXT_HEADER_START: &'static str = "<previous-assistant-response>";

pub const LLM_RESPONSE_CONTEXT_HEADER_END: &'static str = "</previous-assistant-response>";

/// The text sent for a user message with the text `content`: the content, a
/// line break, then the serialized environment context between
/// `<user-env-context>` lines when there is one.
pub open spec fn user_part(content: Seq<char>, serialized_context: Option<Seq<char>>) -> Seq<char> {
    content + "\n"@ + match serialized_context {
        Some(c) => USER_ENV_CONTEXT_HEADER_START@ + "\n"@ + c + "\n"@ + USER_ENV_CONTEXT_HEADER_END@,
        None => Seq::empty(),
    }
}

/// The text sent for an earlier model message with the text `content`: the
/// content between `<previous-assistant-response>` lines.
pub open spec fn llm_part(content: Seq<char>) -> Seq<char> {
    LLM_RESPONSE_CONTEXT_HEADER_START@ + "\n"@ + content + "\n"@ + LLM_RESPONSE_CONTEXT_HEADER_END@
}

impl UserInputMessage {
    /// The text sent for this message, given its environment context as
    /// serialized JSON (present exactly when the message has a context).
    pub fn part_text(&self, serialized_context: Option<&str>) -> (r: String)
        ensures
            r@ == user_part(
                self.content@,
                match serialized_context {
                    Some(c) => Some(c@),
                    None => None,
                },
            ),
    {
        let mut formatted = string_of(self.content.as_str());
        push_str(&mut formatted, "\n");
        match serialized_context {
            Some(c) => {
                push_str(&mut formatted, USER_ENV_CONTEXT_HEADER_START);
                push_str(&mut formatted, "\n");
                push_str(&mut formatted, c);
                push_str(&mut formatted, "\n");
                push_str(&mut formatted, USER_ENV_CONTEXT_HEADER_END);
            },
            None => {},
        }
        formatted
    }
}

impl LlmResponseMessage {
    /// The text sent for this earlier model message.
    pub fn part_text(&self) -> (r: String)
        ensures
            r@ == llm_part(self.content@),
    {
        let mut formatted = string_of(LLM_RESPONSE_CONTEXT_HEADER_START);
        push_str(&mut formatted, "\n");
        push_str(&mut formatted, self.content.as_str());
        push_str(&mut formatted, "\n");
        push_str(&mut formatted, LLM_RESPONSE_CONTEXT_HEADER_END);
        formatted
    }
}

} // verus!
