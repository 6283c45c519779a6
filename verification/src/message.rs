//! The messages of a chat, as the chat keeps them.
use vstd::prelude::*;
use crate::model::{
    EnvState, EnvVar, LlmResponseMessage, UserInputMessage, UserInputMessageContext, duplicate_env,
    env_view,
};
use crate::text::{push_str, string_of};

verus! {

pub const USER_ENTRY_START: &'static str = "<user-query>";
pub const USER_ENTRY_END: &'static str = "</user-query>";

/// What the user sent.
#[derive(Debug)]
pub enum UserMessageContent {
    Prompt { prompt: String },
}

/// The user's working environment when a message was written.
#[derive(Debug)]
pub struct UserEnvContext {
    env_state: Option<EnvState>,
}

impl View for UserEnvContext {
    type V = Option<(Option<String>, Option<String>, Seq<EnvVar>)>;

    closed spec fn view(&self) -> Self::V {
        env_view(self.env_state)
    }
}


/// A message of the user, with the environment it was written in.
#[derive(Debug)]
pub struct UserMessage {
    pub additional_context: String,
    pub env_context: UserEnvContext,
    pub content: UserMessageContent,
}

/// A message of the model.
#[derive(Debug)]
pub enum LlmMessage {
    Response { message_id: Option<String>, content: String },
}

/// The text of a user message.
pub open spec fn prompt_of(m: UserMessage) -> Seq<char> {
    match m.content {
        UserMessageContent::Prompt { prompt } => prompt@,
    }
}

/// The text of a model message.
pub open spec fn llm_content(m: LlmMessage) -> Seq<char> {
    match m {
        LlmMessage::Response { content, .. } => content@,
    }
}

/// The id of a model message, if it has one.
pub open spec fn llm_id(m: LlmMessage) -> Option<Seq<char>> {
    match m {
        LlmMessage::Response { message_id, .. } => match message_id {
            Some(s) => Some(s@),
            None => None,
        },
    }
}

/// The text sent to the model for a user prompt: the prompt wrapped in
/// `<user-query>` tags, or nothing for an empty prompt.
pub open spec fn formatted_prompt(prompt: Seq<char>) -> Seq<char> {
    if prompt.len() != 0 {
        USER_ENTRY_START@ + prompt + USER_ENTRY_END@
    } else {
        Seq::empty()
    }
}

/// Whether `u` carries the environment `env` and no git state.
pub open spec fn carries_env(u: UserInputMessage, env: Option<(Option<String>, Option<String>, Seq<EnvVar>)>) -> bool {
    &&& u.user_input_message_context is Some
    &&& env_view(u.user_input_message_context->0.env_state) == env
    &&& u.user_input_message_context->0.git_state is None
}

impl UserEnvContext {
    /// The context for a message written in the environment `env_state`.
    pub fn generate_new(env_state: EnvState) -> (r: Self)
        ensures
            r@ == Some(env_state@),
    {
        Self { env_state: Some(env_state) }
    }

    /// A copy of this context.
    pub fn duplicate(&self) -> (r: Self)
        ensures
            r@ == self@,
    {
        Self { env_state: duplicate_env(&self.env_state) }
    }

    /// The environment, handed over.
    pub fn into_env_state(self) -> (r: Option<EnvState>)
        ensures
            env_view(r) == self@,
    {
        self.env_state
    }
}

impl UserMessage {
    /// Construct a new [UserMessage] from an input prompt
    pub fn new_prompt(prompt: String, env_context: UserEnvContext) -> (r: Self)
        ensures
            r.additional_context@ == Seq::<char>::empty(),
            r.env_context == env_context,
            r.content == (UserMessageContent::Prompt { prompt }),
    {
        Self {
            additional_context: String::new(),
            env_context,
            content: UserMessageContent::Prompt { prompt },
        }
    }

    /// Convert the user message into a [UserInputMessage] to be stored
    /// in a conversation's history
    pub fn into_user_history(self) -> (r: UserInputMessage)
        ensures
            r.content@ == prompt_of(self),
            carries_env(r, self.env_context@),
    {
        let content = match &self.content {
            UserMessageContent::Prompt { prompt } => prompt.clone(),
        };
        UserInputMessage {
            content,
            user_input_message_context: Some(
                UserInputMessageContext::new(self.env_context.into_env_state(), None),
            ),
        }
    }

    /// Convert the user message into a [UserInputMessage] to be sent
    /// as the next message of a conversation
    pub fn into_user_input_message(self) -> (r: UserInputMessage)
        ensures
            r.content@ == formatted_prompt(prompt_of(self)),
            carries_env(r, self.env_context@),
    {
        let formatted = match &self.content {
            UserMessageContent::Prompt { prompt } => {
                if !prompt.as_str().is_empty() {
                    let mut s = string_of(USER_ENTRY_START);
                    push_str(&mut s, prompt.as_str());
                    push_str(&mut s, USER_ENTRY_END);
                    s
                } else {
                    String::new()
                }
            },
        };
        UserInputMessage {
            content: formatted,
            user_input_message_context: Some(
                UserInputMessageContext::new(self.env_context.into_env_state(), None),
            ),
        }
    }

    /// Extra context attached to the message.
    pub fn additional_context(&self) -> (r: &str)
        ensures
            r@ == self.additional_context@,
    {
        self.additional_context.as_str()
    }

    /// What the user sent.
    pub fn content(&self) -> (r: &UserMessageContent)
        ensures
            *r == self.content,
    {
        &self.content
    }

    /// The prompt text.
    pub fn prompt(&self) -> (r: Option<&str>)
        ensures
            r is Some && r->0@ == prompt_of(*self),
    {
        match &self.content {
            UserMessageContent::Prompt { prompt } => Some(prompt.as_str()),
        }
    }

    /// The number of characters of the prompt.
    pub fn get_char_count(&self) -> (r: usize)
        ensures
            r == prompt_of(*self).len(),
    {
        match &self.content {
            UserMessageContent::Prompt { prompt } => prompt.as_str().unicode_len(),
        }
    }

    /// A copy of this message.
    pub fn duplicate(&self) -> (r: Self)
        ensures
            r.additional_context == self.additional_context,
            r.env_context@ == self.env_context@,
            r.content == self.content,
    {
        UserMessage {
            additional_context: self.additional_context.clone(),
            env_context: self.env_context.duplicate(),
            content: match &self.content {
                UserMessageContent::Prompt { prompt } => UserMessageContent::Prompt {
                    prompt: prompt.clone(),
                },
            },
        }
    }
}

impl LlmMessage {
    /// A model response with an optional id.
    pub fn new_response(message_id: Option<String>, content: String) -> (r: Self)
        ensures
            r == (LlmMessage::Response { message_id, content }),
    {
        Self::Response { message_id, content }
    }

    /// The message's id, if it has one.
    pub fn message_id(&self) -> (r: Option<&str>)
        ensures
            match llm_id(*self) {
                Some(id) => r is Some && r->0@ == id,
                None => r is None,
            },
    {
        match self {
            Self::Response { message_id, .. } => match message_id {
                Some(id) => Some(id.as_str()),
                None => None,
            },
        }
    }

    /// The message's text.
    pub fn content(&self) -> (r: &str)
        ensures
            r@ == llm_content(*self),
    {
        match self {
            Self::Response { content, .. } => content.as_str(),
        }
    }

    /// The number of characters of the message's text.
    pub fn get_char_count(&self) -> (r: usize)
        ensures
            r == llm_content(*self).len(),
    {
        self.content().unicode_len()
    }

    /// The message as history to replay to the model.
    pub fn to_response_message(&self) -> (r: LlmResponseMessage)
        ensures
            r.content@ == llm_content(*self),
    {
        LlmResponseMessage::new(string_of(self.content()))
    }
}

} // verus!
