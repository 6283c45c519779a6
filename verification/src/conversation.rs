//! The conversation as the chat keeps it in memory: the history of exchanges,
//! the next user message, the transcript, and what is sent to the model.
use vstd::prelude::*;
use std::collections::VecDeque;
use crate::context::{ContextFile, ContextManager, collected_files};
use crate::message::{
    LlmMessage, UserEnvContext, UserMessage, UserMessageContent, llm_content, llm_id, prompt_of,
};
use crate::model::{
    ChatMessage, ConversationStateMessage, EnvState, EnvVar, UserInputMessage,
};
use crate::message::{carries_env, formatted_prompt};
use crate::token_counter::utf8_len;
use crate::prompt::{Prompt, Role};
use crate::text::{push_char, push_str, string_of};

verus! {

broadcast use vstd::std_specs::vecdeque::group_vec_dequeue_axioms;

pub const CONTEXT_PROMPT: &'static str = "This summary contains all relevant information from your previous conversation with the user. You must reference this information when answering any and all subsequent user queries. Explicitly acknowledge specific details from the summary provided when they're relevant to the query.";

pub const LLM_RESPONSE_PROMPT: &'static str = "I will fully incorporate this information when generating my responses, and explicitly acknowledge relevant parts of the summary when answering questions.";

/// The text a user message takes when the user sent nothing.
pub const EMPTY_INPUT: &'static str = "<empty>";

/// Why a conversation cannot be sent.
#[derive(Debug)]
pub enum ConversationStateError {
    InvalidNextMessage,
}

impl ConversationStateError {
    /// The error's message.
    pub fn message(&self) -> (r: String)
        ensures
            r@ == "next user message is not valid"@,
    {
        match self {
            ConversationStateError::InvalidNextMessage => string_of("next user message is not valid"),
        }
    }
}

/// Simple wrapper for a tuple of ([UserMessage], [LlmMessage])
#[derive(Debug)]
pub struct ConversationHistoryEntry {
    pub user_message: UserMessage,
    pub llm_message: LlmMessage,
}

impl ConversationHistoryEntry {
    /// An exchange of a user message and the model's answer.
    pub fn new(user_message: UserMessage, llm_message: LlmMessage) -> (r: Self)
        ensures
            r.user_message == user_message,
            r.llm_message == llm_message,
    {
        Self { user_message, llm_message }
    }
}

/// In-memory representation of the conversation
pub struct ConversationState {
    conversation_id: String,
    next_message: Option<UserMessage>,
    history: VecDeque<ConversationHistoryEntry>,
    pub transcript: VecDeque<String>,
    valid_history_range: (usize, usize),
    pub context_manager: Option<ContextManager>,
    context_message_length: Option<usize>,
    latest_summary: Option<String>,
}

/// What a conversation holds.
#[verifier::ext_equal]
pub struct ConversationView {
    pub conversation_id: Seq<char>,
    pub next_message: Option<UserMessage>,
    pub history: Seq<ConversationHistoryEntry>,
    pub valid_history_range: (usize, usize),
    pub context_message_length: Option<usize>,
    pub latest_summary: Option<Seq<char>>,
    pub transcript: Seq<String>,
    pub context_manager: Option<ContextManager>,
}

/// The characters of an optional string.
pub open spec fn opt_view(s: Option<String>) -> Option<Seq<char>> {
    match s {
        Some(x) => Some(x@),
        None => None,
    }
}

impl View for ConversationState {
    type V = ConversationView;

    closed spec fn view(&self) -> ConversationView {
        ConversationView {
            conversation_id: self.conversation_id@,
            next_message: self.next_message,
            history: self.history@,
            valid_history_range: self.valid_history_range,
            context_message_length: self.context_message_length,
            latest_summary: opt_view(self.latest_summary),
            transcript: self.transcript@,
            context_manager: self.context_manager,
        }
    }
}

/// The characters of each entry of a transcript.
pub open spec fn transcript_view(t: Seq<String>) -> Seq<Seq<char>> {
    t.map_values(|s: String| s@)
}

/// The transcript line for a user message: `> ` and the prompt with each line
/// break turned into `>`.
pub open spec fn user_transcript_line(prompt: Seq<char>) -> Seq<char> {
    "> "@ + Seq::new(prompt.len(), |i: int| if prompt[i] == '\n' { '>' } else { prompt[i] })
}

/// A user message for `text`, written in the environment `env`, with no
/// extra context.
pub open spec fn is_user_message(
    m: UserMessage,
    text: Seq<char>,
    env: Option<(Option<String>, Option<String>, Seq<EnvVar>)>,
) -> bool {
    &&& prompt_of(m) == text
    &&& m.additional_context@ == Seq::<char>::empty()
    &&& m.env_context@ == env
}

/// A history entry for the exchange `pair` (user text, model text), the user
/// message written in `env` and the model message without an id.
pub open spec fn is_replayed_entry(
    e: ConversationHistoryEntry,
    pair: (Seq<char>, Seq<char>),
    env: Option<(Option<String>, Option<String>, Seq<EnvVar>)>,
) -> bool {
    &&& is_user_message(e.user_message, pair.0, env)
    &&& llm_content(e.llm_message) == pair.1
    &&& llm_id(e.llm_message) is None
}

/// The exchanges (user text, model text) that replaying `prompts` records,
/// given the user text and model text already waiting for a partner: each
/// prompt replaces the waiting text of its role, and once both roles wait they
/// form an exchange.
pub open spec fn replayed_pairs(
    prompts: Seq<Prompt>,
    user: Option<Seq<char>>,
    llm: Option<Seq<char>>,
) -> Seq<(Seq<char>, Seq<char>)>
    decreases prompts.len(),
{
    if prompts.len() == 0 {
        Seq::empty()
    } else {
        let p = prompts[0];
        let user2 = if p.role == Role::User { Some(p.content@) } else { user };
        let llm2 = if p.role == Role::LlmAssistant { Some(p.content@) } else { llm };
        if user2 is Some && llm2 is Some {
            seq![(user2->0, llm2->0)] + replayed_pairs(prompts.skip(1), None, None)
        } else {
            replayed_pairs(prompts.skip(1), user2, llm2)
        }
    }
}

/// The opening of the context message for a summary of earlier exchanges.
pub open spec fn summary_text(summary: Option<Seq<char>>) -> Seq<char> {
    match summary {
        Some(s) => "<summary>\n"@ + CONTEXT_PROMPT@ + s + "\n"@ + "</summary>\n"@,
        None => Seq::empty(),
    }
}

/// Each file as `[name]`, a line break, its content and a line break.
pub open spec fn files_text(files: Seq<ContextFile>) -> Seq<char>
    decreases files.len(),
{
    if files.len() == 0 {
        Seq::empty()
    } else {
        files_text(files.drop_last()) + "["@ + files.last().filename@ + "]\n"@ + files.last().content@
            + "\n"@
    }
}

/// The text of one context file: `[name]`, a line break, its content and a
/// line break.
pub open spec fn file_entry_text(f: ContextFile) -> Seq<char> {
    "["@ + f.filename@ + "]\n"@ + f.content@ + "\n"@
}

/// Every file is in the files text, each once, in order: the text of one file
/// is its entry, and the text of files put one after the other is their texts
/// put one after the other. So no kept file is left out of the context
/// message, and each one's name and content stand in it.
pub proof fn law_files_text_holds_every_file(a: Seq<ContextFile>, b: Seq<ContextFile>, f: ContextFile)
    ensures
        files_text(Seq::empty()) == Seq::<char>::empty(),
        files_text(seq![f]) == file_entry_text(f),
        files_text(a + b) == files_text(a) + files_text(b),
    decreases b.len(),
{
    assert(seq![f].drop_last() =~= Seq::<ContextFile>::empty());
    assert(seq![f].last() == f);
    assert(files_text(Seq::<ContextFile>::empty()) == Seq::<char>::empty());
    assert(Seq::<char>::empty() + "["@ =~= "["@);
    assert(files_text(seq![f]) =~= file_entry_text(f));
    if b.len() == 0 {
        assert(a + b =~= a);
        assert(files_text(a) + files_text(b) =~= files_text(a));
    } else {
        law_files_text_holds_every_file(a, b.drop_last(), f);
        assert((a + b).drop_last() =~= a + b.drop_last());
        assert((a + b).last() == b.last());
        let l = b.last();
        assert(files_text(a + b) == files_text(a + b.drop_last()) + "["@ + l.filename@ + "]\n"@ + l.content@
            + "\n"@);
        assert(files_text(b) == files_text(b.drop_last()) + "["@ + l.filename@ + "]\n"@ + l.content@ + "\n"@);
        assert(files_text(a) + files_text(b.drop_last()) + "["@ + l.filename@ + "]\n"@ + l.content@ + "\n"@
            =~= files_text(a) + (files_text(b.drop_last()) + "["@ + l.filename@ + "]\n"@ + l.content@
            + "\n"@));
    }
}

/// The context files part of the context message: nothing without files.
pub open spec fn context_files_text(files: Seq<ContextFile>) -> Seq<char> {
    if files.len() == 0 {
        Seq::empty()
    } else {
        "<context>\n"@ + files_text(files) + "</context>\n"@
    }
}

/// The files sent and dropped, given the context manager and the files read
/// for its paths (none when they could not be read).
pub open spec fn context_selection(
    manager: Option<ContextManager>,
    files: Option<Seq<ContextFile>>,
) -> (Seq<ContextFile>, Seq<ContextFile>) {
    match (manager, files) {
        (Some(m), Some(f)) => collected_files(f, m.max_files_size() as nat),
        _ => (Seq::empty(), Seq::empty()),
    }
}

/// The whole context message: summary, context files, then the opening
/// context of the conversation.
pub open spec fn context_text(
    summary: Option<Seq<char>>,
    files: Seq<ContextFile>,
    start: Option<Seq<char>>,
) -> Seq<char> {
    summary_text(summary) + context_files_text(files) + match start {
        Some(c) => c,
        None => Seq::empty(),
    }
}

/// Whether `r` and the conversation `after` are what building the context
/// messages of `before` gives, with `files` read for the context manager's
/// paths, `start` as opening context and `env` as the environment of the
/// context message.
pub open spec fn is_context_build(
    before: ConversationView,
    after: ConversationView,
    files: Option<Seq<ContextFile>>,
    start: Option<Seq<char>>,
    env: Option<(Option<String>, Option<String>, Seq<EnvVar>)>,
    r: (Option<Seq<ConversationHistoryEntry>>, Seq<ContextFile>),
) -> bool {
    let (used, dropped) = context_selection(before.context_manager, files);
    let text = context_text(before.latest_summary, used, start);
    &&& r.1 == dropped
    &&& text.len() == 0 ==> r.0 is None && after == before
    &&& text.len() > 0 ==> {
        &&& r.0 is Some
        &&& r.0->0.len() == 1
        &&& is_user_message(r.0->0[0].user_message, text, env)
        &&& llm_content(r.0->0[0].llm_message) == LLM_RESPONSE_PROMPT@
        &&& llm_id(r.0->0[0].llm_message) is None
        &&& after == (ConversationView { context_message_length: Some(utf8_len(text)), ..before })
    }
}

/// The entries behind a sequence of references.
pub open spec fn derefs(s: Seq<&ConversationHistoryEntry>) -> Seq<ConversationHistoryEntry> {
    s.map_values(|e: &ConversationHistoryEntry| *e)
}

/// Whether `msgs` is `entries` flattened: for each exchange, the user message as
/// history, then the model message.
pub open spec fn is_flattened(msgs: Seq<ChatMessage>, entries: Seq<ConversationHistoryEntry>) -> bool {
    &&& msgs.len() == 2 * entries.len()
    &&& forall|k: int|
        0 <= k < entries.len() ==> {
            &&& #[trigger] msgs[2 * k] matches ChatMessage::UserInputMessage(u)
            &&& u.content@ == prompt_of(entries[k].user_message)
            &&& carries_env(u, entries[k].user_message.env_context@)
        }
    &&& forall|k: int|
        0 <= k < entries.len() ==> {
            &&& #[trigger] msgs[2 * k + 1] matches ChatMessage::LlmResponseMessage(l)
            &&& l.content@ == llm_content(entries[k].llm_message)
        }
}

/// The characters of the user messages of `entries`.
pub open spec fn user_chars(entries: Seq<ConversationHistoryEntry>) -> nat
    decreases entries.len(),
{
    if entries.len() == 0 {
        0
    } else {
        user_chars(entries.drop_last()) + prompt_of(entries.last().user_message).len()
    }
}

/// The characters of the model messages of `entries`.
pub open spec fn llm_chars(entries: Seq<ConversationHistoryEntry>) -> nat
    decreases entries.len(),
{
    if entries.len() == 0 {
        0
    } else {
        llm_chars(entries.drop_last()) + llm_content(entries.last().llm_message).len()
    }
}

/// Flattens the exchanges `history` into the messages of a conversation: for
/// each, the user message as history, then the model message.
pub fn flatten_history(history: Vec<&ConversationHistoryEntry>) -> (r: Vec<ChatMessage>)
    ensures
        is_flattened(r@, derefs(history@)),
{
    let mut acc: Vec<ChatMessage> = Vec::new();
    let mut i: usize = 0;
    while i < history.len()
        invariant
            i <= history@.len(),
            is_flattened(acc@, derefs(history@.subrange(0, i as int))),
        decreases history@.len() - i,
    {
        let entry = history[i];
        let ghost before = acc@;
        acc.push(ChatMessage::UserInputMessage(entry.user_message.duplicate().into_user_history()));
        acc.push(ChatMessage::LlmResponseMessage(entry.llm_message.to_response_message()));
        proof {
            let e = derefs(history@.subrange(0, i + 1));
            let d = derefs(history@.subrange(0, i as int));
            assert forall|k: int| 0 <= k < i implies #[trigger] e[k] == d[k] by {}
            assert(e[i as int] == *history@[i as int]);
            assert forall|k: int| 0 <= k < e.len() implies {
                &&& #[trigger] acc@[2 * k] matches ChatMessage::UserInputMessage(u)
                &&& u.content@ == prompt_of(e[k].user_message)
                &&& carries_env(u, e[k].user_message.env_context@)
            } by {
                if k < i {
                    assert(acc@[2 * k] == before[2 * k]);
                }
            }
            assert forall|k: int| 0 <= k < e.len() implies {
                &&& #[trigger] acc@[2 * k + 1] matches ChatMessage::LlmResponseMessage(l)
                &&& l.content@ == llm_content(e[k].llm_message)
            } by {
                if k < i {
                    assert(acc@[2 * k + 1] == before[2 * k + 1]);
                }
            }
        }
        i = i + 1;
    }
    assert(history@.subrange(0, history@.len() as int) == history@);
    acc
}

/// The conversation as sent to the model: its id, the next message, the
/// exchanges to send, the context messages and the context files left out.
pub struct BackendConversationStateImpl<'a, T, U> {
    pub conversation_id: &'a str,
    pub next_user_message: Option<&'a UserMessage>,
    pub history: T,
    pub context_messages: U,
    pub dropped_context_files: Vec<ContextFile>,
}

pub type BackendConversationState<'a> = BackendConversationStateImpl<
    'a,
    Vec<&'a ConversationHistoryEntry>,
    Option<Vec<ConversationHistoryEntry>>,
>;

/// Token usage calculations of the conversation stored in-memory
#[derive(Debug, Clone, Copy)]
pub struct ConversationSize {
    pub context_messages: usize,
    pub user_messages: usize,
    pub assistant_messages: usize,
}

/// The files of an optional list.
pub open spec fn opt_files(f: Option<Vec<ContextFile>>) -> Option<Seq<ContextFile>> {
    match f {
        Some(v) => Some(v@),
        None => None,
    }
}

/// The entries of an optional list.
pub open spec fn opt_entries(c: Option<Vec<ConversationHistoryEntry>>) -> Option<Seq<ConversationHistoryEntry>> {
    match c {
        Some(v) => Some(v@),
        None => None,
    }
}

/// The entries of the context messages, if any.
pub open spec fn context_entries(c: Option<Vec<ConversationHistoryEntry>>) -> Seq<ConversationHistoryEntry> {
    match c {
        Some(v) => v@,
        None => Seq::empty(),
    }
}

impl<'a> BackendConversationStateImpl<'a, Vec<&'a ConversationHistoryEntry>, Option<Vec<ConversationHistoryEntry>>> {
    /// The message to send: the conversation's id, the next user message in
    /// `<user-query>` tags, and as history the context messages then the
    /// exchanges; without a next message the conversation cannot be sent.
    pub fn into_conversation_state_message(self) -> (r: Result<ConversationStateMessage, ConversationStateError>)
        ensures
            self.next_user_message is None <==> r is Err,
            r matches Ok(m) ==> {
                &&& m@.0 matches Some(id) && id@ == self.conversation_id@
                &&& m@.1 matches Some(u) && u.content@ == formatted_prompt(prompt_of(*self.next_user_message->0))
                    && carries_env(u, self.next_user_message->0.env_context@)
                &&& m@.2 matches Some(h) && is_flattened(
                    h@,
                    context_entries(self.context_messages) + derefs(self.history@),
                )
            },
    {
        let mut entries: Vec<&ConversationHistoryEntry> = Vec::new();
        let empty: Vec<ConversationHistoryEntry> = Vec::new();
        let context = match &self.context_messages {
            Some(v) => v,
            None => &empty,
        };
        let ghost ce = context_entries(self.context_messages);
        let mut i: usize = 0;
        while i < context.len()
            invariant
                context@ == ce,
                i <= ce.len(),
                derefs(entries@) == ce.subrange(0, i as int),
            decreases ce.len() - i,
        {
            let ghost before = entries@;
            entries.push(&context[i]);
            assert(derefs(entries@) =~= derefs(before).push(ce[i as int]));
            assert(ce.subrange(0, i + 1) =~= ce.subrange(0, i as int).push(ce[i as int]));
            i = i + 1;
        }
        let mut j: usize = 0;
        while j < self.history.len()
            invariant
                context@ == ce,
                j <= self.history@.len(),
                derefs(entries@) == ce + derefs(self.history@.subrange(0, j as int)),
            decreases self.history@.len() - j,
        {
            let ghost before = entries@;
            entries.push(self.history[j]);
            assert(derefs(entries@) =~= derefs(before).push(*self.history@[j as int]));
            assert(derefs(self.history@.subrange(0, j + 1)) =~= derefs(self.history@.subrange(0, j as int)).push(
                *self.history@[j as int],
            ));
            j = j + 1;
        }
        assert(self.history@.subrange(0, self.history@.len() as int) == self.history@);
        assert(ce.subrange(0, ce.len() as int) == ce);
        let history = flatten_history(entries);
        let user_input_message = match self.next_user_message {
            Some(m) => m.duplicate().into_user_input_message(),
            None => return Err(ConversationStateError::InvalidNextMessage),
        };
        Ok(ConversationStateMessage::new(string_of(self.conversation_id), Some(user_input_message), history))
    }

    /// How many characters the conversation holds: of the context messages, of
    /// the user's messages and of the model's messages.
    pub fn calculate_conversation_size(&self) -> (r: ConversationSize)
        requires
            user_chars(derefs(self.history@)) <= usize::MAX,
            llm_chars(derefs(self.history@)) <= usize::MAX,
            user_chars(context_entries(self.context_messages)) + llm_chars(
                context_entries(self.context_messages),
            ) <= usize::MAX,
        ensures
            r.user_messages == user_chars(derefs(self.history@)),
            r.assistant_messages == llm_chars(derefs(self.history@)),
            r.context_messages == user_chars(context_entries(self.context_messages)) + llm_chars(
                context_entries(self.context_messages),
            ),
    {
        let mut user: usize = 0;
        let mut llm: usize = 0;
        let ghost h = derefs(self.history@);
        let mut i: usize = 0;
        while i < self.history.len()
            invariant
                h == derefs(self.history@),
                i <= h.len(),
                user_chars(h) <= usize::MAX,
                llm_chars(h) <= usize::MAX,
                user == user_chars(h.subrange(0, i as int)),
                llm == llm_chars(h.subrange(0, i as int)),
            decreases h.len() - i,
        {
            let entry = self.history[i];
            proof {
                let s = h.subrange(0, i + 1);
                assert(s.drop_last() == h.subrange(0, i as int));
                assert(s.last() == *entry);
                lemma_chars_prefix(h, i + 1);
            }
            user = user + entry.user_message.get_char_count();
            llm = llm + entry.llm_message.get_char_count();
            i = i + 1;
        }
        assert(h.subrange(0, h.len() as int) == h);
        let mut context: usize = 0;
        match &self.context_messages {
            Some(v) => {
                let ghost c = v@;
                let mut k: usize = 0;
                while k < v.len()
                    invariant
                        c == v@,
                        k <= c.len(),
                        user_chars(c) + llm_chars(c) <= usize::MAX,
                        context == user_chars(c.subrange(0, k as int)) + llm_chars(c.subrange(0, k as int)),
                    decreases c.len() - k,
                {
                    proof {
                        let s = c.subrange(0, k + 1);
                        assert(s.drop_last() == c.subrange(0, k as int));
                        assert(s.last() == c[k as int]);
                        lemma_chars_prefix(c, k + 1);
                    }
                    context = context + v[k].user_message.get_char_count() + v[k].llm_message.get_char_count();
                    k = k + 1;
                }
                assert(c.subrange(0, c.len() as int) == c);
            },
            None => {},
        }
        ConversationSize { context_messages: context, user_messages: user, assistant_messages: llm }
    }
}

/// The characters of a prefix of the exchanges are no more than of all of them.
proof fn lemma_chars_prefix(h: Seq<ConversationHistoryEntry>, n: int)
    requires
        0 <= n <= h.len(),
    ensures
        user_chars(h.subrange(0, n)) <= user_chars(h),
        llm_chars(h.subrange(0, n)) <= llm_chars(h),
    decreases h.len() - n,
{
    if n < h.len() {
        lemma_chars_prefix(h, n + 1);
        assert(h.subrange(0, n + 1).drop_last() == h.subrange(0, n));
    } else {
        assert(h.subrange(0, n) == h);
    }
}

impl ConversationState {
    /// A new, empty conversation with the id `conversation_id`.
    pub fn new(conversation_id: &str, context_manager: Option<ContextManager>) -> (r: Self)
        ensures
            r@ == (ConversationView {
                conversation_id: conversation_id@,
                next_message: None,
                history: Seq::empty(),
                valid_history_range: (0, 0),
                context_message_length: None,
                latest_summary: None,
                transcript: Seq::empty(),
                context_manager,
            }),
    {
        ConversationState {
            conversation_id: string_of(conversation_id),
            next_message: None,
            history: VecDeque::new(),
            transcript: VecDeque::new(),
            valid_history_range: (0, 0),
            context_manager,
            context_message_length: None,
            latest_summary: None,
        }
    }

    /// The conversation's id.
    pub fn conversation_id(&self) -> (r: &str)
        ensures
            r@ == self@.conversation_id,
    {
        self.conversation_id.as_str()
    }

    /// The summary of earlier exchanges, if there is one.
    pub fn latest_summary(&self) -> (r: Option<&str>)
        ensures
            match r {
                Some(s) => self@.latest_summary == Some(s@),
                None => self@.latest_summary is None,
            },
    {
        match &self.latest_summary {
            Some(s) => Some(s.as_str()),
            None => None,
        }
    }

    /// The exchanges so far, oldest first.
    pub fn history(&self) -> (r: &VecDeque<ConversationHistoryEntry>)
        ensures
            r@ == self@.history,
    {
        &self.history
    }

    /// The message the user is about to send, if any.
    pub fn next_user_message(&self) -> (r: Option<&UserMessage>)
        ensures
            match r {
                Some(m) => self@.next_message == Some(*m),
                None => self@.next_message is None,
            },
    {
        self.next_message.as_ref()
    }

    /// Forgets the message the user was about to send.
    pub fn reset_next_user_message(&mut self)
        ensures
            final(self)@ == (ConversationView { next_message: None, ..old(self)@ }),
    {
        self.next_message = None;
    }

    /// Makes `input`, written in `env_context`, the message the user is about to
    /// send; empty input becomes `<empty>`.
    pub fn set_next_user_message(&mut self, input: String, env_context: UserEnvContext)
        ensures
            final(self)@.next_message is Some,
            final(self)@ == (ConversationView { next_message: final(self)@.next_message, ..old(self)@ }),
            is_user_message(
                final(self)@.next_message->0,
                if input@.len() == 0 { EMPTY_INPUT@ } else { input@ },
                env_context@,
            ),
    {
        let input = if input.as_str().is_empty() {
            string_of(EMPTY_INPUT)
        } else {
            input
        };
        let user_message = UserMessage::new_prompt(input, env_context);
        self.next_message = Some(user_message);
    }

    /// The id of the model's last answer, if it has one.
    pub fn message_id(&self) -> (r: Option<&str>)
        ensures
            self@.history.len() == 0 ==> r is None,
            self@.history.len() > 0 ==> match llm_id(self@.history.last().llm_message) {
                Some(id) => r is Some && r->0@ == id,
                None => r is None,
            },
    {
        let n = self.history.len();
        if n == 0 {
            None
        } else {
            self.history[n - 1].llm_message.message_id()
        }
    }

    /// Forgets the exchanges and the next message, and the summary unless
    /// `preserve_summary`.
    pub fn clear(&mut self, preserve_summary: bool)
        ensures
            final(self)@ == (ConversationView {
                next_message: None,
                history: Seq::empty(),
                latest_summary: if preserve_summary {
                    old(self)@.latest_summary
                } else {
                    None
                },
                ..old(self)@
            }),
    {
        self.next_message = None;
        self.history.clear();
        if !preserve_summary {
            self.latest_summary = None;
        }
    }

    /// The length in bytes of the context message last built, if any.
    pub fn context_message_length(&self) -> (r: Option<usize>)
        ensures
            r == self@.context_message_length,
    {
        self.context_message_length
    }

    /// Records the model's answer to the message the user was about to send:
    /// the exchange joins the history and the answer the transcript.
    pub fn push_llm_message(&mut self, message: LlmMessage)
        requires
            old(self)@.next_message is Some,
        ensures
            final(self)@ == (ConversationView {
                next_message: None,
                history: old(self)@.history.push(
                    ConversationHistoryEntry {
                        user_message: old(self)@.next_message->0,
                        llm_message: message,
                    },
                ),
                transcript: final(self)@.transcript,
                ..old(self)@
            }),
            transcript_view(final(self)@.transcript) == transcript_view(old(self)@.transcript).push(
                llm_content(message),
            ),
    {
        let next_user_message = match self.next_message.take() {
            Some(m) => m,
            None => {
                proof {
                    assert(false);
                }
                return;
            },
        };
        self.append_llm_transcript(&message);
        self.history.push_back(ConversationHistoryEntry::new(next_user_message, message));
    }

    /// Adds the user's message to the transcript.
    pub fn append_user_transcript(&mut self, message: &UserMessage)
        ensures
            final(self)@ == (ConversationView { transcript: final(self)@.transcript, ..old(self)@ }),
            transcript_view(final(self)@.transcript) == transcript_view(old(self)@.transcript).push(
                user_transcript_line(prompt_of(*message)),
            ),
    {
        let content = match message.content() {
            UserMessageContent::Prompt { prompt } => prompt.as_str(),
        };
        let mut line = string_of("> ");
        let n = content.unicode_len();
        let ghost start = line@;
        proof {
            reveal_strlit("> ");
        }
        let mut i: usize = 0;
        while i < n
            invariant
                n == content@.len(),
                content@ == prompt_of(*message),
                i <= n,
                start == "> "@,
                line@ == start + Seq::new(
                    i as nat,
                    |k: int| if content@[k] == '\n' { '>' } else { content@[k] },
                ),
            decreases n - i,
        {
            let c = content.get_char(i);
            push_char(&mut line, if c == '\n' { '>' } else { c });
            i = i + 1;
        }
        self.append_transcript(line);
    }

    /// Adds the model's message to the transcript.
    pub fn append_llm_transcript(&mut self, message: &LlmMessage)
        ensures
            final(self)@ == (ConversationView { transcript: final(self)@.transcript, ..old(self)@ }),
            transcript_view(final(self)@.transcript) == transcript_view(old(self)@.transcript).push(
                llm_content(*message),
            ),
    {
        self.append_transcript(string_of(message.content()))
    }

    /// Adds a line to the transcript.
    pub fn append_transcript(&mut self, message: String)
        ensures
            final(self)@ == (ConversationView { transcript: old(self)@.transcript.push(message), ..old(self)@ }),
    {
        self.transcript.push_back(message);
    }

    /// Replays `prompts` into the conversation: the last prompt is handed back,
    /// and the others, oldest first, form exchanges (see [`replayed_pairs`])
    /// that join the history, each user message written in `env_state`; the
    /// model's side of each exchange joins the transcript.
    pub fn append_prompts(&mut self, prompts: VecDeque<Prompt>, env_state: &EnvState) -> (r: Option<
        String,
    >)
        ensures
            prompts@.len() == 0 ==> r is None && final(self)@ == old(self)@,
            prompts@.len() > 0 ==> {
                let pairs = replayed_pairs(prompts@.drop_last(), None, None);
                let added = final(self)@.history.skip(old(self)@.history.len() as int);
                &&& r is Some
                &&& r->0@ == prompts@.last().content@
                &&& final(self)@ == (ConversationView {
                    history: final(self)@.history,
                    transcript: final(self)@.transcript,
                    ..old(self)@
                })
                &&& final(self)@.history.len() == old(self)@.history.len() + pairs.len()
                &&& final(self)@.history.take(old(self)@.history.len() as int) == old(self)@.history
                &&& forall|k: int|
                    0 <= k < pairs.len() ==> is_replayed_entry(
                        #[trigger] added[k],
                        pairs[k],
                        Some(env_state@),
                    )
                &&& transcript_view(final(self)@.transcript) == transcript_view(old(self)@.transcript)
                    + pairs.map_values(|p: (Seq<char>, Seq<char>)| p.1)
            },
    {
        let mut prompts = prompts;
        let last_msg = match prompts.pop_back() {
            Some(p) => p,
            None => return None,
        };
        let ghost rest = prompts@;
        let ghost old_history = self@.history;
        let ghost old_transcript = transcript_view(self@.transcript);
        let mut candidate_user: Option<UserMessage> = None;
        let mut candidate_llm: Option<LlmMessage> = None;
        let ghost env = Some(env_state@);
        proof {
            assert(self@.history.skip(old_history.len() as int) =~= Seq::<ConversationHistoryEntry>::empty());
            assert(old_transcript + Seq::<(Seq<char>, Seq<char>)>::empty().map_values(
                |p: (Seq<char>, Seq<char>)| p.1,
            ) =~= old_transcript);
        }
        let ghost mut done: Seq<(Seq<char>, Seq<char>)> = Seq::empty();
        while prompts.len() > 0
            invariant
                env == Some(env_state@),
                self@ == (ConversationView {
                    history: self@.history,
                    transcript: self@.transcript,
                    ..old(self)@
                }),
                old_history == old(self)@.history,
                old_transcript == transcript_view(old(self)@.transcript),
                replayed_pairs(rest, None, None) == done + replayed_pairs(
                    prompts@,
                    match candidate_user {
                        Some(u) => Some(prompt_of(u)),
                        None => None,
                    },
                    match candidate_llm {
                        Some(l) => Some(llm_content(l)),
                        None => None,
                    },
                ),
                candidate_user matches Some(u) ==> is_user_message(u, prompt_of(u), env),
                candidate_llm matches Some(l) ==> llm_id(l) is None,
                self@.history.len() == old_history.len() + done.len(),
                self@.history.take(old_history.len() as int) == old_history,
                forall|k: int|
                    0 <= k < done.len() ==> is_replayed_entry(
                        #[trigger] self@.history.skip(old_history.len() as int)[k],
                        done[k],
                        env,
                    ),
                transcript_view(self@.transcript) == old_transcript + done.map_values(
                    |p: (Seq<char>, Seq<char>)| p.1,
                ),
            decreases prompts@.len(),
        {
            let ghost before = prompts@;
            let prompt = prompts.pop_front().unwrap();
            proof {
                assert(before.skip(1) == prompts@);
            }
            let Prompt { role, content } = prompt;
            match role {
                Role::User => {
                    let user_msg = UserMessage::new_prompt(
                        content,
                        UserEnvContext::generate_new(env_state.duplicate()),
                    );
                    candidate_user = Some(user_msg);
                },
                Role::LlmAssistant => {
                    let llm_msg = LlmMessage::new_response(None, content);
                    candidate_llm = Some(llm_msg);
                },
            }
            if candidate_user.is_some() && candidate_llm.is_some() {
                let llm = candidate_llm.take().unwrap();
                let user = candidate_user.take().unwrap();
                let ghost pair = (prompt_of(user), llm_content(llm));
                let ghost h0 = self@.history;
                let ghost t0 = transcript_view(self@.transcript);
                self.append_llm_transcript(&llm);
                self.history.push_back(ConversationHistoryEntry::new(user, llm));
                proof {
                    let ghost d0 = done;
                    done = done.push(pair);
                    assert(self@.history == h0.push(self@.history.last()));
                    assert(self@.history.take(old_history.len() as int) == old_history) by {
                        assert(h0.take(old_history.len() as int) == old_history);
                        assert forall|k: int| 0 <= k < old_history.len() implies #[trigger] self@.history[k] == h0[k] by {}
                    }
                    assert forall|k: int| 0 <= k < done.len() implies is_replayed_entry(
                        #[trigger] self@.history.skip(old_history.len() as int)[k],
                        done[k],
                        env,
                    ) by {
                        if k < d0.len() {
                            assert(self@.history.skip(old_history.len() as int)[k] == h0.skip(old_history.len() as int)[k]);
                        }
                    }
                    assert(done.map_values(|p: (Seq<char>, Seq<char>)| p.1) == d0.map_values(
                        |p: (Seq<char>, Seq<char>)| p.1,
                    ).push(pair.1));
                    assert(d0 + (seq![pair] + replayed_pairs(prompts@, None, None)) == done + replayed_pairs(prompts@, None, None));
                }
            }
        }
        proof {
            assert(replayed_pairs(prompts@, match candidate_user {
                Some(u) => Some(prompt_of(u)),
                None => None,
            }, match candidate_llm {
                Some(l) => Some(llm_content(l)),
                None => None,
            }) == Seq::<(Seq<char>, Seq<char>)>::empty());
            assert(done + Seq::<(Seq<char>, Seq<char>)>::empty() == done);
        }
        Some(last_msg.content)
    }

    /// Builds the context message that opens what is sent to the model: the
    /// summary of earlier exchanges, the context files that fit the budget
    /// (`context_files` are the files read for the context manager's paths,
    /// none when they could not be read), and `conversation_start_context`. When
    /// there is anything to say, it comes as one exchange, the user message
    /// written in `env_context`, and its length is recorded. Also hands back the
    /// context files left out.
    pub fn build_context_messages(
        &mut self,
        context_files: Option<Vec<ContextFile>>,
        conversation_start_context: Option<String>,
        env_context: UserEnvContext,
    ) -> (r: (Option<Vec<ConversationHistoryEntry>>, Vec<ContextFile>))
        ensures
            is_context_build(
                old(self)@,
                final(self)@,
                opt_files(context_files),
                opt_view(conversation_start_context),
                env_context@,
                (opt_entries(r.0), r.1@),
            ),
    {
        let ghost files_view = opt_files(context_files);
        let ghost selection = context_selection(self@.context_manager, files_view);
        let mut context_content = String::new();
        let mut dropped_context_files: Vec<ContextFile> = Vec::new();
        match &self.latest_summary {
            Some(summary) => {
                push_str(&mut context_content, "<summary>\n");
                push_str(&mut context_content, CONTEXT_PROMPT);
                push_str(&mut context_content, summary.as_str());
                push_str(&mut context_content, "\n");
                push_str(&mut context_content, "</summary>\n");
            },
            None => {},
        }
        assert(context_content@ =~= summary_text(self@.latest_summary));
        let ghost after_summary = context_content@;
        match (&self.context_manager, context_files) {
            (Some(context_manager), Some(files)) => {
                let (files_to_use, files_to_drop) = context_manager.collect_context_files_with_limit(files);
                dropped_context_files = files_to_drop;
                if files_to_use.len() > 0 {
                    push_str(&mut context_content, "<context>\n");
                    let ghost opening = context_content@;
                    let mut i: usize = 0;
                    assert(files_text(files_to_use@.subrange(0, 0)) =~= Seq::<char>::empty());
                    while i < files_to_use.len()
                        invariant
                            i <= files_to_use@.len(),
                            context_content@ == opening + files_text(files_to_use@.subrange(0, i as int)),
                        decreases files_to_use@.len() - i,
                    {
                        let f = &files_to_use[i];
                        push_str(&mut context_content, "[");
                        push_str(&mut context_content, f.filename.as_str());
                        push_str(&mut context_content, "]\n");
                        push_str(&mut context_content, f.content.as_str());
                        push_str(&mut context_content, "\n");
                        proof {
                            let s = files_to_use@.subrange(0, i + 1);
                            assert(s.drop_last() == files_to_use@.subrange(0, i as int));
                            assert(s.last() == files_to_use@[i as int]);
                            assert(context_content@ =~= opening + files_text(s));
                        }
                        i = i + 1;
                    }
                    push_str(&mut context_content, "</context>\n");
                    assert(files_to_use@.subrange(0, files_to_use@.len() as int) == files_to_use@);
                    assert(context_content@ =~= after_summary + context_files_text(selection.0));
                } else {
                    assert(context_content@ =~= after_summary + context_files_text(selection.0));
                }
            },
            _ => {
                assert(context_content@ =~= after_summary + context_files_text(selection.0));
            },
        }
        match conversation_start_context {
            Some(context) => {
                push_str(&mut context_content, context.as_str());
            },
            None => {},
        }
        assert(context_content@ =~= context_text(
            old(self)@.latest_summary,
            selection.0,
            opt_view(conversation_start_context),
        ));
        if !context_content.as_str().is_empty() {
            self.context_message_length = Some(context_content.as_str().len());
            let user_message = UserMessage::new_prompt(context_content, env_context);
            let llm_message = LlmMessage::new_response(None, string_of(LLM_RESPONSE_PROMPT));
            let mut entries: Vec<ConversationHistoryEntry> = Vec::new();
            entries.push(ConversationHistoryEntry { user_message, llm_message });
            (Some(entries), dropped_context_files)
        } else {
            (None, dropped_context_files)
        }
    }

    /// Whether the valid range of the history is a range of it: its start is
    /// not after its end, and its end is within the history.
    pub fn history_range_is_valid(&self) -> (r: bool)
        ensures
            r == (self@.valid_history_range.0 <= self@.valid_history_range.1 <= self@.history.len()),
    {
        self.valid_history_range.0 <= self.valid_history_range.1 && self.valid_history_range.1
            <= self.history.len()
    }

    /// Whether the history can be cut down to its valid range and sent: the
    /// range starts at the first exchange and ends within the history.
    pub fn history_range_is_sendable(&self) -> (r: bool)
        ensures
            r == (self@.valid_history_range.0 == 0 && self@.valid_history_range.1 <= self@.history.len()),
    {
        self.valid_history_range.0 == 0 && self.valid_history_range.1 <= self.history.len()
    }

    /// The conversation as sent to the model (see [`Self::build_context_messages`]
    /// for `context_files` and `env_context`): the exchanges in the valid range
    /// of the history, and the context message.
    pub fn backend_conversation_state(
        &mut self,
        context_files: Option<Vec<ContextFile>>,
        env_context: UserEnvContext,
    ) -> (r: BackendConversationState<'_>)
        requires
            old(self)@.valid_history_range.0 <= old(self)@.valid_history_range.1 <= old(self)@.history.len(),
        ensures
            is_context_build(
                old(self)@,
                final(self)@,
                opt_files(context_files),
                None,
                env_context@,
                (opt_entries(r.context_messages), r.dropped_context_files@),
            ),
            r.conversation_id@ == old(self)@.conversation_id,
            match r.next_user_message {
                Some(m) => old(self)@.next_message == Some(*m),
                None => old(self)@.next_message is None,
            },
            derefs(r.history@) == old(self)@.history.subrange(
                old(self)@.valid_history_range.0 as int,
                old(self)@.valid_history_range.1 as int,
            ),
    {
        let (context_messages, dropped_context_files) = self.build_context_messages(
            context_files,
            None,
            env_context,
        );
        let (start, end) = self.valid_history_range;
        let mut history: Vec<&ConversationHistoryEntry> = Vec::new();
        let mut k = start;
        while k < end
            invariant
                start <= k <= end <= self@.history.len(),
                derefs(history@) == self@.history.subrange(start as int, k as int),
            decreases end - k,
        {
            let ghost before = history@;
            history.push(&self.history[k]);
            assert(derefs(history@) =~= derefs(before).push(self@.history[k as int]));
            assert(self@.history.subrange(start as int, k + 1) =~= self@.history.subrange(
                start as int,
                k as int,
            ).push(self@.history[k as int]));
            k = k + 1;
        }
        BackendConversationStateImpl {
            conversation_id: self.conversation_id.as_str(),
            next_user_message: self.next_message.as_ref(),
            history,
            context_messages,
            dropped_context_files,
        }
    }

    /// Keeps only the exchanges in the valid range of the history and makes the
    /// message to send (see [`Self::backend_conversation_state`]).
    pub fn as_sendable_conversation_state(
        &mut self,
        context_files: Option<Vec<ContextFile>>,
        env_context: UserEnvContext,
    ) -> (r: ConversationStateMessage)
        requires
            old(self)@.next_message is Some,
            old(self)@.valid_history_range.0 == 0,
            old(self)@.valid_history_range.1 <= old(self)@.history.len(),
        ensures
            ({
                let kept = old(self)@.history.subrange(0, old(self)@.valid_history_range.1 as int);
                let before = ConversationView { history: kept, ..old(self)@ };
                exists|c: Option<Seq<ConversationHistoryEntry>>, d: Seq<ContextFile>|
                    {
                        &&& is_context_build(before, final(self)@, opt_files(context_files), None, env_context@, (c, d))
                        &&& r@.2 matches Some(h)
                        &&& is_flattened(
                            h@,
                            match c {
                                Some(v) => v,
                                None => Seq::empty(),
                            } + kept,
                        )
                    }
            }),
            final(self)@.history == old(self)@.history.subrange(0, old(self)@.valid_history_range.1 as int),
            final(self)@.next_message == old(self)@.next_message,
            r@.0 matches Some(id) && id@ == old(self)@.conversation_id,
            r@.1 matches Some(u) && u.content@ == formatted_prompt(prompt_of(old(self)@.next_message->0))
                && carries_env(u, old(self)@.next_message->0.env_context@),
    {
        let end = self.valid_history_range.1;
        self.history.truncate(end);
        let ghost kept = self@.history;
        let r = self.backend_conversation_state(context_files, env_context);
        let ghost c = opt_entries(r.context_messages);
        let ghost d = r.dropped_context_files@;
        proof {
            assert(derefs(r.history@) == kept.subrange(0, end as int));
            assert(kept.subrange(0, end as int) == kept);
            assert(context_entries(r.context_messages) == match c {
                Some(v) => v,
                None => Seq::<ConversationHistoryEntry>::empty(),
            });
        }
        match r.into_conversation_state_message() {
            Ok(m) => m,
            Err(_) => {
                proof {
                    assert(false);
                }
                ConversationStateMessage::new(String::new(), None, Vec::new())
            },
        }
    }
}

} // verus!
