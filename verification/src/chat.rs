//! The decisions of the chat loop: what each state and event lead to. The loop
//! itself (reading lines, printing, talking to the model) is the caller's.
use vstd::prelude::*;
use crate::command::{ChatCommand, ChatCommandV, ContextSubcommand, spec_parse_command};
use crate::text::{is_white_space, push_str, string_of, trim};

verus! {

pub const HELP_TEXT: &'static str = "Help text should be here...";

pub const CONTEXT_HELP_TEXT: &'static str = "Context help text should be here...";

pub const GOODBYE_TEXT: &'static str = "Thanks for chatting!";

/// Where the chat loop is.
#[derive(Debug)]
pub enum ChatState {
    PromptUser,
    UserInput { input: String },
    HandleLlmResponse,
    Exit,
}

impl Default for ChatState {
    fn default() -> (r: Self)
        ensures
            r is PromptUser,
    {
        ChatState::PromptUser
    }
}

/// What the caller does before going on to the next state.
#[derive(Debug)]
pub enum ChatAction {
    /// Nothing.
    Nothing,
    /// Print the text.
    Print { text: String },
    /// Print the text as an error (in red).
    PrintError { text: String },
    /// Send the conversation, the prompt being the next message, and show that
    /// the model is thinking.
    AskModel { prompt: String },
    /// Run the command in the system's shell.
    Execute { command: String },
    /// Log that clearing is not supported.
    WarnClearUnsupported,
}

/// How a step of the chat loop failed.
#[derive(Debug, Clone, Copy, PartialEq, Eq, Structural)]
pub enum ChatErrorKind {
    InitializationError,
    Interrupted,
    Readline,
    Other,
}

/// The text shown for a command that could not be parsed.
pub open spec fn error_text(message: Seq<char>) -> Seq<char> {
    "\nError: "@ + message + "\n\n"@
}

/// Decides what a line of user input leads to: an error to print and a new
/// prompt for input that is not a command; otherwise what the command asks
/// for.
pub fn handle_input(user_input: &str) -> (r: (ChatState, ChatAction))
    ensures
        match spec_parse_command(user_input@) {
            Err(m) => {
                &&& r.0 is PromptUser
                &&& r.1 matches ChatAction::PrintError { text }
                &&& text@ == error_text(m)
            },
            Ok(ChatCommandV::Ask { prompt }) => {
                &&& r.0 is HandleLlmResponse
                &&& r.1 matches ChatAction::AskModel { prompt: p }
                &&& p@ == prompt
            },
            Ok(ChatCommandV::Execute { command }) => {
                &&& r.0 is PromptUser
                &&& r.1 matches ChatAction::Execute { command: c }
                &&& c@ == command
            },
            Ok(ChatCommandV::Help) => {
                &&& r.0 is PromptUser
                &&& r.1 matches ChatAction::Print { text }
                &&& text@ == HELP_TEXT@
            },
            Ok(ChatCommandV::Clear) => r.0 is PromptUser && r.1 is WarnClearUnsupported,
            Ok(ChatCommandV::Exit) => {
                &&& r.0 is Exit
                &&& r.1 matches ChatAction::Print { text }
                &&& text@ == GOODBYE_TEXT@
            },
            Ok(ChatCommandV::Usage) => r.0 is PromptUser && r.1 is Nothing,
            Ok(ChatCommandV::Context { subcommand }) => {
                &&& r.0 is PromptUser
                &&& match subcommand {
                    ContextSubcommand::Show => r.1 is Nothing,
                    ContextSubcommand::Help => {
                        &&& r.1 matches ChatAction::Print { text }
                        &&& text@ == CONTEXT_HELP_TEXT@
                    },
                }
            },
        },
{
    let mut sink: Vec<u8> = Vec::new();
    let command_result = ChatCommand::parse(user_input, &mut sink);
    let command = match command_result {
        Err(error_msg) => {
            let mut text = string_of("\nError: ");
            push_str(&mut text, error_msg.as_str());
            push_str(&mut text, "\n\n");
            return (ChatState::PromptUser, ChatAction::PrintError { text });
        },
        Ok(c) => c,
    };
    match command {
        ChatCommand::Ask { prompt } => (ChatState::HandleLlmResponse, ChatAction::AskModel { prompt }),
        ChatCommand::Execute { command } => (ChatState::PromptUser, ChatAction::Execute { command }),
        ChatCommand::Help => (ChatState::PromptUser, ChatAction::Print { text: string_of(HELP_TEXT) }),
        ChatCommand::Clear => (ChatState::PromptUser, ChatAction::WarnClearUnsupported),
        ChatCommand::Exit => (ChatState::Exit, ChatAction::Print { text: string_of(GOODBYE_TEXT) }),
        ChatCommand::Usage => (ChatState::PromptUser, ChatAction::Nothing),
        ChatCommand::Context { subcommand } => match subcommand {
            ContextSubcommand::Show => (ChatState::PromptUser, ChatAction::Nothing),
            ContextSubcommand::Help => (
                ChatState::PromptUser,
                ChatAction::Print { text: string_of(CONTEXT_HELP_TEXT) },
            ),
        },
    }
}

/// Decides how the loop goes on after a step: a step that succeeded gives its
/// state; an interrupted step prints blank lines and prompts again; any other
/// failure ends the loop with that failure.
pub fn handle_state_execution_result(result: Result<ChatState, ChatErrorKind>) -> (r: Result<
    (ChatState, ChatAction),
    ChatErrorKind,
>)
    ensures
        match result {
            Ok(s) => {
                &&& r matches Ok((s2, a))
                &&& s2 == s
                &&& a is Nothing
            },
            Err(ChatErrorKind::Interrupted) => {
                &&& r matches Ok((s2, ChatAction::Print { text }))
                &&& s2 is PromptUser
                &&& text@ == "\n\n"@
            },
            Err(e) => r == Err::<(ChatState, ChatAction), ChatErrorKind>(e),
        },
{
    match result {
        Ok(state) => Ok((state, ChatAction::Nothing)),
        Err(ChatErrorKind::Interrupted) => Ok((ChatState::PromptUser, ChatAction::Print { text: string_of("\n\n") })),
        Err(e) => Err(e),
    }
}

/// What reading a line gave.
#[derive(Debug)]
pub enum ReadEvent {
    /// A line.
    Line(String),
    /// Ctrl+C or Ctrl+D.
    Interrupted,
    /// Reading failed.
    Failed,
}

/// What to do after reading a line.
#[derive(Debug)]
pub enum ReadStep {
    /// Stop reading, with the line read (none: leave the chat).
    Done(Option<String>),
    /// Read again, remembering whether the user interrupted once already, and
    /// after printing how to leave the chat if `print_exit_hint`.
    ReadAgain { ctrl_c: bool, print_exit_hint: bool },
}

/// Whether `s` is all white space.
pub open spec fn is_blank(s: Seq<char>) -> bool {
    forall|i: int| 0 <= i < s.len() ==> is_white_space(#[trigger] s[i])
}

/// Decides what reading a line for the prompt leads to: blank lines are read
/// again; the first interruption only warns unless `exit_on_single_ctrl_c`,
/// the second leaves; a failure leaves.
pub fn read_user_input_step(ctrl_c: bool, exit_on_single_ctrl_c: bool, event: ReadEvent) -> (r: ReadStep)
    ensures
        match event {
            ReadEvent::Line(line) => if is_blank(line@) {
                &&& r matches ReadStep::ReadAgain { ctrl_c: c, print_exit_hint: h }
                &&& c == ctrl_c
                &&& !h
            } else {
                &&& r matches ReadStep::Done(Some(l))
                &&& l@ == line@
            },
            ReadEvent::Interrupted => if ctrl_c || exit_on_single_ctrl_c {
                r matches ReadStep::Done(None)
            } else {
                &&& r matches ReadStep::ReadAgain { ctrl_c: c, print_exit_hint: h }
                &&& c
                &&& h
            },
            ReadEvent::Failed => r matches ReadStep::Done(None),
        },
{
    match event {
        ReadEvent::Line(line) => {
            let trimmed = trim(line.as_str());
            if trimmed.as_str().is_empty() {
                proof {
                    crate::text::lemma_trim_empty_blank(line@);
                }
                ReadStep::ReadAgain { ctrl_c, print_exit_hint: false }
            } else {
                proof {
                    crate::text::lemma_trim_empty_blank(line@);
                }
                ReadStep::Done(Some(line))
            }
        },
        ReadEvent::Interrupted => {
            if ctrl_c || exit_on_single_ctrl_c {
                ReadStep::Done(None)
            } else {
                ReadStep::ReadAgain { ctrl_c: true, print_exit_hint: true }
            }
        },
        ReadEvent::Failed => ReadStep::Done(None),
    }
}

} // verus!
