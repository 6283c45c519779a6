use std::collections::VecDeque;

use kblnk::context::{
    drop_matched_context_files, sort_by_file_name, sort_by_token_count, str_less, ContextConfig,
    ContextFile, ContextManager, CONTEXT_FILES_MAX_SIZE,
};
use kblnk::conversation::{
    flatten_history, BackendConversationStateImpl, ConversationHistoryEntry, ConversationState, ConversationStateError,
    CONTEXT_PROMPT, LLM_RESPONSE_PROMPT,
};
use kblnk::message::{LlmMessage, UserEnvContext, UserMessage};
use kblnk::model::{ChatMessage, EnvState, EnvVar};
use kblnk::prompt::{Prompt, Role};

fn env() -> EnvState {
    EnvState {
        os: Some("linux".to_string()),
        cwd: Some("/home/user".to_string()),
        env_variables: vec![EnvVar { key: "K".to_string(), value: "V".to_string() }],
    }
}

fn ctx() -> UserEnvContext {
    UserEnvContext::generate_new(env())
}

fn file(name: &str, len: usize) -> ContextFile {
    ContextFile { filename: name.to_string(), content: "x".repeat(len) }
}

fn names(files: &[ContextFile]) -> Vec<&str> {
    files.iter().map(|f| f.filename.as_str()).collect()
}

#[test]
fn next_message_then_answer_records_one_exchange() {
    let mut state = ConversationState::new("conv", None);
    assert_eq!(state.conversation_id(), "conv");
    assert!(state.next_user_message().is_none());
    assert!(state.message_id().is_none());

    state.set_next_user_message("hello".to_string(), ctx());
    assert_eq!(state.next_user_message().and_then(|m| m.prompt()), Some("hello"));

    state.push_llm_message(LlmMessage::new_response(Some("id1".to_string()), "hi there".to_string()));
    assert!(state.next_user_message().is_none());
    assert_eq!(state.history().len(), 1);
    assert_eq!(state.history()[0].user_message.prompt(), Some("hello"));
    assert_eq!(state.history()[0].llm_message.content(), "hi there");
    assert_eq!(state.message_id(), Some("id1"));
    assert_eq!(state.transcript.len(), 1);
    assert_eq!(state.transcript[0], "hi there");
}

#[test]
fn empty_input_becomes_placeholder() {
    let mut state = ConversationState::new("conv", None);
    state.set_next_user_message(String::new(), ctx());
    assert_eq!(state.next_user_message().and_then(|m| m.prompt()), Some("<empty>"));
    state.reset_next_user_message();
    assert!(state.next_user_message().is_none());
}

#[test]
fn clear_forgets_history() {
    let mut state = ConversationState::new("conv", None);
    state.set_next_user_message("a".to_string(), ctx());
    state.push_llm_message(LlmMessage::new_response(None, "b".to_string()));
    state.clear(true);
    assert!(state.history().is_empty());
    assert!(state.latest_summary().is_none());
    assert!(state.context_message_length().is_none());
}

#[test]
fn append_prompts_pairs_user_and_model_messages() {
    let mut state = ConversationState::new("conv", None);
    let prompts: VecDeque<Prompt> = vec![
        Prompt { role: Role::User, content: "u1".to_string() },
        Prompt { role: Role::LlmAssistant, content: "a1".to_string() },
        Prompt { role: Role::User, content: "u2".to_string() },
        Prompt { role: Role::User, content: "u3".to_string() },
        Prompt { role: Role::LlmAssistant, content: "a2".to_string() },
        Prompt { role: Role::LlmAssistant, content: "dangling".to_string() },
        Prompt { role: Role::User, content: "last".to_string() },
    ]
    .into();
    let last = state.append_prompts(prompts, &env());
    assert_eq!(last, Some("last".to_string()));
    assert_eq!(state.history().len(), 2);
    assert_eq!(state.history()[0].user_message.prompt(), Some("u1"));
    assert_eq!(state.history()[0].llm_message.content(), "a1");
    assert_eq!(state.history()[1].user_message.prompt(), Some("u3"));
    assert_eq!(state.history()[1].llm_message.content(), "a2");
    assert_eq!(state.transcript.iter().cloned().collect::<Vec<_>>(), vec!["a1".to_string(), "a2".to_string()]);

    assert_eq!(state.append_prompts(VecDeque::new(), &env()), None);
    assert_eq!(state.history().len(), 2);
}

#[test]
fn user_transcript_marks_line_breaks() {
    let mut state = ConversationState::new("conv", None);
    let m = UserMessage::new_prompt("one\ntwo".to_string(), ctx());
    state.append_user_transcript(&m);
    assert_eq!(state.transcript[0], "> one>two");
}

#[test]
fn context_message_holds_the_files_that_fit() {
    let config = ContextConfig { file_paths: vec!["a.md".to_string(), "b.md".to_string()] };
    let manager = ContextManager::new(Some(10), config);
    let mut state = ConversationState::new("conv", Some(manager));
    let files = vec![file("b.md", 15), file("a.md", 60)];
    let (messages, dropped) = state.build_context_messages(Some(files), None, ctx());
    assert_eq!(names(&dropped), vec!["a.md"]);
    let messages = messages.expect("there is a context message");
    assert_eq!(messages.len(), 1);
    let expected = format!("<context>\n[b.md]\n{}\n</context>\n", "x".repeat(15));
    assert_eq!(messages[0].user_message.prompt(), Some(expected.as_str()));
    assert_eq!(messages[0].llm_message.content(), LLM_RESPONSE_PROMPT);
    assert_eq!(state.context_message_length(), Some(expected.len()));
}

#[test]
fn no_context_gives_no_context_message() {
    let mut state = ConversationState::new("conv", None);
    let (messages, dropped) = state.build_context_messages(Some(vec![file("a", 3)]), None, ctx());
    assert!(messages.is_none());
    assert!(dropped.is_empty());
    assert!(state.context_message_length().is_none());

    let (messages, _) = state.build_context_messages(None, Some("start".to_string()), ctx());
    assert_eq!(messages.expect("context message")[0].user_message.prompt(), Some("start"));
}

#[test]
fn sendable_conversation_formats_the_next_message() {
    let mut state = ConversationState::new("conv", None);
    state.set_next_user_message("question".to_string(), ctx());
    let message = state.as_sendable_conversation_state(None, ctx());
    assert_eq!(message.conversation_id().map(|s| s.as_str()), Some("conv"));
    let user = message.user_input_message().expect("next message");
    assert_eq!(user.content, "<user-query>question</user-query>");
    assert!(message.history().expect("history").is_empty());
}

#[test]
fn backend_state_without_next_message_cannot_be_sent() {
    let mut state = ConversationState::new("conv", None);
    let backend = state.backend_conversation_state(None, ctx());
    assert!(matches!(
        backend.into_conversation_state_message(),
        Err(ConversationStateError::InvalidNextMessage)
    ));
    assert_eq!(ConversationStateError::InvalidNextMessage.message(), "next user message is not valid");
}

#[test]
fn conversation_size_counts_characters() {
    let mut state = ConversationState::new("conv", None);
    state.set_next_user_message("héllo".to_string(), ctx());
    state.push_llm_message(LlmMessage::new_response(None, "abc".to_string()));
    state.set_next_user_message("q".to_string(), ctx());
    let backend = state.backend_conversation_state(None, ctx());
    let size = backend.calculate_conversation_size();
    assert_eq!(size.user_messages, 0);
    assert_eq!(size.assistant_messages, 0);
    assert_eq!(size.context_messages, 0);

    let e = ConversationHistoryEntry::new(
        UserMessage::new_prompt("héllo".to_string(), ctx()),
        LlmMessage::new_response(None, "abc".to_string()),
    );
    let c = ConversationHistoryEntry::new(
        UserMessage::new_prompt("ctx".to_string(), ctx()),
        LlmMessage::new_response(None, "ok".to_string()),
    );
    let backend = BackendConversationStateImpl {
        conversation_id: "conv",
        next_user_message: None,
        history: vec![&e, &e],
        context_messages: Some(vec![c]),
        dropped_context_files: Vec::new(),
    };
    let size = backend.calculate_conversation_size();
    assert_eq!(size.user_messages, 10);
    assert_eq!(size.assistant_messages, 6);
    assert_eq!(size.context_messages, 5);
}

#[test]
fn flatten_history_alternates_user_and_model() {
    let e1 = ConversationHistoryEntry::new(
        UserMessage::new_prompt("u".to_string(), ctx()),
        LlmMessage::new_response(None, "a".to_string()),
    );
    let flat = flatten_history(vec![&e1]);
    assert_eq!(flat.len(), 2);
    assert!(matches!(&flat[0], ChatMessage::UserInputMessage(u) if u.content == "u"));
    assert!(matches!(&flat[1], ChatMessage::LlmResponseMessage(l) if l.content == "a"));
}

#[test]
fn summary_text_is_unused_without_summary() {
    assert!(CONTEXT_PROMPT.starts_with("This summary"));
}

#[test]
fn sort_by_tokens_is_stable() {
    let mut files = vec![file("a", 3), file("b", 30), file("c", 3), file("d", 30), file("e", 300)];
    sort_by_token_count(&mut files);
    assert_eq!(names(&files), vec!["e", "b", "d", "a", "c"]);
}

#[test]
fn sort_by_name() {
    let mut files = vec![file("b", 1), file("a", 2), file("ab", 3), file("a", 4)];
    sort_by_file_name(&mut files);
    assert_eq!(names(&files), vec!["a", "a", "ab", "b"]);
    assert_eq!(files[0].content.len(), 2);
    assert!(str_less("a", "ab"));
    assert!(!str_less("b", "ab"));
    assert!(!str_less("a", "a"));
}

#[test]
fn drop_files_over_the_budget() {
    let mut files = vec![file("small", 30), file("big", 300), file("mid", 60)];
    let dropped = drop_matched_context_files(&mut files, 30);
    assert_eq!(names(&files), vec!["big", "mid", "small"]);
    assert_eq!(names(&dropped), vec!["big"]);
    let dropped = drop_matched_context_files(&mut files, 1000);
    assert!(dropped.is_empty());
}

#[test]
fn collect_drops_every_file_of_a_dropped_name() {
    let manager = ContextManager::new(Some(15), ContextConfig { file_paths: vec![] });
    let (kept, dropped) =
        manager.collect_context_files_with_limit(vec![file("x", 60), file("y", 30), file("x", 3)]);
    assert_eq!(names(&dropped), vec!["x"]);
    assert_eq!(dropped[0].content.len(), 60);
    assert_eq!(names(&kept), vec!["y"]);
    let default = ContextManager::new(None, ContextConfig { file_paths: vec![] });
    let (kept, dropped) = default.collect_context_files_with_limit(vec![file("a", 3)]);
    assert_eq!(kept.len(), 1);
    assert!(dropped.is_empty());
    assert_eq!(CONTEXT_FILES_MAX_SIZE, 150 * 1024 * 1024);
}

#[test]
fn context_paths_are_added_and_removed() {
    let mut manager = ContextManager::new(None, ContextConfig { file_paths: vec!["a".to_string()] });
    manager.add_paths(vec!["a".to_string(), "b".to_string(), "b".to_string()], true, false);
    assert_eq!(manager.global_config.file_paths, vec!["a", "b", "b"]);
    manager.add_paths(vec!["c".to_string()], false, false);
    assert_eq!(manager.global_config.file_paths.len(), 3);
    manager.remove_paths(vec!["b".to_string(), "z".to_string()], true);
    assert_eq!(manager.global_config.file_paths, vec!["a"]);
    manager.remove_paths(vec!["a".to_string()], false);
    assert_eq!(manager.global_config.file_paths, vec!["a"]);
    manager.clear(false);
    assert_eq!(manager.global_config.file_paths.len(), 1);
    manager.clear(true);
    assert!(manager.global_config.file_paths.is_empty());
}

#[test]
fn append_prompts_keeps_the_latest_waiting_user_prompt() {
    let mut state = ConversationState::new("conv", None);
    let prompts: VecDeque<Prompt> = vec![
        Prompt { role: Role::User, content: "U1".to_string() },
        Prompt { role: Role::User, content: "U2".to_string() },
        Prompt { role: Role::LlmAssistant, content: "L1".to_string() },
        Prompt { role: Role::LlmAssistant, content: "L2".to_string() },
        Prompt { role: Role::User, content: "U3".to_string() },
    ]
    .into();
    let last = state.append_prompts(prompts, &env());
    assert_eq!(last, Some("U3".to_string()));
    assert_eq!(state.history().len(), 1);
    assert_eq!(state.history()[0].user_message.prompt(), Some("U2"));
    assert_eq!(state.history()[0].llm_message.content(), "L1");
    assert_eq!(state.transcript.iter().cloned().collect::<Vec<_>>(), vec!["L1".to_string()]);
}

#[test]
fn a_new_conversation_has_a_sendable_history_range() {
    let mut state = ConversationState::new("conv", None);
    assert!(state.history_range_is_valid());
    assert!(state.history_range_is_sendable());
    state.set_next_user_message("hi".to_string(), ctx());
    let _ = state.as_sendable_conversation_state(None, ctx());
    assert!(state.history_range_is_sendable());
}
