use kblnk::chat::{
    handle_input, handle_state_execution_result, read_user_input_step, ChatAction, ChatErrorKind,
    ChatState, ReadEvent, ReadStep,
};
use kblnk::chat_response::{ChatResponse, ChatResponseParser, ChatResponseStream};
use kblnk::command::{ChatCommand, ContextSubcommand};
use kblnk::error::ParseError;
use kblnk::prompt::{
    complete_command, completion_plan, plan_completion, prompt_completions, prompt_query, CompletionPlan,
    MultiLineValidator, ValidationOutcome,
};
use kblnk::token_counter::TokenCounter;

fn parse(input: &str) -> Result<ChatCommand, String> {
    let mut out: Vec<u8> = Vec::new();
    ChatCommand::parse(input, &mut out)
}

#[test]
fn when_parse_simple_response_then_succeed() {
    let mut events = vec![ChatResponseStream::LlmResponseEvent {
        content: r#"
            <kb:response>
                I am a large language model.
            </kb:response>
            "#
        .to_string(),
    }];
    events.reverse();

    let mut parser = ChatResponseParser::new();

    let mut chat_responses: Vec<ChatResponse> = vec![];
    let max_iters = 10_000;
    let mut iter = 0;
    loop {
        iter += 1;
        if iter >= max_iters {
            panic!("Breaking out of infinite loop")
        }

        let response = parser.next(events.pop()).expect("response parses");
        chat_responses.extend(response);

        match chat_responses.last() {
            Some(ChatResponse::EndStream { .. }) => break,
            _ => {}
        }
    }

    assert_eq!(
        chat_responses.len(),
        2,
        "Expected 2 response, found {} instead ({:?})",
        chat_responses.len(),
        &chat_responses,
    );

    let first_response = chat_responses.get(0).expect("First response is valid");
    match first_response {
        ChatResponse::Response(response) => assert_eq!(response, "I am a large language model."),
        other_response => assert!(false, "Expected ChatResponse::Response, found: {other_response:?}"),
    }

    let second_response = chat_responses.get(1).expect("Second response is valid");
    match second_response {
        ChatResponse::EndStream { .. } => {}
        other_response => assert!(false, "Expected ChatResponse::EndStream, found: {other_response:?}"),
    }
}

#[test]
fn response_parser_reads_code_and_skips_other_tags() {
    let mut parser = ChatResponseParser::new();
    let responses = parser
        .parse_xml_to_chat_response("<kb:answer><kb:response>hi</kb:response><kb:code>x = 1</kb:code><other>z</other></kb:answer>".to_string())
        .expect("parses");
    assert_eq!(responses.len(), 2);
    assert!(matches!(&responses[0], ChatResponse::Response(t) if t == "hi"));
    assert!(matches!(&responses[1], ChatResponse::Code(t) if t == "x = 1"));
}

#[test]
fn response_parser_reports_bad_xml() {
    let mut parser = ChatResponseParser::new();
    let r = parser.parse_xml_to_chat_response("<kb:response>".to_string());
    assert!(matches!(r, Err(ParseError::UnclosedTags(_))));
}

#[test]
fn end_of_stream_carries_a_nine_character_id() {
    let mut parser = ChatResponseParser::new();
    let end = parser.next(None).expect("end of stream");
    assert_eq!(end.len(), 1);
    match &end[0] {
        ChatResponse::EndStream { message } => {
            let id = message.message_id().expect("id is set");
            assert_eq!(id.chars().count(), 9);
            assert!(id.chars().all(|c| c.is_ascii_alphanumeric()));
            assert_eq!(message.content(), "");
        }
        other => panic!("unexpected {other:?}"),
    }
    let again = parser.next(None).expect("end of stream");
    match (&end[0], &again[0]) {
        (ChatResponse::EndStream { message: a }, ChatResponse::EndStream { message: b }) => {
            assert_eq!(a.message_id(), b.message_id());
        }
        _ => panic!("expected two ends of stream"),
    }
}

#[test]
fn parse_commands() {
    assert_eq!(parse("/clear"), Ok(ChatCommand::Clear));
    assert_eq!(parse("  /CLS  "), Ok(ChatCommand::Clear));
    assert_eq!(parse("/context"), Ok(ChatCommand::Context { subcommand: ContextSubcommand::Help }));
    assert_eq!(parse("/context show"), Ok(ChatCommand::Context { subcommand: ContextSubcommand::Show }));
    assert_eq!(parse("/context other"), Ok(ChatCommand::Context { subcommand: ContextSubcommand::Help }));
    assert_eq!(parse("/usage"), Ok(ChatCommand::Usage));
    assert_eq!(parse("/u"), Ok(ChatCommand::Usage));
    assert_eq!(parse("/q"), Ok(ChatCommand::Exit));
    assert_eq!(parse("/quit"), Ok(ChatCommand::Exit));
    assert_eq!(parse("/exit"), Ok(ChatCommand::Exit));
    assert_eq!(parse("/?"), Ok(ChatCommand::Help));
    assert_eq!(parse("/h"), Ok(ChatCommand::Help));
    assert_eq!(parse("!ls -la"), Ok(ChatCommand::Execute { command: "ls -la".to_string() }));
    assert_eq!(parse("\\/not a command"), Ok(ChatCommand::Ask { prompt: "/not a command".to_string() }));
    assert_eq!(parse("  hello there "), Ok(ChatCommand::Ask { prompt: "hello there".to_string() }));
}

#[test]
fn parse_command_errors() {
    assert_eq!(parse("/"), Err("No command found".to_string()));
    assert_eq!(
        parse("/foo bar"),
        Err("Unknown command: '/foo'. Type '/help' for a list of available commands and their usage.".to_string())
    );
    assert_eq!(
        ChatCommand::alias_suggestion("quit"),
        Some("Did you mean to use the command '/exit' to exit? Type '/exit' to exit.".to_string())
    );
    assert_eq!(ChatCommand::alias_suggestion("nothing"), None);
}

#[test]
fn parse_suggests_the_command_for_an_alias() {
    let exit_hint = Some("Did you mean to use the command '/exit' to exit? Type '/exit' to exit.".to_string());
    assert_eq!(parse("/exit()").err(), exit_hint);
    assert_eq!(parse("/EXIT() now").err(), exit_hint);
    assert_eq!(parse("/   ").err(), Some("No command found".to_string()));
    assert_eq!(
        parse("/exit(1)"),
        Err("Unknown command: '/exit(1)'. Type '/help' for a list of available commands and their usage.".to_string())
    );
}

#[test]
fn parse_writes_nothing_to_the_output() {
    let mut out: Vec<u8> = Vec::new();
    let _ = ChatCommand::parse("/context SHOW", &mut out);
    let _ = ChatCommand::parse("/nope", &mut out);
    let _ = ChatCommand::parse("hello", &mut out);
    assert!(out.is_empty());
}

#[test]
fn handle_input_decisions() {
    let (state, action) = handle_input("/exit");
    assert!(matches!(state, ChatState::Exit));
    assert!(matches!(action, ChatAction::Print { ref text } if text == "Thanks for chatting!"));

    let (state, action) = handle_input("/nope");
    assert!(matches!(state, ChatState::PromptUser));
    match action {
        ChatAction::PrintError { text } => assert_eq!(
            text,
            "\nError: Unknown command: '/nope'. Type '/help' for a list of available commands and their usage.\n\n"
        ),
        other => panic!("unexpected {other:?}"),
    }

    let (state, action) = handle_input("what is rust?");
    assert!(matches!(state, ChatState::HandleLlmResponse));
    assert!(matches!(action, ChatAction::AskModel { ref prompt } if prompt == "what is rust?"));

    let (state, action) = handle_input("!echo hi");
    assert!(matches!(state, ChatState::PromptUser));
    assert!(matches!(action, ChatAction::Execute { ref command } if command == "echo hi"));

    let (_, action) = handle_input("/help");
    assert!(matches!(action, ChatAction::Print { ref text } if text == "Help text should be here..."));
    let (_, action) = handle_input("/context");
    assert!(matches!(action, ChatAction::Print { ref text } if text == "Context help text should be here..."));
    let (_, action) = handle_input("/clear");
    assert!(matches!(action, ChatAction::WarnClearUnsupported));
    let (_, action) = handle_input("/usage");
    assert!(matches!(action, ChatAction::Nothing));
}

#[test]
fn state_results() {
    assert!(matches!(
        handle_state_execution_result(Ok(ChatState::Exit)),
        Ok((ChatState::Exit, ChatAction::Nothing))
    ));
    assert!(matches!(
        handle_state_execution_result(Err(ChatErrorKind::Interrupted)),
        Ok((ChatState::PromptUser, ChatAction::Print { ref text })) if text == "\n\n"
    ));
    assert!(matches!(
        handle_state_execution_result(Err(ChatErrorKind::Readline)),
        Err(ChatErrorKind::Readline)
    ));
    assert!(matches!(ChatState::default(), ChatState::PromptUser));
}

#[test]
fn reading_user_input() {
    assert!(matches!(
        read_user_input_step(false, false, ReadEvent::Line("   ".to_string())),
        ReadStep::ReadAgain { ctrl_c: false, print_exit_hint: false }
    ));
    assert!(matches!(
        read_user_input_step(false, false, ReadEvent::Line(" hi ".to_string())),
        ReadStep::Done(Some(ref l)) if l == " hi "
    ));
    assert!(matches!(
        read_user_input_step(false, false, ReadEvent::Interrupted),
        ReadStep::ReadAgain { ctrl_c: true, print_exit_hint: true }
    ));
    assert!(matches!(read_user_input_step(true, false, ReadEvent::Interrupted), ReadStep::Done(None)));
    assert!(matches!(read_user_input_step(false, true, ReadEvent::Interrupted), ReadStep::Done(None)));
    assert!(matches!(read_user_input_step(false, false, ReadEvent::Failed), ReadStep::Done(None)));
}

#[test]
fn completion_of_commands() {
    let (start, c) = complete_command("/c", 3);
    assert_eq!(start, 3);
    assert_eq!(c, vec!["/clear".to_string(), "/context show".to_string()]);
    let (_, none) = complete_command("/zzz", 0);
    assert!(none.is_empty());
    let (_, all) = complete_command("/", 0);
    assert_eq!(all.len(), 5);
}

#[test]
fn multi_line_validation() {
    let v = MultiLineValidator;
    assert_eq!(v.validate("```rust"), ValidationOutcome::Incomplete);
    assert_eq!(v.validate("```rust\nfn main() {}\n```"), ValidationOutcome::Valid);
    assert_eq!(v.validate("line one \\"), ValidationOutcome::Incomplete);
    assert_eq!(v.validate("plain"), ValidationOutcome::Valid);
}

#[test]
fn token_counts() {
    assert_eq!(TokenCounter::count_tokens(""), 0);
    assert_eq!(TokenCounter::count_tokens("abcdefghijklmn"), 0);
    assert_eq!(TokenCounter::count_tokens("abcdefghijklmno"), 10);
    assert_eq!(TokenCounter::count_tokens(&"a".repeat(300)), 100);
    assert_eq!(TokenCounter::count_tokens(&"é".repeat(15)), 10);
    for n in 0..200usize {
        let c = TokenCounter::count_tokens(&"x".repeat(n));
        assert_eq!(c % 10, 0);
        assert!(c <= n / 3 + 5 && n / 3 < c + 5);
    }
}

#[test]
fn completion_plans() {
    match completion_plan("/cl", 3) {
        CompletionPlan::Commands { start, candidates } => {
            assert_eq!(start, 0);
            assert_eq!(candidates, vec!["/clear".to_string()]);
        }
        other => panic!("unexpected {other:?}"),
    }
    match completion_plan("say /c", 6) {
        CompletionPlan::Commands { start, candidates } => {
            assert_eq!(start, 4);
            assert_eq!(candidates.len(), 2);
        }
        other => panic!("unexpected {other:?}"),
    }
    match completion_plan("@foo bar", 8) {
        CompletionPlan::Prompts { search, start } => {
            assert_eq!(search, "foo bar");
            assert_eq!(start, 5);
        }
        other => panic!("unexpected {other:?}"),
    }
    match completion_plan("ls sr", 5) {
        CompletionPlan::Paths { start } => assert_eq!(start, 3),
        other => panic!("unexpected {other:?}"),
    }
}

#[test]
fn prompt_store_queries() {
    assert_eq!(prompt_query(""), None);
    assert_eq!(prompt_query("rev"), Some("rev".to_string()));
    assert_eq!(
        prompt_completions(&vec!["review".to_string(), "fix".to_string()]),
        vec!["@review".to_string(), "@fix".to_string()]
    );
}

#[test]
fn plan_completion_from_the_word_before_the_cursor() {
    match plan_completion("x /he", 2, "/he") {
        CompletionPlan::Commands { start, candidates } => {
            assert_eq!(start, 2);
            assert_eq!(candidates, vec!["/help".to_string()]);
        }
        other => panic!("unexpected {other:?}"),
    }
    match plan_completion("@rev", 0, "@rev") {
        CompletionPlan::Prompts { search, start } => {
            assert_eq!(search, "rev");
            assert_eq!(start, 0);
        }
        other => panic!("unexpected {other:?}"),
    }
    match plan_completion("cat", 0, "cat") {
        CompletionPlan::Paths { start } => assert_eq!(start, 0),
        other => panic!("unexpected {other:?}"),
    }
    match plan_completion("/x", 0, "/zz") {
        CompletionPlan::Commands { candidates, .. } => assert!(candidates.is_empty()),
        other => panic!("unexpected {other:?}"),
    }
}

#[test]
fn completion_plan_looks_only_before_the_cursor() {
    match completion_plan("ab /us xyz", 6) {
        CompletionPlan::Commands { start, candidates } => {
            assert_eq!(start, 3);
            assert_eq!(candidates, vec!["/usage".to_string()]);
        }
        other => panic!("unexpected {other:?}"),
    }
    match completion_plan("", 0) {
        CompletionPlan::Paths { start } => assert_eq!(start, 0),
        other => panic!("unexpected {other:?}"),
    }
    // a non-breaking space (two bytes) also breaks words
    match completion_plan("é\u{a0}/ex", 7) {
        CompletionPlan::Commands { start, candidates } => {
            assert_eq!(start, 4);
            assert_eq!(candidates, vec!["/exit".to_string()]);
        }
        other => panic!("unexpected {other:?}"),
    }
}
