use kblnk::cli::{log_file_plan, resolve_log_level, Cli, CliRootCommand, LogFilePlan, MAX_FILE_SIZE};
use kblnk::config::{
    google_client_settings, AuthCredentials, GoogleErrorKind, StreamingClientConfig, StreamingClientConfigBuilderError,
    StreamingClientError,
};
use kblnk::model::{
    GoogleModel, LlmResponseMessage, LlmServerProvider, UserInputMessage, GEMINI_2_5_FLASH,
};

#[test]
fn builder_requires_a_provider() {
    let err = StreamingClientConfig::builder().build();
    match err {
        Err(StreamingClientConfigBuilderError::RequiredOptionNotFound(ref name)) => {
            assert_eq!(name, "llm_server_provider")
        }
        Ok(_) => panic!("expected an error"),
    }
    let e = err.err().unwrap();
    assert_eq!(e.message(), "Required option 'llm_server_provider' is not present");
    assert_eq!(
        e.initialization_message(),
        "Streaming Client config construction failed: Required option 'llm_server_provider' is not present"
    );
}

#[test]
fn builder_keeps_what_was_set() {
    let config = StreamingClientConfig::builder()
        .with_auth_credentials(Some(AuthCredentials { google_api_key: Some("key".to_string()) }))
        .with_llm_provider(LlmServerProvider::GoogleAiStudio { model: GoogleModel::Gemini25Flash })
        .build()
        .expect("provider set");
    assert_eq!(config.llm_server_provider, LlmServerProvider::GoogleAiStudio { model: GoogleModel::Gemini25Flash });
    assert_eq!(
        config.auth_credentials.as_ref().and_then(|c| c.google_api_key.as_deref()),
        Some("key")
    );
    let (key, settings) = google_client_settings(config).expect("credentials are valid");
    assert_eq!(key, "key");
    assert_eq!(settings.model, GoogleModel::Gemini25Flash);
}

#[test]
fn missing_credentials_are_invalid() {
    let no_creds = StreamingClientConfig {
        llm_server_provider: LlmServerProvider::GoogleAiStudio { model: GoogleModel::Gemini25Flash },
        auth_credentials: None,
    };
    assert!(matches!(google_client_settings(no_creds), Err(StreamingClientError::InvalidAuthCredentials)));
    let no_key = StreamingClientConfig {
        llm_server_provider: LlmServerProvider::GoogleAiStudio { model: GoogleModel::Gemini25Flash },
        auth_credentials: Some(AuthCredentials::default()),
    };
    assert!(matches!(google_client_settings(no_key), Err(StreamingClientError::InvalidAuthCredentials)));
    let llama_no_creds =
        StreamingClientConfig { llm_server_provider: LlmServerProvider::LlamaCpp, auth_credentials: None };
    assert!(matches!(
        google_client_settings(llama_no_creds),
        Err(StreamingClientError::InvalidAuthCredentials)
    ));
    assert_eq!(StreamingClientError::InvalidAuthCredentials.message(), "invalid auth credentials");
    assert_eq!(StreamingClientError::BadGateway.message(), "bad gateway");
    assert_eq!(StreamingClientError::ServerError.message(), "generic server error");
    assert_eq!(StreamingClientError::BadRequest.message(), "bad request");
    assert_eq!(StreamingClientError::Forbidden.message(), "generic forbidden error");
    assert_eq!(StreamingClientError::InternalError.message(), "generic unhandled internal cli error");
    AuthCredentials::default().save_config();
}

#[test]
fn model_name() {
    assert_eq!(GoogleModel::Gemini25Flash.to_model_name(), "gemini-2.5-flash");
    assert_eq!(GEMINI_2_5_FLASH, "gemini-2.5-flash");
}

#[test]
fn log_args_from_verbosity() {
    let quiet = Cli { subcommand: None, verbose: 0 }.log_args(false, false);
    assert_eq!(quiet.log_level, None);
    assert_eq!(quiet.log_file_path, None);
    assert!(!quiet.log_to_stdout);
    assert!(!quiet.delete_old_log_file);

    let levels = ["WARN", "INFO", "DEBUG", "TRACE", "TRACE"];
    for (i, level) in levels.iter().enumerate() {
        let args = Cli { subcommand: Some(CliRootCommand::Chat), verbose: (i + 1) as u8 }.log_args(false, false);
        assert_eq!(args.log_level.as_deref(), Some(*level));
        assert_eq!(args.log_file_path.as_deref(), Some("chat.log"));
        assert!(args.log_to_stdout);
    }

    let debug = Cli::default().log_args(true, true);
    assert_eq!(debug.log_file_path.as_deref(), Some("cli.log"));
    assert!(debug.log_to_stdout);
}

#[test]
fn log_file_plans() {
    assert_eq!(log_file_plan(true, Some(1)), LogFilePlan { remove_old: true, truncate: true });
    assert_eq!(log_file_plan(false, None), LogFilePlan { remove_old: false, truncate: false });
    assert_eq!(log_file_plan(false, Some(MAX_FILE_SIZE)), LogFilePlan { remove_old: false, truncate: false });
    assert_eq!(log_file_plan(false, Some(MAX_FILE_SIZE + 1)), LogFilePlan { remove_old: true, truncate: false });
}

#[test]
fn log_level_resolution() {
    assert_eq!(resolve_log_level(Some("debug".to_string()), Some("info".to_string())), "debug");
    assert_eq!(resolve_log_level(None, Some("info".to_string())), "info");
    assert_eq!(resolve_log_level(None, None), "error");
}

#[test]
fn message_parts() {
    let user = UserInputMessage { content: "hello".to_string(), user_input_message_context: None };
    assert_eq!(user.part_text(None), "hello\n");
    assert_eq!(
        user.part_text(Some("{}")),
        "hello\n<user-env-context>\n{}\n</user-env-context>"
    );
    let llm = LlmResponseMessage::new("answer".to_string());
    assert_eq!(
        llm.part_text(),
        "<previous-assistant-response>\nanswer\n</previous-assistant-response>"
    );
}

#[test]
fn google_errors_map_to_client_errors() {
    assert_eq!(StreamingClientError::from_kind(GoogleErrorKind::Setup), StreamingClientError::InternalError);
    assert_eq!(StreamingClientError::from_kind(GoogleErrorKind::Net), StreamingClientError::BadGateway);
    assert_eq!(StreamingClientError::from_kind(GoogleErrorKind::Service), StreamingClientError::ServerError);
    assert_eq!(StreamingClientError::from_kind(GoogleErrorKind::Stream), StreamingClientError::ServerError);
    assert_eq!(StreamingClientError::from_kind(GoogleErrorKind::Auth), StreamingClientError::Forbidden);
    assert_eq!(StreamingClientError::from_kind(GoogleErrorKind::InvalidArgument), StreamingClientError::BadRequest);
    assert_eq!(StreamingClientError::from_kind(GoogleErrorKind::InvalidContent), StreamingClientError::BadRequest);
    assert_eq!(StreamingClientError::from_kind(GoogleErrorKind::Other), StreamingClientError::InternalError);

    let e = google_ai_rs::error::Error::InvalidArgument("bad".into());
    assert_eq!(StreamingClientError::from_google_error(e), StreamingClientError::BadRequest);
    let e = google_ai_rs::error::Error::InvalidContent("bad".into());
    assert_eq!(StreamingClientError::from_google_error(e), StreamingClientError::BadRequest);
}

#[test]
fn builder_last_value_given_wins() {
    let key = |k: &str| Some(AuthCredentials { google_api_key: Some(k.to_string()) });
    let config = StreamingClientConfig::builder()
        .with_auth_credentials(key("first"))
        .with_llm_provider(LlmServerProvider::LlamaCpp)
        .with_auth_credentials(key("second"))
        .with_llm_provider(LlmServerProvider::GoogleAiStudio { model: GoogleModel::Gemini25Flash })
        .build()
        .expect("a provider was given");
    assert_eq!(config.llm_server_provider, LlmServerProvider::GoogleAiStudio { model: GoogleModel::Gemini25Flash });
    assert_eq!(config.auth_credentials.expect("credentials").google_api_key, Some("second".to_string()));

    let config = StreamingClientConfig::builder()
        .with_llm_provider(LlmServerProvider::LlamaCpp)
        .with_auth_credentials(key("k"))
        .with_auth_credentials(None)
        .build()
        .expect("a provider was given");
    assert!(config.auth_credentials.is_none());

    let err = StreamingClientConfig::builder().with_auth_credentials(key("k")).with_auth_credentials(None).build();
    match err {
        Err(StreamingClientConfigBuilderError::RequiredOptionNotFound(ref name)) => {
            assert_eq!(name, "llm_server_provider")
        }
        Ok(_) => panic!("built without a provider"),
    }
}
