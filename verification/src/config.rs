//! Which language model service the chat talks to, with which credentials.
use vstd::prelude::*;
use crate::model::{GoogleStreamingClientConfig, LlmServerProvider};
use crate::text::{push_str, string_of};

verus! {

/// Credentials for the language model services.
#[derive(Debug)]
pub struct AuthCredentials {
    pub google_api_key: Option<String>,
}

impl AuthCredentials {
    /// Keeps the credentials (nothing is stored yet).
    pub fn save_config(&self) {
    }
}

impl Default for AuthCredentials {
    fn default() -> (r: Self)
        ensures
            r.google_api_key is None,
    {
        Self { google_api_key: None }
    }
}

/// The settings of the streaming client.
#[derive(Debug)]
pub struct StreamingClientConfig {
    /// LLM Server provider
    pub llm_server_provider: LlmServerProvider,
    /// Optional authentication credentials
    /// Some language model providers may not require credentials (For example, self-hosted)
    pub auth_credentials: Option<AuthCredentials>,
}

/// Why settings could not be built.
#[derive(Debug)]
pub enum StreamingClientConfigBuilderError {
    RequiredOptionNotFound(String),
}

/// The name of the option that says which service to use.
pub const LLM_SERVER_PROVIDER_OPTION: &'static str = "llm_server_provider";

impl StreamingClientConfigBuilderError {
    /// The error's message: `Required option '<name>' is not present`.
    pub fn message(&self) -> (r: String)
        ensures
            match self {
                StreamingClientConfigBuilderError::RequiredOptionNotFound(name) => r@ == "Required option '"@
                    + name@ + "' is not present"@,
            },
    {
        match self {
            StreamingClientConfigBuilderError::RequiredOptionNotFound(name) => {
                let mut s = string_of("Required option '");
                push_str(&mut s, name.as_str());
                push_str(&mut s, "' is not present");
                s
            },
        }
    }

    /// The message of the chat's initialization error for this error.
    pub fn initialization_message(&self) -> (r: String)
        ensures
            match self {
                StreamingClientConfigBuilderError::RequiredOptionNotFound(name) => r@
                    == "Streaming Client config construction failed: "@ + "Required option '"@ + name@
                    + "' is not present"@,
            },
    {
        let mut s = string_of("Streaming Client config construction failed: ");
        let m = self.message();
        push_str(&mut s, m.as_str());
        s
    }
}

/// Settings put together one option at a time.
pub struct StreamingClientConfigBuilder {
    llm_server_provider: Option<LlmServerProvider>,
    auth_credentials: Option<AuthCredentials>,
}

impl StreamingClientConfigBuilder {
    /// The service chosen so far, if any.
    pub closed spec fn provider(&self) -> Option<LlmServerProvider> {
        self.llm_server_provider
    }

    /// The credentials given so far, if any.
    pub closed spec fn credentials(&self) -> Option<AuthCredentials> {
        self.auth_credentials
    }

    /// The settings: fails when no service was chosen.
    pub fn build(self) -> (r: Result<StreamingClientConfig, StreamingClientConfigBuilderError>)
        ensures
            self.provider() is None <==> r is Err,
            r matches Err(StreamingClientConfigBuilderError::RequiredOptionNotFound(name)) ==> name@
                == LLM_SERVER_PROVIDER_OPTION@,
            r matches Ok(c) ==> Some(c.llm_server_provider) == self.provider() && c.auth_credentials
                == self.credentials(),
    {
        let llm_server_provider = match self.llm_server_provider {
            Some(p) => p,
            None => {
                return Err(
                    StreamingClientConfigBuilderError::RequiredOptionNotFound(
                        string_of(LLM_SERVER_PROVIDER_OPTION),
                    ),
                )
            },
        };
        Ok(StreamingClientConfig { llm_server_provider, auth_credentials: self.auth_credentials })
    }

    /// Chooses the service.
    pub fn with_llm_provider(self, llm_server_provider: LlmServerProvider) -> (r: Self)
        ensures
            r.provider() == Some(llm_server_provider),
            r.credentials() == self.credentials(),
            (r.provider(), r.credentials()) == builder_step(
                (self.provider(), self.credentials()),
                BuilderCall::Provider(llm_server_provider),
            ),
    {
        let mut b = self;
        b.llm_server_provider = Some(llm_server_provider);
        b
    }

    /// Sets the credentials.
    pub fn with_auth_credentials(self, auth_credentials: Option<AuthCredentials>) -> (r: Self)
        ensures
            r.provider() == self.provider(),
            r.credentials() == auth_credentials,
            (r.provider(), r.credentials()) == builder_step(
                (self.provider(), self.credentials()),
                BuilderCall::Credentials(auth_credentials),
            ),
    {
        let mut b = self;
        b.auth_credentials = auth_credentials;
        b
    }
}

impl StreamingClientConfig {
    /// A builder with no option set.
    pub fn builder() -> (r: StreamingClientConfigBuilder)
        ensures
            r.provider() is None,
            r.credentials() is None,
    {
        StreamingClientConfigBuilder { llm_server_provider: None, auth_credentials: None }
    }
}

/// One call made on a builder: choosing the service, or setting the credentials.
pub enum BuilderCall {
    Provider(LlmServerProvider),
    Credentials(Option<AuthCredentials>),
}

/// What a builder holds (service, credentials) after one more call.
pub open spec fn builder_step(
    state: (Option<LlmServerProvider>, Option<AuthCredentials>),
    call: BuilderCall,
) -> (Option<LlmServerProvider>, Option<AuthCredentials>) {
    match call {
        BuilderCall::Provider(p) => (Some(p), state.1),
        BuilderCall::Credentials(c) => (state.0, c),
    }
}

/// What a new builder holds after the given calls, made in order.
pub open spec fn builder_after(calls: Seq<BuilderCall>) -> (
    Option<LlmServerProvider>,
    Option<AuthCredentials>,
)
    decreases calls.len(),
{
    if calls.len() == 0 {
        (None, None)
    } else {
        builder_step(builder_after(calls.drop_last()), calls.last())
    }
}

/// The last service chosen among the calls, if any.
pub open spec fn last_provider(calls: Seq<BuilderCall>) -> Option<LlmServerProvider>
    decreases calls.len(),
{
    if calls.len() == 0 {
        None
    } else {
        match calls.last() {
            BuilderCall::Provider(p) => Some(p),
            BuilderCall::Credentials(_) => last_provider(calls.drop_last()),
        }
    }
}

/// The last credentials given among the calls (`None` when none were given).
pub open spec fn last_credentials(calls: Seq<BuilderCall>) -> Option<AuthCredentials>
    decreases calls.len(),
{
    if calls.len() == 0 {
        None
    } else {
        match calls.last() {
            BuilderCall::Credentials(c) => c,
            BuilderCall::Provider(_) => last_credentials(calls.drop_last()),
        }
    }
}

/// Whatever the calls made on a new builder, and in whatever order, the
/// last value given for each option wins: the builder holds the last service
/// chosen and the last credentials given (none if none were given), and it
/// holds a service exactly when one was chosen. So `build` succeeds exactly
/// when a service was chosen, and fails with the missing option
/// `llm_server_provider` otherwise.
pub proof fn law_builder_last_value_wins(calls: Seq<BuilderCall>)
    ensures
        builder_after(calls) == (last_provider(calls), last_credentials(calls)),
        builder_after(calls).0 is Some <==> exists|i: int|
            0 <= i < calls.len() && #[trigger] calls[i] is Provider,
    decreases calls.len(),
{
    if calls.len() > 0 {
        let rest = calls.drop_last();
        law_builder_last_value_wins(rest);
        if calls.last() is Provider {
            assert(calls[calls.len() - 1] is Provider);
        } else {
            assert forall|i: int| 0 <= i < rest.len() && #[trigger] rest[i] is Provider implies exists|
                j: int,
            | 0 <= j < calls.len() && #[trigger] calls[j] is Provider by {
                assert(calls[i] == rest[i]);
            }
            assert forall|j: int| 0 <= j < calls.len() && #[trigger] calls[j] is Provider implies exists|
                i: int,
            | 0 <= i < rest.len() && #[trigger] rest[i] is Provider by {
                assert(j < calls.len() - 1);
                assert(rest[j] == calls[j]);
            }
        }
    }
}

/// Why the streaming client cannot be used.
#[derive(Debug, PartialEq, Eq, Structural)]
pub enum StreamingClientError {
    InvalidAuthCredentials,
    BadGateway,
    ServerError,
    BadRequest,
    Forbidden,
    InternalError,
}

impl StreamingClientError {
    /// The error's message.
    pub fn message(&self) -> (r: &'static str)
        ensures
            r@ == match self {
                StreamingClientError::InvalidAuthCredentials => "invalid auth credentials"@,
                StreamingClientError::BadGateway => "bad gateway"@,
                StreamingClientError::ServerError => "generic server error"@,
                StreamingClientError::BadRequest => "bad request"@,
                StreamingClientError::Forbidden => "generic forbidden error"@,
                StreamingClientError::InternalError => "generic unhandled internal cli error"@,
            },
    {
        match self {
            StreamingClientError::InvalidAuthCredentials => "invalid auth credentials",
            StreamingClientError::BadGateway => "bad gateway",
            StreamingClientError::ServerError => "generic server error",
            StreamingClientError::BadRequest => "bad request",
            StreamingClientError::Forbidden => "generic forbidden error",
            StreamingClientError::InternalError => "generic unhandled internal cli error",
        }
    }
}

#[verifier::external_type_specification]
#[verifier::external_body]
pub struct ExGoogleAiError(google_ai_rs::error::Error);

/// The kinds of failure of the Google AI client.
#[derive(Debug, Clone, Copy, PartialEq, Eq, Structural)]
pub enum GoogleErrorKind {
    Setup,
    Net,
    Service,
    Stream,
    Auth,
    InvalidArgument,
    InvalidContent,
    Other,
}

/// The variant of a Google AI client error, as a kind (`Other` for variants a
/// later version may add).
pub uninterp spec fn google_error_variant(e: google_ai_rs::error::Error) -> GoogleErrorKind;

/// Tells apart the variants of `google_ai_rs::error::Error`, one kind for each:
/// the kind is [`google_error_variant`] of the error (which variant that is,
/// the error being opaque here, is not stated).
#[verifier::external_body]
fn google_error_kind(e: &google_ai_rs::error::Error) -> (r: GoogleErrorKind)
    ensures
        r == google_error_variant(*e),
{
    match e {
        google_ai_rs::error::Error::Setup(_) => GoogleErrorKind::Setup,
        google_ai_rs::error::Error::Net(_) => GoogleErrorKind::Net,
        google_ai_rs::error::Error::Service(_) => GoogleErrorKind::Service,
        google_ai_rs::error::Error::Stream(_) => GoogleErrorKind::Stream,
        google_ai_rs::error::Error::Auth(_) => GoogleErrorKind::Auth,
        google_ai_rs::error::Error::InvalidArgument(_) => GoogleErrorKind::InvalidArgument,
        google_ai_rs::error::Error::InvalidContent(_) => GoogleErrorKind::InvalidContent,
        _ => GoogleErrorKind::Other,
    }
}

/// The client error for each kind of failure of the Google AI client.
pub open spec fn error_for_kind(kind: GoogleErrorKind) -> StreamingClientError {
    match kind {
        GoogleErrorKind::Setup => StreamingClientError::InternalError,
        GoogleErrorKind::Net => StreamingClientError::BadGateway,
        GoogleErrorKind::Service => StreamingClientError::ServerError,
        GoogleErrorKind::Stream => StreamingClientError::ServerError,
        GoogleErrorKind::Auth => StreamingClientError::Forbidden,
        GoogleErrorKind::InvalidArgument => StreamingClientError::BadRequest,
        GoogleErrorKind::InvalidContent => StreamingClientError::BadRequest,
        GoogleErrorKind::Other => StreamingClientError::InternalError,
    }
}

impl StreamingClientError {
    /// The client error for a kind of failure of the Google AI client.
    pub fn from_kind(kind: GoogleErrorKind) -> (r: Self)
        ensures
            r == error_for_kind(kind),
    {
        match kind {
            GoogleErrorKind::Setup => StreamingClientError::InternalError,
            GoogleErrorKind::Net => StreamingClientError::BadGateway,
            GoogleErrorKind::Service => StreamingClientError::ServerError,
            GoogleErrorKind::Stream => StreamingClientError::ServerError,
            GoogleErrorKind::Auth => StreamingClientError::Forbidden,
            GoogleErrorKind::InvalidArgument => StreamingClientError::BadRequest,
            GoogleErrorKind::InvalidContent => StreamingClientError::BadRequest,
            GoogleErrorKind::Other => StreamingClientError::InternalError,
        }
    }

    /// The client error for an error of the Google AI client: the one for its
    /// kind (see [`error_for_kind`]), so never a credentials error.
    pub fn from_google_error(e: google_ai_rs::error::Error) -> (r: Self)
        ensures
            r == error_for_kind(google_error_variant(e)),
            r != StreamingClientError::InvalidAuthCredentials,
    {
        let kind = google_error_kind(&e);
        Self::from_kind(kind)
    }
}

/// What is needed to start a client for Google AI Studio: the API key and the
/// client's settings. Without credentials, or without a Google API key, the
/// credentials are invalid. (No client exists for llama.cpp.)
pub fn google_client_settings(config: StreamingClientConfig) -> (r: Result<
    (String, GoogleStreamingClientConfig),
    StreamingClientError,
>)
    requires
        !(config.auth_credentials is Some && config.llm_server_provider is LlamaCpp),
    ensures
        match (config.auth_credentials, config.llm_server_provider) {
            (Some(c), LlmServerProvider::GoogleAiStudio { model }) => match c.google_api_key {
                Some(key) => r matches Ok((k, s)) && k == key && s.model == model,
                None => r matches Err(StreamingClientError::InvalidAuthCredentials),
            },
            _ => r matches Err(StreamingClientError::InvalidAuthCredentials),
        },
{
    let creds = match config.auth_credentials {
        Some(c) => c,
        None => return Err(StreamingClientError::InvalidAuthCredentials),
    };
    match config.llm_server_provider {
        LlmServerProvider::LlamaCpp => Err(StreamingClientError::InvalidAuthCredentials),
        LlmServerProvider::GoogleAiStudio { model } => {
            let api_key = match creds.google_api_key {
                Some(k) => k,
                None => return Err(StreamingClientError::InvalidAuthCredentials),
            };
            Ok((api_key, GoogleStreamingClientConfig { model }))
        },
    }
}

} // verus!
