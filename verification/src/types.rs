use vstd::prelude::*;

use crate::json::JsonValue;

verus! {

/// The kinds of failure the gateway reports.
#[derive(Debug, Clone, Copy, PartialEq, Eq, Structural)]
pub enum ErrorKind {
    Authentication,
    Permission,
    NotFound,
    InvalidRequest,
    RateLimited,
    Timeout,
    Upstream,
    Internal,
}

/// An error with its kind and a message for the client.
#[derive(Debug, Clone, PartialEq, Eq)]
pub struct GatewayError {
    pub kind: ErrorKind,
    pub message: String,
}

/// The HTTP status that answers an error of the given kind.
pub open spec fn status_for_kind(kind: ErrorKind) -> u16 {
    match kind {
        ErrorKind::Authentication => 401,
        ErrorKind::Permission => 403,
        ErrorKind::NotFound => 404,
        ErrorKind::InvalidRequest => 400,
        ErrorKind::RateLimited => 429,
        ErrorKind::Timeout => 504,
        ErrorKind::Upstream => 502,
        ErrorKind::Internal => 500,
    }
}

/// The `type` field of an OpenAI-style error body for a status.
pub open spec fn error_type_for_status(status: u16) -> Seq<char> {
    if status == 401 {
        "authentication_error"@
    } else if status == 403 {
        "permission_error"@
    } else if status == 404 || status == 400 {
        "invalid_request_error"@
    } else if status == 429 {
        "rate_limit_error"@
    } else {
        "server_error"@
    }
}

impl GatewayError {
    /// Makes an error of the given kind.
    pub fn new(kind: ErrorKind, message: String) -> (e: GatewayError)
        ensures
            e.kind == kind,
            e.message == message,
    {
        GatewayError { kind, message }
    }

    /// The HTTP status code that answers this error.
    pub fn status_code(&self) -> (code: u16)
        ensures
            code == status_for_kind(self.kind),
    {
        match self.kind {
            ErrorKind::Authentication => 401,
            ErrorKind::Permission => 403,
            ErrorKind::NotFound => 404,
            ErrorKind::InvalidRequest => 400,
            ErrorKind::RateLimited => 429,
            ErrorKind::Timeout => 504,
            ErrorKind::Upstream => 502,
            ErrorKind::Internal => 500,
        }
    }

    /// The OpenAI-style error body that answers this error.
    pub fn to_openai_response(&self) -> (r: OpenAiErrorResponse)
        ensures
            r.error.message@ == self.message@,
            r.error.error_type@ == error_type_for_status(status_for_kind(self.kind)),
    {
        let status = self.status_code();
        OpenAiErrorResponse {
            error: OpenAiErrorBody {
                message: crate::text::to_owned_string(self.message.as_str()),
                error_type: error_type(status),
            },
        }
    }
}

/// The `type` field of an OpenAI-style error body for a status.
pub fn error_type(status: u16) -> (t: String)
    ensures
        t@ == error_type_for_status(status),
{
    if status == 401 {
        "authentication_error".to_string()
    } else if status == 403 {
        "permission_error".to_string()
    } else if status == 404 || status == 400 {
        "invalid_request_error".to_string()
    } else if status == 429 {
        "rate_limit_error".to_string()
    } else {
        "server_error".to_string()
    }
}

/// An OpenAI-style error envelope.
#[derive(Debug, Clone, PartialEq, Eq)]
pub struct OpenAiErrorResponse {
    pub error: OpenAiErrorBody,
}

/// The body of an OpenAI-style error.
#[derive(Debug, Clone, PartialEq, Eq)]
pub struct OpenAiErrorBody {
    pub message: String,
    pub error_type: String,
}

/// What is known of an API key when a request presents it.
/// `expires_at` is an instant in nanoseconds since the Unix epoch.
#[derive(Debug, Clone, PartialEq, Eq)]
pub struct KeyMeta {
    pub key_id: String,
    pub user_id: Option<String>,
    pub customer_id: Option<String>,
    pub alias: Option<String>,
    pub expires_at: Option<i128>,
    pub allowed_models: Vec<String>,
}

/// Token counts of one upstream call.
#[derive(Debug, Clone, Copy, PartialEq, Eq, Structural)]
pub struct Usage {
    pub input_tokens: u64,
    pub output_tokens: u64,
    pub cache_read: u64,
    pub cache_write: u64,
}

/// How a response travels back to the client.
#[derive(Debug, Clone, Copy, PartialEq, Eq, Structural)]
pub enum TransportMode {
    Json,
    SseStream,
}

/// An OpenAI-style chat request.
#[derive(Debug)]
pub struct ChatRequest {
    pub model: String,
    pub messages: Vec<JsonValue>,
    pub stream: bool,
}

/// An OpenAI-style embeddings request.
#[derive(Debug)]
pub struct EmbeddingsRequest {
    pub model: String,
    pub input: JsonValue,
}

/// Who wrote a message of a chat.
#[derive(Debug, Clone, Copy, PartialEq, Eq, Structural)]
pub enum CanonicalRole {
    System,
    User,
    Assistant,
}

/// A piece of a message's content.
#[derive(Debug, Clone, PartialEq, Eq)]
pub enum CanonicalContentPart {
    Text { text: String },
}

/// One message of a chat.
#[derive(Debug, Clone, PartialEq, Eq)]
pub struct CanonicalMessage {
    pub role: CanonicalRole,
    pub content: Vec<CanonicalContentPart>,
}

/// The protocol a request arrived in.
#[derive(Debug, Clone, Copy, PartialEq, Eq, Structural)]
pub enum ProtocolFamily {
    OpenAi,
    Anthropic,
}

/// A chat request in the form that every provider codec reads.  The sampling
/// temperature and nucleus mass are fractional numbers and travel beside it.
#[derive(Debug)]
pub struct CanonicalChatRequest {
    pub model: String,
    pub system: Vec<String>,
    pub messages: Vec<CanonicalMessage>,
    pub raw_messages: Option<Vec<JsonValue>>,
    pub stream: bool,
    pub max_tokens: Option<u64>,
    pub stop_sequences: Vec<String>,
    pub top_k: Option<u64>,
    pub metadata: Option<JsonValue>,
    pub user: Option<String>,
    pub protocol: ProtocolFamily,
}

/// A request as the gateway routes it.
#[derive(Debug)]
pub enum CanonicalRequest {
    Chat(ChatRequest),
    Embeddings(EmbeddingsRequest),
}

impl CanonicalRequest {
    /// The model that the client asked for.
    pub open spec fn spec_model(&self) -> Seq<char> {
        match self {
            CanonicalRequest::Chat(r) => r.model@,
            CanonicalRequest::Embeddings(r) => r.model@,
        }
    }

    /// How the response travels: a streaming chat is an event stream,
    /// anything else is one JSON body.
    pub open spec fn spec_transport_mode(&self) -> TransportMode {
        match self {
            CanonicalRequest::Chat(r) => if r.stream {
                TransportMode::SseStream
            } else {
                TransportMode::Json
            },
            CanonicalRequest::Embeddings(_) => TransportMode::Json,
        }
    }

    /// The model that the client asked for.
    pub fn model_name(&self) -> (m: &str)
        ensures
            m@ == self.spec_model(),
    {
        match self {
            CanonicalRequest::Chat(request) => request.model.as_str(),
            CanonicalRequest::Embeddings(request) => request.model.as_str(),
        }
    }

    /// How the response travels back.
    pub fn transport_mode(&self) -> (t: TransportMode)
        ensures
            t == self.spec_transport_mode(),
    {
        match self {
            CanonicalRequest::Chat(request) => if request.stream {
                TransportMode::SseStream
            } else {
                TransportMode::Json
            },
            CanonicalRequest::Embeddings(_) => TransportMode::Json,
        }
    }
}

} // verus!
