//! The data models shared with the backend: plain request and response
//! shapes, chat messages and sessions.  They carry no behaviour of their
//! own; the serialized forms live with the I/O code that sends them.

use vstd::prelude::*;

verus! {

/// A chat completion request.
#[derive(Clone, Debug)]
pub struct ChatRequest {
    pub message: String,
    pub session_id: Option<String>,
}

/// A chat completion response.
#[derive(Clone, Debug)]
pub struct ChatResponse {
    pub answer: String,
    pub sources: Vec<String>,
}

/// A request to ingest documents at the given paths.
#[derive(Clone, Debug)]
pub struct IngestRequest {
    pub paths: Vec<String>,
    pub tags: Option<Vec<String>>,
    pub version: Option<String>,
}

/// The outcome of a document ingestion.
#[derive(Clone, Debug)]
pub struct IngestResponse {
    pub chunks_indexed: u64,
}

/// The backend's health report.
#[derive(Clone, Debug)]
pub struct HealthResponse {
    pub status: String,
    pub llm_connected: bool,
    pub detail: String,
}

/// The backend's static configuration.
#[derive(Clone, Debug)]
pub struct ConfigResponse {
    pub llm_provider: String,
    pub model_name: String,
    pub vector_store: String,
    pub embedding_model: String,
}

/// One locally available model.
#[derive(Clone, Debug)]
pub struct OllamaModelEntry {
    pub name: String,
    pub size: Option<u64>,
    pub digest: Option<String>,
    pub modified_at: Option<String>,
}

/// The list of locally available models.
#[derive(Clone, Debug)]
pub struct OllamaModelsResponse {
    pub models: Vec<OllamaModelEntry>,
}

/// The local model runtime's status.
#[derive(Clone, Debug)]
pub struct OllamaStatusResponse {
    pub running: bool,
    pub base_url: String,
    pub model: String,
    pub models_available: u32,
}

/// A request to switch the active model.
#[derive(Clone, Debug)]
pub struct SwitchModelRequest {
    pub model: String,
}

/// The outcome of switching the active model.
#[derive(Clone, Debug)]
pub struct SwitchModelResponse {
    pub previous_model: String,
    pub current_model: String,
}

/// Who authored a chat message.
#[derive(Clone, Copy, Debug, PartialEq, Eq, Structural)]
pub enum Role {
    User,
    Assistant,
}

/// A chat message held for display.
#[derive(Clone, Debug, PartialEq)]
pub struct ChatMessage {
    pub role: Role,
    pub text: String,
    pub sources: Vec<String>,
    /// Whether this message is still being streamed.
    pub streaming: bool,
}

/// A chat session held for the history sidebar.
#[derive(Clone, Debug, PartialEq)]
pub struct ChatSession {
    pub id: String,
    pub title: String,
    pub messages: Vec<ChatMessage>,
    pub documents: Vec<String>,
    pub created_at: String,
}

/// A stored session, summarised.
#[derive(Clone, Debug)]
pub struct SessionSummary {
    pub id: String,
    pub title: String,
    pub message_count: u32,
    pub document_count: u32,
    pub created_at: String,
    pub updated_at: String,
}

/// The list of stored sessions.
#[derive(Clone, Debug)]
pub struct SessionListResponse {
    pub sessions: Vec<SessionSummary>,
}

/// One message of a stored session.
#[derive(Clone, Debug)]
pub struct ServerMessage {
    pub role: String,
    pub text: String,
    pub sources: Vec<String>,
}

/// A stored session with its messages.
#[derive(Clone, Debug)]
pub struct SessionDetailResponse {
    pub id: String,
    pub title: String,
    pub messages: Vec<ServerMessage>,
    pub documents: Vec<String>,
    pub created_at: String,
    pub updated_at: String,
}

/// A document uploaded in the current session.
#[derive(Clone, Debug, PartialEq)]
pub struct UploadedDoc {
    pub name: String,
    pub path: String,
    pub chunks: u64,
    pub size: u64,
    pub tags: Vec<String>,
}

/// One stored file of an upload.
#[derive(Clone, Debug)]
pub struct UploadedFileInfo {
    pub original_name: String,
    pub saved_path: String,
    pub size: u64,
}

/// The outcome of an upload.
#[derive(Clone, Debug)]
pub struct UploadResponse {
    pub files: Vec<UploadedFileInfo>,
    pub chunks_indexed: u64,
}

/// The configured prompts.
#[derive(Clone, Debug)]
pub struct PromptsResponse {
    pub system_prompt: String,
    pub rag_addon_prompt: String,
}

/// A partial update of the configured prompts.
#[derive(Clone, Debug, Default)]
pub struct PromptsUpdateRequest {
    pub system_prompt: Option<String>,
    pub rag_addon_prompt: Option<String>,
}

/// One previously uploaded file.
#[derive(Clone, Debug)]
pub struct UploadedFileEntry {
    pub name: String,
    pub path: String,
    pub size: u64,
    pub modified_at: String,
}

/// The list of previously uploaded files.
#[derive(Clone, Debug)]
pub struct UploadedFilesListResponse {
    pub files: Vec<UploadedFileEntry>,
}

/// Statistics of the vector index.
#[derive(Clone, Debug)]
pub struct IndexStatsResponse {
    pub total_vectors: u64,
    pub total_metadata: u64,
    pub index_path: String,
    pub metadata_path: String,
    pub index_size_bytes: u64,
    pub metadata_size_bytes: u64,
}

/// The API key configuration; the key itself is never exposed.
#[derive(Clone, Debug)]
pub struct ApiKeysResponse {
    pub llm_provider: String,
    pub cloud_api_key_set: bool,
    pub cloud_base_url: String,
    pub cloud_model: String,
}

/// A partial update of the API key configuration.
#[derive(Clone, Debug, Default)]
pub struct ApiKeysUpdateRequest {
    pub llm_provider: Option<String>,
    pub cloud_api_key: Option<String>,
    pub cloud_base_url: Option<String>,
    pub cloud_model: Option<String>,
}

/// One model offered by the cloud provider.
#[derive(Clone, Debug)]
pub struct CloudModelEntry {
    pub id: String,
    pub owned_by: String,
}

/// The cloud provider's model list.
#[derive(Clone, Debug)]
pub struct CloudModelsResponse {
    pub models: Vec<CloudModelEntry>,
}

/// A request to test a cloud connection, optionally with overrides.
#[derive(Clone, Debug, Default)]
pub struct ConnectionTestRequest {
    pub base_url: Option<String>,
    pub api_key: Option<String>,
}

/// The outcome of a cloud connection test.
#[derive(Clone, Debug)]
pub struct ConnectionTestResponse {
    pub success: bool,
    pub message: String,
    pub models_count: Option<u64>,
}

/// A named provider configuration to create.
#[derive(Clone, Debug)]
pub struct ApiProfileCreate {
    pub id: String,
    pub name: String,
    pub llm_provider: String,
    pub cloud_api_key: Option<String>,
    pub cloud_base_url: String,
    pub cloud_model: String,
}

/// A stored provider configuration; its key is never exposed.
#[derive(Clone, Debug, PartialEq)]
pub struct ApiProfileSummary {
    pub id: String,
    pub name: String,
    pub llm_provider: String,
    pub cloud_api_key_set: bool,
    pub cloud_base_url: String,
    pub cloud_model: String,
}

/// The stored provider configurations and which one is active.
#[derive(Clone, Debug)]
pub struct ApiProfileListResponse {
    pub profiles: Vec<ApiProfileSummary>,
    pub active_profile_id: Option<String>,
}

} // verus!
