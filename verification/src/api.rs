//! Plain data carried between the UI layer and the generator
//! collaborators: request/response shapes and small view-model structs.
//! The shell around the library serialises its own copies of these; here
//! they are plain values the verified logic can hold.

use vstd::prelude::*;

verus! {

/// Which generator a key or a panel belongs to.
#[derive(Debug, Clone, Copy, PartialEq, Eq, Structural)]
pub enum GenModel {
    OpenAI,
    ElevenLabs,
}

/// The API keys the session holds for the two generator services.
#[derive(Debug, Clone, PartialEq, Default)]
pub struct ApiKeys {
    pub open_ai: String,
    pub eleven_labs: String,
}

/// The properties of a key-entry panel.
#[derive(Debug, Clone, PartialEq)]
pub struct ApiKeyProps {
    pub model: GenModel,
}

/// The properties of an add-field panel: the path of the object it grows.
#[derive(Debug, Clone, PartialEq)]
pub struct BuildJsonObjectProps {
    pub path: Vec<String>,
}

/// A role of a chat message sender.
#[derive(Debug, Clone, Copy, PartialEq, Eq, Structural)]
pub enum Role {
    System,
    Assistant,
    User,
    Function,
}

/// One chat message: who sent it and what it says.
#[derive(Debug, Clone, PartialEq)]
pub struct ChatMessage {
    pub role: Role,
    pub content: String,
}

/// The token usage of a completion response.
#[derive(Debug, Clone, PartialEq, Default)]
pub struct TokenUsage {
    pub prompt_tokens: u32,
    pub completion_tokens: u32,
    pub total_tokens: u32,
}

/// One completion choice of a chat response.
#[derive(Debug, Clone, PartialEq)]
pub struct MessageChoice {
    pub message: ChatMessage,
    pub finish_reason: String,
    pub index: u32,
}

/// A chat-completion response.
#[derive(Debug, Clone, PartialEq, Default)]
pub struct CompletionResponse {
    pub message_id: Option<String>,
    pub created_timestamp: Option<u64>,
    pub model: String,
    pub usage: TokenUsage,
    pub message_choices: Vec<MessageChoice>,
}

/// The properties of the panel that lists completion choices.
#[derive(Debug, Clone, PartialEq)]
pub struct MessageChoicesProps {
    pub choices: Vec<MessageChoice>,
}

/// One generated image: its URL.
#[derive(Debug, Clone, PartialEq, Default)]
pub struct ImageObject {
    pub url: String,
}

/// An image-generation response: when it was created and the image URLs.
#[derive(Debug, Clone, PartialEq, Default)]
pub struct DallEResponse {
    pub created_timestamp: Option<u64>,
    pub data: Vec<ImageObject>,
}

/// One uploaded voice sample of a speech-synthesis voice.
#[derive(Debug, Clone, PartialEq)]
pub struct VoiceSample {
    pub sample_id: String,
    pub file_name: String,
    pub mime_type: String,
    pub size_bytes: Option<i64>,
    pub hash: String,
}

} // verus!
