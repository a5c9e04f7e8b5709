//! A structured-output assembler: a path-addressed JSON document tree,
//! a positional template-substitution engine driven by tabular records,
//! and a content-injection routine that writes generated text into
//! string leaves of the tree.

pub mod api;
pub mod enumerate;
pub mod inject;
pub mod parse;
pub mod record;
pub mod session;
pub mod template;
pub mod tree;
pub mod value;

pub use api::{
    ApiKeyProps, ApiKeys, BuildJsonObjectProps, ChatMessage, CompletionResponse, DallEResponse,
    GenModel, ImageObject, MessageChoice, MessageChoicesProps, Role, TokenUsage, VoiceSample,
};
pub use record::{Record, RecordCursor};
pub use session::{AppState, AppStateFieldUpdate};
pub use tree::SchemaTree;
pub use value::{FieldType, PathError, SpecValue, Value};
