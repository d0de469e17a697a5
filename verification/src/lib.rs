//! Translation of a Gemini event stream into a Messages one.
//!
//! `create_claude_sse_stream` makes a stream, and `ClaudeSseStream::advance`
//! answers each thing that happens upstream with the chunks to send. What the
//! chunks hold is stated over `frame::FrameView`. What holds of a stream as a
//! whole is proved in `laws`, `protocol`, `fitting`, `client` and `plain`; what a
//! client reads of what came from upstream, in `reading`, `ending` and `pages`;
//! and what the single operations are for, in `meaning`.

pub mod buffer;
pub mod client;
pub mod ending;
pub mod fitting;
pub mod frame;
pub mod json;
pub mod laws;
pub mod line;
pub mod log;
pub mod meaning;
pub mod pages;
pub mod part;
pub mod plain;
pub mod protocol;
pub mod reading;
pub mod search;
pub mod sources;
pub mod state;
pub mod stream;
pub mod text;
pub mod usage;

pub use crate::json::Json;
pub use crate::line::{process_response, process_sse_line};
pub use crate::log::{Completion, LogEntry};
pub use crate::part::{FunctionCall, GeminiPart};
pub use crate::search::process_grounding_metadata;
pub use crate::state::{emit_force_stop, BlockType, StreamOptions, StreamingState};
pub use crate::stream::{create_claude_sse_stream, ClaudeSseStream, UpstreamEvent};
pub use crate::usage::{Usage, UsageMetadata};
