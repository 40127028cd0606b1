//! The wire protocols of the bundled model drivers.

pub mod anthropic;
pub mod arguments;
pub mod breakpoints;
pub mod content;
pub mod http;
pub mod openai;
pub mod openresponses;
pub mod openrouter;
pub mod sent_anthropic;
pub mod sent_openai;
pub mod sent_openresponses;
pub mod sim;
pub mod slots;
pub mod sse;
pub mod streamed_anthropic;
pub mod streamed_openai;
pub mod streamed_openresponses;
