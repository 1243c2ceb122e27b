//! The rules of a guardrails filter for AI traffic.
//!
//! An external provider evaluates the messages in Chat Completion requests and
//! responses, and answers with a verdict. The library decides which bodies are
//! evaluated, finds the messages in them, and enforces the verdicts: it passes
//! bodies on, rejects requests, masks texts, and replaces responses without
//! changing their announced length.

pub mod error;
pub mod extract;
pub mod filter;
pub mod framing;
pub mod json;
pub mod media;
pub mod providers;
pub mod redact;
pub mod results;
pub mod verdict;
pub mod wire;

pub use filter::AiGuardrailsFilter;
pub use providers::{GuardPhase, GuardResult};
