//! A streaming-safe, injection-safe micro-Markdown rendering engine.
//!
//! The engine turns assistant-authored text (Markdown with fenced code,
//! tables, lists, blockquotes, headings, inline and display math) into an
//! HTML fragment that is safe to inject into a container element.  Every
//! function of the engine is specified against a mathematical model of the
//! grammar, and the central escaping invariant (no user-controlled text
//! reaches the output without passing through an escaping function) is
//! stated and proved over that model.
//!
//! Around the engine stand the small verified pieces of the chat client
//! that are plain computation: framing of server-sent events, session
//! titles, file-name classification, and the data models shared with the
//! backend.

pub mod chartext;
pub mod escape;
pub mod inline;
pub mod lines;
pub mod blocks;
pub mod render;
pub mod sse;
pub mod models;
pub mod textinfo;
