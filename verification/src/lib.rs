//! A verified markup-to-rich-text conversion engine for forum threads.
//!
//! The engine walks the node tree of one message body and produces an
//! ordered sequence of styled text runs, then groups those runs into
//! paragraphs with citation-aware indentation and author headings that
//! collapse across consecutive messages by the thread owner.

pub mod assemble;
pub mod client;
pub mod error;
pub mod node;
pub mod post;
pub mod style;
pub mod text;
pub mod walker;

