//! Terminal Markdown preview.
pub mod block;
pub mod catmode;
pub mod formula;
pub mod grammar;
pub mod highlight;
pub mod markdown;
pub mod math;
pub mod mermaid;
pub mod node;
pub mod parser;
pub mod png;
pub mod render;
pub mod session;
pub mod table;
pub mod text;
pub mod visible;
