//! Markdown to HTML rendering with math spans and highlighted code blocks.
//!
//! The parser, the syntax highlighter and the LaTeX converter are outside
//! crates; this library verifies the event-stream state machine between them,
//! the boundary-aware math scanner, and the markup that it builds around the
//! converters' results.
pub mod events;
pub mod highlight;
pub mod machine;
pub mod math;
pub mod render;
pub mod scanner;
pub mod text;

pub use events::{MdEvent, Piece};
pub use machine::{process_events, Mode};
pub use math::render_math;
pub use render::{render_markdown, render_markdown_with};
pub use scanner::scan_text;
