//! Sequence diagrams: a verified parser for the text format, actor
//! resolution, colour handling and the decisions that the renderer takes.

pub mod actors;
pub mod ast;
pub mod cli;
pub mod color;
pub mod diagram_index;
pub mod error;
pub mod font;
pub mod json;
pub mod note_files;
pub mod parse;
pub mod plan;
pub mod svg;
pub mod text;
pub mod theme;

pub use actors::resolve_actors;
pub use ast::{
    ActivationModifier, Arrow, Document, FrameKind, HeadStyle, LineStyle, NotePosition, Statement,
};
pub use error::SeqDiagramError;
pub use parse::parse_document;
