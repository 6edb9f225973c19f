//! A streaming text formatter: structural events (open/close an object or an
//! array, key-value pairs, elements) are rendered into a JSON-like document,
//! either pretty-printed (indented, multi-line) or compact (single line).
//!
//! The core is the stateful [`Context`] writer behind the [`JsonWriter`]
//! event API: it tracks nesting depth and a two-state cursor to decide when
//! commas, newlines and indentation are emitted.  Every event method carries a
//! contract that pins the emitted text down exactly, stated over the ghost
//! [`model::WriterModel`]; the laws module proves the global layout
//! guarantees (comma placement, whitespace equivalence of the two modes,
//! balance of the indent level).

pub mod laws;
pub mod model;
pub mod tree;
pub mod writer;

pub use model::Cursor;
pub use model::Event;
pub use model::WriterModel;
pub use tree::Object;
pub use tree::ValueType;
pub use tree::generate;
pub use writer::Context;
pub use writer::JsonWriter;
