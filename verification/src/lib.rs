//! Source positions, diagnostics and their rendering for the Cosy compiler.
//!
//! - [`span`]: byte ranges within a file, and ranges qualified by their file.
//! - [`lines`]: the line index of a text, and the search from a byte offset
//!   to its line and column.
//! - [`source`]: the registry of source files, which tells changed files from
//!   unchanged ones by the hash of their content.
//! - [`persist`]: saving and loading the manifest of that registry.
//! - [`paths`]: the form under which paths are recorded.
//! - [`message`] and [`error`]: diagnostics and the issue manager that
//!   collects them.
//! - [`pretty`]: the printer that escapes, indents and styles terminal text.
//! - [`reporting`]: the compact and the rich renderer of diagnostics.
//!
//! Nothing in this crate reads or writes files or the terminal: file
//! contents are handed in, and rendered text is appended to a `String`.

pub mod span;
pub mod text;
pub mod pretty;
pub mod lines;
pub mod source;
pub mod message;
pub mod error;
pub mod reporting;
pub mod persist;
pub mod paths;
