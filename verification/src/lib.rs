//! Rendering of Gemtext documents as HTML fragments.
//!
//! The crate turns a sequence of block-level document nodes into one HTML
//! string. Consecutive list items are wrapped in a single `<ul>` element,
//! consecutive quote lines in a single `<blockquote>` element, and every
//! piece of text is escaped before it is embedded in the markup.
//!
//! - [`escape`] holds the escaping of text and what is known of it;
//! - [`node`] the nodes of a document and their model;
//! - [`render`] the renderer and the model of its output;
//! - [`runs`] what is proved of the wrapper tags in that output;
//! - [`document`] the conversion of source text, through the parser.

pub mod document;
pub mod escape;
pub mod node;
pub mod render;
pub mod runs;

pub use document::{accepts, gmi2html, try_gmi2html};
pub use escape::{entity_escape_char, html_escape};
pub use node::{Node, RunState};
pub use render::nodes2html;
