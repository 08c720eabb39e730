//! Discord-flavoured markup: a parser that turns a message into a tree, and
//! a renderer that writes the tree as HTML.
//!
//! ```text
//! use discord_markdown::{convertor::to_html, parser::parse};
//!
//! let html = to_html(parse("> _**example** formatted_ ||string||"));
//! // <blockquote><em><strong>example</strong> formatted</em>
//! //  <span class="spoiler">string</span></blockquote>
//! ```
//!
//! [`parser::parse`] and [`parser::parse_with_md_hyperlinks`] build a vector
//! of [`parser::Expression`]s. [`convertor::to_html`] renders it with every
//! identifier standing for itself; [`convertor::to_html_with_callbacks`]
//! asks the caller's resolvers for the names behind custom emoji, users,
//! roles and channels.
//!
//! # What is proved
//!
//! Every function but the five named below is verified against its
//! contract, and none of the verified ones panics. The contracts speak of
//! models:
//!
//! * a text is the sequence of its UTF-8 bytes, and offsets count bytes;
//! * a tree is a sequence of [`parser::Node`]s, and [`parser::scan`] says
//!   which tree a text has;
//! * [`convertor::html`] says which HTML a tree has where identifiers stand
//!   for themselves, and [`convertor::renders`] which HTML it may have with
//!   resolvers.
//!
//! The module [`laws`] holds what follows for every text and every tree.
//!
//! # What is taken on trust
//!
//! Five small functions call code that is not verified, and their contracts
//! are believed. The tokens of entities are regular expressions:
//! `captures` in [`pattern`] asks the engine, and
//! [`pattern::regex_captures`] is a name for what it reports, so that the
//! matchers are verified for whatever that is. In [`markup`], `escape` calls
//! `html_escape`, and `is_whitespace`, `trim` and `replace` call the
//! standard library.
//!
//! # Modules
//!
//! * [`text`]: literal tests, searches and slices on the bytes of a string.
//! * [`literal`]: the bytes of the literals of the markup.
//! * [`pattern`]: matching a regular expression at the start of a text.
//! * [`span`], [`entity`], [`matcher`]: the matchers and their priority.
//! * [`parser`]: the tree and the scanner.
//! * [`markup`], [`convertor`]: the pieces of HTML and the renderer.
//! * [`laws`]: the laws.

pub mod text;
pub mod literal;
pub mod pattern;
pub mod span;
pub mod entity;
pub mod matcher;
pub mod parser;
pub mod markup;
pub mod convertor;
pub mod laws;
