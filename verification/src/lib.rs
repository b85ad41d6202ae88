//! Verified core of a static blog generator.
//!
//! The library turns markdown posts into HTML pages: an HTML-safety layer
//! (`HtmlSafe`, `Tag`), an image-optimization planner with mtime caching,
//! a markdown event rewriter that emits `<figure>` markup, page templating,
//! and the build bookkeeping that aggregates per-item outcomes.

pub mod config;
pub mod error;
pub mod html_safe;
pub mod image;
pub mod parser;
pub mod pipeline;
pub mod render;
pub mod tag;
pub mod tag_set;
pub mod template;
pub mod text;
