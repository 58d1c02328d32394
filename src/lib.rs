//! Note indexing and listing engine: front-matter framing, directory walk
//! classification, ordered index, width statistics and render modes.

pub mod cli;
pub mod create;
pub mod error;
pub mod frontmatter;
pub mod index;
pub mod list;
pub mod markdown;
pub mod notebook;
pub mod render;
pub mod save;
pub mod stack;
pub mod switch;
pub mod system;
pub mod text;
pub mod walker;
pub mod workspace;
