//! Rewrites desktop launcher files: the single `[Desktop Entry]` section is
//! validated, its `MimeType` list is parsed and stripped of a fixed denylist
//! of document formats, and the file body is re-rendered with a fixed
//! allowlist of keys followed by the filtered `MimeType` line.

pub mod laws;
pub mod mime;
pub mod model;
pub mod pipeline;
pub mod render;
pub mod text;
