//! Incremental rebuild engine for a static-site generator.
//!
//! The crate fingerprints a project's content files, diffs two fingerprint
//! snapshots into a change classification, expands a classification into the
//! set of render targets that must be rewritten, and offers the predicates a
//! renderer consults before writing each output artifact, together with the
//! debounced watch-loop state machine that drives rebuilds during a live
//! session. The text utilities the generator applies along the way (slugs,
//! escaping, excerpts, minification, shortcode syntax) live here as well.

pub mod assets;
pub mod cache;
pub mod dates;
pub mod digest_map;
pub mod escapes;
pub mod excerpt;
pub mod frontmatter;
pub mod hashing;
pub mod minify;
pub mod paths;
pub mod redirect;
pub mod search_text;
pub mod shortcode;
pub mod strutil;
pub mod targets;
pub mod text;
pub mod types;
pub mod watch;
pub mod xml;
