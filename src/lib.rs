//! Voice-memo note pipeline: the deterministic core that turns a language
//! model's note drafts into cross-linked knowledge-base notes.
//!
//! - `text`: character sequences, search and replacement, wiki-links.
//! - `note`: the note, its date, file name, stem, tags and markdown.
//! - `notes_reader`: metadata of existing notes and frontmatter framing.
//! - `link_resolver`: rewriting of cross-references to canonical stems, and
//!   the laws it obeys.
//! - `prompts`: the instructions and prompts sent to the model.
//! - `config`, `transcription`: configuration and choice of backend.
//! - `tools`, `agent`: the pipeline's tools and its state machine.
pub mod text;
pub mod note;
pub mod notes_reader;
pub mod link_resolver;
pub mod prompts;
pub mod config;
pub mod transcription;
pub mod tools;
pub mod agent;
