//! Verified core of a personal activity assistant.
//!
//! The assistant captures what the user works on, keeps it in a relational
//! store, and lets a chat engine look up earlier text that is similar to a
//! question. This crate holds the rules of that pipeline: when a text is
//! embedded ([`orchestrator`]), the one index that activities and documents
//! share ([`index`], [`handle`], [`storage`]), how similar texts are found
//! again ([`retrieval`]), and how the embedding service is called again after
//! failures ([`embedding`]). It also holds what the program computes around
//! the pipeline: documents turned into HTML ([`document`]), settings
//! ([`settings`]), projects ([`project`]), metadata ([`metadata`]), captures
//! ([`capture`]), recordings ([`recording`]) and their transcription
//! ([`transcription`]).
//!
//! Nothing here reads a file, a database, the clock or the network. Each
//! function takes what was read as plain values and says what to do next; the
//! program around the crate does the reading and the sending.
//!
//! Embeddings are fixed-point vectors of `i32` components, and the index is
//! searched exactly: similarity is the inner product, computed without
//! rounding.

pub mod capture;
pub mod document;
pub mod embedding;
pub mod handle;
pub mod index;
pub mod metadata;
pub mod orchestrator;
pub mod project;
pub mod record;
pub mod recording;
pub mod retrieval;
pub mod settings;
pub mod similarity;
pub mod storage;
pub mod tag;
pub mod text;
pub mod transcription;
