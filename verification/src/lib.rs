//! A compile-cache-execute pipeline for inline token transformations.
//!
//! A transformation unit — a block of source text declaring functions from
//! token sequences to token sequences — is lexed and parsed (`lex`, `ast`,
//! `parse`), its tagged functions are validated and rewritten into
//! sandbox-exportable form (`extract`), the rewritten unit is serialized
//! back to text (`emit`) and handed to an external bytecode compiler whose
//! command line and epilogue `toolchain` fixes; the resulting artifact is
//! cached by file modification time and addressed by content hash (`cache`,
//! `hash`); one deferred binding per export is generated (`stub`); and at a
//! binding's use the dispatcher decodes the call, marshals the payload into
//! the sandbox's buffer convention and reads back every possible outcome
//! (`dispatch`). Failures are formatted with source-span context (`diag`).
//! `pipeline` ties the decisions together and states the pipeline's laws.

pub mod ast;
pub mod cache;
pub mod diag;
pub mod dispatch;
pub mod emit;
pub mod extract;
pub mod hash;
pub mod lex;
pub mod parse;
pub mod pipeline;
pub mod stub;
pub mod text;
pub mod tok;
pub mod toolchain;

pub use cache::already_up_to_date;
