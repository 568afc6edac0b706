//! Core logic of the Hypura inference server: prompt formatting, tool-call
//! parsing, response streaming, model discovery and model switching.
//!
//! Everything here computes on plain values. Reading files, sockets and clocks
//! of the host, and running the models, is left to the surrounding program.

pub mod answer_laws;
pub mod argument_laws;
pub mod blocks;
pub mod call_laws;
pub mod call_syntax;
pub mod chat;
pub mod cleaning;
pub mod cleaning_laws;
pub mod cli;
pub mod cli_laws;
pub mod ids;
pub mod json;
pub mod manager;
pub mod manager_laws;
pub mod manifest;
pub mod mixture_laws;
pub mod number;
pub mod number_laws;
pub mod ollama_types;
pub mod openai;
pub mod openai_types;
pub mod parsing_laws;
pub mod path;
pub mod prompt_laws;
pub mod registry;
pub mod registry_laws;
pub mod routes;
pub mod store_laws;
pub mod streaming;
pub mod streaming_laws;
pub mod syntax_laws;
pub mod text;
pub mod text_laws;
pub mod token_laws;
pub mod tool_calls;
pub mod visible_laws;
