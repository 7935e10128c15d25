//! A local coding agent's logic: retrieval, the repo manifest, the symbol
//! index, the chat tools and the agents' prompts and checks.
pub mod agent;
pub mod cache;
pub mod cli;
pub mod config;
pub mod diff;
pub mod exec;
pub mod grammar;
pub mod llm;
pub mod manifest;
pub mod path;
pub mod pattern;
pub mod rag;
pub mod symbols;
pub mod text;
pub mod tools;
pub mod walk;
