//! The verified core of bashrs.

pub mod ai_fingerprint;
pub mod anti_ai;
pub mod args;
pub mod autogen_lookup;
pub mod autogen_styles;
pub mod autogen_treegrep;
pub mod bashrs;
pub mod builtins;
pub mod bytes;
pub mod comfy_repos;
pub mod download;
pub mod filesystem;
pub mod generators;
pub mod git;
pub mod json;
pub mod lookup;
pub mod macros;
pub mod media;
pub mod metadata;
pub mod network;
pub mod numbers;
pub mod packages;
pub mod paths;
pub mod patterns;
pub mod processes;
pub mod project;
pub mod python;
pub mod sequences;
pub mod session;
pub mod style;
pub mod text;
pub mod theme;
pub mod toml_document;
