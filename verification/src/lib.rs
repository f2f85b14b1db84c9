//! Package analysis and manifest update logic.
pub mod analyzer;
pub mod artifact;
pub mod command;
pub mod download;
pub mod error;
pub mod installshield;
pub mod laws;
pub mod manifest;
pub mod markdown;
pub mod merge;
pub mod number;
pub mod pull_request;
pub mod search;
pub mod selector;
pub mod source;
pub mod text;
pub mod time;
pub mod token;
pub mod types;
pub mod unique;
pub mod update;
pub mod versions;
pub mod winget;
pub mod yaml;
