//! Grep for cloud storage: the search, decoding, filtering and formatting
//! logic behind the `cloudgrepper` command.

pub mod json;
pub mod text;
pub mod decompress;
pub mod cli;
pub mod pyjson;
pub mod logparse;
pub mod output;
pub mod search;
pub mod filters;
pub mod runner;
pub mod yara;
