//! Verified logic of the Trim disk tidying tool.

pub mod bench;
pub mod cleanup_scan;
pub mod clock;
pub mod commands;
pub mod deletable;
pub mod doc_groups;
pub mod docx;
pub mod double;
pub mod duplicates;
pub mod empty;
pub mod events;
pub mod glob;
pub mod groups;
pub mod json;
pub mod laws;
pub mod md5;
pub mod numbers;
pub mod numeral;
pub mod oneline;
pub mod order;
pub mod paths;
pub mod perf;
pub mod protect;
pub mod roundtrip;
pub mod rulepath;
pub mod scan;
pub mod similar;
pub mod slots;
pub mod text;
pub mod url;
pub mod value;
pub mod version;
pub mod wildcard;
pub mod world;
