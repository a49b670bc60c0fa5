pub mod actions;
pub mod active;
pub mod bytes;
pub mod config;
pub mod diagnosis;
pub mod digest;
pub mod distance;
pub mod document;
pub mod error;
pub mod extension;
pub mod header;
pub mod install;
pub mod nesting;
pub mod operation;
pub mod paths;
pub mod preflight;
pub mod process;
pub mod prompt;
pub mod repair;
pub mod roundtrip;
pub mod session;
pub mod syntax;
pub mod text;
pub mod validation;
pub mod vault;
pub mod workspace;
pub mod writing;
pub mod yaml;
