//! Verified core of the Qingmo novel-writing workbench.
pub mod text;
pub mod markdown;
pub mod date;
pub mod models;
pub mod outline;
pub mod find;
pub mod llm;
pub mod cli;
pub mod foreshadows;
pub mod files;
pub mod editing;
pub mod context;
pub mod objects;
pub mod history;
pub mod session;
