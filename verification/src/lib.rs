//! Extraction of documentation articles from tagged comment blocks.

pub mod article;
pub mod config;
pub mod driver;
pub mod generator;
pub mod git;
pub mod keyword;
pub mod matching;
pub mod order;
pub mod parser;
pub mod plugins;
pub mod prefilter;
pub mod scan;
pub mod sections;
pub mod text;
