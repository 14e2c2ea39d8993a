//! Dependency mapping for Linux hosts: parsers for the text that system tools
//! print, the dependency heuristics, impact trees and incident scoring.

pub mod analysis;
pub mod cli;
pub mod collectors;
pub mod config;
pub mod graph;
pub mod models;
pub mod output;
pub mod storage;
pub mod text;
