//! The commands of the tool.

use vstd::prelude::*;

verus! {

/// A parsed command line.
#[derive(Debug, Clone)]
pub struct Cli {
    pub command: Commands,
}

/// What the tool is asked to do.
#[derive(Debug, Clone)]
pub enum Commands {
    /// Scan the host and store what was found.
    Scan,
    /// Import declared dependencies from a YAML file.
    Import { file: String },
    /// Copy the stored data to the graph database.
    Sync,
    /// Show what depends on a node.
    Impact { node: String },
    /// Show a shortest path between two nodes.
    Path { from: String, to: String },
    /// Incident analysis.
    Incident(IncidentCommands),
    /// Show a stored incident.
    Report { incident: Option<String>, last: bool, format: String },
    /// Create the tables of the relational store.
    Migrate,
}

/// The incident commands.
#[derive(Debug, Clone)]
pub enum IncidentCommands {
    /// Rank the probable causes of a symptom seen on a node.
    Analyze { symptom: String, affected: String },
}

} // verus!
