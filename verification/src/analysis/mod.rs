//! Analyses over the dependency graph: node references, downstream impact
//! trees and incident candidate scoring.

pub mod impact;
pub mod incident;
