//! Where the stores are and how to reach them.

use vstd::prelude::*;

verus! {

/// The settings of the tool.
#[derive(Debug, Clone)]
pub struct Config {
    pub db_url: String,
    pub neo4j_url: String,
    pub neo4j_user: String,
    pub neo4j_pass: String,
}

/// `v` or, when absent, `default`.
pub open spec fn or_default(v: Option<String>, default: Seq<char>) -> Seq<char> {
    match v {
        Some(s) => s@,
        None => default,
    }
}

fn value_or(v: Option<String>, default: &str) -> (r: String)
    ensures
        r@ == or_default(v, default@),
{
    match v {
        Some(s) => s,
        None => String::from_str(default),
    }
}

impl Config {
    /// The settings from the values of `ROOTMAP_DB_URL`, `ROOTMAP_NEO4J_URL`,
    /// `ROOTMAP_NEO4J_USER` and `ROOTMAP_NEO4J_PASS`, with the defaults for
    /// those that are not set.
    pub fn from_values(
        db_url: Option<String>,
        neo4j_url: Option<String>,
        neo4j_user: Option<String>,
        neo4j_pass: Option<String>,
    ) -> (c: Config)
        ensures
            c.db_url@ == or_default(db_url, "sqlite://rootmap.db"@),
            c.neo4j_url@ == or_default(neo4j_url, "127.0.0.1:7687"@),
            c.neo4j_user@ == or_default(neo4j_user, "neo4j"@),
            c.neo4j_pass@ == or_default(neo4j_pass, "rootmap123"@),
    {
        Config {
            db_url: value_or(db_url, "sqlite://rootmap.db"),
            neo4j_url: value_or(neo4j_url, "127.0.0.1:7687"),
            neo4j_user: value_or(neo4j_user, "neo4j"),
            neo4j_pass: value_or(neo4j_pass, "rootmap123"),
        }
    }
}

} // verus!
