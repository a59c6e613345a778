//! The texts the command line is built around, and the cross-command scope.

use vstd::prelude::*;

use crate::cache::Freshness;
use crate::inventory::Environment;

verus! {

// Shared with the zsh completion rewriter, which anchors its dynamic-name
// surgery on these exact strings.
pub const CONNECT_QUERY_HELP: &'static str = "Fuzzy query; connects directly when it matches a single server";

pub const DB_NAME_HELP: &'static str = "Database name; picks interactively when omitted or ambiguous";

pub const PF_QUERY_HELP: &'static str = "Fuzzy query; forwards directly when it matches a single resource";

/// The two cross-command inputs every inventory-backed command needs.
#[derive(Debug, Clone, Copy)]
pub struct Scope {
    pub env: Option<Environment>,
    pub freshness: Freshness,
}

impl Scope {
    /// The scope of `--env` and `--refresh`.
    pub fn new(env: Option<Environment>, refresh: bool) -> (r: Scope)
        ensures
            r.env == env,
            r.freshness == (if refresh {
                Freshness::Refresh
            } else {
                Freshness::CacheOk
            }),
    {
        Scope {
            env,
            freshness: if refresh {
                Freshness::Refresh
            } else {
                Freshness::CacheOk
            },
        }
    }
}

} // verus!
