//! Categories under which the node's HTTP API groups its endpoints.
use vstd::prelude::*;

verus! {

/// API categories for the OpenAPI spec
#[derive(Clone, Copy, Debug, PartialEq, Eq, Structural)]
pub enum ApiTags {
    /// Access to accounts, resources, and modules
    Accounts,
    /// Access to blocks
    Blocks,
    /// Access to events
    Events,
    /// Experimental APIs, no guarantees
    Experimental,
    /// General information
    General,
    /// Access to tables
    Tables,
    /// Access to transactions
    Transactions,
    /// View functions,
    View,
}

} // verus!
