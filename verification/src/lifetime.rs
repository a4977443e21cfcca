//! The three lifetimes under which a store keeps its records.

use vstd::prelude::*;

verus! {

/// How long a record is kept. The order of the variants is the order in
/// which a store is read, and a later lifetime takes precedence.
#[derive(Clone, Copy, Debug, PartialEq, Eq, Structural)]
pub enum Lifetime {
    /// Kept until the ping it belongs to has been assembled.
    Ping,
    /// Kept for as long as the application runs.
    Application,
    /// Kept across runs of the application.
    User,
}

impl Lifetime {
    /// The place of the lifetime in the order of reading: 0, 1 or 2.
    pub open spec fn rank(self) -> int {
        match self {
            Lifetime::Ping => 0,
            Lifetime::Application => 1,
            Lifetime::User => 2,
        }
    }
}

} // verus!
