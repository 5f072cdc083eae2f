//! Shared access to a database connection.
use std::sync::Arc;
use vstd::prelude::*;

verus! {

/// Holds one shared connection, handed to every loader that needs it.
pub struct Database<C> {
    pub connection: Arc<C>,
}

impl<C> Database<C> {
    /// Shares `connection`.
    pub fn new(connection: C) -> (r: Self)
        ensures
            *r.connection == connection,
    {
        Database { connection: Arc::new(connection) }
    }

    /// The shared connection.
    pub fn get_connection(&self) -> (r: &C)
        ensures
            *r == *self.connection,
    {
        &*self.connection
    }
}

} // verus!
