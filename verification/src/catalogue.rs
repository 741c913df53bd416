//! The catalogue of static tables (languages, currencies), read through a
//! database connection.
use vstd::prelude::*;

verus! {

/// A catalogue reader over a borrowed database connection of type `C`.
pub struct CatalogueRepoImpl<'a, C> {
    pub db_conn: &'a C,
}

impl<'a, C> CatalogueRepoImpl<'a, C> {
    /// A reader that uses `db_conn`.
    pub fn new(db_conn: &'a C) -> (r: Self)
        ensures
            *r.db_conn == *db_conn,
    {
        CatalogueRepoImpl { db_conn }
    }
}

} // verus!
