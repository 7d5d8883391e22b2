use vstd::prelude::*;

verus! {

/// A table of registered file paths: its name and the query that creates it.
#[derive(Debug, Clone)]
pub struct Table {
    pub create_query: String,
    pub table_name: String,
}

} // verus!
