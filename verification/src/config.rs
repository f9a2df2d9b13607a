//! Configuration of the metadata store connection.  Loading the value from
//! the process environment is the caller's business; the library only
//! carries it.

use vstd::prelude::*;

verus! {

/// Connection settings of the metadata store.
pub struct Config {
    pub db_url: String,
}

} // verus!
