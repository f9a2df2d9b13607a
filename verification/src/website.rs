//! The registry's website record, as the pipeline reads it.

use vstd::prelude::*;

verus! {

/// One registered website: its stable id and the URL to probe.
pub struct Website {
    pub id: String,
    pub url: String,
}

} // verus!
