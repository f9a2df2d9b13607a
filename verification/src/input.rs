//! Request and configuration shapes of the read surface.  The transport
//! layer decodes requests into these and hands them to the query logic.

use vstd::prelude::*;

verus! {

/// Request body for registering a website with the registry.
pub struct CreateWebsite {
    pub url: String,
    pub name: Option<String>,
    pub email: Option<String>,
}

/// A website as the read surface presents it.
pub struct Website {
    pub url: String,
    pub name: Option<String>,
}

/// Request body for updating a registered website.
pub struct UpdateWebsite {
    pub url: Option<String>,
    pub name: Option<String>,
    pub email: Option<String>,
}

/// Request body for registering a region.
pub struct CreateRegion {
    pub name: String,
}

/// Query-string parameters of the health queries: an optional lookback in
/// days and an optional region to filter on.
pub struct TickQuery {
    pub days: Option<i64>,
    pub region: Option<String>,
}

/// Mathematical image of a [`TickQuery`].
pub struct TickQueryModel {
    pub days: Option<int>,
    pub region: Option<Seq<char>>,
}

impl View for TickQuery {
    type V = TickQueryModel;

    open spec fn view(&self) -> TickQueryModel {
        TickQueryModel {
            days: match self.days {
                Option::Some(d) => Option::Some(d as int),
                Option::None => Option::None,
            },
            region: match self.region {
                Option::Some(r) => Option::Some(r@),
                Option::None => Option::None,
            },
        }
    }
}

/// Connection settings of the time-series store.
#[derive(Clone)]
pub struct InfluxConfig {
    pub url: String,
    pub token: String,
    pub org: String,
}

} // verus!
