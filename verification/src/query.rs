//! The three health queries as deterministic filters.
//!
//! A query is composed as a small filter value — measurement, field,
//! target-id equality, status equality, a lookback lower bound, and an
//! optional region equality that is omitted entirely when no region is
//! requested — and only then rendered into the store's textual query
//! language.  Identifiers are validated at this boundary, so a target or
//! region id can never smuggle syntax into the rendered expression.

use vstd::prelude::*;
use vstd::string::{StrSliceExecFns, StringExecFns};
use crate::input::TickQuery;
use crate::model::{spec_status_label, status_label, Status};

verus! {

/// Rejection of a query request at the filter-builder boundary.
#[derive(Clone, Copy, Debug, PartialEq, Eq, Structural)]
pub enum QueryError {
    /// The target id holds a character that identifiers may not carry.
    InvalidTargetId,
    /// The requested region holds a character that identifiers may not
    /// carry.
    InvalidRegionId,
}

/// One store filter: everything the three read operations vary on.
#[derive(Debug)]
pub struct Filter {
    pub target_id: String,
    pub status: Status,
    pub lookback_days: i64,
    pub region: Option<String>,
    pub last_only: bool,
}

/// Mathematical image of a [`Filter`].
pub struct FilterModel {
    pub target_id: Seq<char>,
    pub status: Status,
    pub lookback_days: int,
    pub region: Option<Seq<char>>,
    pub last_only: bool,
}

impl View for Filter {
    type V = FilterModel;

    open spec fn view(&self) -> FilterModel {
        FilterModel {
            target_id: self.target_id@,
            status: self.status,
            lookback_days: self.lookback_days as int,
            region: match self.region {
                Option::Some(r) => Option::Some(r@),
                Option::None => Option::None,
            },
            last_only: self.last_only,
        }
    }
}

/// The closed set of lookback windows: 1, 7 or 30 days; any other request
/// falls back to 1 day.
pub open spec fn spec_normalize_days(d: int) -> int {
    if d == 1 || d == 7 || d == 30 {
        d
    } else {
        1
    }
}

/// Normalizes a requested lookback to the closed set {1, 7, 30}.
pub fn normalize_days(d: i64) -> (r: i64)
    ensures
        r as int == spec_normalize_days(d as int),
{
    if d == 1 || d == 7 || d == 30 {
        d
    } else {
        1
    }
}

/// Characters an identifier may carry: ASCII letters, digits, `-` and `_`.
/// Quotes, backslashes and the store's syntax can never appear, so an
/// identifier interpolated into a rendered filter stays a plain value.
pub open spec fn safe_id_char(c: char) -> bool {
    ||| ('a' as int) <= (c as int) <= ('z' as int)
    ||| ('A' as int) <= (c as int) <= ('Z' as int)
    ||| ('0' as int) <= (c as int) <= ('9' as int)
    ||| c == '-'
    ||| c == '_'
}

/// A valid identifier: non-empty and made of safe characters only.
pub open spec fn safe_id(s: Seq<char>) -> bool {
    s.len() > 0 && forall|i: int| 0 <= i < s.len() ==> safe_id_char(#[trigger] s[i])
}

/// Checks an identifier at the filter-builder boundary.
pub fn is_safe_id(s: &str) -> (b: bool)
    ensures
        b == safe_id(s@),
{
    let n = s.unicode_len();
    if n == 0 {
        return false;
    }
    let mut i: usize = 0;
    while i < n
        invariant
            i <= n,
            n == s@.len(),
            forall|j: int| 0 <= j < i ==> safe_id_char(#[trigger] s@[j]),
        decreases n - i,
    {
        let c = s.get_char(i);
        let u = c as u32;
        let ok = (('a' as u32) <= u && u <= ('z' as u32)) || (('A' as u32) <= u && u <= (
        'Z' as u32)) || (('0' as u32) <= u && u <= ('9' as u32)) || c == '-' || c == '_';
        if !ok {
            return false;
        }
        i = i + 1;
    }
    true
}

/// A requested region counts only when present and non-empty; an absent or
/// empty region means "no region clause at all".
pub open spec fn spec_effective_region(region: Option<Seq<char>>) -> Option<Seq<char>> {
    match region {
        Option::Some(r) => if r.len() == 0 {
            Option::None
        } else {
            Option::Some(r)
        },
        Option::None => Option::None,
    }
}

/// What building a filter yields: the target id must be a valid identifier,
/// and so must the region when one is effectively requested; the lookback is
/// normalized to the closed set.  Each error names exactly the identifier
/// that was rejected.
pub open spec fn spec_build_filter(
    target: Seq<char>,
    status: Status,
    days: int,
    region: Option<Seq<char>>,
    last_only: bool,
) -> Result<FilterModel, QueryError> {
    let eff = spec_effective_region(region);
    if !safe_id(target) {
        Result::Err(QueryError::InvalidTargetId)
    } else if eff is Some && !safe_id(eff->0) {
        Result::Err(QueryError::InvalidRegionId)
    } else {
        Result::Ok(
            FilterModel {
                target_id: target,
                status,
                lookback_days: spec_normalize_days(days),
                region: eff,
                last_only,
            },
        )
    }
}

/// An exec filter result models its specified counterpart.
pub open spec fn filter_result_models(
    r: Result<Filter, QueryError>,
    m: Result<FilterModel, QueryError>,
) -> bool {
    match r {
        Result::Ok(f) => m is Ok && f@ == m->Ok_0,
        Result::Err(e) => m is Err && e == m->Err_0,
    }
}

/// View of an optional borrowed region argument.
pub open spec fn spec_region_arg(region: Option<&String>) -> Option<Seq<char>> {
    match region {
        Option::Some(r) => Option::Some(r@),
        Option::None => Option::None,
    }
}

fn build_filter(
    target_id: &str,
    status: Status,
    days: i64,
    region: Option<&String>,
    last_only: bool,
) -> (r: Result<Filter, QueryError>)
    ensures
        filter_result_models(
            r,
            spec_build_filter(target_id@, status, days as int, spec_region_arg(region), last_only),
        ),
{
    if !is_safe_id(target_id) {
        return Result::Err(QueryError::InvalidTargetId);
    }
    let eff: Option<String> = match region {
        Option::Some(r) => if r.as_str().unicode_len() == 0 {
            Option::None
        } else {
            Option::Some(r.clone())
        },
        Option::None => Option::None,
    };
    match &eff {
        Option::Some(r) => {
            if !is_safe_id(r.as_str()) {
                return Result::Err(QueryError::InvalidRegionId);
            }
        },
        Option::None => {},
    }
    Result::Ok(
        Filter {
            target_id: target_id.to_owned(),
            status,
            lookback_days: normalize_days(days),
            region: eff,
            last_only,
        },
    )
}

/// The lookback a tick query requests: its `days`, defaulting to 1.
pub open spec fn spec_query_days(q: TickQuery) -> int {
    match q.days {
        Option::Some(d) => d as int,
        Option::None => 1,
    }
}

/// The region a tick query requests, before the empty-region collapse.
pub open spec fn spec_query_region(q: TickQuery) -> Option<Seq<char>> {
    match q.region {
        Option::Some(r) => Option::Some(r@),
        Option::None => Option::None,
    }
}

/// Builds the range-query filter: `Up` samples of the target within the
/// requested lookback window, optionally restricted to one region.
pub fn uptime_query_filter(target_id: &str, q: &TickQuery) -> (r: Result<Filter, QueryError>)
    ensures
        filter_result_models(
            r,
            spec_build_filter(target_id@, Status::Up, spec_query_days(*q), spec_query_region(*q), false),
        ),
{
    let days = match q.days {
        Option::Some(d) => d,
        Option::None => 1,
    };
    let region = match &q.region {
        Option::Some(r) => Option::Some(r),
        Option::None => Option::None,
    };
    build_filter(target_id, Status::Up, days, region, false)
}

/// Builds the downtime-range filter: identical to the range query but
/// restricted to `Down` samples.
pub fn downtime_query_filter(target_id: &str, q: &TickQuery) -> (r: Result<Filter, QueryError>)
    ensures
        filter_result_models(
            r,
            spec_build_filter(target_id@, Status::Down, spec_query_days(*q), spec_query_region(*q), false),
        ),
{
    let days = match q.days {
        Option::Some(d) => d,
        Option::None => 1,
    };
    let region = match &q.region {
        Option::Some(r) => Option::Some(r),
        Option::None => Option::None,
    };
    build_filter(target_id, Status::Down, days, region, false)
}

/// Builds the last-downtime filter: `Down` samples within a fixed 30-day
/// lookback, keeping only the most recent one.  The query's `days` plays no
/// part here.
pub fn last_downtime_query_filter(target_id: &str, q: &TickQuery) -> (r: Result<
    Filter,
    QueryError,
>)
    ensures
        filter_result_models(
            r,
            spec_build_filter(target_id@, Status::Down, 30, spec_query_region(*q), true),
        ),
{
    let region = match &q.region {
        Option::Some(r) => Option::Some(r),
        Option::None => Option::None,
    };
    build_filter(target_id, Status::Down, 30, region, true)
}

/// The lookback fragment of a rendered filter.
pub open spec fn spec_days_frag(days: int) -> Seq<char> {
    if days == 7 {
        "-7d"@
    } else if days == 30 {
        "-30d"@
    } else {
        "-1d"@
    }
}

/// The region clause of a rendered filter: omitted entirely — not emitted
/// empty — when no region is requested.
pub open spec fn spec_region_frag(region: Option<Seq<char>>) -> Seq<char> {
    match region {
        Option::Some(r) => " |> filter(fn: (r) => r[\"region_id\"] == \""@ + r + "\")"@,
        Option::None => Seq::empty(),
    }
}

/// The closing line of a rendered filter: the most-recent-sample selection
/// for a last-downtime query, the ascending time sort otherwise.
pub open spec fn spec_tail_frag(last_only: bool) -> Seq<char> {
    if last_only {
        "\n    |> last()"@
    } else {
        "\n    |> sort(columns: [\"_time\"])"@
    }
}

/// The rendered text of a filter, clause by clause in a fixed order.
pub open spec fn spec_flux(f: FilterModel) -> Seq<char> {
    "from(bucket: \"website_ticks\")\n    |> range(start: "@ + spec_days_frag(f.lookback_days)
        + ")\n    |> filter(fn: (r) => r[\"_measurement\"] == \"website_tick\")\n    |> filter(fn: (r) => r[\"_field\"] == \"response_time_ms\")\n    |> filter(fn: (r) => r[\"website_id\"] == \""@
        + f.target_id + "\")"@ + spec_region_frag(f.region)
        + "\n    |> filter(fn: (r) => r[\"status\"] == \""@ + spec_status_label(f.status) + "\")"@
        + spec_tail_frag(f.last_only)
}

/// Renders a filter into the store's textual query language.  The result is
/// exactly the clause sequence of `spec_flux`: deterministic in the filter
/// alone.
pub fn render_flux(f: &Filter) -> (q: String)
    ensures
        q@ == spec_flux(f@),
{
    let mut s = String::new();
    s.append("from(bucket: \"website_ticks\")\n    |> range(start: ");
    if f.lookback_days == 7 {
        s.append("-7d");
    } else if f.lookback_days == 30 {
        s.append("-30d");
    } else {
        s.append("-1d");
    }
    s.append(
        ")\n    |> filter(fn: (r) => r[\"_measurement\"] == \"website_tick\")\n    |> filter(fn: (r) => r[\"_field\"] == \"response_time_ms\")\n    |> filter(fn: (r) => r[\"website_id\"] == \"",
    );
    s.append(f.target_id.as_str());
    s.append("\")");
    match &f.region {
        Option::Some(r) => {
            s.append(" |> filter(fn: (r) => r[\"region_id\"] == \"");
            s.append(r.as_str());
            s.append("\")");
        },
        Option::None => {},
    }
    s.append("\n    |> filter(fn: (r) => r[\"status\"] == \"");
    s.append(status_label(f.status));
    s.append("\")");
    if f.last_only {
        s.append("\n    |> last()");
    } else {
        s.append("\n    |> sort(columns: [\"_time\"])");
    }
    proof {
        assert(s@ =~= spec_flux(f@));
    }
    s
}

/// Law: a lookback outside the closed set {1, 7, 30} builds exactly the
/// filter a lookback of 1 builds — in particular, requesting 14 days
/// behaves identically to requesting 1 day, for every target, status and
/// region.
pub proof fn lemma_lookback_fallback(
    target: Seq<char>,
    status: Status,
    days: int,
    region: Option<Seq<char>>,
    last_only: bool,
)
    requires
        !(days == 1 || days == 7 || days == 30),
    ensures
        spec_build_filter(target, status, days, region, last_only) == spec_build_filter(
            target,
            status,
            1,
            region,
            last_only,
        ),
{
}

} // verus!
