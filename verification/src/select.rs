//! Meaning of a filter: which stored samples a query answers with, and in
//! what order.  The filter builder is deterministic, so its semantics can
//! be stated — and exercised — over an in-memory sequence of samples,
//! without a live store.

use vstd::prelude::*;
use vstd::multiset::Multiset;
use vstd::seq_lib::group_to_multiset_ensures;
use crate::model::{MetricSample, MetricSampleModel, Status};
use crate::query::{Filter, FilterModel};
use crate::rows::lemma_insert_to_multiset;

verus! {

/// Lower bound of a lookback window of `days` days ending at `now_ms`.
pub open spec fn spec_window_start(now_ms: int, days: int) -> int {
    now_ms - days * 86_400_000
}

/// Whether one sample satisfies a filter at query time `now_ms`: same
/// target, same status, timestamp inside the lookback window, and — only
/// when a region is requested — the same region.
pub open spec fn sample_matches(f: FilterModel, s: MetricSampleModel, now_ms: int) -> bool {
    &&& s.target_id == f.target_id
    &&& s.status == f.status
    &&& spec_window_start(now_ms, f.lookback_days) <= s.timestamp_ms <= now_ms
    &&& match f.region {
        Option::Some(r) => s.region_id == r,
        Option::None => true,
    }
}

/// The samples a filter selects, in store order.
pub open spec fn spec_selected(
    samples: Seq<MetricSampleModel>,
    f: FilterModel,
    now_ms: int,
) -> Seq<MetricSampleModel> {
    samples.filter(|s: MetricSampleModel| sample_matches(f, s, now_ms))
}

/// Models of a vector of samples.
pub open spec fn samples_model(v: Seq<MetricSample>) -> Seq<MetricSampleModel> {
    v.map_values(|s: MetricSample| s@)
}

/// Samples in ascending timestamp order.
pub open spec fn samples_sorted(s: Seq<MetricSampleModel>) -> bool {
    forall|i: int, j: int|
        0 <= i < j < s.len() ==> (#[trigger] s[i]).timestamp_ms <= (#[trigger] s[j]).timestamp_ms
}

/// Decides whether one sample passes the filter at query time `now_ms`.
pub fn matches(f: &Filter, s: &MetricSample, now_ms: i64) -> (b: bool)
    requires
        1 <= f.lookback_days <= 30,
    ensures
        b == sample_matches(f@, s@, now_ms as int),
{
    let target_ok = s.target_id == f.target_id;
    let status_ok = s.status == f.status;
    // A window whose lower bound falls below the representable range is
    // open at the bottom: every representable timestamp lies above it.
    let time_ok = match now_ms.checked_sub(f.lookback_days * 86_400_000) {
        Option::Some(lower) => lower <= s.timestamp_ms && s.timestamp_ms <= now_ms,
        Option::None => s.timestamp_ms <= now_ms,
    };
    let region_ok = match &f.region {
        Option::Some(r) => s.region_id == *r,
        Option::None => true,
    };
    target_ok && status_ok && time_ok && region_ok
}

fn clone_sample(s: &MetricSample) -> (r: MetricSample)
    ensures
        r@ == s@,
{
    MetricSample {
        target_id: s.target_id.clone(),
        region_id: s.region_id.clone(),
        status: s.status,
        latency_ms: s.latency_ms,
        timestamp_ms: s.timestamp_ms,
    }
}

fn insert_sorted_sample(out: &mut Vec<MetricSample>, x: MetricSample)
    requires
        samples_sorted(samples_model(old(out)@)),
    ensures
        samples_sorted(samples_model(final(out)@)),
        samples_model(final(out)@).to_multiset() == samples_model(old(out)@).to_multiset().insert(
            x@,
        ),
{
    let ghost s0 = samples_model(out@);
    let n = out.len();
    let mut idx: usize = n;
    while idx > 0 && out[idx - 1].timestamp_ms > x.timestamp_ms
        invariant
            idx <= n,
            n == out@.len(),
            out@ == old(out)@,
            s0 == samples_model(out@),
            forall|k: int| idx <= k < n ==> (#[trigger] s0[k]).timestamp_ms > x@.timestamp_ms,
        decreases idx,
    {
        idx = idx - 1;
    }
    out.insert(idx, x);
    proof {
        let m = samples_model(out@);
        assert(m =~= s0.insert(idx as int, x@));
        s0.insert_ensures(idx as int, x@);
        assert forall|i: int, j: int| 0 <= i < j < m.len() implies (#[trigger] m[i]).timestamp_ms
            <= (#[trigger] m[j]).timestamp_ms by {
            if i < idx && j > idx {
                assert(s0[i].timestamp_ms <= s0[j - 1].timestamp_ms);
            }
        }
        lemma_insert_to_multiset(s0, idx as int, x@);
    }
}

fn sort_samples(v: Vec<MetricSample>) -> (out: Vec<MetricSample>)
    ensures
        samples_model(out@).to_multiset() == samples_model(v@).to_multiset(),
        samples_sorted(samples_model(out@)),
{
    broadcast use group_to_multiset_ensures;
    broadcast use vstd::multiset::group_multiset_axioms;

    let mut rest = v;
    let mut out: Vec<MetricSample> = Vec::new();
    proof {
        assert(samples_model(out@) =~= Seq::<MetricSampleModel>::empty());
        assert(samples_model(out@).to_multiset().add(samples_model(rest@).to_multiset()) =~=
            samples_model(v@).to_multiset());
    }
    while rest.len() > 0
        invariant
            samples_model(out@).to_multiset().add(samples_model(rest@).to_multiset())
                == samples_model(v@).to_multiset(),
            samples_sorted(samples_model(out@)),
        decreases rest.len(),
    {
        let ghost restm = samples_model(rest@);
        let ghost outm = samples_model(out@);
        let x = rest.pop().unwrap();
        proof {
            assert(samples_model(rest@) =~= restm.drop_last());
            assert(restm =~= restm.drop_last().push(x@));
            restm.drop_last().to_multiset_ensures();
            assert(restm.to_multiset() =~= restm.drop_last().to_multiset().insert(x@));
        }
        insert_sorted_sample(&mut out, x);
        proof {
            assert(samples_model(out@).to_multiset().add(samples_model(rest@).to_multiset()) =~=
                outm.to_multiset().add(restm.to_multiset()));
        }
    }
    proof {
        assert(samples_model(rest@).to_multiset() =~= Multiset::<MetricSampleModel>::empty());
    }
    out
}

/// Answers a filter over an in-memory sequence of samples.
///
/// For a range or downtime-range filter the answer holds exactly the
/// matching samples, ascending by timestamp.  For a last-only filter it
/// holds the single most recent matching sample, or nothing when none
/// matches.
pub fn select_samples(samples: &Vec<MetricSample>, f: &Filter, now_ms: i64) -> (out: Vec<
    MetricSample,
>)
    requires
        1 <= f.lookback_days <= 30,
    ensures
        !f.last_only ==> samples_model(out@).to_multiset() == spec_selected(
            samples_model(samples@),
            f@,
            now_ms as int,
        ).to_multiset(),
        !f.last_only ==> samples_sorted(samples_model(out@)),
        f.last_only ==> out@.len() <= 1,
        f.last_only ==> ((out@.len() == 1) <==> (exists|k: int|
            0 <= k < samples@.len() && sample_matches(
                f@,
                #[trigger] samples_model(samples@)[k],
                now_ms as int,
            ))),
        f.last_only && out@.len() == 1 ==> sample_matches(f@, out@[0]@, now_ms as int)
            && samples_model(samples@).contains(out@[0]@) && (forall|k: int|
            0 <= k < samples@.len() && sample_matches(
                f@,
                #[trigger] samples_model(samples@)[k],
                now_ms as int,
            ) ==> samples_model(samples@)[k].timestamp_ms <= out@[0]@.timestamp_ms),
{
    broadcast use group_to_multiset_ensures;

    let ghost sm = samples_model(samples@);
    let n = samples.len();
    if f.last_only {
        let mut best: Option<MetricSample> = Option::None;
        let mut i: usize = 0;
        while i < n
            invariant
                i <= n,
                n == samples@.len(),
                sm == samples_model(samples@),
                1 <= f.lookback_days <= 30,
                (best is Some) <==> (exists|k: int|
                    0 <= k < i && sample_matches(f@, #[trigger] sm[k], now_ms as int)),
                best is Some ==> sample_matches(f@, best->0@, now_ms as int) && sm.contains(
                    best->0@,
                ),
                best is Some ==> (forall|k: int|
                    0 <= k < i && sample_matches(f@, #[trigger] sm[k], now_ms as int)
                        ==> sm[k].timestamp_ms <= best->0@.timestamp_ms),
            decreases n - i,
        {
            let s = &samples[i];
            assert(s@ == sm[i as int]);
            if matches(f, s, now_ms) {
                let replace = match &best {
                    Option::Some(b) => s.timestamp_ms > b.timestamp_ms,
                    Option::None => true,
                };
                if replace {
                    best = Option::Some(clone_sample(s));
                }
            }
            i = i + 1;
        }
        let mut out: Vec<MetricSample> = Vec::new();
        match best {
            Option::Some(b) => {
                out.push(b);
            },
            Option::None => {},
        }
        out
    } else {
        let mut kept: Vec<MetricSample> = Vec::new();
        let mut i: usize = 0;
        proof {
            assert(samples_model(kept@) =~= Seq::<MetricSampleModel>::empty());
            assert(sm.take(0) =~= Seq::<MetricSampleModel>::empty());
            reveal(Seq::filter);
        }
        while i < n
            invariant
                i <= n,
                n == samples@.len(),
                sm == samples_model(samples@),
                1 <= f.lookback_days <= 30,
                samples_model(kept@) == spec_selected(sm.take(i as int), f@, now_ms as int),
            decreases n - i,
        {
            let ghost prev = samples_model(kept@);
            let s = &samples[i];
            assert(s@ == sm[i as int]);
            if matches(f, s, now_ms) {
                kept.push(clone_sample(s));
                proof {
                    assert(samples_model(kept@) =~= prev.push(sm[i as int]));
                }
            }
            proof {
                reveal(Seq::filter);
                assert(sm.take(i + 1).drop_last() =~= sm.take(i as int));
                assert(sm.take(i + 1).last() == sm[i as int]);
            }
            i = i + 1;
        }
        proof {
            assert(sm.take(n as int) =~= sm);
        }
        sort_samples(kept)
    }
}

/// Pointwise-equal predicates filter alike.
proof fn lemma_filter_equiv<A>(s: Seq<A>, p: spec_fn(A) -> bool, q: spec_fn(A) -> bool)
    requires
        forall|i: int| 0 <= i < s.len() ==> (p(#[trigger] s[i]) <==> q(s[i])),
    ensures
        s.filter(p) == s.filter(q),
    decreases s.len(),
{
    reveal(Seq::filter);
    if s.len() > 0 {
        lemma_filter_equiv(s.drop_last(), p, q);
    }
}

/// Filtering with a conjunction is filtering twice.
proof fn lemma_filter_compose<A>(s: Seq<A>, p: spec_fn(A) -> bool, q: spec_fn(A) -> bool)
    ensures
        s.filter(|x: A| p(x) && q(x)) == s.filter(p).filter(q),
    decreases s.len(),
{
    reveal(Seq::filter);
    if s.len() > 0 {
        lemma_filter_compose(s.drop_last(), p, q);
        if p(s.last()) {
            assert(s.filter(p).drop_last() =~= s.drop_last().filter(p));
            assert(s.filter(p).last() == s.last());
        }
    }
}

/// A filter every element passes keeps the sequence as it is.
proof fn lemma_filter_all<A>(s: Seq<A>, p: spec_fn(A) -> bool)
    requires
        forall|i: int| 0 <= i < s.len() ==> p(#[trigger] s[i]),
    ensures
        s.filter(p) == s,
    decreases s.len(),
{
    reveal(Seq::filter);
    if s.len() > 0 {
        lemma_filter_all(s.drop_last(), p);
        assert(s.drop_last().push(s.last()) =~= s);
    }
}

/// Law: when every stored sample passes the filter and their timestamps are
/// pairwise distinct, the range query answers with all of them — as many
/// points as samples were written, strictly ascending in time, without
/// duplicates.  `out` is any answer the evaluator may give: the matching
/// samples in ascending order.
pub proof fn lemma_range_query_complete(
    samples: Seq<MetricSampleModel>,
    f: FilterModel,
    now_ms: int,
    out: Seq<MetricSampleModel>,
)
    requires
        forall|i: int|
            0 <= i < samples.len() ==> sample_matches(f, #[trigger] samples[i], now_ms),
        forall|i: int, j: int|
            0 <= i < j < samples.len() ==> (#[trigger] samples[i]).timestamp_ms != (
            #[trigger] samples[j]).timestamp_ms,
        out.to_multiset() == spec_selected(samples, f, now_ms).to_multiset(),
        samples_sorted(out),
    ensures
        out.len() == samples.len(),
        forall|i: int, j: int|
            0 <= i < j < out.len() ==> (#[trigger] out[i]).timestamp_ms < (
            #[trigger] out[j]).timestamp_ms,
        forall|x: MetricSampleModel| out.contains(x) <==> samples.contains(x),
{
    broadcast use group_to_multiset_ensures;

    lemma_filter_all(samples, |s: MetricSampleModel| sample_matches(f, s, now_ms));
    assert(spec_selected(samples, f, now_ms) == samples);
    assert(out.to_multiset().len() == out.len());
    assert(samples.to_multiset().len() == samples.len());
    assert(out.len() == samples.len());
    assert forall|x: MetricSampleModel| out.contains(x) <==> samples.contains(x) by {
        assert(out.contains(x) <==> out.to_multiset().count(x) > 0);
        assert(samples.contains(x) <==> samples.to_multiset().count(x) > 0);
    }
    assert(samples.no_duplicates()) by {
        assert forall|i: int, j: int|
            0 <= i < samples.len() && 0 <= j < samples.len() && i != j implies samples[i]
            != samples[j] by {
            if i < j {
                assert(samples[i].timestamp_ms != samples[j].timestamp_ms);
            } else {
                assert(samples[j].timestamp_ms != samples[i].timestamp_ms);
            }
        }
    }
    samples.lemma_multiset_has_no_duplicates();
    out.lemma_multiset_has_no_duplicates_conv();
    assert forall|i: int, j: int| 0 <= i < j < out.len() implies (#[trigger] out[i]).timestamp_ms
        < (#[trigger] out[j]).timestamp_ms by {
        assert(out[i].timestamp_ms <= out[j].timestamp_ms);
        if out[i].timestamp_ms == out[j].timestamp_ms {
            assert(out[i] != out[j]);
            assert(out.contains(out[i]));
            assert(samples.contains(out[i]));
            assert(samples.contains(out[j]));
            let ki = choose|k: int| 0 <= k < samples.len() && samples[k] == out[i];
            let kj = choose|k: int| 0 <= k < samples.len() && samples[k] == out[j];
            assert(samples[ki].timestamp_ms == samples[kj].timestamp_ms);
            assert(ki != kj);
            if ki < kj {
                assert(samples[ki].timestamp_ms != samples[kj].timestamp_ms);
            } else {
                assert(samples[kj].timestamp_ms != samples[ki].timestamp_ms);
            }
        }
    }
}

/// Law: over samples that all carry the query's target, lie inside its
/// window and pass its region clause, the downtime query selects exactly
/// the `Down` ones — a window of M `Down` and P `Up` samples answers with
/// exactly the M `Down` samples.
pub proof fn lemma_downtime_selects_down(
    samples: Seq<MetricSampleModel>,
    f: FilterModel,
    now_ms: int,
)
    requires
        f.status == Status::Down,
        forall|i: int|
            0 <= i < samples.len() ==> (#[trigger] samples[i]).target_id == f.target_id,
        forall|i: int|
            0 <= i < samples.len() ==> spec_window_start(now_ms, f.lookback_days) <= (
            #[trigger] samples[i]).timestamp_ms <= now_ms,
        forall|i: int|
            0 <= i < samples.len() ==> match f.region {
                Option::Some(r) => (#[trigger] samples[i]).region_id == r,
                Option::None => true,
            },
    ensures
        spec_selected(samples, f, now_ms) == samples.filter(
            |s: MetricSampleModel| s.status == Status::Down,
        ),
{
    lemma_filter_equiv(
        samples,
        |s: MetricSampleModel| sample_matches(f, s, now_ms),
        |s: MetricSampleModel| s.status == Status::Down,
    );
}

/// The same filter with its region clause removed.
pub open spec fn spec_without_region(f: FilterModel) -> FilterModel {
    FilterModel {
        target_id: f.target_id,
        status: f.status,
        lookback_days: f.lookback_days,
        region: Option::None,
        last_only: f.last_only,
    }
}

/// Law: a region-filtered query answers exactly those samples of the
/// unfiltered query that carry the requested region; the unfiltered query
/// itself answers the union over all regions.
pub proof fn lemma_region_restricts(samples: Seq<MetricSampleModel>, f: FilterModel, now_ms: int)
    requires
        f.region is Some,
    ensures
        spec_selected(samples, f, now_ms) == spec_selected(
            samples,
            spec_without_region(f),
            now_ms,
        ).filter(|s: MetricSampleModel| s.region_id == f.region->0),
{
    let p = |s: MetricSampleModel| sample_matches(spec_without_region(f), s, now_ms);
    let q = |s: MetricSampleModel| s.region_id == f.region->0;
    lemma_filter_compose(samples, p, q);
    lemma_filter_equiv(
        samples,
        |s: MetricSampleModel| sample_matches(f, s, now_ms),
        |s: MetricSampleModel| p(s) && q(s),
    );
}

} // verus!
