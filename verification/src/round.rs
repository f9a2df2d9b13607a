//! One probing round: a snapshot of targets, fanned out under a concurrency
//! bound.  The round itself decides nothing about transport; callers launch
//! probes when a slot is free, perform the network work outside, and hand
//! each outcome back.  The round guarantees that at most `max_in_flight`
//! probes are ever outstanding at once and that a drained round holds
//! exactly one result per target.

use vstd::prelude::*;
use crate::fanout::{notification_of, sample_of, spec_notification_of, spec_sample_of};
use crate::model::{
    DowntimeNotification, MetricSample, MonitoredTarget, MonitoredTargetModel, ProbeResult,
    ProbeResultModel, Status,
};
use crate::probe::{make_probe_result, spec_probe_result, ProbeOutcome};

verus! {

/// Number of filled slots in a result vector.
pub open spec fn count_some(s: Seq<Option<ProbeResult>>) -> int
    decreases s.len(),
{
    if s.len() == 0 {
        0
    } else {
        count_some(s.drop_last()) + (if s.last() is Some {
            1int
        } else {
            0int
        })
    }
}

proof fn lemma_count_some_bounds(s: Seq<Option<ProbeResult>>)
    ensures
        0 <= count_some(s) <= s.len(),
    decreases s.len(),
{
    if s.len() > 0 {
        lemma_count_some_bounds(s.drop_last());
    }
}

proof fn lemma_count_some_update(s: Seq<Option<ProbeResult>>, i: int, r: ProbeResult)
    requires
        0 <= i < s.len(),
        s[i] is None,
    ensures
        count_some(s.update(i, Option::Some(r))) == count_some(s) + 1,
    decreases s.len(),
{
    let t = s.update(i, Option::Some(r));
    if i == s.len() - 1 {
        assert(t.drop_last() =~= s.drop_last());
    } else {
        assert(t.drop_last() =~= s.drop_last().update(i, Option::Some(r)));
        lemma_count_some_update(s.drop_last(), i, r);
    }
}

proof fn lemma_count_some_prefix(s: Seq<Option<ProbeResult>>, n: int)
    requires
        0 <= n <= s.len(),
        forall|i: int| n <= i < s.len() ==> s[i] is None,
    ensures
        count_some(s) == count_some(s.take(n)),
    decreases s.len(),
{
    if s.len() > n {
        assert(s.drop_last() =~= s.take(s.len() - 1));
        assert(s.take(s.len() - 1).take(n) =~= s.take(n));
        lemma_count_some_prefix(s.take(s.len() - 1), n);
    } else {
        assert(s.take(n) =~= s);
    }
}

proof fn lemma_count_some_slot_none(s: Seq<Option<ProbeResult>>, i: int)
    requires
        0 <= i < s.len(),
        s[i] is None,
    ensures
        count_some(s) <= s.len() - 1,
    decreases s.len(),
{
    if i == s.len() - 1 {
        lemma_count_some_bounds(s.drop_last());
    } else {
        lemma_count_some_slot_none(s.drop_last(), i);
    }
}

proof fn lemma_count_some_full(s: Seq<Option<ProbeResult>>)
    requires
        count_some(s) == s.len(),
    ensures
        forall|i: int| 0 <= i < s.len() ==> s[i] is Some,
    decreases s.len(),
{
    if s.len() > 0 {
        lemma_count_some_bounds(s.drop_last());
        lemma_count_some_full(s.drop_last());
        assert forall|i: int| 0 <= i < s.len() implies s[i] is Some by {
            if i < s.len() - 1 {
                assert(s.drop_last()[i] == s[i]);
            }
        }
    }
}

/// A stored result is sound for its target when it carries that target's
/// ids and a non-negative latency.
pub open spec fn result_for_target(p: ProbeResultModel, t: MonitoredTargetModel) -> bool {
    &&& p.target_id == t.id
    &&& p.region_id == t.region_id
    &&& p.latency_ms >= 0
}

/// State of one probing round over a fixed target snapshot.
///
/// `next` is the index of the next target to launch; `in_flight` counts the
/// probes launched but not yet completed; slot `i` of `results` is filled
/// exactly once, when target `i`'s probe completes.
pub struct Round {
    pub targets: Vec<MonitoredTarget>,
    pub max_in_flight: usize,
    pub next: usize,
    pub in_flight: usize,
    pub results: Vec<Option<ProbeResult>>,
}

impl Round {
    /// Models of the stored results, slot by slot.
    pub open spec fn results_model(&self) -> Seq<Option<ProbeResultModel>> {
        self.results@.map_values(
            |r: Option<ProbeResult>|
                match r {
                    Option::Some(p) => Option::Some(p@),
                    Option::None => Option::None,
                },
        )
    }

    /// Well-formedness of the round, established by `new` and preserved by
    /// every operation.  In particular `in_flight <= max_in_flight` at all
    /// times: at most that many probes are ever outstanding at once.
    pub open spec fn wf(&self) -> bool {
        &&& self.results@.len() == self.targets@.len()
        &&& self.next <= self.targets@.len()
        &&& 1 <= self.max_in_flight
        &&& self.in_flight <= self.max_in_flight
        &&& self.in_flight + count_some(self.results@) == self.next
        &&& forall|i: int| self.next <= i < self.results@.len() ==> self.results@[i] is None
        &&& forall|i: int|
            0 <= i < self.results@.len() && self.results@[i] is Some ==> result_for_target(
                (#[trigger] self.results@[i])->0@,
                self.targets@[i]@,
            )
    }

    /// The round has drained: every target was launched and every launched
    /// probe has completed.
    pub open spec fn done(&self) -> bool {
        self.next == self.targets@.len() && self.in_flight == 0
    }

    /// Starts a round over a fresh snapshot of targets, with a concurrency
    /// bound of `max_in_flight` simultaneous probes.
    pub fn new(targets: Vec<MonitoredTarget>, max_in_flight: usize) -> (r: Round)
        requires
            1 <= max_in_flight,
        ensures
            r.wf(),
            r.targets == targets,
            r.max_in_flight == max_in_flight,
            r.next == 0,
            r.in_flight == 0,
            forall|i: int| 0 <= i < r.results@.len() ==> r.results@[i] is None,
    {
        let n = targets.len();
        let mut results: Vec<Option<ProbeResult>> = Vec::new();
        let mut i: usize = 0;
        while i < n
            invariant
                i <= n,
                results@.len() == i,
                forall|j: int| 0 <= j < i ==> results@[j] is None,
                count_some(results@) == 0,
            decreases n - i,
        {
            let ghost prev = results@;
            results.push(Option::None);
            proof {
                assert(results@.drop_last() =~= prev);
            }
            i = i + 1;
        }
        Round { targets, max_in_flight, next: 0, in_flight: 0, results }
    }

    /// True when another probe may be launched: a target is left and a
    /// concurrency slot is free.
    pub fn can_launch(&self) -> (b: bool)
        ensures
            b == (self.next < self.targets@.len() && self.in_flight < self.max_in_flight),
    {
        self.next < self.targets.len() && self.in_flight < self.max_in_flight
    }

    /// Claims the next target for probing, occupying one concurrency slot.
    /// Returns the claimed target's index; `target` reads its snapshot.
    pub fn launch(&mut self) -> (idx: usize)
        requires
            old(self).wf(),
            old(self).next < old(self).targets@.len(),
            old(self).in_flight < old(self).max_in_flight,
        ensures
            final(self).wf(),
            idx == old(self).next,
            final(self).next == old(self).next + 1,
            final(self).in_flight == old(self).in_flight + 1,
            final(self).in_flight <= final(self).max_in_flight,
            final(self).targets == old(self).targets,
            final(self).results == old(self).results,
            final(self).max_in_flight == old(self).max_in_flight,
    {
        let n = self.targets.len();
        let idx = self.next;
        assert(idx < n);
        self.next = self.next + 1;
        self.in_flight = self.in_flight + 1;
        idx
    }

    /// Reads the snapshot of the target at `idx`.
    pub fn target(&self, idx: usize) -> (t: &MonitoredTarget)
        requires
            idx < self.targets@.len(),
        ensures
            *t == self.targets@[idx as int],
    {
        &self.targets[idx]
    }

    /// Hands the outcome of target `idx`'s probe back to the round.  The
    /// result fills slot `idx`, frees the concurrency slot, and the fan-out
    /// of the result is returned: the one metric sample to append, and —
    /// exactly when the probe classified `Down` — the one notification to
    /// publish.
    pub fn complete(
        &mut self,
        idx: usize,
        outcome: ProbeOutcome,
        started_ms: i64,
        finished_ms: i64,
    ) -> (actions: (MetricSample, Option<DowntimeNotification>))
        requires
            old(self).wf(),
            idx < old(self).next,
            old(self).results@[idx as int] is None,
        ensures
            final(self).wf(),
            final(self).targets == old(self).targets,
            final(self).max_in_flight == old(self).max_in_flight,
            final(self).next == old(self).next,
            final(self).in_flight == old(self).in_flight - 1,
            final(self).results_model() == old(self).results_model().update(
                idx as int,
                Option::Some(
                    spec_probe_result(
                        old(self).targets@[idx as int]@,
                        outcome,
                        started_ms as int,
                        finished_ms as int,
                    ),
                ),
            ),
            actions.0@ == spec_sample_of(
                spec_probe_result(
                    old(self).targets@[idx as int]@,
                    outcome,
                    started_ms as int,
                    finished_ms as int,
                ),
            ),
            actions.1 is Some <==> spec_probe_result(
                old(self).targets@[idx as int]@,
                outcome,
                started_ms as int,
                finished_ms as int,
            ).status == Status::Down,
            actions.1 is Some ==> actions.1->0@ == spec_notification_of(
                spec_probe_result(
                    old(self).targets@[idx as int]@,
                    outcome,
                    started_ms as int,
                    finished_ms as int,
                ),
            ),
    {
        proof {
            lemma_count_some_prefix(self.results@, self.next as int);
            assert(self.results@.take(self.next as int)[idx as int] is None);
            lemma_count_some_slot_none(self.results@.take(self.next as int), idx as int);
            lemma_count_some_bounds(self.results@.take(self.next as int));
        }
        let pr = make_probe_result(&self.targets[idx], &outcome, started_ms, finished_ms);
        let sample = sample_of(&pr);
        let notification = notification_of(&pr);
        let ghost before = self.results@;
        let _ = self.results.remove(idx);
        self.results.insert(idx, Option::Some(pr));
        self.in_flight = self.in_flight - 1;
        proof {
            assert(self.results@ =~= before.update(idx as int, Option::Some(pr)));
            lemma_count_some_update(before, idx as int, pr);
            assert(self.results_model() =~= old(self).results_model().update(
                idx as int,
                Option::Some(pr@),
            ));
        }
        (sample, notification)
    }

    /// True when the round has drained.
    pub fn is_done(&self) -> (b: bool)
        ensures
            b == self.done(),
    {
        self.next == self.targets.len() && self.in_flight == 0
    }
}

/// Law: at most `max_in_flight` probes are ever simultaneously outstanding
/// in a well-formed round.
pub proof fn lemma_in_flight_bounded(r: &Round)
    requires
        r.wf(),
    ensures
        r.in_flight <= r.max_in_flight,
{
}

/// Law: a drained round holds exactly one probe result per target — slot
/// `i` is filled with a result that carries target `i`'s ids and a
/// non-negative latency.
pub proof fn lemma_done_one_result_per_target(r: &Round)
    requires
        r.wf(),
        r.done(),
    ensures
        r.results@.len() == r.targets@.len(),
        forall|i: int| 0 <= i < r.results@.len() ==> r.results@[i] is Some,
        forall|i: int|
            0 <= i < r.results@.len() ==> result_for_target(
                (#[trigger] r.results@[i])->0@,
                r.targets@[i]@,
            ),
{
    lemma_count_some_full(r.results@);
}

} // verus!
