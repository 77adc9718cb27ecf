//! The discovery race: one probe per endpoint, first success wins.
//!
//! The race itself is a state machine. The loop that spawns probe tasks,
//! waits on their shared channel and keeps the deadline lives outside the
//! library; it feeds every observation — a probe's outcome, or the deadline
//! elapsing — into `step`, and reads the verdict once the race is settled.
//! `race_run` folds `step` over a whole sequence of observations, and the
//! lemmas below state the race's laws over it: the first published address
//! wins and later events change nothing; a race over no endpoints, a race
//! whose probes all fail, and a race cut off by its deadline all settle on
//! "no address found".

use vstd::prelude::*;

use crate::extract::extract_ipv6;
use crate::extract::extracted;
use crate::extract::has_ipv6_literal;

verus! {

/// What one probe of one endpoint produced.
#[derive(Debug, PartialEq, Eq)]
pub enum ProbeOutcome {
    /// The response body held a valid IPv6 literal: this one.
    Found(String),
    /// The request succeeded but no valid IPv6 literal stood in the body.
    NotFound,
    /// The request itself failed; the reason is kept for logging only.
    Failed(String),
}

/// The final answer of one discovery race.
#[derive(Debug, PartialEq, Eq)]
pub enum DiscoveryResult {
    /// A validated IPv6 address, as it stood in some endpoint's response.
    Address(String),
    /// No address found: every probe failed or came up empty, or the
    /// deadline elapsed first.
    NoAddress,
}

/// One observation the race loop makes while the race runs.
#[derive(Debug, PartialEq, Eq)]
pub enum RaceEvent {
    /// Some probe task finished and reported its outcome.
    Outcome(ProbeOutcome),
    /// The race deadline elapsed before anything else happened.
    DeadlineElapsed,
}

/// Turns the result of one bounded HTTP GET against one endpoint into the
/// probe's outcome: a fetched body is scanned for its first valid IPv6
/// literal, a failed fetch keeps its reason.
pub fn probe_outcome(fetch: Result<String, String>) -> (o: ProbeOutcome)
    ensures
        match fetch {
            Ok(body) => match o {
                ProbeOutcome::Found(a) => extracted(body@, a@),
                ProbeOutcome::NotFound => !has_ipv6_literal(body@),
                ProbeOutcome::Failed(_) => false,
            },
            Err(reason) => o == ProbeOutcome::Failed(reason),
        },
{
    match fetch {
        Ok(body) => match extract_ipv6(body.as_str()) {
            Some(a) => ProbeOutcome::Found(a),
            None => ProbeOutcome::NotFound,
        },
        Err(reason) => ProbeOutcome::Failed(reason),
    }
}

/// One discovery race: how many probes have not reported yet, and the
/// verdict once the race is settled.
pub struct DiscoveryRace {
    pub outstanding: usize,
    pub verdict: Option<DiscoveryResult>,
}

/// The state a race over n probes opens in: settled on "no address found"
/// at once when there is no probe to wait for.
pub open spec fn race_start(n: usize) -> DiscoveryRace {
    DiscoveryRace {
        outstanding: n,
        verdict: if n == 0 {
            Some(DiscoveryResult::NoAddress)
        } else {
            None
        },
    }
}

/// How one observation moves the race along: a settled race discards it; a
/// published address settles the race on that address; a failed or empty
/// probe is one fewer to wait for, and the last of them settles the race on
/// "no address found"; the deadline settles it on "no address found".
pub open spec fn race_step(s: DiscoveryRace, e: RaceEvent) -> DiscoveryRace {
    if s.verdict is Some {
        s
    } else {
        match e {
            RaceEvent::Outcome(ProbeOutcome::Found(a)) => DiscoveryRace {
                outstanding: s.outstanding,
                verdict: Some(DiscoveryResult::Address(a)),
            },
            RaceEvent::Outcome(_) => {
                let rem: usize = if s.outstanding >= 1 {
                    (s.outstanding - 1) as usize
                } else {
                    0
                };
                DiscoveryRace {
                    outstanding: rem,
                    verdict: if rem == 0 {
                        Some(DiscoveryResult::NoAddress)
                    } else {
                        None
                    },
                }
            },
            RaceEvent::DeadlineElapsed => DiscoveryRace {
                outstanding: s.outstanding,
                verdict: Some(DiscoveryResult::NoAddress),
            },
        }
    }
}

/// The race after opening over n probes and observing the given events in
/// order.
pub open spec fn race_run(n: usize, events: Seq<RaceEvent>) -> DiscoveryRace
    decreases events.len(),
{
    if events.len() == 0 {
        race_start(n)
    } else {
        race_step(race_run(n, events.drop_last()), events.last())
    }
}

impl DiscoveryRace {
    /// How many probes have not reported yet.
    pub open spec fn spec_outstanding(self) -> nat {
        self.outstanding as nat
    }

    /// The final answer, once the race is settled.
    pub open spec fn spec_verdict(self) -> Option<DiscoveryResult> {
        self.verdict
    }

    /// Opens a race over n probes.
    pub fn start(n: usize) -> (r: DiscoveryRace)
        ensures
            r == race_start(n),
    {
        DiscoveryRace {
            outstanding: n,
            verdict: if n == 0 {
                Some(DiscoveryResult::NoAddress)
            } else {
                None
            },
        }
    }

    /// Whether the race has its final answer; a settled race discards every
    /// further observation.
    pub fn is_settled(&self) -> (b: bool)
        ensures
            b == (self.spec_verdict() is Some),
    {
        self.verdict.is_some()
    }

    /// Feeds one observation into the race.
    pub fn step(&mut self, e: RaceEvent)
        ensures
            *final(self) == race_step(*old(self), e),
    {
        if self.verdict.is_some() {
            return ;
        }
        match e {
            RaceEvent::Outcome(ProbeOutcome::Found(a)) => {
                self.verdict = Some(DiscoveryResult::Address(a));
            },
            RaceEvent::Outcome(_) => {
                if self.outstanding >= 1 {
                    self.outstanding = self.outstanding - 1;
                }
                if self.outstanding == 0 {
                    self.verdict = Some(DiscoveryResult::NoAddress);
                }
            },
            RaceEvent::DeadlineElapsed => {
                self.verdict = Some(DiscoveryResult::NoAddress);
            },
        }
    }

    /// The race's final answer. A race abandoned while still waiting counts
    /// as "no address found", as when its deadline elapsed unobserved.
    pub fn into_verdict(self) -> (v: DiscoveryResult)
        ensures
            match self.spec_verdict() {
                Some(r) => v == r,
                None => v == DiscoveryResult::NoAddress,
            },
    {
        match self.verdict {
            Some(r) => r,
            None => DiscoveryResult::NoAddress,
        }
    }
}

/// An event that reports a published address.
pub open spec fn is_found_event(e: RaceEvent) -> bool {
    e matches RaceEvent::Outcome(ProbeOutcome::Found(_))
}

/// An event that reports a probe which contributed no address.
pub open spec fn is_unsuccessful_outcome(e: RaceEvent) -> bool {
    match e {
        RaceEvent::Outcome(o) => !(o matches ProbeOutcome::Found(_)),
        RaceEvent::DeadlineElapsed => false,
    }
}

/// A settled race stays settled on the same verdict, whatever else arrives.
pub proof fn lemma_settled_stable(n: usize, events: Seq<RaceEvent>, more: Seq<RaceEvent>)
    requires
        race_run(n, events).spec_verdict() is Some,
    ensures
        race_run(n, events + more).spec_verdict() == race_run(n, events).spec_verdict(),
    decreases more.len(),
{
    if more.len() == 0 {
        assert(events + more =~= events);
    } else {
        lemma_settled_stable(n, events, more.drop_last());
        assert((events + more).drop_last() =~= events + more.drop_last());
        assert((events + more).last() == more.last());
    }
}

/// Empty configuration: a race over no endpoints is settled on "no address
/// found" from the start, whatever is observed afterwards.
pub proof fn lemma_empty_race(events: Seq<RaceEvent>)
    ensures
        race_run(0, events).spec_verdict() == Some(DiscoveryResult::NoAddress),
{
    assert(race_run(0, Seq::<RaceEvent>::empty()).spec_verdict() == Some(
        DiscoveryResult::NoAddress,
    ));
    lemma_settled_stable(0, Seq::<RaceEvent>::empty(), events);
    assert(Seq::<RaceEvent>::empty() + events =~= events);
}

/// First success wins: a race still waiting settles on the first address a
/// probe publishes, and every later observation leaves that verdict alone.
pub proof fn lemma_first_found_wins(
    n: usize,
    before: Seq<RaceEvent>,
    a: String,
    after: Seq<RaceEvent>,
)
    requires
        race_run(n, before).spec_verdict() is None,
    ensures
        race_run(
            n,
            before.push(RaceEvent::Outcome(ProbeOutcome::Found(a))) + after,
        ).spec_verdict() == Some(DiscoveryResult::Address(a)),
{
    let found = before.push(RaceEvent::Outcome(ProbeOutcome::Found(a)));
    assert(found.drop_last() =~= before);
    assert(race_run(n, found).spec_verdict() == Some(DiscoveryResult::Address(a)));
    lemma_settled_stable(n, found, after);
}

/// While no probe has published an address, the race never holds one.
pub proof fn lemma_no_found_no_address(n: usize, events: Seq<RaceEvent>)
    requires
        forall|k: int| 0 <= k < events.len() ==> !is_found_event(#[trigger] events[k]),
    ensures
        !(race_run(n, events).spec_verdict() matches Some(DiscoveryResult::Address(_))),
    decreases events.len(),
{
    if events.len() > 0 {
        lemma_no_found_no_address(n, events.drop_last());
    }
}

/// Deadline enforcement: when the deadline elapses before any probe has
/// published an address, the race settles on "no address found".
pub proof fn lemma_deadline(n: usize, events: Seq<RaceEvent>)
    requires
        forall|k: int| 0 <= k < events.len() ==> !is_found_event(#[trigger] events[k]),
    ensures
        race_run(n, events.push(RaceEvent::DeadlineElapsed)).spec_verdict() == Some(
            DiscoveryResult::NoAddress,
        ),
{
    lemma_no_found_no_address(n, events);
    assert(events.push(RaceEvent::DeadlineElapsed).drop_last() =~= events);
}

/// All probes fail: a race over n endpoints whose n probes all report
/// failure or an empty body settles on "no address found" by exhaustion,
/// without any deadline event.
pub proof fn lemma_all_fail(n: usize, events: Seq<RaceEvent>)
    requires
        n >= 1,
        events.len() == n,
        forall|k: int| 0 <= k < events.len() ==> is_unsuccessful_outcome(#[trigger] events[k]),
    ensures
        race_run(n, events).spec_verdict() == Some(DiscoveryResult::NoAddress),
{
    lemma_all_fail_partial(n, events);
}

/// Each unsuccessful probe outcome is one fewer to wait for; the last one
/// settles the race.
proof fn lemma_all_fail_partial(n: usize, events: Seq<RaceEvent>)
    requires
        n >= 1,
        events.len() <= n,
        forall|k: int| 0 <= k < events.len() ==> is_unsuccessful_outcome(#[trigger] events[k]),
    ensures
        race_run(n, events).spec_outstanding() == n - events.len(),
        race_run(n, events).spec_verdict() == if events.len() == n {
            Some(DiscoveryResult::NoAddress)
        } else {
            None::<DiscoveryResult>
        },
    decreases events.len(),
{
    if events.len() > 0 {
        lemma_all_fail_partial(n, events.drop_last());
    }
}

/// The race never invents an address: a settled address was published by
/// some probe.
pub proof fn lemma_address_from_probe(n: usize, events: Seq<RaceEvent>, a: String)
    requires
        race_run(n, events).spec_verdict() == Some(DiscoveryResult::Address(a)),
    ensures
        exists|k: int|
            0 <= k < events.len() && #[trigger] events[k] == RaceEvent::Outcome(
                ProbeOutcome::Found(a),
            ),
    decreases events.len(),
{
    if events.len() > 0 {
        let prev = race_run(n, events.drop_last());
        if prev.spec_verdict() == Some(DiscoveryResult::Address(a)) {
            lemma_address_from_probe(n, events.drop_last(), a);
            let k = choose|k: int|
                0 <= k < events.drop_last().len() && #[trigger] events.drop_last()[k]
                    == RaceEvent::Outcome(ProbeOutcome::Found(a));
            assert(events[k] == RaceEvent::Outcome(ProbeOutcome::Found(a)));
        } else {
            assert(events[events.len() - 1] == RaceEvent::Outcome(ProbeOutcome::Found(a)));
        }
    }
}

} // verus!
