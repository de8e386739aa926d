//! The daily trade budget of the risk manager.

use vstd::prelude::*;

verus! {

/// How many trades the risk manager has let through since the last daily
/// reset. New positions count against the daily limit; exits always pass
/// and are counted too.
pub struct DailyTrades {
    count: u32,
}

impl DailyTrades {
    /// The trades counted so far today.
    pub closed spec fn spec_count(&self) -> nat {
        self.count as nat
    }

    /// A budget with no trades counted.
    pub fn new() -> (d: Self)
        ensures
            d.spec_count() == 0,
    {
        DailyTrades { count: 0 }
    }

    /// The trades counted so far today.
    pub fn count(&self) -> (n: u32)
        ensures
            n == self.spec_count(),
    {
        self.count
    }

    /// Decides on opening a position that passed every other check
    /// (`approved`): it goes through only while fewer than `max_daily`
    /// trades were counted, and is then counted.
    pub fn admit_entry(&mut self, max_daily: u32, approved: bool) -> (admitted: bool)
        ensures
            admitted == entry_admitted(old(self).spec_count(), max_daily as nat, approved),
            final(self).spec_count() == old(self).spec_count() + (if admitted {
                1int
            } else {
                0int
            }),
    {
        if self.count >= max_daily {
            return false;
        }
        if !approved {
            return false;
        }
        self.count = self.count + 1;
        true
    }

    /// Counts an exit; exits are not limited.
    pub fn record_exit(&mut self)
        requires
            old(self).spec_count() < u32::MAX,
        ensures
            final(self).spec_count() == old(self).spec_count() + 1,
    {
        self.count = self.count + 1;
    }

    /// Decides on one request as the risk manager does: an entry goes
    /// through only under the daily limit and when approved, an exit of a
    /// held position always goes through, anything else is refused; a request
    /// that goes through is counted, a refused one changes nothing.
    pub fn decide(&mut self, max_daily: u32, request: RiskRequest) -> (issued: bool)
        requires
            request is Exit ==> old(self).spec_count() < u32::MAX,
        ensures
            (issued, final(self).spec_count()) == risk_step(old(self).spec_count(), max_daily as nat, request),
    {
        match request {
            RiskRequest::Entry { approved } => self.admit_entry(max_daily, approved),
            RiskRequest::Exit { held } => {
                if held {
                    self.record_exit();
                }
                held
            },
            RiskRequest::Hold => false,
        }
    }

    /// Starts a new trading day.
    pub fn reset(&mut self)
        ensures
            final(self).spec_count() == 0,
    {
        self.count = 0;
    }
}

/// What a signal asks of the risk manager, as far as the daily budget is
/// concerned: opening a position (`approved` when the sizing and exposure
/// checks pass and the symbol is not held yet), closing one (`held` when a
/// position with a positive quantity exists), or nothing.
#[derive(Clone, Copy, Debug, PartialEq, Eq, Structural)]
pub enum RiskRequest {
    Entry { approved: bool },
    Exit { held: bool },
    Hold,
}

/// One decision: whether an order is issued, and the count after it.
pub open spec fn risk_step(count: nat, max_daily: nat, request: RiskRequest) -> (bool, nat) {
    match request {
        RiskRequest::Entry { approved } => if entry_admitted(count, max_daily, approved) {
            (true, count + 1)
        } else {
            (false, count)
        },
        RiskRequest::Exit { held } => if held {
            (true, count + 1)
        } else {
            (false, count)
        },
        RiskRequest::Hold => (false, count),
    }
}

/// The count after a day's requests, taken in order.
pub open spec fn count_after_requests(count: nat, max_daily: nat, requests: Seq<RiskRequest>) -> nat
    decreases requests.len(),
{
    if requests.len() == 0 {
        count
    } else {
        risk_step(count_after_requests(count, max_daily, requests.drop_last()), max_daily, requests.last()).1
    }
}

proof fn lemma_count_monotone(count: nat, max_daily: nat, requests: Seq<RiskRequest>, j: int, k: int)
    requires
        0 <= j <= k <= requests.len(),
    ensures
        count <= count_after_requests(count, max_daily, requests.take(j))
            <= count_after_requests(count, max_daily, requests.take(k)),
    decreases k,
{
    if k > 0 {
        assert(requests.take(k).drop_last() =~= requests.take(k - 1));
        if j < k {
            lemma_count_monotone(count, max_daily, requests, j, k - 1);
        } else {
            lemma_count_monotone(count, max_daily, requests, 0, k - 1);
        }
    } else {
        assert(requests.take(0) =~= Seq::<RiskRequest>::empty());
    }
}

/// The daily budget over a day's requests: the count never goes down; once
/// it has reached the limit, every later entry is refused; an exit of a held
/// position is issued whatever the count; a refused request leaves the count
/// as it was.
pub proof fn law_daily_budget(count: nat, max_daily: nat, requests: Seq<RiskRequest>, j: int, k: int)
    requires
        0 <= j <= k < requests.len(),
    ensures
        count <= count_after_requests(count, max_daily, requests.take(j))
            <= count_after_requests(count, max_daily, requests.take(k)),
        count_after_requests(count, max_daily, requests.take(j)) >= max_daily && requests[k] is Entry
            ==> !risk_step(count_after_requests(count, max_daily, requests.take(k)), max_daily, requests[k]).0,
        requests[k] == (RiskRequest::Exit { held: true })
            ==> risk_step(count_after_requests(count, max_daily, requests.take(k)), max_daily, requests[k]).0,
        !risk_step(count_after_requests(count, max_daily, requests.take(k)), max_daily, requests[k]).0
            ==> count_after_requests(count, max_daily, requests.take(k + 1))
                == count_after_requests(count, max_daily, requests.take(k)),
{
    lemma_count_monotone(count, max_daily, requests, j, k);
    assert(requests.take(k + 1).drop_last() =~= requests.take(k));
    assert(requests.take(k + 1).last() == requests[k]);
}

/// An entry becomes an order only when it passed the approval checks and
/// fewer trades than the limit were counted; one that did not pass them is
/// never issued and leaves the count as it was, whatever the count and
/// limit. An issued request counts exactly one trade; an exit of a position
/// not held and a hold are never issued.
pub proof fn law_risk_decision(count: nat, max_daily: nat, request: RiskRequest)
    ensures
        risk_step(count, max_daily, RiskRequest::Entry { approved: false }) == (false, count),
        risk_step(count, max_daily, RiskRequest::Exit { held: false }) == (false, count),
        risk_step(count, max_daily, RiskRequest::Hold) == (false, count),
        risk_step(count, max_daily, RiskRequest::Exit { held: true }) == (true, count + 1),
        count < max_daily ==> risk_step(count, max_daily, RiskRequest::Entry { approved: true }) == (
            true,
            count + 1,
        ),
        count >= max_daily ==> risk_step(count, max_daily, RiskRequest::Entry { approved: true }) == (
            false,
            count,
        ),
        risk_step(count, max_daily, request).0 && request is Entry ==> request->approved && count
            < max_daily,
        risk_step(count, max_daily, request).1 == count + (if risk_step(count, max_daily, request).0 {
            1int
        } else {
            0int
        }),
{
}

/// Whether an entry attempt goes through with `count` trades counted today.
pub open spec fn entry_admitted(count: nat, max_daily: nat, approved: bool) -> bool {
    count < max_daily && approved
}

/// The count after a run of entry attempts, one per item of `approvals`
/// (each telling whether the attempt passed every other check).
pub open spec fn count_after_entries(count: nat, max_daily: nat, approvals: Seq<bool>) -> nat
    decreases approvals.len(),
{
    if approvals.len() == 0 {
        count
    } else {
        let next: nat = if entry_admitted(count, max_daily, approvals[0]) {
            count + 1
        } else {
            count
        };
        count_after_entries(next, max_daily, approvals.subrange(1, approvals.len() as int))
    }
}

/// However many entries are attempted in one day, entries alone never take
/// the count past the daily limit, and the count never goes down.
pub proof fn law_entries_within_limit(count: nat, max_daily: nat, approvals: Seq<bool>)
    requires
        count <= max_daily,
    ensures
        count <= count_after_entries(count, max_daily, approvals) <= max_daily,
    decreases approvals.len(),
{
    if approvals.len() > 0 {
        let next: nat = if entry_admitted(count, max_daily, approvals[0]) {
            count + 1
        } else {
            count
        };
        law_entries_within_limit(next, max_daily, approvals.subrange(1, approvals.len() as int));
    }
}

} // verus!
