//! The counters behind the statistics: how many requests were answered and
//! how long they took in all, and the text that reports them.

use vstd::prelude::*;
use vstd::string::StringSliceAdditionalSpecFns;

verus! {

/// The counters as mathematical values.
pub struct StatsView {
    /// The number of requests counted.
    pub requests: nat,
    /// The time they took in all, in microseconds.
    pub micros: nat,
}

/// The average time of a request in whole microseconds; 0 while no request
/// was counted.
pub open spec fn average(s: StatsView) -> nat {
    if s.requests == 0 {
        0
    } else {
        s.micros / s.requests
    }
}

/// A counter one step on: it stops at the largest value it can hold.
pub open spec fn capped(n: nat) -> nat {
    if n > u64::MAX {
        u64::MAX as nat
    } else {
        n
    }
}

/// The counters after one more request that took `elapsed` microseconds.
pub open spec fn recorded(s: StatsView, elapsed: u64) -> StatsView {
    StatsView { requests: capped(s.requests + 1), micros: capped(s.micros + elapsed as nat) }
}

/// The digits of `n` in base ten, as ASCII, without leading zeros.
pub open spec fn decimal(n: nat) -> Seq<u8>
    decreases n,
{
    if n < 10 {
        seq![(48 + n) as u8]
    } else {
        decimal(n / 10).push((48 + n % 10) as u8)
    }
}

/// The report: `requests: N, average: M us`, with the count and the average.
pub open spec fn report(s: StatsView) -> Seq<u8> {
    "requests: ".spec_bytes() + decimal(s.requests) + ", average: ".spec_bytes() + decimal(
        average(s),
    ) + " us".spec_bytes()
}

/// Appends the digits of `n` to `out`.
pub fn push_decimal(out: &mut Vec<u8>, n: u64)
    ensures
        final(out)@ == old(out)@ + decimal(n as nat),
    decreases n,
{
    if n < 10 {
        out.push(48 + n as u8);
        assert(out@ =~= old(out)@ + decimal(n as nat));
    } else {
        push_decimal(out, n / 10);
        out.push(48 + (n % 10) as u8);
        assert(out@ =~= old(out)@ + decimal(n as nat));
    }
}

/// Appends the bytes of `text` to `out`.
pub fn push_text(out: &mut Vec<u8>, text: &str)
    ensures
        final(out)@ == old(out)@ + text.spec_bytes(),
{
    out.extend_from_slice(text.as_bytes());
    assert(out@ =~= old(out)@ + text.spec_bytes());
}

/// The request counter and the time accumulator.
pub struct Stats {
    total_requests: u64,
    request_time: u64,
}

impl View for Stats {
    type V = StatsView;

    closed spec fn view(&self) -> StatsView {
        StatsView { requests: self.total_requests as nat, micros: self.request_time as nat }
    }
}

impl Stats {
    /// Counters that have counted nothing.
    pub fn new() -> (stats: Stats)
        ensures
            stats@ == (StatsView { requests: 0, micros: 0 }),
    {
        Stats { total_requests: 0, request_time: 0 }
    }

    /// Counts one more request.
    pub fn incr_total_requests(&mut self)
        ensures
            final(self)@ == (StatsView {
                requests: capped(old(self)@.requests + 1),
                micros: old(self)@.micros,
            }),
    {
        self.total_requests = self.total_requests.saturating_add(1);
    }

    /// Adds the time one request took, in microseconds.
    pub fn add_request_time(&mut self, micros: u64)
        ensures
            final(self)@ == (StatsView {
                requests: old(self)@.requests,
                micros: capped(old(self)@.micros + micros as nat),
            }),
    {
        self.request_time = self.request_time.saturating_add(micros);
    }

    /// Counts one request that took `elapsed` microseconds.
    pub fn record(&mut self, elapsed: u64)
        ensures
            final(self)@ == recorded(old(self)@, elapsed),
    {
        self.incr_total_requests();
        self.add_request_time(elapsed);
    }

    /// Both counters fit 64 bits.
    pub proof fn lemma_bounded(&self)
        ensures
            self@.requests <= u64::MAX,
            self@.micros <= u64::MAX,
            average(self@) <= u64::MAX,
    {
        if self@.requests > 0 {
            assert(self@.micros / self@.requests <= self@.micros) by (nonlinear_arith)
                requires
                    self@.requests > 0,
            ;
        }
    }

    /// The number of requests counted.
    pub fn total_requests(&self) -> (n: u64)
        ensures
            n == self@.requests,
    {
        self.total_requests
    }

    /// The average time of a request in whole microseconds.
    pub fn average_time(&self) -> (avg: u64)
        ensures
            avg == average(self@),
    {
        if self.total_requests == 0 {
            0
        } else {
            self.request_time / self.total_requests
        }
    }

    /// The report as text.
    pub fn get_stats(&self) -> (text: Vec<u8>)
        ensures
            text@ == report(self@),
    {
        let mut text: Vec<u8> = Vec::new();
        push_text(&mut text, "requests: ");
        push_decimal(&mut text, self.total_requests);
        push_text(&mut text, ", average: ");
        push_decimal(&mut text, self.average_time());
        push_text(&mut text, " us");
        assert(text@ =~= report(self@));
        text
    }
}

} // verus!
