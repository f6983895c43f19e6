//! Sending many requests to the broker over several clients: at most a fixed
//! number in flight, each request on the client of its index modulo the
//! number of clients, each answer stored at its request's index; a request
//! refused for its rate limit is sent again after the wait the broker names.
use crate::config::{all_digits, digits_value, parse_unsigned, unsigned_part};
use vstd::prelude::*;

verus! {

/// A request to send: its index and the client that sends it.
#[derive(Clone, Copy, Debug, PartialEq, Eq, Structural)]
pub struct Dispatch {
    pub request: usize,
    pub client: usize,
}

/// The dispatch of request `i`.
pub open spec fn dispatch_of(i: int, clients: int) -> Dispatch {
    Dispatch { request: i as usize, client: (i % clients) as usize }
}

/// The order in which requests are sent.
pub struct RequestScheduler {
    /// Number of requests.
    pub request_count: usize,
    /// Number of clients.
    pub clients: usize,
    /// Most requests in flight at once.
    pub max_concurrent: usize,
    /// The next request to send.
    pub next_index: usize,
}

impl RequestScheduler {
    /// Whether the scheduler can go on: there are clients, and no request
    /// index goes past the count.
    pub open spec fn wf(self) -> bool {
        &&& self.clients > 0
        &&& self.next_index <= self.request_count
    }

    /// A scheduler with nothing sent yet.
    pub fn new(request_count: usize, clients: usize, max_concurrent: usize) -> (r: Self)
        requires
            clients > 0,
        ensures
            r.wf(),
            r.request_count == request_count,
            r.clients == clients,
            r.max_concurrent == max_concurrent,
            r.next_index == 0,
    {
        RequestScheduler { request_count, clients, max_concurrent, next_index: 0 }
    }

    /// The first requests to send: the first `max_concurrent` (or all, if
    /// fewer), each on the client of its index modulo the number of clients.
    pub fn start(&mut self) -> (r: Vec<Dispatch>)
        requires
            old(self).wf(),
            old(self).next_index == 0,
        ensures
            final(self).wf(),
            ({
                let k = if old(self).max_concurrent < old(self).request_count {
                    old(self).max_concurrent as int
                } else {
                    old(self).request_count as int
                };
                &&& r@ == Seq::new(k as nat, |i: int| dispatch_of(i, old(self).clients as int))
                &&& final(self).next_index == k
            }),
            final(self).request_count == old(self).request_count,
            final(self).clients == old(self).clients,
            final(self).max_concurrent == old(self).max_concurrent,
    {
        let mut out: Vec<Dispatch> = Vec::new();
        while self.next_index < self.max_concurrent && self.next_index < self.request_count
            invariant
                self.wf(),
                self.next_index <= self.max_concurrent || self.next_index == 0,
                self.request_count == old(self).request_count,
                self.clients == old(self).clients,
                self.max_concurrent == old(self).max_concurrent,
                out@ == Seq::new(self.next_index as nat, |i: int| dispatch_of(i, self.clients as int)),
            decreases self.request_count - self.next_index,
        {
            let i = self.next_index;
            out.push(Dispatch { request: i, client: i % self.clients });
            self.next_index = i + 1;
            assert(out@ =~= Seq::new(self.next_index as nat, |j: int| dispatch_of(j, self.clients as int)));
        }
        out
    }

    /// After an answer arrives: the next request to send, if any.
    pub fn on_response(&mut self) -> (r: Option<Dispatch>)
        requires
            old(self).wf(),
        ensures
            final(self).wf(),
            old(self).next_index < old(self).request_count ==> r == Some(
                dispatch_of(old(self).next_index as int, old(self).clients as int),
            ) && final(self).next_index == old(self).next_index + 1,
            old(self).next_index >= old(self).request_count ==> r is None && final(self).next_index
                == old(self).next_index,
            final(self).request_count == old(self).request_count,
            final(self).clients == old(self).clients,
            final(self).max_concurrent == old(self).max_concurrent,
    {
        if self.next_index < self.request_count {
            let i = self.next_index;
            self.next_index = i + 1;
            Some(Dispatch { request: i, client: i % self.clients })
        } else {
            None
        }
    }
}

/// The number read from a text as `str::parse::<u64>` reads it: an optional
/// `+` followed by decimal digits only, the value fitting in 64 bits.
pub open spec fn u64_parse(s: Seq<char>) -> Option<u64> {
    let t = unsigned_part(s);
    if all_digits(t) && digits_value(t) <= u64::MAX {
        Some(digits_value(t) as u64)
    } else {
        None
    }
}

/// `str::parse::<u64>`: an optional `+` followed by ASCII digits whose value
/// fits in 64 bits; anything else is refused.
fn parse_u64(s: &str) -> (r: Option<u64>)
    ensures
        r == u64_parse(s@),
{
    parse_unsigned(s, u64::MAX)
}

/// How long to wait before sending a refused request again: the seconds in
/// the `x-ratelimit-reset` header of a "resource exhausted" refusal; `None`
/// for any other refusal, or when the header is missing or not a number.
pub fn retry_wait_secs(resource_exhausted: bool, reset_header: Option<&str>) -> (r: Option<u64>)
    ensures
        r == (if resource_exhausted && reset_header is Some {
            u64_parse(reset_header->0@)
        } else {
            None
        }),
{
    if !resource_exhausted {
        return None;
    }
    match reset_header {
        None => None,
        Some(h) => parse_u64(h),
    }
}

} // verus!
