//! Public-IP resolution: a prioritised list of IP-echo providers is tried
//! strictly in order under a global deadline; the first successful,
//! non-empty trimmed response wins, and exhaustion or the deadline leaves
//! the fact unresolved (never an error).

use vstd::prelude::*;
use crate::text::{trim_ascii, trimmed};

verus! {

/// What one attempt against a provider produced: a transport error, or a
/// response carrying its success flag and raw body.
#[derive(Debug, Clone)]
pub enum FetchOutcome {
    TransportError,
    Response { ok: bool, body: String },
}

/// The value an outcome contributes: the trimmed body, present exactly
/// when the request succeeded and the trimmed body is non-empty.
pub open spec fn accepted_body(o: FetchOutcome) -> Option<Seq<char>> {
    match o {
        FetchOutcome::TransportError => None,
        FetchOutcome::Response { ok, body } => if ok && trimmed(body@).len() > 0 {
            Some(trimmed(body@))
        } else {
            None
        },
    }
}

/// Test one provider response: the trimmed body exactly when the request
/// succeeded with a non-empty trimmed body.
pub fn accept_response(ok: bool, body: &str) -> (r: Option<String>)
    ensures
        match r {
            Some(ip) => ok && trimmed(body@).len() > 0 && ip@ == trimmed(body@),
            None => !(ok && trimmed(body@).len() > 0),
        },
{
    if !ok {
        return None;
    }
    let t = trim_ascii(body);
    if t.as_str().unicode_len() == 0 {
        None
    } else {
        Some(t)
    }
}

/// Driving state of the sequential resolution: how many providers there
/// are, which is due next, whether resolution has finished, and with
/// what. The unresolved state is an absent value, never an error.
#[derive(Debug, Clone)]
pub struct IpResolver {
    pub endpoint_count: usize,
    pub next_endpoint: usize,
    pub finished: bool,
    pub resolved: Option<String>,
}

impl IpResolver {
    /// The cursor stays in range, a resolved value only exists once
    /// finished, and an unfinished resolver still has a provider to try.
    pub open spec fn wf(self) -> bool {
        &&& self.next_endpoint <= self.endpoint_count
        &&& (self.resolved is Some ==> self.finished)
        &&& (!self.finished ==> self.next_endpoint < self.endpoint_count)
    }

    /// Start resolving against `endpoint_count` providers; with none, the
    /// resolution is already finished and unresolved.
    pub fn new(endpoint_count: usize) -> (r: IpResolver)
        ensures
            r.wf(),
            r.endpoint_count == endpoint_count,
            r.next_endpoint == 0,
            r.resolved is None,
            r.finished == (endpoint_count == 0),
    {
        IpResolver { endpoint_count, next_endpoint: 0, finished: endpoint_count == 0, resolved: None }
    }

    /// The provider to query next, or nothing once resolution finished.
    pub fn pending_endpoint(&self) -> (r: Option<usize>)
        requires
            self.wf(),
        ensures
            match r {
                Some(i) => !self.finished && i == self.next_endpoint && i < self.endpoint_count,
                None => self.finished,
            },
    {
        if self.finished {
            None
        } else {
            Some(self.next_endpoint)
        }
    }

    /// Feed the outcome of the attempt against the pending provider. An
    /// acceptable response finishes resolution with its trimmed body; any
    /// other outcome is swallowed and the cursor moves on, finishing
    /// unresolved after the last provider.
    pub fn on_outcome(&mut self, ok: bool, body: &str)
        requires
            old(self).wf(),
            !old(self).finished,
        ensures
            final(self).wf(),
            final(self).endpoint_count == old(self).endpoint_count,
            if ok && trimmed(body@).len() > 0 {
                &&& final(self).finished
                &&& final(self).next_endpoint == old(self).next_endpoint
                &&& match final(self).resolved {
                    Some(ip) => ip@ == trimmed(body@),
                    None => false,
                }
            } else {
                &&& final(self).resolved is None
                &&& final(self).next_endpoint == old(self).next_endpoint + 1
                &&& final(self).finished == (final(self).next_endpoint
                    == final(self).endpoint_count)
            },
    {
        match accept_response(ok, body) {
            Some(ip) => {
                self.resolved = Some(ip);
                self.finished = true;
            },
            None => {
                self.next_endpoint = self.next_endpoint + 1;
                if self.next_endpoint == self.endpoint_count {
                    self.finished = true;
                }
            },
        }
    }

    /// The global deadline elapsed: resolution finishes with whatever has
    /// been resolved so far (nothing, unless already finished), and never
    /// raises an error.
    pub fn on_deadline(&mut self)
        ensures
            final(self).finished,
            final(self).resolved == old(self).resolved,
            final(self).next_endpoint == old(self).next_endpoint,
            final(self).endpoint_count == old(self).endpoint_count,
    {
        self.finished = true;
    }
}

/// Index of the first outcome that contributes a value.
pub open spec fn first_accepted(outs: Seq<FetchOutcome>) -> Option<int>
    decreases outs.len(),
{
    if outs.len() == 0 {
        None
    } else if accepted_body(outs[0]) is Some {
        Some(0int)
    } else {
        match first_accepted(outs.drop_first()) {
            Some(j) => Some(j + 1),
            None => None,
        }
    }
}

proof fn lemma_first_accepted_at(outs: Seq<FetchOutcome>, i: int)
    requires
        0 <= i <= outs.len(),
        forall|j: int| 0 <= j < i ==> accepted_body(#[trigger] outs[j]) is None,
        i < outs.len() ==> accepted_body(outs[i]) is Some,
    ensures
        first_accepted(outs) == if i == outs.len() {
            None
        } else {
            Some(i)
        },
    decreases outs.len(),
{
    if outs.len() > 0 {
        if accepted_body(outs[0]) is Some {
            assert(i == 0);
        } else {
            assert(forall|j: int|
                0 <= j < outs.len() - 1 ==> #[trigger] outs.drop_first()[j] == outs[j + 1]);
            lemma_first_accepted_at(outs.drop_first(), i - 1);
        }
    }
}

/// Resolve against a fixed list of attempt outcomes, strictly in order:
/// the first acceptable response wins and nothing after it is examined;
/// when every outcome fails, the result is unresolved, not an error.
/// Returns the resolved value and the number of attempts consumed.
pub fn resolve_from_outcomes(outs: &Vec<FetchOutcome>) -> (r: (Option<String>, usize))
    ensures
        match first_accepted(outs@) {
            Some(i) => r.1 == i + 1 && match r.0 {
                Some(ip) => accepted_body(outs@[i]) == Some(ip@),
                None => false,
            },
            None => r.0 is None && r.1 == outs@.len(),
        },
{
    let mut i: usize = 0;
    while i < outs.len()
        invariant
            i <= outs@.len(),
            forall|j: int| 0 <= j < i ==> accepted_body(#[trigger] outs@[j]) is None,
        decreases outs@.len() - i,
    {
        let attempt = match &outs[i] {
            FetchOutcome::TransportError => None,
            FetchOutcome::Response { ok, body } => accept_response(*ok, body.as_str()),
        };
        match attempt {
            Some(ip) => {
                proof {
                    lemma_first_accepted_at(outs@, i as int);
                }
                return (Some(ip), i + 1);
            },
            None => {},
        }
        i = i + 1;
    }
    proof {
        lemma_first_accepted_at(outs@, outs@.len() as int);
    }
    (None, i)
}

/// The providers tried, most trusted first.
pub fn ip_echo_endpoints() -> (r: Vec<String>)
    ensures
        r@.len() == 5,
        r@[0]@ == "https://api.ipify.org"@,
        r@[1]@ == "https://ifconfig.me/ip"@,
        r@[2]@ == "https://icanhazip.com"@,
        r@[3]@ == "https://ipinfo.io/ip"@,
        r@[4]@ == "https://myexternalip.com/raw"@,
{
    let mut v: Vec<String> = Vec::new();
    v.push(String::from_str("https://api.ipify.org"));
    v.push(String::from_str("https://ifconfig.me/ip"));
    v.push(String::from_str("https://icanhazip.com"));
    v.push(String::from_str("https://ipinfo.io/ip"));
    v.push(String::from_str("https://myexternalip.com/raw"));
    v
}

} // verus!
