//! The decisions of the tool server around its Zenoh sessions: which router to
//! reach, how long to listen, and when a collection of samples ends.

use vstd::prelude::*;
use vstd::string::StringExecFns;

verus! {

/// The router endpoint used when neither the call nor the environment names one.
pub open spec fn default_connect() -> Seq<char> {
    "tcp/localhost:7447"@
}

/// The endpoint to reach: the call's own `connect` when it is given and not
/// empty, else the `ZENOH_CONNECT` setting when there is one, else
/// `tcp/localhost:7447`.
pub open spec fn connect_choice(arg: Option<Seq<char>>, env: Option<Seq<char>>) -> Seq<char> {
    match arg {
        Some(a) if a.len() > 0 => a,
        _ => match env {
            Some(e) => e,
            None => default_connect(),
        },
    }
}

/// Router choice: a non-empty `connect` argument wins whatever the
/// environment holds; without one, `ZENOH_CONNECT` wins when it is set (even
/// to an empty value); with neither, the endpoint is `tcp/localhost:7447`.
pub proof fn connect_precedence(a: Seq<char>, e: Seq<char>)
    ensures
        a.len() > 0 ==> connect_choice(Some(a), None) == a,
        a.len() > 0 ==> connect_choice(Some(a), Some(e)) == a,
        connect_choice(None, Some(e)) == e,
        connect_choice(Some(Seq::<char>::empty()), Some(e)) == e,
        connect_choice(None, None) == "tcp/localhost:7447"@,
        connect_choice(Some(Seq::<char>::empty()), None) == "tcp/localhost:7447"@,
{
}

/// The view of an optional string.
pub open spec fn opt_string_view(s: Option<String>) -> Option<Seq<char>> {
    match s {
        Some(t) => Some(t@),
        None => None,
    }
}

/// The router endpoint for a call, from its `connect` argument and the value of
/// the `ZENOH_CONNECT` environment variable (read by the caller).
pub fn resolve_connect(opt: Option<String>, env: Option<String>) -> (r: String)
    ensures
        r@ == connect_choice(opt_string_view(opt), opt_string_view(env)),
{
    match opt {
        Some(a) if !a.as_str().is_empty() => a,
        _ => match env {
            Some(e) => e,
            None => "tcp/localhost:7447".to_owned(),
        },
    }
}

/// The JSON5 list holding the one endpoint `connect`, written without escaping.
pub open spec fn endpoint_list(connect: Seq<char>) -> Seq<char> {
    "[\""@ + connect + "\"]"@
}

/// The settings, as (key, JSON5 value) pairs, of a session that reaches the
/// router `connect`: client mode, that one endpoint, and no multicast scouting
/// (the router is named, so nothing waits on scouting).
pub fn session_settings(connect: &str) -> (r: Vec<(String, String)>)
    ensures
        r@.len() == 3,
        r@[0].0@ == "mode"@,
        r@[0].1@ == "\"client\""@,
        r@[1].0@ == "connect/endpoints"@,
        r@[1].1@ == endpoint_list(connect@),
        r@[2].0@ == "scouting/multicast/enabled"@,
        r@[2].1@ == "false"@,
{
    let mut endpoints = "[\"".to_owned();
    endpoints.append(connect);
    endpoints.append("\"]");
    let mut r: Vec<(String, String)> = Vec::new();
    r.push(("mode".to_owned(), "\"client\"".to_owned()));
    r.push(("connect/endpoints".to_owned(), endpoints));
    r.push(("scouting/multicast/enabled".to_owned(), "false".to_owned()));
    r
}

/// Replies are awaited 3000 ms unless the call says otherwise.
pub const DEFAULT_TIMEOUT_MS: u64 = 3000;

/// Replies are never awaited longer than 30000 ms.
pub const MAX_TIMEOUT_MS: u64 = 30000;

/// Samples are collected for 3 s unless the call says otherwise.
pub const DEFAULT_DURATION_SECS: u64 = 3;

/// Samples are collected for at least 1 s ...
pub const MIN_DURATION_SECS: u64 = 1;

/// ... and at most 30 s.
pub const MAX_DURATION_SECS: u64 = 30;

/// At most 100 samples are kept unless the call says otherwise.
pub const DEFAULT_MAX_SAMPLES: usize = 100;

/// The call may ask for no fewer than 1 ...
pub const MIN_MAX_SAMPLES: usize = 1;

/// ... and no more than 2000 samples.
pub const MAX_MAX_SAMPLES: usize = 2000;

/// `v` held between `lo` and `hi` (`Ord::clamp`).
pub open spec fn clamp(v: int, lo: int, hi: int) -> int {
    if v < lo {
        lo
    } else if v > hi {
        hi
    } else {
        v
    }
}

/// How long a query waits for replies, in milliseconds: the requested time,
/// 3000 by default, and never more than 30000.
pub fn reply_timeout_ms(timeout_ms: Option<u64>) -> (r: u64)
    ensures
        r == match timeout_ms {
            Some(t) => if t < MAX_TIMEOUT_MS {
                t
            } else {
                MAX_TIMEOUT_MS
            },
            None => DEFAULT_TIMEOUT_MS,
        },
{
    let t = match timeout_ms {
        Some(t) => t,
        None => DEFAULT_TIMEOUT_MS,
    };
    if t < MAX_TIMEOUT_MS {
        t
    } else {
        MAX_TIMEOUT_MS
    }
}

/// How long a subscription listens, in seconds: the requested time, 3 by
/// default, held between 1 and 30.
pub fn listen_secs(duration_secs: Option<u64>) -> (r: u64)
    ensures
        r == clamp(
            match duration_secs {
                Some(d) => d as int,
                None => DEFAULT_DURATION_SECS as int,
            },
            MIN_DURATION_SECS as int,
            MAX_DURATION_SECS as int,
        ),
{
    let d = match duration_secs {
        Some(d) => d,
        None => DEFAULT_DURATION_SECS,
    };
    if d < MIN_DURATION_SECS {
        MIN_DURATION_SECS
    } else if d > MAX_DURATION_SECS {
        MAX_DURATION_SECS
    } else {
        d
    }
}

/// How many samples a subscription keeps at most: the requested number, 100
/// by default, held between 1 and 2000.
pub fn sample_limit(max_samples: Option<usize>) -> (r: usize)
    ensures
        r == clamp(
            match max_samples {
                Some(m) => m as int,
                None => DEFAULT_MAX_SAMPLES as int,
            },
            MIN_MAX_SAMPLES as int,
            MAX_MAX_SAMPLES as int,
        ),
{
    let m = match max_samples {
        Some(m) => m,
        None => DEFAULT_MAX_SAMPLES,
    };
    if m < MIN_MAX_SAMPLES {
        MIN_MAX_SAMPLES
    } else if m > MAX_MAX_SAMPLES {
        MAX_MAX_SAMPLES
    } else {
        m
    }
}

/// What the caller saw when it waited for the next sample or reply.
#[derive(Clone, Copy, Debug, PartialEq, Eq, Structural)]
pub enum RecvEvent {
    /// A sample or reply arrived.
    Item,
    /// The channel closed: everything has arrived.
    Closed,
    /// The wait ran out.
    TimedOut,
}

/// What the caller does next.
#[derive(Clone, Copy, Debug, PartialEq, Eq, Structural)]
pub enum Step {
    /// Wait for the next sample or reply.
    Receive,
    /// Stop collecting.
    Finish,
}

/// The state of one collection of samples or replies.
pub struct Collector {
    limit: Option<usize>,
    count: usize,
    finished: bool,
}

impl Collector {
    /// At most this many items are kept (none: no limit).
    pub closed spec fn limit_of(&self) -> Option<usize> {
        self.limit
    }

    /// How many items have been kept.
    pub closed spec fn count_of(&self) -> nat {
        self.count as nat
    }

    /// Whether the channel has closed or a wait has run out.
    pub closed spec fn finished_of(&self) -> bool {
        self.finished
    }

    /// Never more items kept than the limit.
    pub open spec fn wf(&self) -> bool {
        self.limit_of() matches Some(l) ==> self.count_of() <= l
    }

    /// Whether one more item may be kept.
    pub open spec fn has_room(&self) -> bool {
        &&& self.count_of() < usize::MAX
        &&& self.limit_of() matches Some(l) ==> self.count_of() < l
    }

    /// A collection that has kept nothing yet.
    pub fn new(limit: Option<usize>) -> (c: Self)
        ensures
            c.wf(),
            c.limit_of() == limit,
            c.count_of() == 0,
            !c.finished_of(),
    {
        Collector { limit, count: 0, finished: false }
    }

    /// How many items have been kept.
    pub fn count(&self) -> (n: usize)
        ensures
            n == self.count_of(),
    {
        self.count
    }

    /// Whether the collection stopped because its limit was reached.
    pub fn truncated(&self) -> (b: bool)
        ensures
            b == (self.limit_of() matches Some(l) && self.count_of() >= l),
    {
        match self.limit {
            Some(l) => self.count >= l,
            None => false,
        }
    }

    /// The next step, given whether time is left before the deadline: stop once
    /// the limit is reached, the time is up, or the channel has closed or gone
    /// quiet; wait for more otherwise.
    pub fn next_step(&self, time_left: bool) -> (s: Step)
        ensures
            s == (if !self.finished_of() && self.has_room() && time_left {
                Step::Receive
            } else {
                Step::Finish
            }),
    {
        let room = match self.limit {
            Some(l) => self.count < l,
            None => true,
        };
        if !self.finished && room && self.count < usize::MAX && time_left {
            Step::Receive
        } else {
            Step::Finish
        }
    }

    /// Take in what a wait gave; the result says whether an arrived item is kept.
    /// An item is kept while there is room; a closed channel or a wait that ran
    /// out ends the collection.
    pub fn on_event(&mut self, ev: RecvEvent) -> (keep: bool)
        requires
            old(self).wf(),
        ensures
            final(self).wf(),
            final(self).limit_of() == old(self).limit_of(),
            keep == (ev == RecvEvent::Item && !old(self).finished_of() && old(self).has_room()),
            final(self).count_of() == old(self).count_of() + (if keep {
                1nat
            } else {
                0nat
            }),
            final(self).finished_of() == (old(self).finished_of() || ev != RecvEvent::Item),
    {
        match ev {
            RecvEvent::Item => {
                let room = match self.limit {
                    Some(l) => self.count < l,
                    None => true,
                };
                if !self.finished && room && self.count < usize::MAX {
                    self.count = self.count + 1;
                    true
                } else {
                    false
                }
            },
            _ => {
                self.finished = true;
                false
            },
        }
    }
}

} // verus!
