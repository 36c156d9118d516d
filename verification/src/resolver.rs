//! The resolution service's decision logic.
//!
//! `CustomResolver` holds the override table, consulted by exact
//! hostname match before any platform lookup. `resolve_step` says which
//! path a resolution takes: an immediate answer from the table, or one
//! background platform lookup. `settle` maps the outcome of that
//! background work — completion, OS failure, cancellation, or a crashed
//! worker — onto the result a caller observes. The asynchronous shell
//! around these calls lives outside the library and hands outcomes in
//! as plain values.

use vstd::prelude::*;

use crate::addr::SockAddr;
use crate::addrs::SocketAddrs;
use crate::text::str_eq;

verus! {

/// Error indicating a given string was not a valid domain name.
/// Detected by boundary validation before resolution runs.
#[derive(Debug)]
pub struct InvalidNameError(());

impl InvalidNameError {
    pub fn new() -> (r: InvalidNameError) {
        InvalidNameError(())
    }

    /// The error's description.
    pub fn message(&self) -> (r: String)
        ensures
            r@ == "Not a valid domain name"@,
    {
        "Not a valid domain name".to_owned()
    }
}

/// Why a resolution produced no address list.
#[derive(Debug)]
pub enum ResolutionError {
    /// The platform lookup itself failed; carries the underlying
    /// platform error's description unchanged.
    ResolutionFailure(String),
    /// The resolution was cancelled before it produced a result.
    Interrupted,
}

/// An iterator of IP addresses returned from a finished resolution.
pub struct CustomAddrs {
    inner: SocketAddrs,
}

impl CustomAddrs {
    /// The addresses not yet consumed, in order.
    pub closed spec fn view(&self) -> Seq<SockAddr> {
        self.inner@
    }

    pub fn new(inner: SocketAddrs) -> (r: CustomAddrs)
        ensures
            r@ == inner@,
    {
        CustomAddrs { inner }
    }

    /// Yields the addresses one by one, front first, in order.
    pub fn next(&mut self) -> (r: Option<SockAddr>)
        ensures
            old(self)@.len() == 0 ==> r is None && final(self)@ == old(self)@,
            old(self)@.len() > 0 ==> r == Some(old(self)@[0]) && final(self)@
                == old(self)@.drop_first(),
    {
        self.inner.next()
    }
}

/// The first step of a resolution: answered from the override table, or
/// in need of one background platform lookup.
pub enum ResolveStep {
    /// The hostname was overridden: these addresses, in the table's
    /// order, with no platform lookup at all.
    Resolved(SocketAddrs),
    /// No override: exactly one platform lookup must be performed.
    NeedsLookup,
}

/// How one background platform lookup ended, as plain values.
pub enum LookupOutcome {
    /// The lookup returned these addresses, in the platform's order.
    Found(Vec<SockAddr>),
    /// The lookup failed; carries the platform error's description.
    Failed(String),
    /// The lookup was cancelled before completion.
    Cancelled,
    /// The background worker itself terminated abnormally.
    Crashed,
}

/// What a caller observes of a settled resolution.
pub enum Settled {
    /// The resolution completed with these addresses.
    Ready(CustomAddrs),
    /// The resolution failed or was cancelled.
    Failure(ResolutionError),
    /// The background worker crashed: unrecoverable at this layer, not
    /// an ordinary error.
    Fatal,
}

/// The override table's mapping: exact hostname to address list, the
/// earliest entry winning a repeated hostname.
pub open spec fn table_map(entries: Seq<(String, Vec<SockAddr>)>) -> Map<Seq<char>, Seq<SockAddr>>
    decreases entries.len(),
{
    if entries.len() == 0 {
        Map::empty()
    } else {
        table_map(entries.drop_first()).insert(entries[0].0@, entries[0].1@)
    }
}

/// A resolver backed by blocking platform lookups on worker threads,
/// with a read-only table of per-hostname overrides.
#[derive(Clone)]
pub struct CustomResolver {
    overrides: Vec<(String, Vec<SockAddr>)>,
}

impl CustomResolver {
    /// The override table as a mapping from hostname to address list.
    pub closed spec fn view(&self) -> Map<Seq<char>, Seq<SockAddr>> {
        table_map(self.overrides@)
    }

    /// Construct a new `CustomResolver` with no overrides.
    pub fn new() -> (r: Self)
        ensures
            r@ == Map::<Seq<char>, Seq<SockAddr>>::empty(),
    {
        CustomResolver { overrides: Vec::new() }
    }

    /// Construct a resolver that answers the listed hostnames from the
    /// given address lists instead of the platform.
    pub fn with_overrides(overrides: Vec<(String, Vec<SockAddr>)>) -> (r: Self)
        ensures
            r@ == table_map(overrides@),
    {
        CustomResolver { overrides }
    }

    /// Decide how to resolve `host`: on an exact override match, the
    /// table's address list in its original order and nothing else; on
    /// a miss, one background platform lookup.
    pub fn resolve_step(&self, host: &str) -> (r: ResolveStep)
        ensures
            self@.contains_key(host@) ==> (r matches ResolveStep::Resolved(a) && a@
                == self@[host@]),
            !self@.contains_key(host@) ==> r is NeedsLookup,
    {
        proof {
            assert(self.overrides@.skip(0) =~= self.overrides@);
        }
        match lookup_from(&self.overrides, 0, host) {
            Some(v) => ResolveStep::Resolved(SocketAddrs::new(v)),
            None => ResolveStep::NeedsLookup,
        }
    }
}

/// A copy of an address list.
fn copy_addrs(v: &Vec<SockAddr>) -> (r: Vec<SockAddr>)
    ensures
        r@ == v@,
{
    let mut out: Vec<SockAddr> = Vec::new();
    let mut i: usize = 0;
    while i < v.len()
        invariant
            i <= v.len(),
            out@ == v@.take(i as int),
        decreases v.len() - i,
    {
        out.push(v[i]);
        proof {
            assert(out@ =~= v@.take(i + 1));
        }
        i = i + 1;
    }
    proof {
        assert(out@ =~= v@);
    }
    out
}

/// The first entry from `idx` on whose hostname equals `host`, if any.
fn lookup_from(entries: &Vec<(String, Vec<SockAddr>)>, idx: usize, host: &str) -> (r: Option<
    Vec<SockAddr>,
>)
    requires
        idx <= entries.len(),
    ensures
        table_map(entries@.skip(idx as int)).contains_key(host@) ==> (r matches Some(v) && v@
            == table_map(entries@.skip(idx as int))[host@]),
        !table_map(entries@.skip(idx as int)).contains_key(host@) ==> r is None,
    decreases entries.len() - idx,
{
    if idx == entries.len() {
        proof {
            assert(entries@.skip(idx as int) =~= Seq::<(String, Vec<SockAddr>)>::empty());
        }
        None
    } else {
        proof {
            assert(entries@.skip(idx as int).drop_first() =~= entries@.skip(idx as int + 1));
            assert(entries@.skip(idx as int)[0] == entries@[idx as int]);
        }
        if str_eq(entries[idx].0.as_str(), host) {
            Some(copy_addrs(&entries[idx].1))
        } else {
            lookup_from(entries, idx + 1, host)
        }
    }
}

/// Settle one background lookup's outcome into what the caller sees:
/// found addresses come through unchanged and in order; an OS failure
/// surfaces as `ResolutionFailure` carrying the platform's error;
/// cancellation surfaces as `Interrupted`, never as a success; a crashed
/// worker is fatal, masked by nothing.
pub fn settle(outcome: LookupOutcome) -> (r: Settled)
    ensures
        outcome matches LookupOutcome::Found(v) ==> (r matches Settled::Ready(a) && a@ == v@),
        outcome matches LookupOutcome::Failed(e) ==> (r matches Settled::Failure(err)
            && (err matches ResolutionError::ResolutionFailure(m) && m@ == e@)),
        outcome is Cancelled ==> (r matches Settled::Failure(err) && err is Interrupted),
        outcome is Crashed ==> r is Fatal,
{
    match outcome {
        LookupOutcome::Found(v) => Settled::Ready(CustomAddrs::new(SocketAddrs::new(v))),
        LookupOutcome::Failed(e) => Settled::Failure(ResolutionError::ResolutionFailure(e)),
        LookupOutcome::Cancelled => Settled::Failure(ResolutionError::Interrupted),
        LookupOutcome::Crashed => Settled::Fatal,
    }
}

} // verus!
