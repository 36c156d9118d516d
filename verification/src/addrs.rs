//! The ordered address sequence and its family-preference partition.
//!
//! Order carries meaning here: a sequence preserves the order of its
//! source (the platform resolver, an override list, or a literal parse),
//! and the partition below is stable, never a sort.

use vstd::prelude::*;

use crate::addr::SockAddr;

verus! {

/// The elements of `s` belonging to the IPv6 family when `v6` is true,
/// to the IPv4 family when it is false, in their original order.
pub open spec fn family_filter(s: Seq<SockAddr>, v6: bool) -> Seq<SockAddr> {
    s.filter(|a: SockAddr| a.is_v6() == v6)
}

/// What the family-preference partition returns: preferred first,
/// fallback second. Pinning exactly one local family commits to that
/// family alone; otherwise the family of the first address decides.
pub open spec fn split_spec(s: Seq<SockAddr>, pin_v4: bool, pin_v6: bool) -> (Seq<SockAddr>, Seq<
    SockAddr,
>) {
    if pin_v4 && !pin_v6 {
        (family_filter(s, false), Seq::<SockAddr>::empty())
    } else if pin_v6 && !pin_v4 {
        (family_filter(s, true), Seq::<SockAddr>::empty())
    } else {
        let prefer_v6 = s.len() > 0 && s[0].is_v6();
        (family_filter(s, prefer_v6), family_filter(s, !prefer_v6))
    }
}

/// An ordered sequence of socket addresses, consumed from the front.
pub struct SocketAddrs {
    addrs: Vec<SockAddr>,
}

impl SocketAddrs {
    /// The addresses not yet consumed, in order.
    pub closed spec fn view(&self) -> Seq<SockAddr> {
        self.addrs@
    }

    pub fn new(addrs: Vec<SockAddr>) -> (r: SocketAddrs)
        ensures
            r@ == addrs@,
    {
        SocketAddrs { addrs }
    }

    pub fn is_empty(&self) -> (r: bool)
        ensures
            r == (self@.len() == 0),
    {
        self.addrs.len() == 0
    }

    pub fn len(&self) -> (r: usize)
        ensures
            r == self@.len(),
    {
        self.addrs.len()
    }

    /// Yields the addresses one by one, front first, in order.
    pub fn next(&mut self) -> (r: Option<SockAddr>)
        ensures
            old(self)@.len() == 0 ==> r is None && final(self)@ == old(self)@,
            old(self)@.len() > 0 ==> r == Some(old(self)@[0]) && final(self)@
                == old(self)@.drop_first(),
    {
        if self.addrs.len() > 0 {
            let a = self.addrs.remove(0);
            proof {
                assert(self@ =~= old(self)@.drop_first());
            }
            Some(a)
        } else {
            None
        }
    }

    /// The remaining addresses as a plain vector, in order.
    pub fn to_vec(&self) -> (r: Vec<SockAddr>)
        ensures
            r@ == self@,
    {
        let mut out: Vec<SockAddr> = Vec::new();
        let mut i: usize = 0;
        while i < self.addrs.len()
            invariant
                i <= self.addrs.len(),
                out@ == self.addrs@.take(i as int),
            decreases self.addrs.len() - i,
        {
            out.push(self.addrs[i]);
            proof {
                assert(out@ =~= self.addrs@.take(i + 1));
            }
            i = i + 1;
        }
        proof {
            assert(out@ =~= self@);
        }
        out
    }

    /// The addresses of one family, in their original order.
    fn filter_family(&self, v6: bool) -> (r: Vec<SockAddr>)
        ensures
            r@ == family_filter(self@, v6),
    {
        let n = self.addrs.len();
        let mut out: Vec<SockAddr> = Vec::new();
        let mut i: usize = 0;
        proof {
            reveal(Seq::filter);
            assert(self@.take(0) =~= Seq::<SockAddr>::empty());
        }
        while i < n
            invariant
                i <= n,
                n == self.addrs.len(),
                out@ == family_filter(self@.take(i as int), v6),
            decreases n - i,
        {
            let a = self.addrs[i];
            proof {
                reveal(Seq::filter);
                assert(self@.take(i + 1).drop_last() =~= self@.take(i as int));
                assert(self@.take(i + 1).last() == a);
            }
            if a.is_ipv6() == v6 {
                out.push(a);
            }
            i = i + 1;
        }
        proof {
            assert(self@.take(n as int) =~= self@);
        }
        out
    }

    /// The central partition. With exactly one local family pinned, the
    /// preferred half holds all addresses of that family and the fallback
    /// is empty; with both or neither pinned, the family of the first
    /// address is preferred and the other family falls back. Both halves
    /// keep the original relative order (a stable partition, not a sort).
    pub fn split_by_preference(
        self,
        local_addr_ipv4: Option<crate::addr::Ipv4Address>,
        local_addr_ipv6: Option<crate::addr::Ipv6Address>,
    ) -> (r: (SocketAddrs, SocketAddrs))
        ensures
            r.0@ == split_spec(self@, local_addr_ipv4 is Some, local_addr_ipv6 is Some).0,
            r.1@ == split_spec(self@, local_addr_ipv4 is Some, local_addr_ipv6 is Some).1,
    {
        match (&local_addr_ipv4, &local_addr_ipv6) {
            (Some(_), None) => (
                SocketAddrs::new(self.filter_family(false)),
                SocketAddrs::new(Vec::new()),
            ),
            (None, Some(_)) => (
                SocketAddrs::new(self.filter_family(true)),
                SocketAddrs::new(Vec::new()),
            ),
            _ => {
                let prefer_v6 = if self.addrs.len() > 0 {
                    self.addrs[0].is_ipv6()
                } else {
                    false
                };
                let preferred = self.filter_family(prefer_v6);
                let fallback = self.filter_family(!prefer_v6);
                (SocketAddrs::new(preferred), SocketAddrs::new(fallback))
            },
        }
    }
}

} // verus!
