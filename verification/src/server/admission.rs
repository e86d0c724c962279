//! How many stations may be connected at once.

use vstd::prelude::*;
use crate::ip::{same_ip, IpAddr, IpView};

verus! {

/// How many connections there may be.
pub const MAX_CONNECTIONS: usize = 50;

/// How many of them may come from one address.
pub const MAX_CONNECTIONS_PER_IP: usize = 5;

/// Whether a connection is taken.
#[derive(Debug, Clone, Copy, PartialEq, Eq, Structural)]
pub enum Admission {
    Admitted,
    /// Too many from this address.
    PeerLimit,
    /// Too many altogether.
    TotalLimit,
}

/// The connections that there are.
pub struct Connections {
    pub total: usize,
    /// Each address with a connection, once, and how many it has.
    pub peers: Vec<(IpAddr, usize)>,
}

/// How many connections an address has.
pub open spec fn count_of(peers: Seq<(IpAddr, usize)>, ip: IpView) -> int
    decreases peers.len(),
{
    if peers.len() == 0 {
        0
    } else if peers.last().0@ == ip {
        peers.last().1 as int
    } else {
        count_of(peers.drop_last(), ip)
    }
}

proof fn lemma_count_at(peers: Seq<(IpAddr, usize)>, i: int)
    requires
        0 <= i < peers.len(),
        forall|a: int, b: int|
            0 <= a < b < peers.len() ==> (#[trigger] peers[a]).0@ != (#[trigger] peers[b]).0@,
    ensures
        count_of(peers, peers[i].0@) == peers[i].1,
    decreases peers.len(),
{
    if i < peers.len() - 1 {
        assert(peers.last() == peers[peers.len() - 1]);
        lemma_count_at(peers.drop_last(), i);
        assert(peers.drop_last()[i] == peers[i]);
    }
}

proof fn lemma_count_absent(peers: Seq<(IpAddr, usize)>, ip: IpView)
    requires
        forall|i: int| 0 <= i < peers.len() ==> (#[trigger] peers[i]).0@ != ip,
    ensures
        count_of(peers, ip) == 0,
    decreases peers.len(),
{
    if peers.len() > 0 {
        lemma_count_absent(peers.drop_last(), ip);
    }
}

/// Other counts do not depend on one entry.
proof fn lemma_count_update(peers: Seq<(IpAddr, usize)>, i: int, n: usize, ip: IpView)
    requires
        0 <= i < peers.len(),
        peers[i].0@ != ip,
    ensures
        count_of(peers.update(i, (peers[i].0, n)), ip) == count_of(peers, ip),
    decreases peers.len(),
{
    let new = peers.update(i, (peers[i].0, n));
    if i == peers.len() - 1 {
        assert(new.drop_last() =~= peers.drop_last());
    } else {
        assert(new.drop_last() =~= peers.drop_last().update(i, (peers[i].0, n)));
        lemma_count_update(peers.drop_last(), i, n, ip);
    }
}

proof fn lemma_count_remove(peers: Seq<(IpAddr, usize)>, i: int, ip: IpView)
    requires
        0 <= i < peers.len(),
        peers[i].0@ != ip,
    ensures
        count_of(peers.remove(i), ip) == count_of(peers, ip),
    decreases peers.len(),
{
    let new = peers.remove(i);
    if i == peers.len() - 1 {
        assert(new =~= peers.drop_last());
    } else {
        assert(new.last() == peers.last());
        assert(new.drop_last() =~= peers.drop_last().remove(i));
        lemma_count_remove(peers.drop_last(), i, ip);
    }
}

impl Connections {
    /// The limits hold, each address is listed once, and only while it has a
    /// connection.
    pub open spec fn wf(&self) -> bool {
        &&& self.total <= MAX_CONNECTIONS
        &&& forall|i: int, j: int|
            0 <= i < j < self.peers@.len() ==> (#[trigger] self.peers@[i]).0@ != (
            #[trigger] self.peers@[j]).0@
        &&& forall|i: int|
            0 <= i < self.peers@.len() ==> 1 <= (#[trigger] self.peers@[i]).1
                <= MAX_CONNECTIONS_PER_IP
    }

    /// How many connections an address has.
    pub open spec fn count(&self, ip: IpView) -> int {
        count_of(self.peers@, ip)
    }

    /// No connections yet.
    pub fn new() -> (r: Connections)
        ensures
            r.wf(),
            r.total == 0,
            forall|ip: IpView| #[trigger] r.count(ip) == 0,
    {
        Connections { total: 0, peers: Vec::new() }
    }

    /// Where an address is listed.
    fn position(&self, ip: &IpAddr) -> (r: Option<usize>)
        requires
            self.wf(),
        ensures
            match r {
                Some(i) => i < self.peers@.len() && self.peers@[i as int].0@ == ip@ && self.count(ip@)
                    == self.peers@[i as int].1,
                None => self.count(ip@) == 0 && forall|i: int|
                    0 <= i < self.peers@.len() ==> (#[trigger] self.peers@[i]).0@ != ip@,
            },
    {
        let mut i: usize = 0;
        while i < self.peers.len()
            invariant
                i <= self.peers@.len(),
                self.wf(),
                forall|k: int| 0 <= k < i ==> (#[trigger] self.peers@[k]).0@ != ip@,
            decreases self.peers.len() - i,
        {
            if same_ip(&self.peers[i].0, ip) {
                proof {
                    lemma_count_at(self.peers@, i as int);
                }
                return Some(i);
            }
            i += 1;
        }
        proof {
            lemma_count_absent(self.peers@, ip@);
        }
        None
    }

    /// Takes a connection, unless its address or all together have as many as
    /// they may. The address may be unknown.
    pub fn enter(&mut self, peer: Option<IpAddr>) -> (r: Admission)
        requires
            old(self).wf(),
        ensures
            final(self).wf(),
            r == (if peer matches Some(ip) && old(self).count(ip@) >= MAX_CONNECTIONS_PER_IP {
                Admission::PeerLimit
            } else if old(self).total >= MAX_CONNECTIONS {
                Admission::TotalLimit
            } else {
                Admission::Admitted
            }),
            r != Admission::Admitted ==> final(self).total == old(self).total && forall|ip: IpView| #[trigger]
                final(self).count(ip) == old(self).count(ip),
            r == Admission::Admitted ==> final(self).total == old(self).total + 1 && forall|ip: IpView| #[trigger]
                final(self).count(ip) == old(self).count(ip) + (if peer matches Some(p) && p@ == ip {
                    1int
                } else {
                    0
                }),
    {
        let found = match &peer {
            Some(ip) => self.position(ip),
            None => None,
        };
        if let Some(i) = found {
            if self.peers[i].1 >= MAX_CONNECTIONS_PER_IP {
                return Admission::PeerLimit;
            }
        }
        if self.total >= MAX_CONNECTIONS {
            return Admission::TotalLimit;
        }
        let ghost before = self.peers@;
        self.total = self.total + 1;
        if let Some(ip) = peer {
            match found {
                Some(i) => {
                    let n: usize = self.peers[i].1 + 1;
                    self.peers[i].1 = n;
                    proof {
                        let after = self.peers@;
                        assert(after =~= before.update(i as int, (before[i as int].0, n)));
                        assert forall|v: IpView| #[trigger] count_of(after, v) == count_of(before, v)
                            + (if v == ip@ {
                            1int
                        } else {
                            0
                        }) by {
                            if v == ip@ {
                                lemma_count_at(after, i as int);
                                lemma_count_at(before, i as int);
                            } else {
                                lemma_count_update(before, i as int, n, v);
                            }
                        }
                    }
                },
                None => {
                    self.peers.push((ip, 1));
                    proof {
                        let after = self.peers@;
                        assert(after.drop_last() =~= before);
                        assert forall|v: IpView| #[trigger] count_of(after, v) == count_of(before, v)
                            + (if v == ip@ {
                            1int
                        } else {
                            0
                        }) by {}
                    }
                },
            }
        }
        Admission::Admitted
    }

    /// Lets go of a connection that was taken.
    pub fn release(&mut self, peer: Option<IpAddr>)
        requires
            old(self).wf(),
            old(self).total > 0,
        ensures
            final(self).wf(),
            final(self).total == old(self).total - 1,
            forall|ip: IpView| #[trigger]
                final(self).count(ip) == (if peer matches Some(p) && p@ == ip && old(self).count(ip)
                    > 0 {
                    old(self).count(ip) - 1
                } else {
                    old(self).count(ip)
                }),
    {
        let ghost before = self.peers@;
        self.total = self.total - 1;
        if let Some(ip) = peer {
            if let Some(i) = self.position(&ip) {
                let n: usize = self.peers[i].1 - 1;
                if n == 0 {
                    self.peers.remove(i);
                    proof {
                        let after = self.peers@;
                        assert(after =~= before.remove(i as int));
                        assert forall|v: IpView| #[trigger] count_of(after, v) == (if v == ip@ {
                            0int
                        } else {
                            count_of(before, v)
                        }) by {
                            if v == ip@ {
                                assert forall|k: int| 0 <= k < after.len() implies (
                                #[trigger] after[k]).0@ != ip@ by {
                                    if k < i {
                                        assert(after[k] == before[k]);
                                    } else {
                                        assert(after[k] == before[k + 1]);
                                    }
                                }
                                lemma_count_absent(after, v);
                            } else {
                                lemma_count_remove(before, i as int, v);
                            }
                        }
                        assert forall|a: int, b: int| 0 <= a < b < after.len() implies (
                        #[trigger] after[a]).0@ != (#[trigger] after[b]).0@ by {
                            let x = if a < i {
                                a
                            } else {
                                a + 1
                            };
                            let y = if b < i {
                                b
                            } else {
                                b + 1
                            };
                            assert(after[a] == before[x] && after[b] == before[y]);
                        }
                    }
                } else {
                    self.peers[i].1 = n;
                    proof {
                        let after = self.peers@;
                        assert(after =~= before.update(i as int, (before[i as int].0, n)));
                        assert forall|v: IpView| #[trigger] count_of(after, v) == count_of(before, v)
                            - (if v == ip@ {
                            1int
                        } else {
                            0
                        }) by {
                            if v == ip@ {
                                lemma_count_at(after, i as int);
                                lemma_count_at(before, i as int);
                            } else {
                                lemma_count_update(before, i as int, n, v);
                            }
                        }
                    }
                }
            }
        }
    }
}

/// However connections come and go, there are never more than the limits allow,
/// neither altogether nor from one address.
pub proof fn limits_hold(c: &Connections, ip: IpView)
    requires
        c.wf(),
    ensures
        c.total <= MAX_CONNECTIONS,
        0 <= c.count(ip) <= MAX_CONNECTIONS_PER_IP,
{
    if exists|i: int| 0 <= i < c.peers@.len() && (#[trigger] c.peers@[i]).0@ == ip {
        let i = choose|i: int| 0 <= i < c.peers@.len() && (#[trigger] c.peers@[i]).0@ == ip;
        lemma_count_at(c.peers@, i);
    } else {
        lemma_count_absent(c.peers@, ip);
    }
}

/// There are never more than 50 connections, and never more than 5 from one
/// address.
pub proof fn the_limits_are_these(c: &Connections, ip: IpView)
    requires
        c.wf(),
    ensures
        c.total <= 50,
        c.count(ip) <= 5,
        MAX_CONNECTIONS == 50,
        MAX_CONNECTIONS_PER_IP == 5,
{
    limits_hold(c, ip);
}

/// An address has as many connections as are noted for it, and one that is not
/// noted has none.
pub proof fn connections_are_counted_by_address(c: &Connections, i: int, ip: IpView)
    requires
        c.wf(),
        0 <= i < c.peers@.len(),
    ensures
        c.count(c.peers@[i].0@) == c.peers@[i].1,
        (forall|k: int| 0 <= k < c.peers@.len() ==> (#[trigger] c.peers@[k]).0@ != ip) ==> c.count(
            ip,
        ) == 0,
{
    lemma_count_at(c.peers@, i);
    if forall|k: int| 0 <= k < c.peers@.len() ==> (#[trigger] c.peers@[k]).0@ != ip {
        lemma_count_absent(c.peers@, ip);
    }
}

} // verus!
