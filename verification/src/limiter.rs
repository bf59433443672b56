//! Admission control: a global ceiling and a per-address ceiling on the
//! number of concurrently admitted connections.

use vstd::prelude::*;

verus! {

/// Ceiling on the number of concurrently admitted connections overall.
pub const MAX_TOTAL_CONNECTIONS: usize = 1000;

/// Ceiling on the number of concurrently admitted connections from one address.
pub const MAX_PER_IP: usize = 5;

/// Why an admission request was rejected.
#[derive(Debug, Clone, Copy, PartialEq, Eq, Structural)]
pub enum LimitError {
    TotalLimitReached,
    IpLimitReached,
}

impl LimitError {
    /// Human-readable description of the rejection.
    pub fn message(&self) -> (r: &'static str)
        ensures
            *self == LimitError::TotalLimitReached ==> r@ == "Maximum total connections reached"@,
            *self == LimitError::IpLimitReached ==> r@ == "Maximum connections per IP reached"@,
    {
        match self {
            LimitError::TotalLimitReached => "Maximum total connections reached",
            LimitError::IpLimitReached => "Maximum connections per IP reached",
        }
    }
}

/// One address together with its number of admitted connections.
///
/// Addresses are carried as plain 128-bit values (an IPv4 address is used
/// through its IPv6-mapped form); the caller performs the conversion.
#[derive(Debug, Clone, Copy)]
pub struct IpEntry {
    pub ip: u128,
    pub count: usize,
}

/// Number of admitted connections that `entries` records for `ip`
/// (the first matching entry counts; well-formed states have at most one).
pub open spec fn count_in(entries: Seq<IpEntry>, ip: u128) -> nat
    decreases entries.len(),
{
    if entries.len() == 0 {
        0
    } else if entries[0].ip == ip {
        entries[0].count as nat
    } else {
        count_in(entries.drop_first(), ip)
    }
}

/// Whether `entries` holds an entry for `ip`.
pub open spec fn has_ip(entries: Seq<IpEntry>, ip: u128) -> bool {
    exists|i: int| 0 <= i < entries.len() && (#[trigger] entries[i]).ip == ip
}

proof fn lemma_count_at(entries: Seq<IpEntry>, ip: u128, i: int)
    requires
        0 <= i < entries.len(),
        entries[i].ip == ip,
        forall|j: int| 0 <= j < i ==> (#[trigger] entries[j]).ip != ip,
    ensures
        count_in(entries, ip) == entries[i].count,
    decreases i,
{
    if i > 0 {
        assert forall|j: int| 0 <= j < i - 1 implies (#[trigger] entries.drop_first()[j]).ip != ip by {
            assert(entries.drop_first()[j] == entries[j + 1]);
        }
        assert(entries.drop_first()[i - 1] == entries[i]);
        lemma_count_at(entries.drop_first(), ip, i - 1);
    }
}

proof fn lemma_count_absent(entries: Seq<IpEntry>, ip: u128)
    requires
        forall|j: int| 0 <= j < entries.len() ==> (#[trigger] entries[j]).ip != ip,
    ensures
        count_in(entries, ip) == 0,
    decreases entries.len(),
{
    if entries.len() > 0 {
        assert forall|j: int| 0 <= j < entries.len() - 1 implies (#[trigger] entries.drop_first()[j]).ip != ip by {
            assert(entries.drop_first()[j] == entries[j + 1]);
        }
        lemma_count_absent(entries.drop_first(), ip);
    }
}

/// Tracks how many connections are admitted in total and per address.
///
/// An address appears in the table only while it has at least one admitted
/// connection, which bounds the table's size.
#[derive(Debug)]
pub struct ConnectionLimiter {
    total_connections: usize,
    connections_per_ip: Vec<IpEntry>,
}

impl ConnectionLimiter {
    /// Number of currently admitted connections.
    pub closed spec fn total(self) -> nat {
        self.total_connections as nat
    }

    /// Number of currently admitted connections from `ip`.
    pub closed spec fn count_of(self, ip: u128) -> nat {
        count_in(self.connections_per_ip@, ip)
    }

    /// Number of addresses with at least one admitted connection.
    pub closed spec fn tracked_ips(self) -> nat {
        self.connections_per_ip@.len()
    }

    /// The state a limiter always satisfies: the global count respects its
    /// ceiling, every recorded address has between one connection and the
    /// per-address ceiling, and no address is recorded twice.
    pub closed spec fn wf(self) -> bool {
        &&& self.total_connections <= MAX_TOTAL_CONNECTIONS
        &&& forall|i: int| 0 <= i < self.connections_per_ip@.len()
                ==> 1 <= (#[trigger] self.connections_per_ip@[i]).count <= MAX_PER_IP
        &&& forall|i: int, j: int|
                0 <= i < j < self.connections_per_ip@.len()
                    ==> (#[trigger] self.connections_per_ip@[i]).ip
                        != (#[trigger] self.connections_per_ip@[j]).ip
    }

    /// A fresh limiter with nothing admitted.
    pub fn new() -> (r: Self)
        ensures
            r.wf(),
            r.total() == 0,
            forall|ip: u128| r.count_of(ip) == 0,
    {
        let r = ConnectionLimiter { total_connections: 0, connections_per_ip: Vec::new() };
        proof {
            assert forall|ip: u128| r.count_of(ip) == 0 by {
                lemma_count_absent(r.connections_per_ip@, ip);
            }
        }
        r
    }

    fn find_ip(&self, ip: u128) -> (r: Option<usize>)
        requires
            self.wf(),
        ensures
            match r {
                Some(i) => i < self.connections_per_ip@.len()
                    && self.connections_per_ip@[i as int].ip == ip
                    && self.count_of(ip) == self.connections_per_ip@[i as int].count,
                None => !has_ip(self.connections_per_ip@, ip) && self.count_of(ip) == 0,
            },
    {
        let n = self.connections_per_ip.len();
        let mut i: usize = 0;
        while i < n
            invariant
                i <= n,
                n == self.connections_per_ip@.len(),
                self.wf(),
                forall|j: int| 0 <= j < i ==> (#[trigger] self.connections_per_ip@[j]).ip != ip,
            decreases n - i,
        {
            if self.connections_per_ip[i].ip == ip {
                proof {
                    lemma_count_at(self.connections_per_ip@, ip, i as int);
                }
                return Some(i);
            }
            i += 1;
        }
        proof {
            lemma_count_absent(self.connections_per_ip@, ip);
        }
        None
    }

    /// Decide admission for one new connection from `ip`: reject when the
    /// global ceiling is reached, then when the address's own ceiling is
    /// reached, and otherwise record the connection in both counters.
    pub fn try_connect(&mut self, ip: u128) -> (r: Result<(), LimitError>)
        requires
            old(self).wf(),
        ensures
            final(self).wf(),
            r matches Err(e) ==> *final(self) == *old(self),
            r == Err::<(), LimitError>(LimitError::TotalLimitReached)
                <==> old(self).total() >= MAX_TOTAL_CONNECTIONS,
            r == Err::<(), LimitError>(LimitError::IpLimitReached)
                <==> old(self).total() < MAX_TOTAL_CONNECTIONS
                    && old(self).count_of(ip) >= MAX_PER_IP,
            r is Ok <==> old(self).total() < MAX_TOTAL_CONNECTIONS
                && old(self).count_of(ip) < MAX_PER_IP,
            r is Ok ==> {
                &&& final(self).total() == old(self).total() + 1
                &&& final(self).count_of(ip) == old(self).count_of(ip) + 1
                &&& forall|other: u128| other != ip
                        ==> #[trigger] final(self).count_of(other) == old(self).count_of(other)
            },
    {
        if self.total_connections >= MAX_TOTAL_CONNECTIONS {
            return Err(LimitError::TotalLimitReached);
        }
        let found = self.find_ip(ip);
        match found {
            Some(i) => {
                let c = self.connections_per_ip[i].count;
                if c >= MAX_PER_IP {
                    return Err(LimitError::IpLimitReached);
                }
                let ghost before = self.connections_per_ip@;
                self.connections_per_ip.set(i, IpEntry { ip, count: c + 1 });
                self.total_connections += 1;
                proof {
                    let after = self.connections_per_ip@;
                    assert forall|k: int| 0 <= k < i as int implies (#[trigger] after[k]).ip != ip by {
                        assert(before[k].ip != ip);
                    }
                    lemma_count_at(after, ip, i as int);
                    assert forall|other: u128| other != ip
                        implies #[trigger] count_in(after, other) == count_in(before, other) by {
                        if has_ip(before, other) {
                            let k = choose|k: int|
                                0 <= k < before.len() && (#[trigger] before[k]).ip == other;
                            assert forall|j: int| 0 <= j < k implies (#[trigger] before[j]).ip != other by {}
                            lemma_count_at(before, other, k);
                            assert(after[k].ip == other);
                            assert(forall|j: int| 0 <= j < k ==> (#[trigger] after[j]).ip != other);
                            lemma_count_at(after, other, k);
                        } else {
                            lemma_count_absent(before, other);
                            assert(forall|j: int|
                                0 <= j < after.len() ==> (#[trigger] after[j]).ip != other);
                            lemma_count_absent(after, other);
                        }
                    }
                }
                Ok(())
            },
            None => {
                let ghost before = self.connections_per_ip@;
                self.connections_per_ip.push(IpEntry { ip, count: 1 });
                self.total_connections += 1;
                proof {
                    let after = self.connections_per_ip@;
                    let n = before.len() as int;
                    assert forall|j: int| 0 <= j < n implies (#[trigger] after[j]).ip != ip by {
                        assert(after[j] == before[j]);
                        assert(!(exists|i: int|
                            0 <= i < before.len() && (#[trigger] before[i]).ip == ip));
                    }
                    assert(after[n].ip == ip);
                    lemma_count_at(after, ip, n);
                    assert forall|other: u128| other != ip
                        implies #[trigger] count_in(after, other) == count_in(before, other) by {
                        if has_ip(before, other) {
                            let k = choose|k: int|
                                0 <= k < before.len() && (#[trigger] before[k]).ip == other;
                            lemma_count_at(before, other, k);
                            assert(after[k].ip == other);
                            lemma_count_at(after, other, k);
                        } else {
                            lemma_count_absent(before, other);
                            assert forall|j: int| 0 <= j < after.len()
                                implies (#[trigger] after[j]).ip != other by {
                                if j < n {
                                    assert(after[j] == before[j]);
                                }
                            }
                            lemma_count_absent(after, other);
                        }
                    }
                }
                Ok(())
            },
        }
    }

    /// Release one connection from `ip`: the global counter and the address's
    /// counter each go down by one, saturating at zero, and the address's
    /// entry disappears once its count reaches zero. Releasing an address
    /// with no recorded connection only lowers the global counter.
    pub fn disconnect(&mut self, ip: u128)
        requires
            old(self).wf(),
        ensures
            final(self).wf(),
            final(self).total() == if old(self).total() > 0 { old(self).total() - 1 } else { 0int },
            final(self).count_of(ip)
                == if old(self).count_of(ip) > 0 { old(self).count_of(ip) - 1 } else { 0int },
            forall|other: u128| other != ip
                ==> #[trigger] final(self).count_of(other) == old(self).count_of(other),
    {
        if self.total_connections > 0 {
            self.total_connections -= 1;
        }
        let found = self.find_ip(ip);
        match found {
            Some(i) => {
                let ghost before = self.connections_per_ip@;
                let c = self.connections_per_ip[i].count;
                if c <= 1 {
                    self.connections_per_ip.remove(i);
                    proof {
                        let after = self.connections_per_ip@;
                        assert forall|j: int| 0 <= j < after.len()
                            implies (#[trigger] after[j]).ip != ip by {
                            if j < i as int {
                                assert(after[j] == before[j]);
                            } else {
                                assert(after[j] == before[j + 1]);
                            }
                        }
                        lemma_count_absent(after, ip);
                        assert forall|other: u128| other != ip
                            implies #[trigger] count_in(after, other) == count_in(before, other) by {
                            if has_ip(before, other) {
                                let k = choose|k: int|
                                    0 <= k < before.len() && (#[trigger] before[k]).ip == other;
                                lemma_count_at(before, other, k);
                                if k < i as int {
                                    assert(after[k].ip == other);
                                    assert forall|j: int| 0 <= j < k
                                        implies (#[trigger] after[j]).ip != other by {
                                        assert(after[j] == before[j]);
                                    }
                                    lemma_count_at(after, other, k);
                                    assert(after[k] == before[k]);
                                } else {
                                    assert(after[k - 1] == before[k]);
                                    assert forall|j: int| 0 <= j < k - 1
                                        implies (#[trigger] after[j]).ip != other by {
                                        if j < i as int {
                                            assert(after[j] == before[j]);
                                        } else {
                                            assert(after[j] == before[j + 1]);
                                        }
                                    }
                                    lemma_count_at(after, other, k - 1);
                                }
                            } else {
                                lemma_count_absent(before, other);
                                assert forall|j: int| 0 <= j < after.len()
                                    implies (#[trigger] after[j]).ip != other by {
                                    if j < i as int {
                                        assert(after[j] == before[j]);
                                    } else {
                                        assert(after[j] == before[j + 1]);
                                    }
                                }
                                lemma_count_absent(after, other);
                            }
                        }
                    }
                } else {
                    self.connections_per_ip.set(i, IpEntry { ip, count: c - 1 });
                    proof {
                        let after = self.connections_per_ip@;
                        assert forall|k: int| 0 <= k < i as int
                            implies (#[trigger] after[k]).ip != ip by {
                            assert(before[k].ip != ip);
                        }
                        lemma_count_at(after, ip, i as int);
                        assert forall|other: u128| other != ip
                            implies #[trigger] count_in(after, other) == count_in(before, other) by {
                            if has_ip(before, other) {
                                let k = choose|k: int|
                                    0 <= k < before.len() && (#[trigger] before[k]).ip == other;
                                lemma_count_at(before, other, k);
                                assert(after[k].ip == other);
                                lemma_count_at(after, other, k);
                            } else {
                                lemma_count_absent(before, other);
                                assert forall|j: int| 0 <= j < after.len()
                                    implies (#[trigger] after[j]).ip != other by {}
                                lemma_count_absent(after, other);
                            }
                        }
                    }
                }
            },
            None => {},
        }
    }

    /// Current totals: admitted connections overall and distinct addresses.
    pub fn stats(&self) -> (r: (usize, usize))
        ensures
            r.0 == self.total(),
            r.1 == self.tracked_ips(),
    {
        (self.total_connections, self.connections_per_ip.len())
    }
}

/// The admission bounds hold in every reachable state: the constructor
/// establishes `wf`, every operation preserves it, and `wf` itself keeps the
/// global counter at or below the global ceiling and every address's counter
/// at or below the per-address ceiling (and counters, being `nat`, are never
/// negative).
pub proof fn lemma_limiter_bounds(limiter: ConnectionLimiter)
    requires
        limiter.wf(),
    ensures
        limiter.total() <= MAX_TOTAL_CONNECTIONS,
        forall|ip: u128| #[trigger] limiter.count_of(ip) <= MAX_PER_IP,
{
    assert forall|ip: u128| #[trigger] limiter.count_of(ip) <= MAX_PER_IP by {
        lemma_count_bound(limiter.connections_per_ip@, ip);
    }
}

proof fn lemma_count_bound(entries: Seq<IpEntry>, ip: u128)
    requires
        forall|i: int| 0 <= i < entries.len() ==> (#[trigger] entries[i]).count <= MAX_PER_IP,
    ensures
        count_in(entries, ip) <= MAX_PER_IP,
    decreases entries.len(),
{
    if entries.len() > 0 && entries[0].ip != ip {
        assert forall|i: int| 0 <= i < entries.drop_first().len()
            implies (#[trigger] entries.drop_first()[i]).count <= MAX_PER_IP by {
            assert(entries.drop_first()[i] == entries[i + 1]);
        }
        lemma_count_bound(entries.drop_first(), ip);
    }
}

} // verus!
