use vstd::prelude::*;
use crate::net::SocketAddress;

verus! {

/// An idle or issued upstream connection with its bookkeeping. Times are
/// milliseconds on a clock the caller chooses.
pub struct PooledConnection<C> {
    stream: C,
    created_at: u64,
    last_used: u64,
    target_addr: SocketAddress,
}

/// The connection has been idle for longer than `idle_timeout` at `now`.
pub open spec fn expired_at(last_used: u64, idle_timeout: u64, now: u64) -> bool {
    now > last_used + idle_timeout
}

impl<C> PooledConnection<C> {
    pub closed spec fn target_spec(&self) -> SocketAddress {
        self.target_addr
    }

    pub closed spec fn last_used_spec(&self) -> u64 {
        self.last_used
    }

    pub closed spec fn created_spec(&self) -> u64 {
        self.created_at
    }

    pub closed spec fn stream_spec(&self) -> C {
        self.stream
    }

    /// Wraps a freshly dialed connection to `target_addr`, made at `now`.
    pub fn new(stream: C, target_addr: SocketAddress, now: u64) -> (r: Self)
        ensures
            r.target_spec() == target_addr,
            r.last_used_spec() == now,
            r.created_spec() == now,
            r.stream_spec() == stream,
    {
        PooledConnection { stream, created_at: now, last_used: now, target_addr }
    }

    /// Whether the connection has been idle longer than `idle_timeout` at `now`.
    pub fn is_expired(&self, idle_timeout: u64, now: u64) -> (r: bool)
        ensures
            r == expired_at(self.last_used_spec(), idle_timeout, now),
    {
        now > self.last_used && now - self.last_used > idle_timeout
    }

    /// Marks the connection as used at `now`.
    pub fn update_last_used(&mut self, now: u64)
        ensures
            final(self).last_used_spec() == now,
            final(self).target_spec() == old(self).target_spec(),
            final(self).created_spec() == old(self).created_spec(),
            final(self).stream_spec() == old(self).stream_spec(),
    {
        self.last_used = now;
    }

    /// Gives up the bookkeeping and hands out the connection itself.
    pub fn into_stream(self) -> (r: C)
        ensures
            r == self.stream_spec(),
    {
        self.stream
    }

    /// The endpoint the connection goes to.
    pub fn target_addr(&self) -> (r: SocketAddress)
        ensures
            r == self.target_spec(),
    {
        self.target_addr
    }
}

/// What `acquire` found.
pub enum Acquire<C> {
    /// A pooled connection to the target, taken out of the pool.
    Reused(PooledConnection<C>),
    /// An admission slot was granted: the caller dials, and reports a failed
    /// dial with `dial_failed`.
    Dial,
    /// Every slot is taken: the caller waits for a release or gives up.
    Exhausted,
}

/// Pool statistics.
#[derive(Clone, Copy, Debug)]
pub struct PoolStats {
    pub total_connections: usize,
    pub targets: usize,
    pub available_permits: usize,
}

/// A pool of reusable upstream connections with admission control: every
/// connection that is issued or pooled holds one of `max_total_connections`
/// slots, and each target keeps at most `max_connections_per_target` idle
/// connections.
pub struct ConnectionPool<C> {
    max_connections_per_target: usize,
    max_total_connections: usize,
    connection_timeout: u64,
    idle_timeout: u64,
    in_use: usize,
    idle: Vec<PooledConnection<C>>,
}

/// A sweep for `target` (or for every target) at `now` removes `c`: it
/// goes to a swept target and has been idle longer than `timeout`.
pub open spec fn swept<C>(c: PooledConnection<C>, target: Option<SocketAddress>, timeout: u64, now: u64) -> bool {
    (target is None || target == Some(c.target_spec())) && expired_at(c.last_used_spec(), timeout, now)
}

/// The connections of `idle` that a sweep keeps, in their order.
pub open spec fn kept_after_sweep<C>(
    idle: Seq<PooledConnection<C>>,
    target: Option<SocketAddress>,
    timeout: u64,
    now: u64,
) -> Seq<PooledConnection<C>>
    decreases idle.len(),
{
    if idle.len() == 0 {
        Seq::empty()
    } else {
        let rest = kept_after_sweep(idle.drop_last(), target, timeout, now);
        if swept(idle.last(), target, timeout, now) {
            rest
        } else {
            rest.push(idle.last())
        }
    }
}

/// How many connections of `idle` go to `t`.
pub open spec fn count_for<C>(idle: Seq<PooledConnection<C>>, t: SocketAddress) -> nat
    decreases idle.len(),
{
    if idle.len() == 0 {
        0
    } else {
        count_for(idle.drop_last(), t) + if idle.last().target_spec() == t { 1nat } else { 0nat }
    }
}

proof fn lemma_kept<C>(idle: Seq<PooledConnection<C>>, target: Option<SocketAddress>, timeout: u64, now: u64)
    ensures
        kept_after_sweep(idle, target, timeout, now).len() <= idle.len(),
        forall|c: PooledConnection<C>| #[trigger] kept_after_sweep(idle, target, timeout, now).contains(c)
            <==> idle.contains(c) && !swept(c, target, timeout, now),
    decreases idle.len(),
{
    if idle.len() > 0 {
        let d = idle.drop_last();
        lemma_kept(d, target, timeout, now);
        let k = kept_after_sweep(idle, target, timeout, now);
        assert forall|c: PooledConnection<C>| #[trigger] k.contains(c) <==> idle.contains(c) && !swept(c, target, timeout, now) by {
            assert(idle =~= d.push(idle.last()));
            if idle.contains(c) {
                let j = choose|j: int| 0 <= j < idle.len() && idle[j] == c;
                if j < d.len() {
                    assert(d[j] == c);
                }
            }
            if d.contains(c) {
                let j = choose|j: int| 0 <= j < d.len() && d[j] == c;
                assert(idle[j] == c);
            }
            let rest = kept_after_sweep(d, target, timeout, now);
            if !swept(idle.last(), target, timeout, now) {
                assert(k == rest.push(idle.last()));
                if k.contains(c) {
                    let j = choose|j: int| 0 <= j < k.len() && k[j] == c;
                    if j < rest.len() {
                        assert(rest[j] == c);
                    }
                }
                if rest.contains(c) {
                    let j = choose|j: int| 0 <= j < rest.len() && rest[j] == c;
                    assert(k[j] == c);
                }
                if c == idle.last() {
                    assert(k[rest.len() as int] == c);
                }
            }
        }
    }
}

/// No idle connection of `idle` goes to `target`.
pub open spec fn no_idle_for<C>(idle: Seq<PooledConnection<C>>, target: SocketAddress) -> bool {
    forall|c: PooledConnection<C>| #[trigger] idle.contains(c) ==> c.target_spec() != target
}

/// A new connection may be admitted while fewer than `max` slots are held.
pub open spec fn admits(in_use: nat, max: nat) -> bool {
    in_use < max
}

impl<C> ConnectionPool<C> {
    /// Slots held: connections issued to callers or idle in the pool.
    pub closed spec fn in_use_spec(&self) -> nat {
        self.in_use as nat
    }

    pub closed spec fn max_total_spec(&self) -> nat {
        self.max_total_connections as nat
    }

    pub closed spec fn max_per_target_spec(&self) -> nat {
        self.max_connections_per_target as nat
    }

    pub closed spec fn idle_timeout_spec(&self) -> u64 {
        self.idle_timeout
    }

    /// The idle connections.
    pub closed spec fn idle_spec(&self) -> Seq<PooledConnection<C>> {
        self.idle@
    }

    /// Every idle connection holds a slot, and no more slots are held than
    /// the bound allows.
    pub closed spec fn wf(&self) -> bool {
        self.idle@.len() <= self.in_use <= self.max_total_connections
    }

    pub fn new(
        max_connections_per_target: usize,
        max_total_connections: usize,
        connection_timeout: u64,
        idle_timeout: u64,
    ) -> (r: Self)
        ensures
            r.wf(),
            r.in_use_spec() == 0,
            r.idle_spec().len() == 0,
            r.max_total_spec() == max_total_connections,
            r.max_per_target_spec() == max_connections_per_target,
            r.idle_timeout_spec() == idle_timeout,
            r.connection_timeout_spec() == connection_timeout,
    {
        ConnectionPool {
            max_connections_per_target,
            max_total_connections,
            connection_timeout,
            idle_timeout,
            in_use: 0,
            idle: Vec::new(),
        }
    }

    pub closed spec fn connection_timeout_spec(&self) -> u64 {
        self.connection_timeout
    }

    /// The dial timeout the pool was configured with.
    pub fn connection_timeout(&self) -> (r: u64)
        ensures
            r == self.connection_timeout_spec(),
    {
        self.connection_timeout
    }

    /// The idle connections a sweep for `target` at `now` keeps.
    pub open spec fn swept_idle(&self, target: Option<SocketAddress>, now: u64) -> Seq<PooledConnection<C>> {
        kept_after_sweep(self.idle_spec(), target, self.idle_timeout_spec(), now)
    }

    /// The slots held after a sweep for `target` at `now`: each dropped
    /// connection gives its slot back.
    pub open spec fn slots_after_sweep(&self, target: Option<SocketAddress>, now: u64) -> int {
        self.in_use_spec() - (self.idle_spec().len() - self.swept_idle(target, now).len())
    }

    /// Drops, keeping the order of the rest, the idle connections to
    /// `target` (or to every target) that have expired at `now`, releasing
    /// their slots. Returns how many.
    fn drop_expired(&mut self, target: Option<SocketAddress>, now: u64) -> (r: usize)
        requires
            old(self).wf(),
        ensures
            final(self).wf(),
            final(self).idle_spec() == old(self).swept_idle(target, now),
            r == old(self).idle_spec().len() - final(self).idle_spec().len(),
            final(self).in_use_spec() == old(self).slots_after_sweep(target, now),
            final(self).max_total_spec() == old(self).max_total_spec(),
            final(self).max_per_target_spec() == old(self).max_per_target_spec(),
            final(self).idle_timeout_spec() == old(self).idle_timeout_spec(),
            final(self).connection_timeout_spec() == old(self).connection_timeout_spec(),
    {
        let mut pending: Vec<PooledConnection<C>> = Vec::new();
        std::mem::swap(&mut pending, &mut self.idle);
        let ghost orig = pending@;
        let n = pending.len();
        let mut rev: Vec<PooledConnection<C>> = Vec::new();
        while pending.len() > 0
            invariant
                n == orig.len(),
                pending@ == orig.subrange(0, pending@.len() as int),
                rev@.len() + pending@.len() == n,
                forall|j: int| 0 <= j < rev@.len() ==> #[trigger] rev@[j] == orig[n - 1 - j],
            decreases pending@.len(),
        {
            let ghost before = pending@;
            let c = pending.pop().unwrap();
            assert(c == orig[pending@.len() as int]);
            assert(pending@ =~= orig.subrange(0, pending@.len() as int));
            rev.push(c);
        }
        let mut removed: usize = 0;
        while rev.len() > 0
            invariant
                n == orig.len(),
                orig == old(self).idle@,
                n <= old(self).in_use,
                old(self).in_use <= old(self).max_total_connections,
                self.in_use == old(self).in_use - removed,
                self.max_total_connections == old(self).max_total_connections,
                self.max_connections_per_target == old(self).max_connections_per_target,
                self.idle_timeout == old(self).idle_timeout,
                self.connection_timeout == old(self).connection_timeout,
                rev@.len() <= n,
                forall|j: int| 0 <= j < rev@.len() ==> #[trigger] rev@[j] == orig[n - 1 - j],
                self.idle@ == kept_after_sweep(orig.subrange(0, n - rev@.len()), target, self.idle_timeout, now),
                removed == (n - rev@.len()) - self.idle@.len(),
                self.idle@.len() <= n - rev@.len(),
            decreases rev@.len(),
        {
            let ghost k = n - rev@.len();
            let c = rev.pop().unwrap();
            assert(c == orig[k]);
            let ghost prefix = orig.subrange(0, k + 1);
            assert(prefix.drop_last() =~= orig.subrange(0, k));
            assert(prefix.last() == c);
            proof {
                lemma_kept(orig.subrange(0, k), target, self.idle_timeout, now);
            }
            let selected = match target {
                Some(t) => c.target_addr == t,
                None => true,
            };
            if selected && c.is_expired(self.idle_timeout, now) {
                removed = removed + 1;
                self.in_use = self.in_use - 1;
            } else {
                self.idle.push(c);
            }
        }
        assert(orig.subrange(0, n as int) =~= orig);
        removed
    }

    /// Drops the expired idle connections to `target`, keeping the order of
    /// the rest; then takes out the first idle connection to `target` if
    /// there is one (its slot moves with it); otherwise grants a slot for a
    /// new dial if fewer than `max_total_connections` are held.
    #[verifier::loop_isolation(false)]
    pub fn acquire(&mut self, target: SocketAddress, now: u64) -> (r: Acquire<C>)
        requires
            old(self).wf(),
        ensures
            final(self).wf(),
            final(self).max_total_spec() == old(self).max_total_spec(),
            final(self).max_per_target_spec() == old(self).max_per_target_spec(),
            final(self).idle_timeout_spec() == old(self).idle_timeout_spec(),
            final(self).connection_timeout_spec() == old(self).connection_timeout_spec(),
            r is Reused <==> exists|i: int| 0 <= i < old(self).swept_idle(Some(target), now).len()
                && (#[trigger] old(self).swept_idle(Some(target), now)[i]).target_spec() == target,
            r matches Acquire::Reused(c) ==> exists|i: int| {
                &&& 0 <= i < old(self).swept_idle(Some(target), now).len()
                &&& old(self).swept_idle(Some(target), now)[i] == c
                &&& forall|j: int| 0 <= j < i ==> (#[trigger] old(self).swept_idle(Some(target), now)[j]).target_spec() != target
                &&& final(self).idle_spec() == old(self).swept_idle(Some(target), now).remove(i)
            },
            r matches Acquire::Reused(c) ==> c.target_spec() == target && old(self).idle_spec().contains(c)
                && !expired_at(c.last_used_spec(), old(self).idle_timeout_spec(), now),
            r is Reused ==> final(self).in_use_spec() == old(self).slots_after_sweep(Some(target), now),
            !(r is Reused) ==> final(self).idle_spec() == old(self).swept_idle(Some(target), now),
            !(r is Reused) ==> (r is Dial <==> old(self).slots_after_sweep(Some(target), now) < old(self).max_total_spec()),
            r is Dial ==> final(self).in_use_spec() == old(self).slots_after_sweep(Some(target), now) + 1,
            r is Exhausted ==> final(self).in_use_spec() == old(self).slots_after_sweep(Some(target), now),
    {
        let _ = self.drop_expired(Some(target), now);
        let ghost after = self.idle@;
        proof {
            lemma_kept(old(self).idle@, Some(target), old(self).idle_timeout, now);
        }
        let ghost snap = *self;
        let n = self.idle.len();
        let mut i: usize = 0;
        while i < n
            invariant
                *self == snap,
                self.wf(),
                self.idle@ == after,
                after == kept_after_sweep(old(self).idle@, Some(target), old(self).idle_timeout, now),
                n == after.len(),
                i <= n,
                forall|k: int| 0 <= k < i ==> (#[trigger] after[k]).target_spec() != target,
            decreases n - i,
        {
            if self.idle[i].target_addr == target {
                let c = self.idle.remove(i);
                proof {
                    lemma_kept(old(self).idle@, Some(target), old(self).idle_timeout, now);
                    assert(after[i as int] == c);
                    assert(after.contains(c));
                    assert(!swept(c, Some(target), old(self).idle_timeout, now));
                }
                return Acquire::Reused(c);
            }
            i = i + 1;
        }
        if self.in_use < self.max_total_connections {
            self.in_use = self.in_use + 1;
            Acquire::Dial
        } else {
            Acquire::Exhausted
        }
    }

    /// Gives back the slot of a connection that was dialed for a granted
    /// slot but failed, or that the caller closed instead of returning.
    pub fn release_slot(&mut self)
        requires
            old(self).wf(),
        ensures
            final(self).wf(),
            old(self).in_use_spec() > old(self).idle_spec().len() ==> final(self).in_use_spec()
                == old(self).in_use_spec() - 1,
            final(self).idle_spec() == old(self).idle_spec(),
            final(self).max_total_spec() == old(self).max_total_spec(),
            final(self).max_per_target_spec() == old(self).max_per_target_spec(),
            final(self).idle_timeout_spec() == old(self).idle_timeout_spec(),
            final(self).connection_timeout_spec() == old(self).connection_timeout_spec(),
    {
        if self.in_use > self.idle.len() {
            self.in_use = self.in_use - 1;
        }
    }

    /// A dial for a granted slot failed: the slot is given back.
    pub fn dial_failed(&mut self)
        requires
            old(self).wf(),
        ensures
            final(self).wf(),
            old(self).in_use_spec() > old(self).idle_spec().len() ==> final(self).in_use_spec()
                == old(self).in_use_spec() - 1,
            final(self).idle_spec() == old(self).idle_spec(),
    {
        self.release_slot();
    }

    /// Returns a connection after use. If it has not expired at `now`, its
    /// target has fewer than `max_connections_per_target` idle connections,
    /// and it held a slot, it is marked as used at `now` and appended to the
    /// idle list, keeping its slot. Otherwise it is discarded and its slot
    /// given back. Returns whether it was pooled.
    pub fn return_connection(&mut self, connection: PooledConnection<C>, now: u64) -> (r: bool)
        requires
            old(self).wf(),
        ensures
            final(self).wf(),
            r <==> !expired_at(connection.last_used_spec(), old(self).idle_timeout_spec(), now)
                && count_for(old(self).idle_spec(), connection.target_spec()) < old(self).max_per_target_spec()
                && old(self).idle_spec().len() < old(self).in_use_spec(),
            r ==> final(self).in_use_spec() == old(self).in_use_spec() && final(self).idle_spec().len()
                == old(self).idle_spec().len() + 1 && final(self).idle_spec().drop_last() == old(self).idle_spec(),
            r ==> final(self).idle_spec().last().target_spec() == connection.target_spec()
                && final(self).idle_spec().last().stream_spec() == connection.stream_spec()
                && final(self).idle_spec().last().created_spec() == connection.created_spec()
                && final(self).idle_spec().last().last_used_spec() == now,
            !r && old(self).in_use_spec() > old(self).idle_spec().len() ==> final(self).in_use_spec()
                == old(self).in_use_spec() - 1,
            !r ==> final(self).idle_spec() == old(self).idle_spec(),
            final(self).max_total_spec() == old(self).max_total_spec(),
            final(self).max_per_target_spec() == old(self).max_per_target_spec(),
            final(self).idle_timeout_spec() == old(self).idle_timeout_spec(),
            final(self).connection_timeout_spec() == old(self).connection_timeout_spec(),
    {
        let mut connection = connection;
        if connection.is_expired(self.idle_timeout, now) {
            self.release_slot();
            return false;
        }
        let target = connection.target_addr;
        let mut count: usize = 0;
        let mut i: usize = 0;
        while i < self.idle.len()
            invariant
                self.wf(),
                i <= self.idle@.len(),
                count == count_for(self.idle@.subrange(0, i as int), target),
                count <= i,
            decreases self.idle@.len() - i,
        {
            let ghost next = self.idle@.subrange(0, i + 1);
            assert(next.drop_last() =~= self.idle@.subrange(0, i as int));
            if self.idle[i].target_addr == target {
                count = count + 1;
            }
            i = i + 1;
        }
        assert(self.idle@.subrange(0, i as int) =~= self.idle@);
        if count < self.max_connections_per_target && self.idle.len() < self.in_use {
            connection.update_last_used(now);
            self.idle.push(connection);
            assert(self.idle@.drop_last() =~= old(self).idle@);
            true
        } else {
            self.release_slot();
            false
        }
    }

    /// Drops every idle connection that has expired at `now`, keeping the
    /// order of the rest, and gives back their slots; returns how many were
    /// dropped.
    pub fn cleanup_expired(&mut self, now: u64) -> (r: usize)
        requires
            old(self).wf(),
        ensures
            final(self).wf(),
            final(self).idle_spec() == old(self).swept_idle(None, now),
            r == old(self).idle_spec().len() - final(self).idle_spec().len(),
            final(self).in_use_spec() == old(self).in_use_spec() - r,
            forall|c: PooledConnection<C>| #[trigger] final(self).idle_spec().contains(c) <==> old(self).idle_spec().contains(c)
                && !expired_at(c.last_used_spec(), old(self).idle_timeout_spec(), now),
    {
        proof {
            lemma_kept(old(self).idle@, None, old(self).idle_timeout, now);
        }
        self.drop_expired(None, now)
    }

    /// The number of idle connections, the number of distinct targets they
    /// go to, and the number of free admission slots.
    pub fn stats(&self) -> (r: PoolStats)
        requires
            self.wf(),
        ensures
            r.total_connections == self.idle_spec().len(),
            r.targets == idle_targets(self.idle_spec()).len(),
            r.available_permits == self.max_total_spec() - self.in_use_spec(),
    {
        let mut targets: usize = 0;
        let mut i: usize = 0;
        assert(idle_targets(self.idle@.subrange(0, 0)) =~= Set::<SocketAddress>::empty());
        while i < self.idle.len()
            invariant
                self.wf(),
                i <= self.idle@.len(),
                idle_targets(self.idle@.subrange(0, i as int)).finite(),
                targets == idle_targets(self.idle@.subrange(0, i as int)).len(),
                idle_targets(self.idle@.subrange(0, i as int)).len() <= i,
            decreases self.idle@.len() - i,
        {
            let ghost prefix = self.idle@.subrange(0, i as int);
            let ghost next = self.idle@.subrange(0, i + 1);
            assert(next =~= prefix.push(self.idle@[i as int]));
            let t = self.idle[i].target_addr;
            let mut seen = false;
            let mut j: usize = 0;
            while j < i
                invariant
                    i < self.idle@.len(),
                    j <= i,
                    t == self.idle@[i as int].target_spec(),
                    seen == exists|k: int| 0 <= k < j && (#[trigger] self.idle@[k]).target_spec() == t,
                decreases i - j,
            {
                if self.idle[j].target_addr == t {
                    seen = true;
                }
                j = j + 1;
            }
            proof {
                lemma_idle_targets_push(prefix, self.idle@[i as int]);
                if seen {
                    let k = choose|k: int| 0 <= k < i && (#[trigger] self.idle@[k]).target_spec() == t;
                    assert(prefix[k] == self.idle@[k]);
                } else {
                    assert forall|k: int| 0 <= k < prefix.len() implies (#[trigger] prefix[k]).target_spec() != t by {
                        assert(prefix[k] == self.idle@[k]);
                    }
                }
            }
            if !seen {
                targets = targets + 1;
            }
            i = i + 1;
        }
        assert(self.idle@.subrange(0, i as int) =~= self.idle@);
        PoolStats {
            total_connections: self.idle.len(),
            targets,
            available_permits: self.max_total_connections - self.in_use,
        }
    }
}

/// The distinct targets of a list of connections.
pub open spec fn idle_targets<C>(idle: Seq<PooledConnection<C>>) -> Set<SocketAddress> {
    Set::new(|t: SocketAddress| exists|k: int| 0 <= k < idle.len() && (#[trigger] idle[k]).target_spec() == t)
}

proof fn lemma_idle_targets_push<C>(idle: Seq<PooledConnection<C>>, c: PooledConnection<C>)
    requires
        idle_targets(idle).finite(),
    ensures
        idle_targets(idle.push(c)).finite(),
        (exists|k: int| 0 <= k < idle.len() && (#[trigger] idle[k]).target_spec() == c.target_spec())
            ==> idle_targets(idle.push(c)).len() == idle_targets(idle).len(),
        (forall|k: int| 0 <= k < idle.len() ==> (#[trigger] idle[k]).target_spec() != c.target_spec())
            ==> idle_targets(idle.push(c)).len() == idle_targets(idle).len() + 1,
{
    let pushed = idle.push(c);
    assert(idle_targets(pushed) =~= idle_targets(idle).insert(c.target_spec())) by {
        assert forall|t: SocketAddress| idle_targets(pushed).contains(t) implies idle_targets(idle).insert(c.target_spec()).contains(t) by {
            let k = choose|k: int| 0 <= k < pushed.len() && (#[trigger] pushed[k]).target_spec() == t;
            if k < idle.len() {
                assert(idle[k] == pushed[k]);
            }
        }
        assert forall|t: SocketAddress| idle_targets(idle).insert(c.target_spec()).contains(t) implies idle_targets(pushed).contains(t) by {
            if t == c.target_spec() {
                assert(pushed[idle.len() as int] == c);
            } else {
                let k = choose|k: int| 0 <= k < idle.len() && (#[trigger] idle[k]).target_spec() == t;
                assert(pushed[k] == idle[k]);
            }
        }
    }
    if exists|k: int| 0 <= k < idle.len() && (#[trigger] idle[k]).target_spec() == c.target_spec() {
        assert(idle_targets(idle).contains(c.target_spec()));
    } else {
        assert(!idle_targets(idle).contains(c.target_spec()));
    }
}

/// Admission control: once `max` slots are held, no new connection is
/// admitted; giving one back admits exactly one more, after which the pool
/// is full again.
pub proof fn law_admission_bound(max: nat)
    requires
        max > 0,
    ensures
        !admits(max, max),
        admits((max - 1) as nat, max),
        !admits((max - 1) as nat + 1, max),
{
}

} // verus!
