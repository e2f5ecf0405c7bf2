//! What a node knows of its peers, and who may stay connected.

use vstd::prelude::*;

verus! {

/// The state of the connection to a peer.
#[derive(Clone, Copy, Debug, PartialEq, Eq, Structural)]
pub enum PeerStatus {
    Connected,
    Disconnected,
    Banned,
    Syncing,
}

/// A peer by its number, with the state of its connection and the time, in
/// milliseconds, at which it was last seen.
#[derive(Clone, Copy, Debug, PartialEq, Eq, Structural)]
pub struct PeerInfo {
    pub id: u64,
    pub status: PeerStatus,
    pub last_seen: u64,
}

/// What a peer says it can do.
#[derive(Debug)]
pub struct PeerCapabilities {
    pub protocols: Vec<String>,
    pub version: u32,
    pub chain_id: u64,
    pub head_block: u64,
    pub total_difficulty: u64,
}

impl Default for PeerCapabilities {
    fn default() -> (r: Self)
        ensures
            r.protocols@.len() == 0,
            r.version == 0,
            r.chain_id == 0,
            r.head_block == 0,
            r.total_difficulty == 0,
    {
        PeerCapabilities {
            protocols: Vec::new(),
            version: 0,
            chain_id: 0,
            head_block: 0,
            total_difficulty: 0,
        }
    }
}

/// The latencies measured by pings, in milliseconds.
#[derive(Clone, Copy, Debug, PartialEq, Eq, Structural)]
pub struct PingStats {
    pub last_ping: Option<u64>,
    pub last_pong: Option<u64>,
    pub min_latency: Option<u64>,
    pub max_latency: Option<u64>,
    pub avg_latency: Option<u64>,
    pub ping_count: u64,
}

impl Default for PingStats {
    fn default() -> (r: Self)
        ensures
            r == (PingStats {
                last_ping: None,
                last_pong: None,
                min_latency: None,
                max_latency: None,
                avg_latency: None,
                ping_count: 0,
            }),
    {
        PingStats {
            last_ping: None,
            last_pong: None,
            min_latency: None,
            max_latency: None,
            avg_latency: None,
            ping_count: 0,
        }
    }
}

/// The reputation at and below which a peer is banned.
pub const BAN_THRESHOLD: i32 = -100;

/// A peer.
#[derive(Debug)]
pub struct Peer {
    pub info: PeerInfo,
    pub capabilities: PeerCapabilities,
    pub reputation: i32,
    pub connection_time: u64,
    pub ping_stats: PingStats,
}

/// The sum of two reputations, kept within the range of 32 bits.
pub open spec fn clamped_sum(a: i32, b: i32) -> i32 {
    if a + b > i32::MAX {
        i32::MAX
    } else if a + b < i32::MIN {
        i32::MIN
    } else {
        (a + b) as i32
    }
}

/// The running average after the `count`-th sample `latency`, rounded
/// down, and kept within 64 bits.
pub open spec fn next_average(avg: u64, count: u64, latency: u64) -> u64 {
    let exact = (avg * (count - 1) + latency) / (count as int);
    if exact > u64::MAX {
        u64::MAX
    } else {
        exact as u64
    }
}

/// The ping statistics after a pong at the time `now`: where a ping is
/// outstanding, its latency enters the smallest, the largest and the average
/// latency; the pong is noted in any case.
pub open spec fn after_pong(stats: PingStats, now: u64) -> PingStats {
    match stats.last_ping {
        Some(ping_time) => {
            let latency = if now >= ping_time {
                (now - ping_time) as u64
            } else {
                0u64
            };
            PingStats {
                last_pong: Some(now),
                min_latency: Some(
                    match stats.min_latency {
                        Some(min) => if min < latency {
                            min
                        } else {
                            latency
                        },
                        None => latency,
                    },
                ),
                max_latency: Some(
                    match stats.max_latency {
                        Some(max) => if max > latency {
                            max
                        } else {
                            latency
                        },
                        None => latency,
                    },
                ),
                avg_latency: Some(
                    match stats.avg_latency {
                        Some(avg) => next_average(avg, stats.ping_count, latency),
                        None => latency,
                    },
                ),
                ..stats
            }
        },
        None => PingStats { last_pong: Some(now), ..stats },
    }
}

impl Peer {
    /// A peer that connected at the time `now`.
    pub fn new(id: u64, now: u64) -> (r: Self)
        ensures
            r.info == (PeerInfo { id, status: PeerStatus::Connected, last_seen: now }),
            r.reputation == 0,
            r.connection_time == now,
            r.ping_stats == (PingStats {
                last_ping: None,
                last_pong: None,
                min_latency: None,
                max_latency: None,
                avg_latency: None,
                ping_count: 0,
            }),
            r.capabilities.head_block == 0,
            r.capabilities.protocols@.len() == 0,
    {
        Peer {
            info: PeerInfo { id, status: PeerStatus::Connected, last_seen: now },
            capabilities: PeerCapabilities::default(),
            reputation: 0,
            connection_time: now,
            ping_stats: PingStats::default(),
        }
    }

    /// Notes a ping sent at the time `now`.
    pub fn update_ping(&mut self, now: u64)
        requires
            old(self).ping_stats.ping_count < u64::MAX,
        ensures
            final(self).ping_stats == (PingStats {
                last_ping: Some(now),
                ping_count: (old(self).ping_stats.ping_count + 1) as u64,
                ..old(self).ping_stats
            }),
            final(self).info == old(self).info,
            final(self).reputation == old(self).reputation,
            final(self).connection_time == old(self).connection_time,
            final(self).capabilities == old(self).capabilities,
    {
        self.ping_stats.last_ping = Some(now);
        self.ping_stats.ping_count += 1;
    }

    /// Notes a pong received at the time `now`.
    pub fn update_pong(&mut self, now: u64)
        requires
            old(self).ping_stats.avg_latency is Some ==> old(self).ping_stats.ping_count >= 1,
        ensures
            final(self).ping_stats == after_pong(old(self).ping_stats, now),
            final(self).info == old(self).info,
            final(self).reputation == old(self).reputation,
            final(self).connection_time == old(self).connection_time,
            final(self).capabilities == old(self).capabilities,
    {
        match self.ping_stats.last_ping {
            Some(ping_time) => {
                let latency = if now >= ping_time {
                    now - ping_time
                } else {
                    0
                };
                self.ping_stats.min_latency = Some(
                    match self.ping_stats.min_latency {
                        Some(min) => if min < latency {
                            min
                        } else {
                            latency
                        },
                        None => latency,
                    },
                );
                self.ping_stats.max_latency = Some(
                    match self.ping_stats.max_latency {
                        Some(max) => if max > latency {
                            max
                        } else {
                            latency
                        },
                        None => latency,
                    },
                );
                self.ping_stats.avg_latency = Some(
                    match self.ping_stats.avg_latency {
                        Some(avg) => {
                            let count = self.ping_stats.ping_count;
                            assert(avg * (count - 1) <= 0xFFFF_FFFF_FFFF_FFFF
                                * 0xFFFF_FFFF_FFFF_FFFF) by (nonlinear_arith)
                                requires
                                    0 <= avg <= 0xFFFF_FFFF_FFFF_FFFF,
                                    0 <= count - 1 <= 0xFFFF_FFFF_FFFF_FFFF,
                            ;
                            let weighted: u128 = avg as u128 * (count - 1) as u128;
                            let exact = (weighted + latency as u128) / (count as u128);
                            if exact > u64::MAX as u128 {
                                u64::MAX
                            } else {
                                exact as u64
                            }
                        },
                        None => latency,
                    },
                );
            },
            None => {},
        }
        self.ping_stats.last_pong = Some(now);
    }

    /// Adds `delta` to the reputation, which stays within 32 bits. A peer
    /// whose reputation falls to the ban threshold is banned.
    pub fn update_reputation(&mut self, delta: i32)
        ensures
            final(self).reputation == clamped_sum(old(self).reputation, delta),
            final(self).info == (PeerInfo {
                status: if final(self).reputation <= BAN_THRESHOLD {
                    PeerStatus::Banned
                } else {
                    old(self).info.status
                },
                ..old(self).info
            }),
            final(self).ping_stats == old(self).ping_stats,
            final(self).connection_time == old(self).connection_time,
            final(self).capabilities == old(self).capabilities,
    {
        let sum = self.reputation as i64 + delta as i64;
        self.reputation = if sum > i32::MAX as i64 {
            i32::MAX
        } else if sum < i32::MIN as i64 {
            i32::MIN
        } else {
            sum as i32
        };
        if self.reputation <= BAN_THRESHOLD {
            self.info.status = PeerStatus::Banned;
        }
    }

    pub fn update_capabilities(&mut self, capabilities: PeerCapabilities)
        ensures
            final(self).capabilities == capabilities,
            final(self).info == old(self).info,
            final(self).reputation == old(self).reputation,
            final(self).ping_stats == old(self).ping_stats,
            final(self).connection_time == old(self).connection_time,
    {
        self.capabilities = capabilities;
    }

    /// Whether the peer is connected and has told of a head block.
    pub fn is_synced(&self) -> (r: bool)
        ensures
            r == (self.info.status == PeerStatus::Connected && self.capabilities.head_block > 0),
    {
        self.info.status == PeerStatus::Connected && self.capabilities.head_block > 0
    }

    pub fn is_banned(&self) -> (r: bool)
        ensures
            r == (self.info.status == PeerStatus::Banned),
    {
        self.info.status == PeerStatus::Banned
    }

    /// The milliseconds from the connection to the time `now`; none where
    /// the clock went back.
    pub fn connection_duration(&self, now: u64) -> (r: u64)
        ensures
            r == (if now >= self.connection_time {
                now - self.connection_time
            } else {
                0
            }),
    {
        if now >= self.connection_time {
            now - self.connection_time
        } else {
            0
        }
    }

    /// The milliseconds since the peer was last seen; none where the clock
    /// went back.
    pub fn last_seen_duration(&self, now: u64) -> (r: u64)
        ensures
            r == (if now >= self.info.last_seen {
                now - self.info.last_seen
            } else {
                0
            }),
    {
        if now >= self.info.last_seen {
            now - self.info.last_seen
        } else {
            0
        }
    }
}

/// The peers of a node, in the order in which they were added, and the
/// numbers of the peers that are banned.
#[derive(Debug)]
pub struct PeerManager {
    peers: Vec<Peer>,
    banned_peers: Vec<u64>,
    max_peers: usize,
}

/// The position of the peer `id` among `peers`, or their number where it
/// is not among them.
pub open spec fn peer_position(peers: Seq<Peer>, id: u64) -> int
    decreases peers.len(),
{
    if peers.len() == 0 {
        0
    } else if peers[0].info.id == id {
        0
    } else {
        1 + peer_position(peers.drop_first(), id)
    }
}

/// Where the peer `id` stands first at `i`, or nowhere and `i` is the
/// number of peers, its position is `i`.
pub proof fn lemma_peer_position(peers: Seq<Peer>, id: u64, i: int)
    requires
        0 <= i <= peers.len(),
        i < peers.len() ==> peers[i].info.id == id,
        forall|j: int| 0 <= j < i ==> peers[j].info.id != id,
    ensures
        peer_position(peers, id) == i,
    decreases peers.len(),
{
    if peers.len() > 0 && i > 0 {
        assert(peers[0].info.id != id);
        let rest = peers.drop_first();
        assert forall|j: int| 0 <= j < i - 1 implies rest[j].info.id != id by {
            assert(rest[j] == peers[j + 1]);
        }
        if i < peers.len() {
            assert(rest[i - 1] == peers[i]);
        }
        lemma_peer_position(rest, id, i - 1);
    }
}

/// The peers that are not disconnected, in their order.
pub open spec fn still_connected(peers: Seq<Peer>) -> Seq<Peer> {
    peers.filter(|p: Peer| p.info.status != PeerStatus::Disconnected)
}

impl PeerManager {
    pub closed spec fn peers(&self) -> Seq<Peer> {
        self.peers@
    }

    pub closed spec fn banned(&self) -> Seq<u64> {
        self.banned_peers@
    }

    pub closed spec fn limit(&self) -> usize {
        self.max_peers
    }

    /// Whether the peer `id` is among the peers.
    pub open spec fn knows(&self, id: u64) -> bool {
        peer_position(self.peers(), id) < self.peers().len()
    }

    /// A manager for at most `max_peers` peers.
    pub fn new(max_peers: usize) -> (r: Self)
        ensures
            r.peers().len() == 0,
            r.banned().len() == 0,
            r.limit() == max_peers,
    {
        PeerManager { peers: Vec::new(), banned_peers: Vec::new(), max_peers }
    }

    /// The position of the peer `id`, if it is among the peers.
    fn position(&self, id: u64) -> (r: Option<usize>)
        ensures
            match r {
                Some(i) => i == peer_position(self.peers(), id) && i < self.peers().len()
                    && self.peers()[i as int].info.id == id,
                None => peer_position(self.peers(), id) == self.peers().len(),
            },
    {
        let mut i: usize = 0;
        while i < self.peers.len()
            invariant
                i <= self.peers.len(),
                forall|j: int| 0 <= j < i ==> self.peers@[j].info.id != id,
            decreases self.peers.len() - i,
        {
            if self.peers[i].info.id == id {
                proof {
                    lemma_peer_position(self.peers@, id, i as int);
                }
                return Some(i);
            }
            i += 1;
        }
        proof {
            lemma_peer_position(self.peers@, id, self.peers@.len() as int);
        }
        None
    }

    /// Whether the peer `id` is banned.
    pub fn is_banned(&self, id: u64) -> (r: bool)
        ensures
            r == self.banned().contains(id),
    {
        let mut i: usize = 0;
        while i < self.banned_peers.len()
            invariant
                i <= self.banned_peers.len(),
                forall|j: int| 0 <= j < i ==> self.banned_peers@[j] != id,
            decreases self.banned_peers.len() - i,
        {
            if self.banned_peers[i] == id {
                return true;
            }
            i += 1;
        }
        false
    }

    /// Adds a peer, which takes the place of a peer of the same number
    /// where there is one. A full manager refuses, and so does one that has
    /// banned the peer; a refusal changes nothing.
    pub fn add_peer(&mut self, peer: Peer) -> (r: Result<(), &'static str>)
        ensures
            final(self).banned() == old(self).banned(),
            final(self).limit() == old(self).limit(),
            match r {
                Ok(()) => {
                    &&& old(self).peers().len() < old(self).limit()
                    &&& !old(self).banned().contains(peer.info.id)
                    &&& final(self).peers() == (if old(self).knows(peer.info.id) {
                        old(self).peers().update(
                            peer_position(old(self).peers(), peer.info.id),
                            peer,
                        )
                    } else {
                        old(self).peers().push(peer)
                    })
                },
                Err(text) => final(self).peers() == old(self).peers()
                    && (if old(self).peers().len() >= old(self).limit() {
                    text@ == "Max peers reached"@
                } else {
                    text@ == "Peer is banned"@ && old(self).banned().contains(peer.info.id)
                }),
            },
    {
        if self.peers.len() >= self.max_peers {
            return Err("Max peers reached");
        }
        if self.is_banned(peer.info.id) {
            return Err("Peer is banned");
        }
        match self.position(peer.info.id) {
            Some(i) => {
                self.peers[i] = peer;
            },
            None => {
                self.peers.push(peer);
            },
        }
        Ok(())
    }

    /// Removes the peer `id`, if it is among the peers.
    pub fn remove_peer(&mut self, id: u64)
        ensures
            final(self).banned() == old(self).banned(),
            final(self).limit() == old(self).limit(),
            final(self).peers() == (if old(self).knows(id) {
                old(self).peers().remove(peer_position(old(self).peers(), id))
            } else {
                old(self).peers()
            }),
    {
        match self.position(id) {
            Some(i) => {
                self.peers.remove(i);
            },
            None => {},
        }
    }

    /// Bans the peer `id`: it is removed, and cannot be added again until
    /// it is unbanned.
    pub fn ban_peer(&mut self, id: u64)
        ensures
            final(self).limit() == old(self).limit(),
            final(self).banned() == (if old(self).banned().contains(id) {
                old(self).banned()
            } else {
                old(self).banned().push(id)
            }),
            final(self).banned().contains(id),
            final(self).peers() == (if old(self).knows(id) {
                old(self).peers().remove(peer_position(old(self).peers(), id))
            } else {
                old(self).peers()
            }),
    {
        if !self.is_banned(id) {
            self.banned_peers.push(id);
            assert(self.banned_peers@[self.banned_peers@.len() - 1] == id);
        }
        self.remove_peer(id);
    }

    /// Lifts the ban of the peer `id`.
    pub fn unban_peer(&mut self, id: u64)
        ensures
            final(self).limit() == old(self).limit(),
            final(self).peers() == old(self).peers(),
            final(self).banned() == old(self).banned().filter(|b: u64| b != id),
            !final(self).banned().contains(id),
    {
        let mut kept: Vec<u64> = Vec::new();
        let mut i: usize = 0;
        while i < self.banned_peers.len()
            invariant
                i <= self.banned_peers.len(),
                self.banned_peers@ == old(self).banned_peers@,
                self.peers@ == old(self).peers@,
                self.max_peers == old(self).max_peers,
                kept@ == self.banned_peers@.take(i as int).filter(|b: u64| b != id),
            decreases self.banned_peers.len() - i,
        {
            let b = self.banned_peers[i];
            proof {
                let pred = |b: u64| b != id;
                let prefix = self.banned_peers@.take(i + 1);
                assert(prefix.drop_last() =~= self.banned_peers@.take(i as int));
                reveal(Seq::filter);
            }
            if b != id {
                kept.push(b);
            }
            i += 1;
        }
        assert(self.banned_peers@.take(self.banned_peers.len() as int) =~= self.banned_peers@);
        proof {
            let pred = |b: u64| b != id;
            if kept@.contains(id) {
                let j = choose|j: int| 0 <= j < kept@.len() && kept@[j] == id;
                old(self).banned_peers@.lemma_filter_pred(pred, j);
            }
        }
        self.banned_peers = kept;
    }

    /// The peer `id`, if it is among the peers.
    pub fn get_peer(&self, id: u64) -> (r: Option<&Peer>)
        ensures
            match r {
                Some(p) => self.knows(id) && *p == self.peers()[peer_position(self.peers(), id)]
                    && p.info.id == id,
                None => !self.knows(id),
            },
    {
        match self.position(id) {
            Some(i) => Some(&self.peers[i]),
            None => None,
        }
    }

    /// The peer `id` for changing, if it is among the peers.
    pub fn get_peer_mut(&mut self, id: u64) -> (r: Option<&mut Peer>)
        ensures
            r is Some == old(self).knows(id),
            r matches Some(p) ==> *p == old(self).peers()[peer_position(old(self).peers(), id)]
                && final(self).peers() == old(self).peers().update(
                peer_position(old(self).peers(), id),
                *final(p),
            ),
            r is None ==> final(self).peers() == old(self).peers(),
            final(self).banned() == old(self).banned(),
            final(self).limit() == old(self).limit(),
    {
        match self.position(id) {
            Some(i) => Some(&mut self.peers[i]),
            None => None,
        }
    }

    /// The number of peers.
    pub fn peer_count(&self) -> (n: usize)
        ensures
            n == self.peers().len(),
    {
        self.peers.len()
    }

    /// The peers, in the order in which they were added.
    pub fn get_peers(&self) -> (r: Vec<&Peer>)
        ensures
            r@.len() == self.peers().len(),
            forall|i: int| 0 <= i < r@.len() ==> *(#[trigger] r@[i]) == self.peers()[i],
    {
        let mut r: Vec<&Peer> = Vec::new();
        let mut i: usize = 0;
        while i < self.peers.len()
            invariant
                i <= self.peers.len(),
                r@.len() == i,
                forall|j: int| 0 <= j < i ==> *(#[trigger] r@[j]) == self.peers@[j],
            decreases self.peers.len() - i,
        {
            r.push(&self.peers[i]);
            i += 1;
        }
        r
    }

    /// The peers that are synced, in the order in which they were added.
    pub fn get_synced_peers(&self) -> (r: Vec<&Peer>)
        ensures
            r@.len() == self.peers().filter(
                |p: Peer| p.info.status == PeerStatus::Connected && p.capabilities.head_block > 0,
            ).len(),
            forall|i: int|
                0 <= i < r@.len() ==> *(#[trigger] r@[i]) == self.peers().filter(
                    |p: Peer|
                        p.info.status == PeerStatus::Connected && p.capabilities.head_block > 0,
                )[i],
    {
        let ghost pred = |p: Peer|
            p.info.status == PeerStatus::Connected && p.capabilities.head_block > 0;
        let mut r: Vec<&Peer> = Vec::new();
        let mut i: usize = 0;
        while i < self.peers.len()
            invariant
                i <= self.peers.len(),
                pred == (|p: Peer|
                    p.info.status == PeerStatus::Connected && p.capabilities.head_block > 0),
                r@.len() == self.peers@.take(i as int).filter(pred).len(),
                forall|j: int|
                    0 <= j < r@.len() ==> *(#[trigger] r@[j]) == self.peers@.take(i as int).filter(
                        pred,
                    )[j],
            decreases self.peers.len() - i,
        {
            proof {
                let prefix = self.peers@.take(i + 1);
                assert(prefix.drop_last() =~= self.peers@.take(i as int));
                assert(prefix.last() == self.peers@[i as int]);
                reveal(Seq::filter);
            }
            if self.peers[i].is_synced() {
                r.push(&self.peers[i]);
            }
            i += 1;
        }
        assert(self.peers@.take(self.peers.len() as int) =~= self.peers@);
        r
    }

    /// The number of peers that are synced.
    pub fn synced_count(&self) -> (n: usize)
        ensures
            n == self.peers().filter(
                |p: Peer| p.info.status == PeerStatus::Connected && p.capabilities.head_block > 0,
            ).len(),
    {
        let ghost pred = |p: Peer|
            p.info.status == PeerStatus::Connected && p.capabilities.head_block > 0;
        let mut n: usize = 0;
        let mut i: usize = 0;
        while i < self.peers.len()
            invariant
                i <= self.peers.len(),
                n <= i,
                pred == (|p: Peer|
                    p.info.status == PeerStatus::Connected && p.capabilities.head_block > 0),
                n == self.peers@.take(i as int).filter(pred).len(),
            decreases self.peers.len() - i,
        {
            proof {
                let prefix = self.peers@.take(i + 1);
                assert(prefix.drop_last() =~= self.peers@.take(i as int));
                reveal(Seq::filter);
            }
            if self.peers[i].is_synced() {
                n += 1;
            }
            i += 1;
        }
        assert(self.peers@.take(self.peers.len() as int) =~= self.peers@);
        n
    }

    /// Sets the status of the peer `id`, if it is among the peers.
    pub fn update_peer_status(&mut self, id: u64, status: PeerStatus)
        ensures
            final(self).banned() == old(self).banned(),
            final(self).limit() == old(self).limit(),
            final(self).peers().len() == old(self).peers().len(),
            forall|i: int|
                0 <= i < old(self).peers().len() && i != peer_position(old(self).peers(), id)
                    ==> final(self).peers()[i] == old(self).peers()[i],
            old(self).knows(id) ==> {
                let i = peer_position(old(self).peers(), id);
                let before = old(self).peers()[i];
                let after = final(self).peers()[i];
                &&& after.info == (PeerInfo { status, ..before.info })
                &&& after.reputation == before.reputation
                &&& after.capabilities == before.capabilities
                &&& after.ping_stats == before.ping_stats
                &&& after.connection_time == before.connection_time
            },
    {
        match self.position(id) {
            Some(i) => {
                let old_peer = self.peers.remove(i);
                let Peer { info, capabilities, reputation, connection_time, ping_stats } = old_peer;
                let peer = Peer {
                    info: PeerInfo { status, ..info },
                    capabilities,
                    reputation,
                    connection_time,
                    ping_stats,
                };
                self.peers.insert(i, peer);
            },
            None => {},
        }
    }

    /// Drops the peers that are disconnected.
    pub fn cleanup_disconnected_peers(&mut self)
        ensures
            final(self).banned() == old(self).banned(),
            final(self).limit() == old(self).limit(),
            final(self).peers() == still_connected(old(self).peers()),
    {
        let ghost pred = |p: Peer| p.info.status != PeerStatus::Disconnected;
        let ghost all = self.peers@;
        let mut i: usize = 0;
        let ghost mut seen: int = 0;
        while i < self.peers.len()
            invariant
                i <= self.peers.len(),
                self.banned_peers@ == old(self).banned_peers@,
                self.max_peers == old(self).max_peers,
                pred == (|p: Peer| p.info.status != PeerStatus::Disconnected),
                all == old(self).peers@,
                0 <= seen <= all.len(),
                self.peers@.take(i as int) == all.take(seen).filter(pred),
                self.peers@.skip(i as int) == all.skip(seen),
            decreases self.peers.len() - i,
        {
            proof {
                assert(all.skip(seen).len() == self.peers@.skip(i as int).len());
                assert(seen < all.len());
                let prefix = all.take(seen + 1);
                assert(self.peers@[i as int] == self.peers@.skip(i as int)[0]);
                assert(all.skip(seen)[0] == all[seen]);
                assert(prefix.drop_last() =~= all.take(seen));
                assert(prefix.last() == all[seen]);
                reveal(Seq::filter);
            }
            let ghost before = self.peers@;
            if self.peers[i].info.status == PeerStatus::Disconnected {
                self.peers.remove(i);
                proof {
                    assert(self.peers@.take(i as int) =~= before.take(i as int));
                    assert(self.peers@.skip(i as int) =~= before.skip(i as int).drop_first());
                    assert(all.skip(seen).drop_first() =~= all.skip(seen + 1));
                    seen = seen + 1;
                }
            } else {
                i += 1;
                proof {
                    assert(self.peers@.take(i as int) =~= before.take(i - 1).push(
                        before[i - 1],
                    ));
                    assert(self.peers@.skip(i as int) =~= before.skip(i - 1).drop_first());
                    assert(all.skip(seen).drop_first() =~= all.skip(seen + 1));
                    seen = seen + 1;
                }
            }
        }
        proof {
            assert(self.peers@.take(self.peers@.len() as int) =~= self.peers@);
            assert(self.peers@.skip(self.peers@.len() as int).len() == 0);
            assert(all.skip(seen).len() == 0);
            assert(all.take(seen) =~= all);
        }
    }
}

} // verus!
