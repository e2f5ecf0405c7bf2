//! The bookkeeping of state synchronisation: which requests wait, which
//! peer works on which, and when the whole effort is given up.

use crate::network::{NetworkError, NetworkErrorView};
use vstd::prelude::*;

verus! {

/// Where the synchronisation stands.
#[derive(Debug)]
pub enum SyncStatus {
    Idle,
    Syncing { current_block: u64, target_block: u64, peers: usize },
    Error(String),
}

pub enum SyncStatusView {
    Idle,
    Syncing { current_block: u64, target_block: u64, peers: usize },
    Error(Seq<char>),
}

impl View for SyncStatus {
    type V = SyncStatusView;

    open spec fn view(&self) -> SyncStatusView {
        match self {
            SyncStatus::Idle => SyncStatusView::Idle,
            SyncStatus::Syncing { current_block, target_block, peers } => SyncStatusView::Syncing {
                current_block: *current_block,
                target_block: *target_block,
                peers: *peers,
            },
            SyncStatus::Error(s) => SyncStatusView::Error(s@),
        }
    }
}

/// A request for part of an account's state, with the time, in seconds, at
/// which it was made.
#[derive(Debug)]
pub struct StateRequest {
    pub block_number: u64,
    pub account: String,
    pub storage_keys: Vec<crate::crypto::Hash>,
    pub timestamp: u64,
}

/// The requests that one peer works on.
#[derive(Debug)]
pub struct PeerQueue {
    pub peer: u64,
    pub requests: Vec<StateRequest>,
}

/// A request with the number of times it has failed.
#[derive(Debug)]
pub struct FailedRequest {
    pub request: StateRequest,
    pub retries: u32,
}

/// What the synchronisation keeps.
#[derive(Debug)]
pub struct SyncState {
    pub status: SyncStatus,
    pub pending_requests: Vec<PeerQueue>,
    pub completed_requests: Vec<StateRequest>,
    pub failed_requests: Vec<FailedRequest>,
    pub sync_queue: Vec<StateRequest>,
    pub last_progress: u64,
}

/// The seconds without progress after which the synchronisation fails.
pub const SYNC_TIMEOUT_SECS: u64 = 300;

/// The synchronisation of a node's state with its peers.
#[derive(Debug)]
pub struct StateSync {
    pub sync_state: SyncState,
    pub batch_size: usize,
    pub timeout: u64,
    pub retry_limit: u32,
}

/// The storage keys of a request as byte strings.
pub open spec fn keys_of(r: StateRequest) -> Seq<Seq<u8>> {
    Seq::new(r.storage_keys@.len(), |i: int| r.storage_keys@[i]@)
}

/// Two requests ask for the same thing: the time at which they were made
/// does not count.
pub open spec fn same(a: StateRequest, b: StateRequest) -> bool {
    a.block_number == b.block_number && a.account@ == b.account@ && keys_of(a) == keys_of(b)
}

/// Whether a request made at `timestamp` has waited longer than `timeout`
/// at the time `now`.
pub open spec fn timed_out(timestamp: u64, now: u64, timeout: u64) -> bool {
    now - timestamp > timeout
}

/// Every peer's queue is empty.
pub open spec fn all_idle(queues: Seq<PeerQueue>) -> bool {
    forall|i: int| 0 <= i < queues.len() ==> (#[trigger] queues[i]).requests@.len() == 0
}

/// The text that reports a request that failed too often.
pub open spec fn retry_failure_text(retries: u32) -> Seq<char> {
    "Request failed after "@ + crate::vm::model::decimal(retries as nat) + " retries"@
}

/// Formats the report of a request that failed too often with std's
/// `format!`. Trusted: the text is the fixed words around the number in
/// decimal digits, as std's `Display` for integers writes it.
#[verifier::external_body]
fn retry_failure(retries: u32) -> (text: String)
    ensures
        text@ == retry_failure_text(retries),
{
    format!("Request failed after {} retries", retries)
}

/// What a request asks for, and when it was made.
pub struct RequestView {
    pub block_number: u64,
    pub account: Seq<char>,
    pub storage_keys: Seq<Seq<u8>>,
    pub timestamp: u64,
}

impl View for StateRequest {
    type V = RequestView;

    open spec fn view(&self) -> RequestView {
        RequestView {
            block_number: self.block_number,
            account: self.account@,
            storage_keys: keys_of(*self),
            timestamp: self.timestamp,
        }
    }
}

/// Two requests ask for the same thing, whenever they were made.
pub open spec fn alike(a: RequestView, b: RequestView) -> bool {
    a.block_number == b.block_number && a.account == b.account && a.storage_keys == b.storage_keys
}

/// The requests of a list, in order.
pub open spec fn requests_view(requests: Seq<StateRequest>) -> Seq<RequestView> {
    Seq::new(requests.len(), |i: int| requests[i]@)
}

/// The requests that one peer works on.
pub struct QueueView {
    pub peer: u64,
    pub requests: Seq<RequestView>,
}

/// The queues of the peers, in order.
pub open spec fn queues_view(queues: Seq<PeerQueue>) -> Seq<QueueView> {
    Seq::new(
        queues.len(),
        |i: int| QueueView { peer: queues[i].peer, requests: requests_view(queues[i].requests@) },
    )
}

/// The records of failures, in order: each a request and the number of
/// times it has failed.
pub open spec fn failures_view(failed: Seq<FailedRequest>) -> Seq<(RequestView, u32)> {
    Seq::new(failed.len(), |i: int| (failed[i].request@, failed[i].retries))
}

/// Whether `list` holds a request that asks for the same as `request`.
pub open spec fn held(list: Seq<RequestView>, request: RequestView) -> bool {
    exists|i: int| 0 <= i < list.len() && alike(#[trigger] list[i], request)
}

/// The number of failures recorded for `request`: that of the first record
/// that asks for the same, zero where there is none.
pub open spec fn recorded(failed: Seq<(RequestView, u32)>, request: RequestView) -> u32
    decreases failed.len(),
{
    if failed.len() == 0 {
        0
    } else if alike(failed[0].0, request) {
        failed[0].1
    } else {
        recorded(failed.drop_first(), request)
    }
}

/// The records after one more failure of `request`: the first record that
/// asks for the same counts one more, and where there is none, a record
/// with one failure joins at the end.
pub open spec fn noted(failed: Seq<(RequestView, u32)>, request: RequestView) -> Seq<
    (RequestView, u32),
>
    decreases failed.len(),
{
    if failed.len() == 0 {
        seq![(request, 1u32)]
    } else if alike(failed[0].0, request) {
        seq![(failed[0].0, one_more(failed[0].1))] + failed.drop_first()
    } else {
        seq![failed[0]] + noted(failed.drop_first(), request)
    }
}

/// Where no record before the position `i` asks for the same as `request`,
/// and the record at `i` does or `i` is the end: the failures recorded are
/// those of the record at `i`, or none; and one more failure changes that
/// record, or adds one.
pub proof fn lemma_record_at(failed: Seq<(RequestView, u32)>, request: RequestView, i: int)
    requires
        0 <= i <= failed.len(),
        forall|j: int| 0 <= j < i ==> !alike((#[trigger] failed[j]).0, request),
        i < failed.len() ==> alike(failed[i].0, request),
    ensures
        recorded(failed, request) == (if i < failed.len() {
            failed[i].1
        } else {
            0
        }),
        noted(failed, request) == (if i < failed.len() {
            failed.update(i, (failed[i].0, one_more(failed[i].1)))
        } else {
            failed.push((request, 1u32))
        }),
    decreases failed.len(),
{
    if failed.len() == 0 {
        assert(noted(failed, request) =~= failed.push((request, 1u32)));
    } else if i == 0 {
        assert(noted(failed, request) =~= failed.update(0, (failed[0].0, one_more(failed[0].1))));
    } else {
        let rest = failed.drop_first();
        assert(!alike(failed[0].0, request));
        assert forall|j: int| 0 <= j < i - 1 implies !alike((#[trigger] rest[j]).0, request) by {
            assert(rest[j] == failed[j + 1]);
        }
        lemma_record_at(rest, request, i - 1);
        if i < failed.len() {
            assert(rest[i - 1] == failed[i]);
            assert(noted(failed, request) =~= failed.update(
                i,
                (failed[i].0, one_more(failed[i].1)),
            ));
        } else {
            assert(noted(failed, request) =~= failed.push((request, 1u32)));
        }
    }
}

/// The books of the synchronisation: what each peer works on, what waits,
/// and what has failed how often.
pub struct Books {
    pub pending: Seq<QueueView>,
    pub waiting: Seq<RequestView>,
    pub failed: Seq<(RequestView, u32)>,
}

/// One peer's requests gone through at the time `now`, `rest` being those
/// still to look at and `kept` those that stay: a request that has waited
/// longer than `timeout` leaves the peer, waits again at the end, and counts
/// as failed once more. What the peer keeps, what waits, and the records.
pub open spec fn sifted(
    rest: Seq<RequestView>,
    kept: Seq<RequestView>,
    waiting: Seq<RequestView>,
    failed: Seq<(RequestView, u32)>,
    now: u64,
    timeout: u64,
) -> (Seq<RequestView>, Seq<RequestView>, Seq<(RequestView, u32)>)
    decreases rest.len(),
{
    if rest.len() == 0 {
        (kept, waiting, failed)
    } else if timed_out(rest[0].timestamp, now, timeout) {
        sifted(rest.drop_first(), kept, waiting.push(rest[0]), noted(failed, rest[0]), now, timeout)
    } else {
        sifted(rest.drop_first(), kept.push(rest[0]), waiting, failed, now, timeout)
    }
}

/// The books after the peers from the position `p` on were gone through
/// for requests that have waited too long, one peer after the other.
pub open spec fn swept(
    pending: Seq<QueueView>,
    p: int,
    waiting: Seq<RequestView>,
    failed: Seq<(RequestView, u32)>,
    now: u64,
    timeout: u64,
) -> Books
    decreases pending.len() - p,
{
    if p < 0 || p >= pending.len() {
        Books { pending, waiting, failed }
    } else {
        let gone = sifted(pending[p].requests, Seq::empty(), waiting, failed, now, timeout);
        swept(
            pending.update(p, QueueView { peer: pending[p].peer, requests: gone.0 }),
            p + 1,
            gone.1,
            gone.2,
            now,
            timeout,
        )
    }
}

/// Whether the peer at the position `i` has room for one more request.
pub open spec fn has_room(pending: Seq<QueueView>, batch_size: usize, i: int) -> bool {
    0 <= i < pending.len() && pending[i].requests.len() < batch_size
}

/// The position of the first peer that has room, if any has.
pub open spec fn first_with_room(pending: Seq<QueueView>, batch_size: usize) -> Option<int> {
    if exists|i: int| has_room(pending, batch_size, i) {
        Some(
            choose|i: int|
                has_room(pending, batch_size, i) && forall|j: int|
                    0 <= j < i ==> !has_room(pending, batch_size, j),
        )
    } else {
        None
    }
}

/// A peer with room before which no peer has room is the first with room.
pub proof fn lemma_first_with_room(pending: Seq<QueueView>, batch_size: usize, i: int)
    requires
        has_room(pending, batch_size, i),
        forall|j: int| 0 <= j < i ==> !has_room(pending, batch_size, j),
    ensures
        first_with_room(pending, batch_size) == Some(i),
{
    let c = choose|c: int|
        has_room(pending, batch_size, c) && forall|j: int|
            0 <= j < c ==> !has_room(pending, batch_size, j);
    assert(has_room(pending, batch_size, c));
    if c < i {
        assert(!has_room(pending, batch_size, c));
    } else if c > i {
        assert(!has_room(pending, batch_size, i));
    }
}

/// The waiting requests handed out, one after the other from the front: a
/// request that was answered already is dropped; one that has failed as
/// often as `retry_limit` ends the handing out with that number, and is
/// gone from the waiting requests; any other goes to the first peer with
/// room, and where no peer has room it waits on at the end, and the handing
/// out is over. What the peers work on, what waits, and the number of
/// failures that ended it, if one did.
pub open spec fn handed_out(
    pending: Seq<QueueView>,
    waiting: Seq<RequestView>,
    completed: Seq<RequestView>,
    failed: Seq<(RequestView, u32)>,
    batch_size: usize,
    retry_limit: u32,
) -> (Seq<QueueView>, Seq<RequestView>, Option<u32>)
    decreases waiting.len(),
{
    if waiting.len() == 0 {
        (pending, waiting, None)
    } else {
        let request = waiting[0];
        let rest = waiting.drop_first();
        if held(completed, request) {
            handed_out(pending, rest, completed, failed, batch_size, retry_limit)
        } else if recorded(failed, request) >= retry_limit {
            (pending, rest, Some(recorded(failed, request)))
        } else {
            match first_with_room(pending, batch_size) {
                Some(i) => handed_out(
                    pending.update(
                        i,
                        QueueView { peer: pending[i].peer, requests: pending[i].requests.push(request) },
                    ),
                    rest,
                    completed,
                    failed,
                    batch_size,
                    retry_limit,
                ),
                None => (pending, rest.push(request), None),
            }
        }
    }
}

/// One more than `n`, as far as 32 bits hold it.
pub open spec fn one_more(n: u32) -> u32 {
    if n < u32::MAX {
        (n + 1) as u32
    } else {
        n
    }
}

/// Whether two requests ask for the same thing.
pub fn same_request(a: &StateRequest, b: &StateRequest) -> (r: bool)
    ensures
        r == same(*a, *b),
        r == alike(a@, b@),
{
    if a.block_number != b.block_number || a.account != b.account || a.storage_keys.len()
        != b.storage_keys.len() {
        proof {
            if a.storage_keys.len() != b.storage_keys.len() {
                assert(keys_of(*a).len() != keys_of(*b).len());
            }
        }
        return false;
    }
    let mut i: usize = 0;
    while i < a.storage_keys.len()
        invariant
            i <= a.storage_keys.len(),
            a.storage_keys.len() == b.storage_keys.len(),
            forall|j: int| 0 <= j < i ==> a.storage_keys@[j]@ == b.storage_keys@[j]@,
        decreases a.storage_keys.len() - i,
    {
        if !a.storage_keys[i].same(&b.storage_keys[i]) {
            proof {
                assert(keys_of(*a)[i as int] != keys_of(*b)[i as int]);
            }
            return false;
        }
        i += 1;
    }
    assert(keys_of(*a) =~= keys_of(*b));
    true
}

/// Whether `list` holds a request that asks for the same as `request`.
fn holds(list: &Vec<StateRequest>, request: &StateRequest) -> (r: bool)
    ensures
        r == held(requests_view(list@), request@),
{
    let mut i: usize = 0;
    while i < list.len()
        invariant
            i <= list.len(),
            forall|j: int| 0 <= j < i ==> !alike(#[trigger] requests_view(list@)[j], request@),
        decreases list.len() - i,
    {
        if same_request(&list[i], request) {
            assert(alike(requests_view(list@)[i as int], request@));
            return true;
        }
        i += 1;
    }
    false
}

/// The status once a standstill has been looked for at the time `now`: a
/// synchronisation without progress for longer than the timeout has failed.
pub open spec fn stalled(status: SyncStatusView, last_progress: u64, now: u64) -> SyncStatusView {
    match status {
        SyncStatusView::Syncing { .. } => if now - last_progress > SYNC_TIMEOUT_SECS {
            SyncStatusView::Error("Sync timed out"@)
        } else {
            status
        },
        _ => status,
    }
}

impl StateSync {
    /// The books as they stand.
    pub open spec fn books(&self) -> Books {
        Books {
            pending: queues_view(self.sync_state.pending_requests@),
            waiting: requests_view(self.sync_state.sync_queue@),
            failed: failures_view(self.sync_state.failed_requests@),
        }
    }

    /// The books after the requests `waiting` were processed at the time
    /// `now`: first the peers are gone through for requests that have waited
    /// too long, then the waiting requests are handed out. With them the
    /// number of failures that ended the handing out, if one did.
    pub open spec fn processed(&self, waiting: Seq<RequestView>, now: u64) -> (Books, Option<u32>) {
        let gone = swept(self.books().pending, 0, waiting, self.books().failed, now, self.timeout);
        let out = handed_out(
            gone.pending,
            gone.waiting,
            requests_view(self.sync_state.completed_requests@),
            gone.failed,
            self.batch_size,
            self.retry_limit,
        );
        (Books { pending: out.0, waiting: out.1, failed: gone.failed }, out.2)
    }

    /// A synchronisation that has not begun, with requests timing out after
    /// thirty seconds and failing for good at the third retry.
    pub fn new(batch_size: usize, now: u64) -> (r: Self)
        ensures
            r.sync_state.status@ == SyncStatusView::Idle,
            r.sync_state.pending_requests@.len() == 0,
            r.sync_state.completed_requests@.len() == 0,
            r.sync_state.failed_requests@.len() == 0,
            r.sync_state.sync_queue@.len() == 0,
            r.sync_state.last_progress == now,
            r.batch_size == batch_size,
            r.timeout == 30,
            r.retry_limit == 3,
    {
        StateSync {
            sync_state: SyncState {
                status: SyncStatus::Idle,
                pending_requests: Vec::new(),
                completed_requests: Vec::new(),
                failed_requests: Vec::new(),
                sync_queue: Vec::new(),
                last_progress: now,
            },
            batch_size,
            timeout: 30,
            retry_limit: 3,
        }
    }

    /// The position of the queue of `peer`, if it has one.
    fn queue_position(&self, peer: u64) -> (r: Option<usize>)
        ensures
            match r {
                Some(i) => i < self.sync_state.pending_requests@.len()
                    && self.sync_state.pending_requests@[i as int].peer == peer,
                None => forall|j: int|
                    0 <= j < self.sync_state.pending_requests@.len()
                        ==> self.sync_state.pending_requests@[j].peer != peer,
            },
    {
        let mut i: usize = 0;
        while i < self.sync_state.pending_requests.len()
            invariant
                i <= self.sync_state.pending_requests.len(),
                forall|j: int| 0 <= j < i ==> self.sync_state.pending_requests@[j].peer != peer,
            decreases self.sync_state.pending_requests.len() - i,
        {
            if self.sync_state.pending_requests[i].peer == peer {
                return Some(i);
            }
            i += 1;
        }
        None
    }

    /// Takes `peer` in at the time `now`: an idle synchronisation begins,
    /// and the peer gets a queue unless it has one.
    pub fn start_sync(&mut self, peer: u64, now: u64) -> (r: Result<(), NetworkError>)
        ensures
            r is Ok,
            final(self).batch_size == old(self).batch_size,
            final(self).timeout == old(self).timeout,
            final(self).retry_limit == old(self).retry_limit,
            final(self).sync_state.sync_queue == old(self).sync_state.sync_queue,
            final(self).sync_state.completed_requests == old(self).sync_state.completed_requests,
            final(self).sync_state.failed_requests == old(self).sync_state.failed_requests,
            match old(self).sync_state.status@ {
                SyncStatusView::Idle => final(self).sync_state.status@ == (SyncStatusView::Syncing {
                    current_block: 0,
                    target_block: 0,
                    peers: 1,
                }) && final(self).sync_state.last_progress == now,
                other => final(self).sync_state.status@ == other
                    && final(self).sync_state.last_progress == old(self).sync_state.last_progress,
            },
            exists|i: int|
                0 <= i < final(self).sync_state.pending_requests@.len()
                    && (#[trigger] final(self).sync_state.pending_requests@[i]).peer == peer,
            final(self).sync_state.pending_requests@.len() >= old(self).sync_state.pending_requests@.len(),
            forall|i: int|
                0 <= i < old(self).sync_state.pending_requests@.len()
                    ==> final(self).sync_state.pending_requests@[i]
                    == old(self).sync_state.pending_requests@[i],
    {
        let idle = match &self.sync_state.status {
            SyncStatus::Idle => true,
            _ => false,
        };
        if idle {
            self.sync_state.status = SyncStatus::Syncing {
                current_block: 0,
                target_block: 0,
                peers: 1,
            };
            self.sync_state.last_progress = now;
        }
        match self.queue_position(peer) {
            Some(i) => {
                assert(self.sync_state.pending_requests@[i as int].peer == peer);
            },
            None => {
                self.sync_state.pending_requests.push(PeerQueue { peer, requests: Vec::new() });
                assert(self.sync_state.pending_requests@[self.sync_state.pending_requests@.len()
                    - 1].peer == peer);
            },
        }
        Ok(())
    }

    /// Lets `peer` go: what it worked on goes back to the end of the
    /// waiting requests, and a running synchronisation counts one peer
    /// less.
    pub fn handle_peer_disconnected(&mut self, peer: u64) -> (r: Result<(), NetworkError>)
        ensures
            r is Ok,
            final(self).batch_size == old(self).batch_size,
            final(self).timeout == old(self).timeout,
            final(self).retry_limit == old(self).retry_limit,
            final(self).sync_state.completed_requests == old(self).sync_state.completed_requests,
            final(self).sync_state.failed_requests == old(self).sync_state.failed_requests,
            final(self).sync_state.last_progress == old(self).sync_state.last_progress,
            final(self).sync_state.status@ == (match old(self).sync_state.status@ {
                SyncStatusView::Syncing {
                    current_block,
                    target_block,
                    peers,
                } => SyncStatusView::Syncing {
                    current_block,
                    target_block,
                    peers: if peers > 0 {
                        (peers - 1) as usize
                    } else {
                        0
                    },
                },
                other => other,
            }),
            final(self).sync_state.sync_queue@.len()
                + final(self).sync_state.pending_requests@.len() >= old(self).sync_state.sync_queue@.len(),
            forall|i: int|
                0 <= i < old(self).sync_state.sync_queue@.len()
                    ==> final(self).sync_state.sync_queue@[i]
                    == old(self).sync_state.sync_queue@[i],
    {
        match self.queue_position(peer) {
            Some(i) => {
                let queue = self.sync_state.pending_requests.remove(i);
                let PeerQueue { peer: _, requests } = queue;
                let mut requests = requests;
                while requests.len() > 0
                    invariant
                        self.batch_size == old(self).batch_size,
                        self.timeout == old(self).timeout,
                        self.retry_limit == old(self).retry_limit,
                        self.sync_state.completed_requests == old(self).sync_state.completed_requests,
                        self.sync_state.failed_requests == old(self).sync_state.failed_requests,
                        self.sync_state.last_progress == old(self).sync_state.last_progress,
                        self.sync_state.status == old(self).sync_state.status,
                        self.sync_state.sync_queue@.len() >= old(self).sync_state.sync_queue@.len(),
                        forall|i: int|
                            0 <= i < old(self).sync_state.sync_queue@.len()
                                ==> self.sync_state.sync_queue@[i] == old(self).sync_state.sync_queue@[i],
                    decreases requests.len(),
                {
                    let request = requests.remove(0);
                    self.sync_state.sync_queue.push(request);
                }
            },
            None => {},
        }
        let next = match &self.sync_state.status {
            SyncStatus::Syncing { current_block, target_block, peers } => Some(
                SyncStatus::Syncing {
                    current_block: *current_block,
                    target_block: *target_block,
                    peers: if *peers > 0 {
                        *peers - 1
                    } else {
                        0
                    },
                },
            ),
            _ => None,
        };
        match next {
            Some(status) => {
                self.sync_state.status = status;
            },
            None => {},
        }
        Ok(())
    }

    /// Counts one more failure of `request`.
    fn note_failure(&mut self, request: &StateRequest)
        ensures
            final(self).batch_size == old(self).batch_size,
            final(self).timeout == old(self).timeout,
            final(self).retry_limit == old(self).retry_limit,
            final(self).sync_state.status == old(self).sync_state.status,
            final(self).sync_state.pending_requests == old(self).sync_state.pending_requests,
            final(self).sync_state.completed_requests == old(self).sync_state.completed_requests,
            final(self).sync_state.sync_queue == old(self).sync_state.sync_queue,
            final(self).sync_state.last_progress == old(self).sync_state.last_progress,
            failures_view(final(self).sync_state.failed_requests@) == noted(
                failures_view(old(self).sync_state.failed_requests@),
                request@,
            ),
    {
        let mut i: usize = 0;
        while i < self.sync_state.failed_requests.len()
            invariant
                i <= self.sync_state.failed_requests.len(),
                self.sync_state.failed_requests == old(self).sync_state.failed_requests,
                forall|j: int|
                    0 <= j < i ==> !alike(
                        (#[trigger] failures_view(self.sync_state.failed_requests@)[j]).0,
                        request@,
                    ),
                self.batch_size == old(self).batch_size,
                self.timeout == old(self).timeout,
                self.retry_limit == old(self).retry_limit,
                self.sync_state.status == old(self).sync_state.status,
                self.sync_state.pending_requests == old(self).sync_state.pending_requests,
                self.sync_state.completed_requests == old(self).sync_state.completed_requests,
                self.sync_state.sync_queue == old(self).sync_state.sync_queue,
                self.sync_state.last_progress == old(self).sync_state.last_progress,
            decreases self.sync_state.failed_requests.len() - i,
        {
            if same_request(&self.sync_state.failed_requests[i].request, request) {
                let entry = self.sync_state.failed_requests.remove(i);
                let FailedRequest { request: kept, retries } = entry;
                let retries = if retries < u32::MAX {
                    retries + 1
                } else {
                    retries
                };
                self.sync_state.failed_requests.insert(i, FailedRequest { request: kept, retries });
                proof {
                    let before = failures_view(old(self).sync_state.failed_requests@);
                    let after = failures_view(self.sync_state.failed_requests@);
                    assert(alike(before[i as int].0, request@));
                    lemma_record_at(before, request@, i as int);
                    assert(after =~= before.update(
                        i as int,
                        (before[i as int].0, one_more(before[i as int].1)),
                    ));
                }
                return ;
            }
            i += 1;
        }
        self.sync_state.failed_requests.push(
            FailedRequest { request: copy_request(request), retries: 1 },
        );
        proof {
            let before = failures_view(old(self).sync_state.failed_requests@);
            let after = failures_view(self.sync_state.failed_requests@);
            lemma_record_at(before, request@, before.len() as int);
            assert(after =~= before.push((request@, 1u32)));
        }
    }

    /// The number of times that `request` has failed.
    pub fn retries_of(&self, request: &StateRequest) -> (r: u32)
        ensures
            r == recorded(failures_view(self.sync_state.failed_requests@), request@),
    {
        let mut i: usize = 0;
        while i < self.sync_state.failed_requests.len()
            invariant
                i <= self.sync_state.failed_requests.len(),
                forall|j: int|
                    0 <= j < i ==> !alike(
                        (#[trigger] failures_view(self.sync_state.failed_requests@)[j]).0,
                        request@,
                    ),
            decreases self.sync_state.failed_requests.len() - i,
        {
            if same_request(&self.sync_state.failed_requests[i].request, request) {
                proof {
                    let records = failures_view(self.sync_state.failed_requests@);
                    assert(alike(records[i as int].0, request@));
                    lemma_record_at(records, request@, i as int);
                }
                return self.sync_state.failed_requests[i].retries;
            }
            i += 1;
        }
        proof {
            let records = failures_view(self.sync_state.failed_requests@);
            lemma_record_at(records, request@, records.len() as int);
        }
        0
    }

    /// Looks for requests that have waited too long at the time `now`:
    /// each leaves its peer's queue, counts as failed once more, and waits
    /// again. A synchronisation that stands still for too long has failed.
    pub fn check_timeouts(&mut self, now: u64) -> (r: Result<(), NetworkError>)
        ensures
            r is Ok,
            final(self).batch_size == old(self).batch_size,
            final(self).timeout == old(self).timeout,
            final(self).retry_limit == old(self).retry_limit,
            final(self).sync_state.completed_requests == old(self).sync_state.completed_requests,
            final(self).sync_state.last_progress == old(self).sync_state.last_progress,
            final(self).sync_state.pending_requests@.len() == old(self).sync_state.pending_requests@.len(),
            final(self).sync_state.sync_queue@.len() >= old(self).sync_state.sync_queue@.len(),
            final(self).sync_state.status@ == stalled(
                old(self).sync_state.status@,
                old(self).sync_state.last_progress,
                now,
            ),
            forall|p: int, k: int|
                0 <= p < final(self).sync_state.pending_requests@.len()
                    && 0 <= k < final(self).sync_state.pending_requests@[p].requests@.len()
                    ==> !timed_out(
                    (#[trigger] final(self).sync_state.pending_requests@[p].requests@[k]).timestamp,
                    now,
                    old(self).timeout,
                ),
            ({
                let books = swept(
                    queues_view(old(self).sync_state.pending_requests@),
                    0,
                    requests_view(old(self).sync_state.sync_queue@),
                    failures_view(old(self).sync_state.failed_requests@),
                    now,
                    old(self).timeout,
                );
                &&& queues_view(final(self).sync_state.pending_requests@) == books.pending
                &&& requests_view(final(self).sync_state.sync_queue@) == books.waiting
                &&& failures_view(final(self).sync_state.failed_requests@) == books.failed
            }),
    {
        let ghost whole = swept(
            queues_view(self.sync_state.pending_requests@),
            0,
            requests_view(self.sync_state.sync_queue@),
            failures_view(self.sync_state.failed_requests@),
            now,
            self.timeout,
        );
        let mut p: usize = 0;
        while p < self.sync_state.pending_requests.len()
            invariant
                p <= self.sync_state.pending_requests.len(),
                self.batch_size == old(self).batch_size,
                self.timeout == old(self).timeout,
                self.retry_limit == old(self).retry_limit,
                self.sync_state.completed_requests == old(self).sync_state.completed_requests,
                self.sync_state.last_progress == old(self).sync_state.last_progress,
                self.sync_state.status == old(self).sync_state.status,
                self.sync_state.pending_requests@.len() == old(self).sync_state.pending_requests@.len(),
                self.sync_state.sync_queue@.len() >= old(self).sync_state.sync_queue@.len(),
                forall|q: int, k: int|
                    0 <= q < p && 0 <= k < self.sync_state.pending_requests@[q].requests@.len()
                        ==> !timed_out(
                        (#[trigger] self.sync_state.pending_requests@[q].requests@[k]).timestamp,
                        now,
                        self.timeout,
                    ),
                swept(
                    queues_view(self.sync_state.pending_requests@),
                    p as int,
                    requests_view(self.sync_state.sync_queue@),
                    failures_view(self.sync_state.failed_requests@),
                    now,
                    self.timeout,
                ) == whole,
            decreases self.sync_state.pending_requests.len() - p,
        {
            let ghost before = self.sync_state.pending_requests@;
            let ghost queues = queues_view(before);
            let queue = self.sync_state.pending_requests.remove(p);
            let PeerQueue { peer, requests } = queue;
            let mut requests = requests;
            let ghost gone = sifted(
                requests_view(requests@),
                Seq::empty(),
                requests_view(self.sync_state.sync_queue@),
                failures_view(self.sync_state.failed_requests@),
                now,
                self.timeout,
            );
            proof {
                assert(queues[p as int].requests == requests_view(requests@));
                assert(requests_view(requests@).take(0) =~= Seq::<RequestView>::empty());
                assert(requests_view(requests@).skip(0) =~= requests_view(requests@));
            }
            let mut k: usize = 0;
            while k < requests.len()
                invariant
                    k <= requests.len(),
                    self.batch_size == old(self).batch_size,
                    self.timeout == old(self).timeout,
                    self.retry_limit == old(self).retry_limit,
                    self.sync_state.completed_requests == old(self).sync_state.completed_requests,
                    self.sync_state.last_progress == old(self).sync_state.last_progress,
                    self.sync_state.status == old(self).sync_state.status,
                    self.sync_state.pending_requests@ == before.remove(p as int),
                    self.sync_state.sync_queue@.len() >= old(self).sync_state.sync_queue@.len(),
                    forall|j: int|
                        0 <= j < k ==> !timed_out(
                            (#[trigger] requests@[j]).timestamp,
                            now,
                            self.timeout,
                        ),
                    sifted(
                        requests_view(requests@).skip(k as int),
                        requests_view(requests@).take(k as int),
                        requests_view(self.sync_state.sync_queue@),
                        failures_view(self.sync_state.failed_requests@),
                        now,
                        self.timeout,
                    ) == gone,
                decreases requests.len() - k,
            {
                let stamp = requests[k].timestamp;
                let ghost was = requests@;
                let ghost waiting = requests_view(self.sync_state.sync_queue@);
                proof {
                    let views = requests_view(was);
                    assert(views.skip(k as int)[0] == was[k as int]@);
                }
                if now > stamp && now - stamp > self.timeout {
                    let request = requests.remove(k);
                    self.note_failure(&request);
                    self.sync_state.sync_queue.push(request);
                    proof {
                        assert forall|j: int| 0 <= j < k implies !timed_out(
                            (#[trigger] requests@[j]).timestamp,
                            now,
                            self.timeout,
                        ) by {
                            assert(requests@[j] == was[j]);
                        }
                        let views = requests_view(was);
                        let left = requests_view(requests@);
                        assert(left.take(k as int) =~= views.take(k as int));
                        assert(left.skip(k as int) =~= views.skip(k as int).drop_first());
                        assert(requests_view(self.sync_state.sync_queue@) =~= waiting.push(request@));
                    }
                } else {
                    k += 1;
                    proof {
                        let views = requests_view(was);
                        assert(views.take(k as int) =~= views.take(k - 1).push(views[k - 1]));
                        assert(views.skip(k as int) =~= views.skip(k - 1).drop_first());
                    }
                }
            }
            proof {
                let views = requests_view(requests@);
                assert(views.skip(k as int) =~= Seq::<RequestView>::empty());
                assert(views.take(k as int) =~= views);
            }
            self.sync_state.pending_requests.insert(p, PeerQueue { peer, requests });
            proof {
                assert(queues_view(self.sync_state.pending_requests@) =~= queues.update(
                    p as int,
                    QueueView { peer: queues[p as int].peer, requests: gone.0 },
                ));
            }
            proof {
                let after = self.sync_state.pending_requests@;
                assert forall|q: int, k: int|
                    0 <= q < p + 1 && 0 <= k < after[q].requests@.len() implies !timed_out(
                    (#[trigger] after[q].requests@[k]).timestamp,
                    now,
                    self.timeout,
                ) by {
                    if q < p {
                        assert(after[q] == before[q]);
                    }
                }
            }
            p += 1;
        }
        let stale = match &self.sync_state.status {
            SyncStatus::Syncing { .. } => now > self.sync_state.last_progress && now
                - self.sync_state.last_progress > SYNC_TIMEOUT_SECS,
            _ => false,
        };
        if stale {
            self.sync_state.status = SyncStatus::Error("Sync timed out".to_string());
        }
        Ok(())
    }

    /// The position of the first peer that has room for a request.
    fn free_peer(&self) -> (r: Option<usize>)
        ensures
            match r {
                Some(i) => i < self.sync_state.pending_requests@.len()
                    && self.sync_state.pending_requests@[i as int].requests@.len()
                    < self.batch_size,
                None => forall|j: int|
                    0 <= j < self.sync_state.pending_requests@.len()
                        ==> self.sync_state.pending_requests@[j].requests@.len()
                        >= self.batch_size,
            },
            match r {
                Some(i) => first_with_room(self.books().pending, self.batch_size) == Some(i as int),
                None => first_with_room(self.books().pending, self.batch_size) is None,
            },
    {
        let mut i: usize = 0;
        while i < self.sync_state.pending_requests.len()
            invariant
                i <= self.sync_state.pending_requests.len(),
                forall|j: int|
                    0 <= j < i ==> self.sync_state.pending_requests@[j].requests@.len()
                        >= self.batch_size,
            decreases self.sync_state.pending_requests.len() - i,
        {
            if self.sync_state.pending_requests[i].requests.len() < self.batch_size {
                proof {
                    let queues = self.books().pending;
                    assert(has_room(queues, self.batch_size, i as int));
                    assert forall|j: int| 0 <= j < i implies !has_room(
                        queues,
                        self.batch_size,
                        j,
                    ) by {
                        assert(self.sync_state.pending_requests@[j].requests@.len()
                            >= self.batch_size);
                    }
                    lemma_first_with_room(queues, self.batch_size, i as int);
                }
                return Some(i);
            }
            i += 1;
        }
        proof {
            let queues = self.books().pending;
            assert forall|j: int| !has_room(queues, self.batch_size, j) by {
                if 0 <= j < queues.len() {
                    assert(self.sync_state.pending_requests@[j].requests@.len()
                        >= self.batch_size);
                }
            }
        }
        None
    }

    /// Whether no peer works on anything.
    fn peers_idle(&self) -> (r: bool)
        ensures
            r == all_idle(self.sync_state.pending_requests@),
    {
        let mut i: usize = 0;
        while i < self.sync_state.pending_requests.len()
            invariant
                i <= self.sync_state.pending_requests.len(),
                forall|j: int|
                    0 <= j < i ==> (#[trigger] self.sync_state.pending_requests@[j]).requests@.len()
                        == 0,
            decreases self.sync_state.pending_requests.len() - i,
        {
            if self.sync_state.pending_requests[i].requests.len() != 0 {
                return false;
            }
            i += 1;
        }
        true
    }

    /// Hands the waiting requests to the peers, at the time `now`, once
    /// timeouts have been dealt with. A request that was answered already is
    /// dropped; one that has failed as often as the retry limit ends the
    /// synchronisation with an error; any other goes to the first peer with
    /// room, and where no peer has room it waits on, at the end. Where then
    /// nothing waits and no peer works on anything, the synchronisation is
    /// idle.
    pub fn process_sync_queue(&mut self, now: u64) -> (r: Result<(), NetworkError>)
        ensures
            final(self).batch_size == old(self).batch_size,
            final(self).timeout == old(self).timeout,
            final(self).retry_limit == old(self).retry_limit,
            final(self).sync_state.completed_requests == old(self).sync_state.completed_requests,
            final(self).sync_state.last_progress == old(self).sync_state.last_progress,
            final(self).sync_state.pending_requests@.len() == old(self).sync_state.pending_requests@.len(),
            match r {
                Ok(()) => final(self).sync_state.status@
                    == (if final(self).sync_state.sync_queue@.len() == 0 && all_idle(
                    final(self).sync_state.pending_requests@,
                ) {
                    SyncStatusView::Idle
                } else {
                    stalled(old(self).sync_state.status@, old(self).sync_state.last_progress, now)
                }),
                Err(e) => (exists|n: u32|
                    n >= old(self).retry_limit && e@ == NetworkErrorView::SyncError(
                        #[trigger] retry_failure_text(n),
                    )) && final(self).sync_state.status@ == stalled(
                    old(self).sync_state.status@,
                    old(self).sync_state.last_progress,
                    now,
                ),
            },
            final(self).books() == old(self).processed(old(self).books().waiting, now).0,
            match r {
                Ok(()) => old(self).processed(old(self).books().waiting, now).1 is None,
                Err(e) => old(self).processed(old(self).books().waiting, now).1 matches Some(n)
                    && e@ == NetworkErrorView::SyncError(retry_failure_text(n)),
            },
    {
        let ghost goal = self.processed(self.books().waiting, now);
        let _ = self.check_timeouts(now);
        let ghost completed = requests_view(self.sync_state.completed_requests@);
        let mut more = true;
        while more && self.sync_state.sync_queue.len() > 0
            invariant
                self.batch_size == old(self).batch_size,
                self.timeout == old(self).timeout,
                self.retry_limit == old(self).retry_limit,
                self.sync_state.completed_requests == old(self).sync_state.completed_requests,
                self.sync_state.last_progress == old(self).sync_state.last_progress,
                self.sync_state.pending_requests@.len() == old(self).sync_state.pending_requests@.len(),
                self.sync_state.status@ == stalled(
                    old(self).sync_state.status@,
                    old(self).sync_state.last_progress,
                    now,
                ),
                !more ==> self.sync_state.sync_queue@.len() > 0,
                self.books().failed == goal.0.failed,
                completed == requests_view(self.sync_state.completed_requests@),
                goal == old(self).processed(old(self).books().waiting, now),
                more ==> handed_out(
                    self.books().pending,
                    self.books().waiting,
                    completed,
                    self.books().failed,
                    self.batch_size,
                    self.retry_limit,
                ) == (goal.0.pending, goal.0.waiting, goal.1),
                !more ==> self.books().pending == goal.0.pending && self.books().waiting
                    == goal.0.waiting && goal.1 is None,
            decreases self.sync_state.sync_queue@.len() + (if more { 1int } else { 0int }),
        {
            let ghost queues = self.books().pending;
            let ghost waiting = self.books().waiting;
            let request = self.sync_state.sync_queue.remove(0);
            proof {
                assert(waiting[0] == request@);
                assert(self.books().waiting =~= waiting.drop_first());
            }
            let ghost so_far = handed_out(
                queues,
                waiting,
                completed,
                self.books().failed,
                self.batch_size,
                self.retry_limit,
            );
            if holds(&self.sync_state.completed_requests, &request) {
                proof {
                    assert(held(completed, waiting[0]));
                    assert(so_far == handed_out(
                        queues,
                        waiting.drop_first(),
                        completed,
                        self.books().failed,
                        self.batch_size,
                        self.retry_limit,
                    ));
                }
                continue ;
            }
            let retries = self.retries_of(&request);
            if retries >= self.retry_limit {
                proof {
                    assert(!held(completed, waiting[0]));
                    assert(so_far == (queues, waiting.drop_first(), Some(retries)));
                }
                return Err(NetworkError::SyncError(retry_failure(retries)));
            }
            match self.free_peer() {
                Some(i) => {
                    let queue = self.sync_state.pending_requests.remove(i);
                    let PeerQueue { peer, requests } = queue;
                    let mut requests = requests;
                    requests.push(request);
                    self.sync_state.pending_requests.insert(i, PeerQueue { peer, requests });
                    proof {
                        assert(self.books().pending =~= queues.update(
                            i as int,
                            QueueView {
                                peer: queues[i as int].peer,
                                requests: queues[i as int].requests.push(request@),
                            },
                        )) by {
                            assert(requests_view(requests@) =~= queues[i as int].requests.push(
                                request@,
                            ));
                        }
                    }
                },
                None => {
                    self.sync_state.sync_queue.push(request);
                    more = false;
                    proof {
                        assert(self.books().waiting =~= waiting.drop_first().push(request@));
                    }
                },
            }
        }
        if self.sync_state.sync_queue.len() == 0 && self.peers_idle() {
            self.sync_state.status = SyncStatus::Idle;
        }
        Ok(())
    }

    /// Takes a request in at the time `now`: it waits at the end, and the
    /// waiting requests are processed. The books are left as `processed`
    /// says; the result is an error exactly where a request that has failed
    /// as often as the retry limit ended the handing out, and the error
    /// names that number.
    pub fn handle_request(&mut self, request: StateRequest, now: u64) -> (r: Result<
        (),
        NetworkError,
    >)
        ensures
            final(self).batch_size == old(self).batch_size,
            final(self).timeout == old(self).timeout,
            final(self).retry_limit == old(self).retry_limit,
            final(self).sync_state.completed_requests == old(self).sync_state.completed_requests,
            final(self).sync_state.last_progress == old(self).sync_state.last_progress,
            final(self).sync_state.pending_requests@.len() == old(self).sync_state.pending_requests@.len(),
            final(self).books() == old(self).processed(
                old(self).books().waiting.push(request@),
                now,
            ).0,
            match r {
                Ok(()) => {
                    &&& old(self).processed(old(self).books().waiting.push(request@), now).1 is None
                    &&& final(self).sync_state.status@ == (if final(self).sync_state.sync_queue@.len()
                        == 0 && all_idle(final(self).sync_state.pending_requests@) {
                        SyncStatusView::Idle
                    } else {
                        stalled(
                            old(self).sync_state.status@,
                            old(self).sync_state.last_progress,
                            now,
                        )
                    })
                },
                Err(e) => {
                    &&& old(self).processed(old(self).books().waiting.push(request@), now).1
                        matches Some(n) && e@ == NetworkErrorView::SyncError(
                        retry_failure_text(n),
                    )
                    &&& final(self).sync_state.status@ == stalled(
                        old(self).sync_state.status@,
                        old(self).sync_state.last_progress,
                        now,
                    )
                },
            },
    {
        self.sync_state.sync_queue.push(request);
        proof {
            assert(self.books().waiting =~= old(self).books().waiting.push(request@));
        }
        self.process_sync_queue(now)
    }

    /// Takes the answer to `request` in at the time `now`: the request is
    /// done and leaves every peer's queue, a running synchronisation moves
    /// on to the block of the answer where that is further, and the waiting
    /// requests are handed out.
    pub fn handle_response(&mut self, request: StateRequest, now: u64) -> (r: Result<
        (),
        NetworkError,
    >)
        ensures
            final(self).batch_size == old(self).batch_size,
            final(self).timeout == old(self).timeout,
            final(self).retry_limit == old(self).retry_limit,
            final(self).sync_state.completed_requests@.len()
                == old(self).sync_state.completed_requests@.len() + 1,
            same(final(self).sync_state.completed_requests@.last(), request),
            final(self).sync_state.last_progress == (match old(self).sync_state.status@ {
                SyncStatusView::Syncing { current_block, .. } => if request.block_number
                    > current_block {
                    now
                } else {
                    old(self).sync_state.last_progress
                },
                _ => old(self).sync_state.last_progress,
            }),
    {
        let block_number = request.block_number;
        let mut p: usize = 0;
        while p < self.sync_state.pending_requests.len()
            invariant
                p <= self.sync_state.pending_requests.len(),
                self.batch_size == old(self).batch_size,
                self.timeout == old(self).timeout,
                self.retry_limit == old(self).retry_limit,
                self.sync_state.completed_requests == old(self).sync_state.completed_requests,
                self.sync_state.last_progress == old(self).sync_state.last_progress,
                self.sync_state.status == old(self).sync_state.status,
            decreases self.sync_state.pending_requests.len() - p,
        {
            let queue = self.sync_state.pending_requests.remove(p);
            let PeerQueue { peer, requests } = queue;
            let mut requests = requests;
            let mut k: usize = 0;
            while k < requests.len()
                invariant
                    k <= requests.len(),
                decreases requests.len() - k,
            {
                if same_request(&requests[k], &request) {
                    requests.remove(k);
                } else {
                    k += 1;
                }
            }
            self.sync_state.pending_requests.insert(p, PeerQueue { peer, requests });
            p += 1;
        }
        let next = match &self.sync_state.status {
            SyncStatus::Syncing { current_block, target_block, peers } => if block_number
                > *current_block {
                Some(
                    SyncStatus::Syncing {
                        current_block: block_number,
                        target_block: *target_block,
                        peers: *peers,
                    },
                )
            } else {
                None
            },
            _ => None,
        };
        match next {
            Some(status) => {
                self.sync_state.status = status;
                self.sync_state.last_progress = now;
            },
            None => {},
        }
        self.sync_state.completed_requests.push(request);
        self.process_sync_queue(now)
    }

    /// Where the synchronisation stands.
    pub fn get_status(&self) -> (r: SyncStatus)
        ensures
            r@ == self.sync_state.status@,
    {
        match &self.sync_state.status {
            SyncStatus::Idle => SyncStatus::Idle,
            SyncStatus::Syncing { current_block, target_block, peers } => SyncStatus::Syncing {
                current_block: *current_block,
                target_block: *target_block,
                peers: *peers,
            },
            SyncStatus::Error(text) => SyncStatus::Error(text.clone()),
        }
    }
}

/// A copy of a request.
pub fn copy_request(request: &StateRequest) -> (r: StateRequest)
    ensures
        same(r, *request),
        r.timestamp == request.timestamp,
        r@ == request@,
{
    let mut storage_keys: Vec<crate::crypto::Hash> = Vec::new();
    let mut i: usize = 0;
    while i < request.storage_keys.len()
        invariant
            i <= request.storage_keys.len(),
            storage_keys@.len() == i,
            forall|j: int| 0 <= j < i ==> storage_keys@[j]@ == request.storage_keys@[j]@,
        decreases request.storage_keys.len() - i,
    {
        storage_keys.push(request.storage_keys[i]);
        i += 1;
    }
    let r = StateRequest {
        block_number: request.block_number,
        account: request.account.clone(),
        storage_keys,
        timestamp: request.timestamp,
    };
    assert(keys_of(r) =~= keys_of(*request));
    r
}

} // verus!
