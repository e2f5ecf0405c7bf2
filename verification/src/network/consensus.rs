//! The decisions of the consensus engine: who proposes, what goes into a
//! block, and when a block is final.

use crate::network::message::{root_of, transactions_root, Block, BlockHeader, Transaction};
use crate::network::NetworkError;
use vstd::prelude::*;

verus! {

/// The settings of the consensus engine.
#[derive(Clone, Copy, Debug, PartialEq, Eq, Structural)]
pub struct ConsensusConfig {
    pub block_time_secs: u64,
    pub max_block_size: usize,
    pub min_validators: usize,
    pub max_validators: usize,
    pub validator_stake_threshold: u64,
}

impl Default for ConsensusConfig {
    fn default() -> (r: Self)
        ensures
            r == (ConsensusConfig {
                block_time_secs: 15,
                max_block_size: 1048576,
                min_validators: 4,
                max_validators: 100,
                validator_stake_threshold: 1000,
            }),
    {
        ConsensusConfig {
            block_time_secs: 15,
            max_block_size: 1024 * 1024,
            min_validators: 4,
            max_validators: 100,
            validator_stake_threshold: 1000,
        }
    }
}

/// A validator and what it has done.
#[derive(Debug)]
pub struct ValidatorInfo {
    pub address: String,
    pub stake: u64,
    pub last_proposed: u64,
    pub total_proposed: u64,
    pub total_validated: u64,
}

/// Where the engine stands.
#[derive(Clone, Copy, Debug, PartialEq, Eq, Structural)]
pub struct ConsensusStatus {
    pub height: u64,
    pub round: u64,
    pub pending_transactions: usize,
    pub pending_blocks: usize,
    pub active_validators: usize,
    pub last_finalized_time: u64,
}

/// The seconds without a final block after which the engine gives up.
pub const FINALIZATION_TIMEOUT_SECS: u64 = 60;

/// The number of pending transactions that a cleanup leaves at most.
pub const MAX_PENDING_TRANSACTIONS: usize = 10000;

/// The votes for one block: the digest of the block and who voted for it.
#[derive(Debug)]
pub struct Ballot {
    pub block_hash: crate::crypto::Hash,
    pub voters: Vec<String>,
}

/// What the engine keeps.
#[derive(Debug)]
pub struct ConsensusState {
    pub current_round: u64,
    pub current_height: u64,
    pub validators: Vec<ValidatorInfo>,
    pub pending_transactions: Vec<Transaction>,
    pub pending_blocks: Vec<Block>,
    pub finalized_blocks: Vec<Block>,
    pub votes: Vec<Ballot>,
    pub last_finalized_time: u64,
}

impl ConsensusState {
    /// The state of an engine that starts at the time `now`.
    pub fn new(now: u64) -> (r: Self)
        ensures
            r.current_round == 0,
            r.current_height == 0,
            r.validators@.len() == 0,
            r.pending_transactions@.len() == 0,
            r.pending_blocks@.len() == 0,
            r.finalized_blocks@.len() == 0,
            r.votes@.len() == 0,
            r.last_finalized_time == now,
    {
        ConsensusState {
            current_round: 0,
            current_height: 0,
            validators: Vec::new(),
            pending_transactions: Vec::new(),
            pending_blocks: Vec::new(),
            finalized_blocks: Vec::new(),
            votes: Vec::new(),
            last_finalized_time: now,
        }
    }
}

/// The consensus engine.
#[derive(Debug)]
pub struct ConsensusEngine {
    pub config: ConsensusConfig,
    pub state: ConsensusState,
}

/// Whether `votes` of `total` validators are more than two thirds.
pub open spec fn is_majority(votes: int, total: int) -> bool {
    votes * 3 > total * 2
}

/// The stakes of the validators, added up.
pub open spec fn total_stake(validators: Seq<ValidatorInfo>) -> int
    decreases validators.len(),
{
    if validators.len() == 0 {
        0
    } else {
        total_stake(validators.drop_last()) + validators.last().stake
    }
}

/// The position of the validator on whose stake the number `ticket` falls
/// when the stakes are laid end to end, if it falls on any.
pub open spec fn drawn(validators: Seq<ValidatorInfo>, ticket: int) -> Option<int>
    decreases validators.len(),
{
    if validators.len() == 0 {
        None
    } else if ticket < validators[0].stake {
        Some(0)
    } else {
        match drawn(validators.drop_first(), ticket - validators[0].stake) {
            Some(i) => Some(i + 1),
            None => None,
        }
    }
}

/// The ticket of a round: the round times the total stake, taken modulo
/// the number of validators.
pub open spec fn ticket_of(round: u64, validators: Seq<ValidatorInfo>) -> int {
    (round * total_stake(validators)) % (validators.len() as int)
}

/// The proposer of a round, by position: the validator on whose stake the
/// round's ticket falls. There is none without validators or where the
/// ticket falls on nobody.
pub open spec fn proposer_of(round: u64, validators: Seq<ValidatorInfo>) -> Option<int> {
    if validators.len() == 0 {
        None
    } else {
        drawn(validators, ticket_of(round, validators))
    }
}

/// The number of transactions from the front of `pending` that fit into a
/// block of `room` bytes, each taking the bytes of its encoding.
pub open spec fn fitting(pending: Seq<Transaction>, room: int) -> nat
    decreases pending.len(),
{
    if pending.len() == 0 {
        0
    } else if pending[0]@.encoding().len() > room {
        0
    } else {
        1 + fitting(pending.drop_first(), room - pending[0]@.encoding().len())
    }
}

/// No more transactions fit than there are.
pub proof fn lemma_fitting_bound(pending: Seq<Transaction>, room: int)
    ensures
        fitting(pending, room) <= pending.len(),
    decreases pending.len(),
{
    if pending.len() > 0 && pending[0]@.encoding().len() <= room {
        lemma_fitting_bound(pending.drop_first(), room - pending[0]@.encoding().len());
    }
}

/// Whether `address` is a validator with a stake of at least `threshold`:
/// the first validator of that address decides.
pub open spec fn is_valid(validators: Seq<ValidatorInfo>, address: Seq<char>, threshold: u64) -> bool
    decreases validators.len(),
{
    if validators.len() == 0 {
        false
    } else if validators[0].address@ == address {
        validators[0].stake >= threshold
    } else {
        is_valid(validators.drop_first(), address, threshold)
    }
}

/// A ballot as the digest of its block and the names of its voters.
pub type BallotView = (Seq<u8>, Seq<Seq<char>>);

pub open spec fn voters_view(voters: Seq<String>) -> Seq<Seq<char>> {
    Seq::new(voters.len(), |j: int| voters[j]@)
}

pub open spec fn ballots(votes: Seq<Ballot>) -> Seq<BallotView> {
    Seq::new(votes.len(), |i: int| (votes[i].block_hash@, voters_view(votes[i].voters@)))
}

/// The digests that identify blocks.
pub open spec fn block_digests(blocks: Seq<Block>) -> Seq<Seq<u8>> {
    Seq::new(blocks.len(), |i: int| crate::hashing::blake3_hash(blocks[i].header.encoding()))
}

/// The digests of the blocks that ballots are for.
pub open spec fn ballot_digests(b: Seq<BallotView>) -> Seq<Seq<u8>> {
    Seq::new(b.len(), |i: int| b[i].0)
}

/// The first position at which `keys` holds `k`, or the length of `keys`
/// where it holds it nowhere.
pub open spec fn first_index(keys: Seq<Seq<u8>>, k: Seq<u8>) -> int
    decreases keys.len(),
{
    if keys.len() == 0 {
        0
    } else if keys[0] == k {
        0
    } else {
        1 + first_index(keys.drop_first(), k)
    }
}

/// Where `k` stands at `i` and nowhere before, or nowhere and `i` is the
/// length, the first position of `k` is `i`.
pub proof fn lemma_first_index(keys: Seq<Seq<u8>>, k: Seq<u8>, i: int)
    requires
        0 <= i <= keys.len(),
        i < keys.len() ==> keys[i] == k,
        forall|j: int| 0 <= j < i ==> keys[j] != k,
    ensures
        first_index(keys, k) == i,
    decreases keys.len(),
{
    if keys.len() > 0 && i > 0 {
        assert(keys[0] != k);
        let rest = keys.drop_first();
        assert forall|j: int| 0 <= j < i - 1 implies rest[j] != k by {
            assert(rest[j] == keys[j + 1]);
        }
        if i < keys.len() {
            assert(rest[i - 1] == keys[i]);
        }
        lemma_first_index(rest, k, i - 1);
    }
}

/// The ballots after a ballot for the block `hash` was opened: the first
/// ballot for the block is emptied, or an empty one is added at the end.
pub open spec fn opened(b: Seq<BallotView>, hash: Seq<u8>) -> Seq<BallotView> {
    let i = first_index(ballot_digests(b), hash);
    if i < b.len() {
        b.update(i, (hash, Seq::<Seq<char>>::empty()))
    } else {
        b.push((hash, Seq::<Seq<char>>::empty()))
    }
}

/// The ballots after `name` voted for the block `hash`: the first ballot
/// for the block holds the name, once; without a ballot the vote counts for
/// nothing.
pub open spec fn voted(b: Seq<BallotView>, hash: Seq<u8>, name: Seq<char>) -> Seq<BallotView> {
    let i = first_index(ballot_digests(b), hash);
    if i < b.len() && !b[i].1.contains(name) {
        b.update(i, (b[i].0, b[i].1.push(name)))
    } else {
        b
    }
}

/// The digest of the first of `blocks` at `height`, or the digest of
/// nothing where none stands at that height.
pub open spec fn parent_digest(blocks: Seq<Block>, height: u64) -> Seq<u8> {
    if exists|i: int| 0 <= i < blocks.len() && (#[trigger] blocks[i]).header.number == height {
        let i = choose|i: int|
            0 <= i < blocks.len() && (#[trigger] blocks[i]).header.number == height && forall|j: int|
                0 <= j < i ==> (#[trigger] blocks[j]).header.number != height;
        crate::hashing::blake3_hash(blocks[i].header.encoding())
    } else {
        crate::hashing::blake3_hash(Seq::<u8>::empty())
    }
}

/// Whether two digests are the same.
fn same_hash(a: &crate::crypto::Hash, b: &crate::crypto::Hash) -> (r: bool)
    ensures
        r == (a@ == b@),
{
    a.same(b)
}

/// The position of the first ballot for the block `hash`, if there is one.
fn ballot_position(votes: &Vec<Ballot>, hash: &crate::crypto::Hash) -> (r: Option<usize>)
    ensures
        match r {
            Some(i) => i < votes@.len() && i == first_index(ballot_digests(ballots(votes@)), hash@)
                && votes@[i as int].block_hash@ == hash@,
            None => first_index(ballot_digests(ballots(votes@)), hash@) == votes@.len(),
        },
{
    let ghost keys = ballot_digests(ballots(votes@));
    let mut i: usize = 0;
    while i < votes.len()
        invariant
            i <= votes.len(),
            keys == ballot_digests(ballots(votes@)),
            forall|j: int| 0 <= j < i ==> keys[j] != hash@,
        decreases votes.len() - i,
    {
        if same_hash(&votes[i].block_hash, hash) {
            proof {
                lemma_first_index(keys, hash@, i as int);
            }
            return Some(i);
        }
        i += 1;
    }
    proof {
        lemma_first_index(keys, hash@, votes@.len() as int);
    }
    None
}

/// Whether `name` is among `voters`.
fn has_voted(voters: &Vec<String>, name: &String) -> (r: bool)
    ensures
        r == voters_view(voters@).contains(name@),
{
    let mut i: usize = 0;
    while i < voters.len()
        invariant
            i <= voters.len(),
            forall|j: int| 0 <= j < i ==> (#[trigger] voters_view(voters@)[j]) != name@,
        decreases voters.len() - i,
    {
        if voters[i] == *name {
            assert(voters_view(voters@)[i as int] == name@);
            return true;
        }
        i += 1;
    }
    false
}

impl ConsensusEngine {
    /// An engine that starts at the time `now`, in seconds.
    pub fn new(config: ConsensusConfig, now: u64) -> (r: Self)
        ensures
            r.config == config,
            r.state.current_round == 0,
            r.state.current_height == 0,
            r.state.validators@.len() == 0,
            r.state.pending_transactions@.len() == 0,
            r.state.pending_blocks@.len() == 0,
            r.state.finalized_blocks@.len() == 0,
            r.state.votes@.len() == 0,
            r.state.last_finalized_time == now,
    {
        ConsensusEngine { config, state: ConsensusState::new(now) }
    }

    /// Whether `votes` of `total_validators` are more than two thirds.
    pub fn check_consensus(&self, votes: usize, total_validators: usize) -> (r: bool)
        ensures
            r == is_majority(votes as int, total_validators as int),
    {
        votes as u128 * 3 > total_validators as u128 * 2
    }

    /// Transactions are taken as they come.
    pub fn validate_transaction(&self, transaction: &Transaction) -> (r: bool)
        ensures
            r,
    {
        true
    }

    /// Blocks are taken as they come.
    pub fn validate_block(&self, block: &Block) -> (r: bool)
        ensures
            r,
    {
        true
    }

    /// Whether `validator` is a validator with enough stake.
    pub fn is_valid_validator(&self, validator: &String) -> (r: bool)
        ensures
            r == is_valid(
                self.state.validators@,
                validator@,
                self.config.validator_stake_threshold,
            ),
    {
        let mut i: usize = 0;
        assert(self.state.validators@.skip(0) =~= self.state.validators@);
        while i < self.state.validators.len()
            invariant
                i <= self.state.validators.len(),
                is_valid(
                    self.state.validators@,
                    validator@,
                    self.config.validator_stake_threshold,
                ) == is_valid(
                    self.state.validators@.skip(i as int),
                    validator@,
                    self.config.validator_stake_threshold,
                ),
            decreases self.state.validators.len() - i,
        {
            let ghost rest = self.state.validators@.skip(i as int);
            assert(rest[0] == self.state.validators@[i as int]);
            assert(rest.drop_first() =~= self.state.validators@.skip(i + 1));
            if self.state.validators[i].address == *validator {
                return self.state.validators[i].stake >= self.config.validator_stake_threshold;
            }
            i += 1;
        }
        false
    }

    /// Queues a transaction.
    pub fn process_transaction(&mut self, transaction: Transaction) -> (r: Result<
        (),
        NetworkError,
    >)
        ensures
            r is Ok,
            final(self).config == old(self).config,
            final(self).state.pending_transactions@ == old(self).state.pending_transactions@.push(
                transaction,
            ),
            final(self).state.current_round == old(self).state.current_round,
            final(self).state.current_height == old(self).state.current_height,
            final(self).state.validators == old(self).state.validators,
            final(self).state.pending_blocks == old(self).state.pending_blocks,
            final(self).state.finalized_blocks == old(self).state.finalized_blocks,
            final(self).state.votes == old(self).state.votes,
            final(self).state.last_finalized_time == old(self).state.last_finalized_time,
    {
        if !self.validate_transaction(&transaction) {
            return Err(NetworkError::ConsensusError("Invalid transaction".to_string()));
        }
        self.state.pending_transactions.push(transaction);
        Ok(())
    }

    /// Takes a block in for voting: it is pending, and its ballot is
    /// opened, or emptied where one was open.
    pub fn process_block(&mut self, block: Block) -> (r: Result<(), NetworkError>)
        ensures
            r is Ok,
            final(self).config == old(self).config,
            final(self).state.pending_blocks@ == old(self).state.pending_blocks@.push(block),
            ballots(final(self).state.votes@) == opened(
                ballots(old(self).state.votes@),
                crate::hashing::blake3_hash(block.header.encoding()),
            ),
            final(self).state.pending_transactions == old(self).state.pending_transactions,
            final(self).state.current_round == old(self).state.current_round,
            final(self).state.current_height == old(self).state.current_height,
            final(self).state.validators == old(self).state.validators,
            final(self).state.finalized_blocks == old(self).state.finalized_blocks,
            final(self).state.last_finalized_time == old(self).state.last_finalized_time,
    {
        if !self.validate_block(&block) {
            return Err(NetworkError::ConsensusError("Invalid block".to_string()));
        }
        let block_hash = block.hash();
        self.state.pending_blocks.push(block);
        let ghost before = ballots(self.state.votes@);
        match ballot_position(&self.state.votes, &block_hash) {
            Some(i) => {
                self.state.votes[i] = Ballot { block_hash, voters: Vec::new() };
                assert(ballots(self.state.votes@) =~= before.update(
                    i as int,
                    (block_hash@, Seq::<Seq<char>>::empty()),
                )) by {
                    assert(voters_view(self.state.votes@[i as int].voters@) =~= Seq::<
                        Seq<char>,
                    >::empty());
                }
            },
            None => {
                self.state.votes.push(Ballot { block_hash, voters: Vec::new() });
                assert(ballots(self.state.votes@) =~= before.push(
                    (block_hash@, Seq::<Seq<char>>::empty()),
                )) by {
                    assert(voters_view(
                        self.state.votes@[self.state.votes@.len() - 1].voters@,
                    ) =~= Seq::<Seq<char>>::empty());
                }
            },
        }
        Ok(())
    }

    /// The position of the first pending block with the digest `hash`.
    fn pending_position(&self, hash: &crate::crypto::Hash) -> (r: Option<usize>)
        ensures
            match r {
                Some(i) => i < self.state.pending_blocks@.len() && i == first_index(
                    block_digests(self.state.pending_blocks@),
                    hash@,
                ),
                None => first_index(block_digests(self.state.pending_blocks@), hash@)
                    == self.state.pending_blocks@.len(),
            },
    {
        let ghost keys = block_digests(self.state.pending_blocks@);
        let mut i: usize = 0;
        while i < self.state.pending_blocks.len()
            invariant
                i <= self.state.pending_blocks.len(),
                keys == block_digests(self.state.pending_blocks@),
                forall|j: int| 0 <= j < i ==> keys[j] != hash@,
            decreases self.state.pending_blocks.len() - i,
        {
            let h = self.state.pending_blocks[i].hash();
            if same_hash(&h, hash) {
                proof {
                    lemma_first_index(keys, hash@, i as int);
                }
                return Some(i);
            }
            i += 1;
        }
        proof {
            lemma_first_index(keys, hash@, keys.len() as int);
        }
        None
    }

    /// Counts the vote of `validator` for the block `block_hash`, at the
    /// time `now`. Who is no validator with enough stake is refused, and
    /// nothing changes. A vote for a block without a ballot counts for
    /// nothing. Where the ballot then holds more than two thirds of the
    /// validators, the first pending block with that digest, if there is
    /// one, becomes final.
    pub fn submit_vote(&mut self, validator: String, block_hash: crate::crypto::Hash, now: u64) -> (r:
        Result<(), NetworkError>)
        ensures
            final(self).config == old(self).config,
            final(self).state.validators == old(self).state.validators,
            final(self).state.pending_transactions == old(self).state.pending_transactions,
            final(self).state.current_round == old(self).state.current_round,
            final(self).state.current_height == old(self).state.current_height,
            match r {
                Ok(()) => {
                    let before = ballots(old(self).state.votes@);
                    let after = voted(before, block_hash@, validator@);
                    let i = first_index(ballot_digests(before), block_hash@);
                    let pending = old(self).state.pending_blocks@;
                    let p = first_index(block_digests(pending), block_hash@);
                    &&& is_valid(
                        old(self).state.validators@,
                        validator@,
                        old(self).config.validator_stake_threshold,
                    )
                    &&& ballots(final(self).state.votes@) == after
                    &&& if i < before.len() && is_majority(
                        after[i].1.len() as int,
                        old(self).state.validators@.len() as int,
                    ) && p < pending.len() {
                        &&& final(self).state.pending_blocks@ == pending.remove(p)
                        &&& final(self).state.finalized_blocks@
                            == old(self).state.finalized_blocks@.push(pending[p])
                        &&& final(self).state.last_finalized_time == now
                    } else {
                        &&& final(self).state.pending_blocks == old(self).state.pending_blocks
                        &&& final(self).state.finalized_blocks == old(self).state.finalized_blocks
                        &&& final(self).state.last_finalized_time == old(self).state.last_finalized_time
                    }
                },
                Err(e) => e@ == crate::network::NetworkErrorView::ConsensusError(
                    "Invalid validator"@,
                ) && !is_valid(
                    old(self).state.validators@,
                    validator@,
                    old(self).config.validator_stake_threshold,
                ) && final(self).state.pending_blocks == old(self).state.pending_blocks
                    && final(self).state.finalized_blocks == old(self).state.finalized_blocks
                    && final(self).state.votes == old(self).state.votes
                    && final(self).state.last_finalized_time
                    == old(self).state.last_finalized_time,
            },
    {
        if !self.is_valid_validator(&validator) {
            return Err(NetworkError::ConsensusError("Invalid validator".to_string()));
        }
        let ghost before = ballots(self.state.votes@);
        let i = match ballot_position(&self.state.votes, &block_hash) {
            Some(i) => i,
            None => { return Ok(()); },
        };
        let ballot = self.state.votes.remove(i);
        let Ballot { block_hash: ballot_hash, voters } = ballot;
        let mut voters = voters;
        let ghost names = voters_view(voters@);
        if !has_voted(&voters, &validator) {
            voters.push(validator);
            assert(voters_view(voters@) =~= names.push(validator@));
        }
        let count = voters.len();
        self.state.votes.insert(i, Ballot { block_hash: ballot_hash, voters });
        proof {
            let after = voted(before, block_hash@, validator@);
            assert(ballots(self.state.votes@) =~= after) by {
                assert forall|k: int| 0 <= k < after.len() implies ballots(self.state.votes@)[k]
                    == after[k] by {
                    if k != i as int {
                        assert(self.state.votes@[k] == old(self).state.votes@[k]);
                    }
                }
            }
        }
        if self.check_consensus(count, self.state.validators.len()) {
            match self.pending_position(&block_hash) {
                Some(p) => {
                    let block = self.state.pending_blocks.remove(p);
                    self.state.finalized_blocks.push(block);
                    self.state.last_finalized_time = now;
                },
                None => {},
            }
        }
        Ok(())
    }

    /// The proposer of the current round.
    pub fn select_proposer(&self) -> (r: Result<String, NetworkError>)
        ensures
            match r {
                Ok(address) => proposer_of(self.state.current_round, self.state.validators@)
                    matches Some(i) && address@ == self.state.validators@[i].address@,
                Err(e) => e@ == crate::network::NetworkErrorView::ConsensusError(
                    "No valid proposer found"@,
                ) && (proposer_of(self.state.current_round, self.state.validators@) is None
                    || total_stake(self.state.validators@) > u64::MAX),
            },
    {
        let n = self.state.validators.len();
        if n == 0 {
            return Err(NetworkError::ConsensusError("No valid proposer found".to_string()));
        }
        let mut total: u64 = 0;
        let mut i: usize = 0;
        while i < n
            invariant
                i <= n,
                n == self.state.validators.len(),
                total == total_stake(self.state.validators@.take(i as int)),
            decreases n - i,
        {
            proof {
                let t = self.state.validators@.take(i + 1);
                assert(t.drop_last() =~= self.state.validators@.take(i as int));
                lemma_total_stake_grows(self.state.validators@, i + 1);
            }
            total = match total.checked_add(self.state.validators[i].stake) {
                Some(sum) => sum,
                None => {
                    return Err(
                        NetworkError::ConsensusError("No valid proposer found".to_string()),
                    );
                },
            };
            i += 1;
        }
        assert(self.state.validators@.take(n as int) =~= self.state.validators@);
        assert(self.state.current_round * total <= 0xFFFF_FFFF_FFFF_FFFF * 0xFFFF_FFFF_FFFF_FFFF)
            by (nonlinear_arith)
            requires
                0 <= self.state.current_round <= 0xFFFF_FFFF_FFFF_FFFF,
                0 <= total <= 0xFFFF_FFFF_FFFF_FFFF,
        ;
        let product = self.state.current_round as u128 * total as u128;
        let mut ticket: u128 = product % (n as u128);
        let ghost start = ticket as int;
        assert(start == ticket_of(self.state.current_round, self.state.validators@));
        assert(self.state.validators@.skip(0) =~= self.state.validators@);
        let mut j: usize = 0;
        while j < n
            invariant
                j <= n,
                n == self.state.validators.len(),
                n > 0,
                start == ticket_of(self.state.current_round, self.state.validators@),
                drawn(self.state.validators@, start) == (match drawn(
                    self.state.validators@.skip(j as int),
                    ticket as int,
                ) {
                    Some(k) => Some(k + j),
                    None => None,
                }),
            decreases n - j,
        {
            let ghost rest = self.state.validators@.skip(j as int);
            assert(rest[0] == self.state.validators@[j as int]);
            assert(rest.drop_first() =~= self.state.validators@.skip(j + 1));
            let stake = self.state.validators[j].stake as u128;
            if ticket < stake {
                assert(drawn(rest, ticket as int) == Some(0int));
                return Ok(self.state.validators[j].address.clone());
            }
            assert(drawn(rest, ticket as int) == (match drawn(
                rest.drop_first(),
                ticket - stake,
            ) {
                Some(k) => Some(k + 1),
                None => None,
            }));
            ticket = ticket - stake;
            j += 1;
        }
        assert(self.state.validators@.skip(n as int).len() == 0);
        Err(NetworkError::ConsensusError("No valid proposer found".to_string()))
    }

    /// The digest of the first final block at the current height, or the
    /// digest of nothing where there is none.
    pub fn get_parent_hash(&self) -> (r: crate::crypto::Hash)
        ensures
            r@ == parent_digest(self.state.finalized_blocks@, self.state.current_height),
    {
        let mut i: usize = 0;
        while i < self.state.finalized_blocks.len()
            invariant
                i <= self.state.finalized_blocks.len(),
                forall|j: int|
                    0 <= j < i ==> (#[trigger] self.state.finalized_blocks@[j]).header.number
                        != self.state.current_height,
            decreases self.state.finalized_blocks.len() - i,
        {
            if self.state.finalized_blocks[i].header.number == self.state.current_height {
                proof {
                    let blocks = self.state.finalized_blocks@;
                    let height = self.state.current_height;
                    let first = |k: int|
                        0 <= k < blocks.len() && blocks[k].header.number == height && forall|j: int|
                            0 <= j < k ==> (#[trigger] blocks[j]).header.number != height;
                    assert(first(i as int));
                    let c = choose|k: int|
                        0 <= k < blocks.len() && (#[trigger] blocks[k]).header.number == height
                            && forall|j: int|
                            0 <= j < k ==> (#[trigger] blocks[j]).header.number != height;
                    assert(blocks[c].header.number == height);
                    if c < i {
                        assert(blocks[c].header.number != height);
                    } else if c > i {
                        assert(blocks[i as int].header.number != height);
                    }
                }
                return self.state.finalized_blocks[i].hash();
            }
            i += 1;
        }
        crate::crypto::Hash::default()
    }

    /// The digest that commits to `transactions`.
    pub fn compute_transactions_root(&self, transactions: &Vec<Transaction>) -> (r:
        crate::crypto::Hash)
        ensures
            r@ == transactions_root(transactions@),
    {
        root_of(transactions)
    }

    /// Makes the block of `proposer` at the time `now`: it holds the
    /// transactions from the front of the queue that fit into a block, which
    /// leave the queue, and stands one above the current height.
    pub fn create_block(&mut self, proposer: &String, now: u64) -> (r: Result<Block, NetworkError>)
        requires
            old(self).state.current_height < u64::MAX,
        ensures
            final(self).config == old(self).config,
            final(self).state.current_round == old(self).state.current_round,
            final(self).state.current_height == old(self).state.current_height,
            final(self).state.validators == old(self).state.validators,
            final(self).state.pending_blocks == old(self).state.pending_blocks,
            final(self).state.finalized_blocks == old(self).state.finalized_blocks,
            final(self).state.votes == old(self).state.votes,
            final(self).state.last_finalized_time == old(self).state.last_finalized_time,
            r matches Ok(block) && {
                let taken = fitting(
                    old(self).state.pending_transactions@,
                    old(self).config.max_block_size as int,
                ) as int;
                &&& block.transactions@ == old(self).state.pending_transactions@.take(taken)
                &&& final(self).state.pending_transactions@
                    == old(self).state.pending_transactions@.skip(taken)
                &&& block.header.number == old(self).state.current_height + 1
                &&& block.header.timestamp == now
                &&& block.header.author@ == proposer@
                &&& block.header.transactions_root@ == transactions_root(block.transactions@)
                &&& block.header.parent_hash@ == parent_digest(
                    old(self).state.finalized_blocks@,
                    old(self).state.current_height,
                )
                &&& block.header.state_root@ == crate::hashing::blake3_hash(Seq::<u8>::empty())
                &&& block.header.receipts_root@ == crate::hashing::blake3_hash(Seq::<u8>::empty())
                &&& block.state_root@ == crate::hashing::blake3_hash(Seq::<u8>::empty())
                &&& block.receipts_root@ == crate::hashing::blake3_hash(Seq::<u8>::empty())
            },
    {
        let mut transactions: Vec<Transaction> = Vec::new();
        let mut size: usize = 0;
        let max = self.config.max_block_size;
        let ghost all = self.state.pending_transactions@;
        proof {
            lemma_fitting_bound(all, max as int);
            assert(all.skip(0) =~= all);
            assert(all.take(0) =~= Seq::<Transaction>::empty());
        }
        let mut more = true;
        while more
            invariant
                size <= max,
                max == self.config.max_block_size,
                self.config == old(self).config,
                all == old(self).state.pending_transactions@,
                self.state.current_round == old(self).state.current_round,
                self.state.current_height == old(self).state.current_height,
                self.state.validators == old(self).state.validators,
                self.state.pending_blocks == old(self).state.pending_blocks,
                self.state.finalized_blocks == old(self).state.finalized_blocks,
                self.state.votes == old(self).state.votes,
                self.state.last_finalized_time == old(self).state.last_finalized_time,
                transactions@.len() <= all.len(),
                transactions@ == all.take(transactions@.len() as int),
                self.state.pending_transactions@ == all.skip(transactions@.len() as int),
                fitting(all, max as int) == transactions@.len() + fitting(
                    self.state.pending_transactions@,
                    max - size,
                ),
                !more ==> fitting(self.state.pending_transactions@, max - size) == 0,
            decreases self.state.pending_transactions@.len() + (if more { 1int } else { 0int }),
        {
            if self.state.pending_transactions.len() == 0 {
                more = false;
            } else {
                let tx_size = self.state.pending_transactions[0].encoded_len();
                if tx_size > max - size {
                    more = false;
                } else {
                    let ghost before = self.state.pending_transactions@;
                    let ghost taken = transactions@;
                    assert(fitting(before, max - size) == 1 + fitting(
                        before.drop_first(),
                        max - size - tx_size,
                    ));
                    let tx = self.state.pending_transactions.remove(0);
                    transactions.push(tx);
                    size = size + tx_size;
                    proof {
                        assert(before[0] == all[taken.len() as int]);
                        assert(self.state.pending_transactions@ =~= before.drop_first());
                        assert(before.drop_first() =~= all.skip(taken.len() as int + 1));
                        assert(transactions@ =~= all.take(taken.len() as int + 1));
                    }
                }
            }
        }
        assert(all.skip(0) =~= all);
        let block = Block {
            header: BlockHeader {
                parent_hash: self.get_parent_hash(),
                timestamp: now,
                number: self.state.current_height + 1,
                author: proposer.clone(),
                transactions_root: self.compute_transactions_root(&transactions),
                state_root: crate::crypto::Hash::default(),
                receipts_root: crate::crypto::Hash::default(),
            },
            transactions,
            state_root: crate::crypto::Hash::default(),
            receipts_root: crate::crypto::Hash::default(),
        };
        Ok(block)
    }

    /// Begins the next round at the time `now`: the round's proposer makes
    /// its block, which is returned for broadcasting.
    pub fn process_round(&mut self, now: u64) -> (r: Result<Block, NetworkError>)
        requires
            old(self).state.current_round < u64::MAX,
            old(self).state.current_height < u64::MAX,
        ensures
            final(self).config == old(self).config,
            final(self).state.current_round == old(self).state.current_round + 1,
            final(self).state.current_height == old(self).state.current_height,
            final(self).state.validators == old(self).state.validators,
            match r {
                Ok(block) => proposer_of(
                    final(self).state.current_round,
                    old(self).state.validators@,
                ) matches Some(i) && block.header.author@ == old(self).state.validators@[i].address@
                    && block.header.number == old(self).state.current_height + 1
                    && block.transactions@ == old(self).state.pending_transactions@.take(
                    fitting(
                        old(self).state.pending_transactions@,
                        old(self).config.max_block_size as int,
                    ) as int,
                ),
                Err(e) => e@ == crate::network::NetworkErrorView::ConsensusError(
                    "No valid proposer found"@,
                ) && final(self).state.pending_transactions == old(self).state.pending_transactions,
            },
    {
        self.state.current_round += 1;
        let proposer = match self.select_proposer() {
            Ok(proposer) => proposer,
            Err(e) => { return Err(e); },
        };
        self.create_block(&proposer, now)
    }

    /// Whether a block became final recently enough: an error where the
    /// last one is more than the timeout ago.
    pub fn check_finalization(&self, now: u64) -> (r: Result<(), NetworkError>)
        ensures
            match r {
                Ok(()) => now - self.state.last_finalized_time <= FINALIZATION_TIMEOUT_SECS,
                Err(e) => e@ == crate::network::NetworkErrorView::ConsensusError(
                    "Finalization timeout"@,
                ) && now - self.state.last_finalized_time > FINALIZATION_TIMEOUT_SECS,
            },
    {
        if now > self.state.last_finalized_time && now - self.state.last_finalized_time
            > FINALIZATION_TIMEOUT_SECS {
            return Err(NetworkError::ConsensusError("Finalization timeout".to_string()));
        }
        Ok(())
    }

    /// Drops the pending transactions beyond the newest
    /// `MAX_PENDING_TRANSACTIONS`, the oldest first.
    pub fn cleanup(&mut self) -> (r: Result<(), NetworkError>)
        ensures
            r is Ok,
            final(self).config == old(self).config,
            final(self).state.current_round == old(self).state.current_round,
            final(self).state.current_height == old(self).state.current_height,
            final(self).state.validators == old(self).state.validators,
            final(self).state.pending_blocks == old(self).state.pending_blocks,
            final(self).state.finalized_blocks == old(self).state.finalized_blocks,
            final(self).state.last_finalized_time == old(self).state.last_finalized_time,
            final(self).state.votes == old(self).state.votes,
            final(self).state.pending_transactions@
                == (if old(self).state.pending_transactions@.len() > MAX_PENDING_TRANSACTIONS {
                old(self).state.pending_transactions@.skip(
                    old(self).state.pending_transactions@.len() - MAX_PENDING_TRANSACTIONS,
                )
            } else {
                old(self).state.pending_transactions@
            }),
    {
        let ghost all = self.state.pending_transactions@;
        let ghost mut dropped: int = 0;
        while self.state.pending_transactions.len() > MAX_PENDING_TRANSACTIONS
            invariant
                self.config == old(self).config,
                self.state.current_round == old(self).state.current_round,
                self.state.current_height == old(self).state.current_height,
                self.state.validators == old(self).state.validators,
                self.state.pending_blocks == old(self).state.pending_blocks,
                self.state.finalized_blocks == old(self).state.finalized_blocks,
                self.state.last_finalized_time == old(self).state.last_finalized_time,
                self.state.votes == old(self).state.votes,
                all == old(self).state.pending_transactions@,
                0 <= dropped <= all.len(),
                self.state.pending_transactions@ == all.skip(dropped),
                dropped == 0 || self.state.pending_transactions@.len() >= MAX_PENDING_TRANSACTIONS,
            decreases self.state.pending_transactions@.len(),
        {
            let ghost before = self.state.pending_transactions@;
            self.state.pending_transactions.remove(0);
            proof {
                assert(self.state.pending_transactions@ =~= before.drop_first());
                assert(before.drop_first() =~= all.skip(dropped + 1));
                dropped = dropped + 1;
            }
        }
        proof {
            if dropped == 0 {
                assert(all.skip(0) =~= all);
            }
        }
        Ok(())
    }

    /// Where the engine stands at the time `now`.
    pub fn get_status(&self, now: u64) -> (r: ConsensusStatus)
        ensures
            r == (ConsensusStatus {
                height: self.state.current_height,
                round: self.state.current_round,
                pending_transactions: self.state.pending_transactions.len(),
                pending_blocks: self.state.pending_blocks.len(),
                active_validators: self.state.validators.len(),
                last_finalized_time: if now >= self.state.last_finalized_time {
                    (now - self.state.last_finalized_time) as u64
                } else {
                    0
                },
            }),
    {
        ConsensusStatus {
            height: self.state.current_height,
            round: self.state.current_round,
            pending_transactions: self.state.pending_transactions.len(),
            pending_blocks: self.state.pending_blocks.len(),
            active_validators: self.state.validators.len(),
            last_finalized_time: if now >= self.state.last_finalized_time {
                now - self.state.last_finalized_time
            } else {
                0
            },
        }
    }
}

/// The stakes of more validators add up to no less.
pub proof fn lemma_total_stake_grows(validators: Seq<ValidatorInfo>, k: int)
    requires
        0 <= k <= validators.len(),
    ensures
        0 <= total_stake(validators.take(k)) <= total_stake(validators),
    decreases validators.len() - k,
{
    lemma_total_stake_nonnegative(validators.take(k));
    if k < validators.len() {
        let t = validators.take(k + 1);
        assert(t.drop_last() =~= validators.take(k));
        lemma_total_stake_grows(validators, k + 1);
    } else {
        assert(validators.take(k) =~= validators);
    }
}

/// Stakes add up to nothing negative.
pub proof fn lemma_total_stake_nonnegative(validators: Seq<ValidatorInfo>)
    ensures
        0 <= total_stake(validators),
    decreases validators.len(),
{
    if validators.len() > 0 {
        lemma_total_stake_nonnegative(validators.drop_last());
    }
}

} // verus!
