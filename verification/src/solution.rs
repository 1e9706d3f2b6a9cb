//! How a nonce that a miner hands in is taken: it is put into the block header, the header is
//! hashed, and the hash is judged.

use crate::context::{MinerContext, MinerContextView};
use crate::difficulty::{
    big_endian, is_valid_target, law_valid_targets, meets_difficulty, target_value, valid_target,
};
use crate::error::{FromHexError, PoolError};
use crate::hexadecimal::{hex_decode, hex_text};
use crate::history::History;
use crate::job::{
    accepted, after_all, fresh_job, last_n, law_last_shares_count, law_new_share_is_newest,
    law_outcome_goes_by_numbers, Job, JobView, Outcome, Submission,
};
use crate::json::{json_member, json_object};
use crate::rewards::{
    job_solved, law_every_share_is_entered, law_reward_by_counting, per_share, reward_map,
    shares_of, Rewards,
};
use crate::table::lemma_assoc_dom;
use crate::types::{Header, Miner, MpnAddressView, PuzzleView, ShareView, Solution};
use vstd::prelude::*;

verus! {

/// A nonce that was handed in, beside the bytes of the header that it is meant for.
#[derive(Debug, PartialEq, Eq)]
pub struct Attempt {
    pub miner: Miner,
    pub nonce: String,
    /// The header as the puzzle gives it.
    pub blob: Vec<u8>,
    /// Where the nonce stands in the header.
    pub offset: usize,
    pub size: usize,
}

/// A nonce in its place: `blob` is to be hashed.
#[derive(Debug, PartialEq, Eq)]
pub struct Candidate {
    pub miner: Miner,
    pub nonce: String,
    pub header: Header,
    pub blob: Vec<u8>,
}

/// A solved block: the nonce to report to the node, and what is owed for the block.
pub struct SolvedBlock {
    pub nonce: String,
    pub header: Header,
    pub rewards: Rewards,
}

/// What comes of a candidate.
pub enum Verdict {
    Missed,
    Duplicate,
    Share,
    Block(SolvedBlock),
}

/// `blob` with `bytes` in the place that starts at `offset`.
pub open spec fn spliced(blob: Seq<u8>, offset: int, bytes: Seq<u8>) -> Seq<u8> {
    blob.take(offset) + bytes + blob.skip(offset + bytes.len())
}

/// Copies `bytes` over the part of `blob` that starts at `offset`.
fn splice(blob: &mut Vec<u8>, offset: usize, bytes: &Vec<u8>)
    requires
        offset + bytes@.len() <= old(blob)@.len(),
    ensures
        final(blob)@ == spliced(old(blob)@, offset as int, bytes@),
{
    let ghost before = blob@;
    let end: usize = blob.len();
    let mut i: usize = 0;
    while i < bytes.len()
        invariant
            i <= bytes@.len(),
            offset + bytes@.len() <= end,
            end == before.len(),
            blob@.len() == before.len(),
            forall|j: int|
                0 <= j < blob@.len() ==> #[trigger] blob@[j] == if offset <= j < offset + i {
                    bytes@[j - offset]
                } else {
                    before[j]
                },
        decreases bytes@.len() - i,
    {
        blob.set(offset + i, bytes[i]);
        i += 1;
    }
    assert(blob@ =~= spliced(before, offset as int, bytes@));
}

impl MinerContext {
    /// Starts on a nonce: none where there is no job, else the bytes of the job's header.
    pub fn begin_solution(&self, miner: Miner, solution: Solution) -> (r: Result<
        Option<Attempt>,
        PoolError,
    >)
        ensures
            match self@.current_job {
                None => r == Ok::<Option<Attempt>, PoolError>(None),
                Some(job) => match hex_text(job.puzzle.blob) {
                    Err(e) => r == Err::<Option<Attempt>, PoolError>(PoolError::FromHexError(e)),
                    Ok(bytes) => {
                        &&& r matches Ok(Some(attempt))
                        &&& attempt.miner == miner
                        &&& attempt.nonce == solution.nonce
                        &&& attempt.blob@ == bytes
                        &&& attempt.offset == job.puzzle.offset
                        &&& attempt.size == job.puzzle.size
                    },
                },
            },
            begun(self@, miner, solution, r),
    {
        match &self.current_job {
            Some(job) => match hex_decode(job.puzzle.blob.as_str()) {
                Ok(blob) => Ok(
                    Some(
                        Attempt {
                            miner,
                            nonce: solution.nonce,
                            blob,
                            offset: job.puzzle.offset,
                            size: job.puzzle.size,
                        },
                    ),
                ),
                Err(e) => Err(PoolError::FromHexError(e)),
            },
            None => Ok(None),
        }
    }

    /// Whether a nonce with this hash can be judged.
    pub fn can_judge(
        &self,
        nonce: &String,
        hash: &[u8; 32],
        share_target: u32,
        share_capacity: usize,
        owner_reward: u64,
    ) -> (r: bool)
        ensures
            r == judgeable(
                self@,
                nonce@,
                hash@,
                share_target,
                share_capacity as nat,
                owner_reward,
            ),
    {
        match &self.current_job {
            Some(job) => {
                if !is_valid_target(share_target) {
                    false
                } else if !meets_difficulty(hash, share_target) || job.nonces.contains(
                    nonce.as_str(),
                ) {
                    true
                } else if !is_valid_target(job.puzzle.target) {
                    false
                } else {
                    !meets_difficulty(hash, job.puzzle.target) || (share_capacity > 0
                        && owner_reward <= job.puzzle.reward)
                }
            },
            None => false,
        }
    }

    /// Judges a candidate by its hash. The hash is held against the share target first; a new
    /// share that also meets the target of the puzzle solves the block, and the reward is divided
    /// over the shares that then count.
    pub fn judge(
        &mut self,
        candidate: Candidate,
        hash: &[u8; 32],
        share_target: u32,
        share_capacity: usize,
        owner_reward: u64,
    ) -> (r: Verdict)
        requires
            judgeable(
                old(self)@,
                candidate.nonce@,
                hash@,
                share_target,
                share_capacity as nat,
                owner_reward,
            ),
        ensures
            final(self)@ == after_judging(
                old(self)@,
                ShareView { miner: candidate.miner@, nonce: candidate.nonce@ },
                hash@,
                share_target,
                share_capacity as nat,
            ),
            match old(self)@.current_job->0.outcome(candidate.nonce@, hash@, share_target) {
                Outcome::Missed => r is Missed,
                Outcome::Duplicate => r is Duplicate,
                Outcome::Share => r is Share,
                Outcome::Block => {
                    &&& r matches Verdict::Block(block)
                    &&& block.nonce == candidate.nonce
                    &&& block.header == candidate.header
                    &&& block.rewards@ == block_rewards(final(self)@.current_job->0, owner_reward)
                    &&& block.rewards.entries().len() > 0
                },
            },
            old(self)@.wf() ==> final(self)@.wf(),
            judged(
                old(self)@,
                candidate,
                hash@,
                share_target,
                share_capacity as nat,
                owner_reward,
                final(self)@,
                r,
            ),
    {
        let mut current: Option<Job> = None;
        std::mem::swap(&mut current, &mut self.current_job);
        let mut job = current.unwrap();
        let outcome = job.submit(
            &candidate.miner,
            &candidate.nonce,
            hash,
            share_target,
            share_capacity,
        );
        let r = match outcome {
            Outcome::Missed => Verdict::Missed,
            Outcome::Duplicate => Verdict::Duplicate,
            Outcome::Share => Verdict::Share,
            Outcome::Block => {
                assert(job@.shares.len() > 0);
                let rewards = job_solved(job.puzzle.reward, owner_reward, &job.shares);
                proof {
                    law_every_share_is_entered(
                        job@.shares,
                        per_share(job.puzzle.reward, owner_reward, job@.shares.len()),
                        0,
                    );
                    lemma_assoc_dom(
                        rewards.entries(),
                        job@.shares[0].miner.mpn_addr,
                    );
                }
                Verdict::Block(
                    SolvedBlock { nonce: candidate.nonce, header: candidate.header, rewards },
                )
            },
        };
        self.current_job = Some(job);
        r
    }
}

/// What comes of a candidate, and what it leaves behind.
pub open spec fn judged(
    before: MinerContextView,
    candidate: Candidate,
    hash: Seq<u8>,
    share_target: u32,
    capacity: nat,
    owner_reward: u64,
    after: MinerContextView,
    verdict: Verdict,
) -> bool {
    &&& after == after_judging(
        before,
        ShareView { miner: candidate.miner@, nonce: candidate.nonce@ },
        hash,
        share_target,
        capacity,
    )
    &&& match before.current_job->0.outcome(candidate.nonce@, hash, share_target) {
        Outcome::Missed => verdict is Missed,
        Outcome::Duplicate => verdict is Duplicate,
        Outcome::Share => verdict is Share,
        Outcome::Block => {
            &&& verdict matches Verdict::Block(block)
            &&& block.nonce == candidate.nonce
            &&& block.header == candidate.header
            &&& block.rewards@ == block_rewards(after.current_job->0, owner_reward)
        },
    }
}

/// What a nonce that is handed in starts with: the bytes of the job's header.
pub open spec fn begun(
    ctx: MinerContextView,
    miner: Miner,
    solution: Solution,
    r: Result<Option<Attempt>, PoolError>,
) -> bool {
    match ctx.current_job {
        None => r == Ok::<Option<Attempt>, PoolError>(None),
        Some(job) => match hex_text(job.puzzle.blob) {
            Err(e) => r == Err::<Option<Attempt>, PoolError>(PoolError::FromHexError(e)),
            Ok(bytes) => {
                &&& r matches Ok(Some(attempt))
                &&& attempt.miner == miner
                &&& attempt.nonce == solution.nonce
                &&& attempt.blob@ == bytes
                &&& attempt.offset == job.puzzle.offset
                &&& attempt.size == job.puzzle.size
            },
        },
    }
}

/// What an attempt becomes once its nonce stands in the header.
pub open spec fn placed(attempt: Attempt, header: Header, r: Result<Candidate, PoolError>) -> bool {
    match hex_text(attempt.nonce@) {
        Err(e) => r == Err::<Candidate, PoolError>(PoolError::FromHexError(e)),
        Ok(bytes) => {
            &&& r matches Ok(candidate)
            &&& candidate.miner == attempt.miner
            &&& candidate.nonce == attempt.nonce
            &&& candidate.header == header
            &&& candidate.blob@ == spliced(attempt.blob@, attempt.offset as int, bytes)
        },
    }
}

/// There is a job, the targets that count are bounds on hashes, and a block, if this is one, has
/// a share to be paid and a reward that covers the owner's part.
pub open spec fn judgeable(
    ctx: MinerContextView,
    nonce: Seq<char>,
    hash: Seq<u8>,
    share_target: u32,
    capacity: nat,
    owner_reward: u64,
) -> bool {
    &&& ctx.current_job matches Some(job)
    &&& valid_target(share_target)
    &&& job.accepts(nonce, hash, share_target) ==> valid_target(job.puzzle.target)
    &&& job.outcome(nonce, hash, share_target) == Outcome::Block ==> capacity > 0 && owner_reward
        <= job.puzzle.reward
}

/// The state after a candidate was judged: only the job may have changed.
pub open spec fn after_judging(
    ctx: MinerContextView,
    share: ShareView,
    hash: Seq<u8>,
    share_target: u32,
    capacity: nat,
) -> MinerContextView {
    MinerContextView {
        current_job: Some(ctx.current_job->0.after(share, hash, share_target, capacity)),
        ..ctx
    }
}

/// What is owed for the block of a job.
pub open spec fn block_rewards(job: JobView, owner_reward: u64) -> Map<
    MpnAddressView,
    u64,
> {
    reward_map(job.shares, per_share(job.puzzle.reward, owner_reward, job.shares.len()))
}

impl Attempt {
    /// The place of the nonce lies inside the header, and a nonce that can be read fills it.
    pub open spec fn has_place(&self) -> bool {
        &&& self.offset + self.size <= self.blob@.len()
        &&& hex_text(self.nonce@) matches Ok(bytes) ==> bytes.len() == self.size
    }

    /// Whether the nonce can be put into the header.
    pub fn fits(&self) -> (r: bool)
        ensures
            r == self.has_place(),
    {
        if self.size > self.blob.len() || self.offset > self.blob.len() - self.size {
            return false;
        }
        match hex_decode(self.nonce.as_str()) {
            Ok(bytes) => bytes.len() == self.size,
            Err(_) => true,
        }
    }

    /// Puts the nonce into the header, of which `header` is what its bytes say.
    pub fn place_nonce(self, header: Header) -> (r: Result<Candidate, PoolError>)
        requires
            self.has_place(),
        ensures
            match hex_text(self.nonce@) {
                Err(e) => r == Err::<Candidate, PoolError>(PoolError::FromHexError(e)),
                Ok(bytes) => {
                    &&& r matches Ok(candidate)
                    &&& candidate.miner == self.miner
                    &&& candidate.nonce == self.nonce
                    &&& candidate.header == header
                    &&& candidate.blob@ == spliced(self.blob@, self.offset as int, bytes)
                },
            },
            placed(self, header, r),
    {
        match hex_decode(self.nonce.as_str()) {
            Ok(bytes) => {
                let mut blob = self.blob;
                splice(&mut blob, self.offset, &bytes);
                Ok(Candidate { miner: self.miner, nonce: self.nonce, header, blob })
            },
            Err(e) => Err(PoolError::FromHexError(e)),
        }
    }
}

impl SolvedBlock {
    /// What the node is told: a JSON object with the nonce.
    pub fn report(&self) -> (r: String)
        ensures
            r@ == json_object(map!["nonce"@ => self.nonce@]),
    {
        json_member("nonce", self.nonce.as_str())
    }

    /// Notes the block in the history.
    pub fn record(self, history: &mut History)
        ensures
            final(history).solved@ == old(history).solved@.insert(self.header@, self.rewards),
            final(history).sent@ == old(history).sent@,
            old(history).wf() && self.rewards.entries().len() > 0 ==> final(history).wf(),
    {
        history.insert_solved(self.header, self.rewards);
    }
}

/// Putting a nonce into a header changes no other byte, and the nonce can be read back from its
/// place.
pub proof fn law_only_the_nonce_changes(blob: Seq<u8>, offset: int, bytes: Seq<u8>)
    requires
        0 <= offset,
        offset + bytes.len() <= blob.len(),
    ensures
        spliced(blob, offset, bytes).len() == blob.len(),
        spliced(blob, offset, bytes).subrange(offset, offset + bytes.len()) == bytes,
        forall|i: int|
            0 <= i < blob.len() && !(offset <= i < offset + bytes.len()) ==> #[trigger] spliced(
                blob,
                offset,
                bytes,
            )[i] == blob[i],
{
    assert(spliced(blob, offset, bytes).subrange(offset, offset + bytes.len()) =~= bytes);
}

/// Whoever solves a block is among those who are paid for it.
pub proof fn law_finder_is_paid(
    job: JobView,
    share: ShareView,
    hash: Seq<u8>,
    share_target: u32,
    capacity: nat,
    owner_reward: u64,
)
    requires
        job.outcome(share.nonce, hash, share_target) == Outcome::Block,
        capacity > 0,
    ensures
        block_rewards(
            job.after(share, hash, share_target, capacity),
            owner_reward,
        ).dom().contains(share.miner.mpn_addr),
{
    let next = job.after(share, hash, share_target, capacity);
    assert(next.shares.last() == share);
    law_every_share_is_entered(
        next.shares,
        per_share(next.puzzle.reward, owner_reward, next.shares.len()),
        next.shares.len() - 1,
    );
}

/// When a block is solved, its reward is divided over the last `capacity` of all shares that were
/// accepted for it, or over all of them where there are fewer.
pub proof fn law_last_shares_are_paid(
    puzzle: PuzzleView,
    subs: Seq<Submission>,
    capacity: nat,
    owner_reward: u64,
)
    ensures
        ({
            let paid = last_n(accepted(fresh_job(puzzle), subs, capacity), capacity);
            block_rewards(after_all(fresh_job(puzzle), subs, capacity), owner_reward) == reward_map(
                paid,
                per_share(puzzle.reward, owner_reward, paid.len()),
            )
        }),
{
    law_last_shares_count(puzzle, subs, capacity);
}

/// The verdict goes by numbers alone, as the outcome for the job does: a block is reported exactly
/// for a new nonce whose hash, read most significant byte first, is above neither the share target
/// nor the puzzle's own.
pub proof fn law_verdict_goes_by_numbers(
    before: MinerContextView,
    candidate: Candidate,
    hash: Seq<u8>,
    share_target: u32,
    capacity: nat,
    owner_reward: u64,
    after: MinerContextView,
    verdict: Verdict,
)
    requires
        before.current_job is Some,
        judged(before, candidate, hash, share_target, capacity, owner_reward, after, verdict),
    ensures
        ({
            let job = before.current_job->0;
            let number = big_endian(hash);
            let hit = number <= target_value(share_target);
            let new = !job.nonces.contains(candidate.nonce@);
            &&& verdict is Missed <==> !hit
            &&& verdict is Duplicate <==> hit && !new
            &&& verdict is Share <==> hit && new && number > target_value(job.puzzle.target)
            &&& verdict is Block <==> hit && new && number <= target_value(job.puzzle.target)
            &&& after.hasher_key == before.hasher_key
            &&& after.eligible_miners == before.eligible_miners
            &&& after.current_job matches Some(next) && next.puzzle == job.puzzle
            &&& !(hit && new) ==> after.current_job == before.current_job
        }),
{
    law_outcome_goes_by_numbers(before.current_job->0, candidate.nonce@, hash, share_target);
}

/// A block that is reported is the candidate's, and its reward, less the owner's part, is split
/// evenly over the shares that then count, the newest of which is the candidate's: each address
/// gets one part, rounded down, for every share of its own.
pub proof fn law_block_pays_the_counting_shares(
    before: MinerContextView,
    candidate: Candidate,
    hash: Seq<u8>,
    share_target: u32,
    capacity: nat,
    owner_reward: u64,
    after: MinerContextView,
    block: SolvedBlock,
    addr: MpnAddressView,
)
    requires
        before.current_job is Some,
        capacity > 0,
        owner_reward <= before.current_job->0.puzzle.reward,
        judged(
            before,
            candidate,
            hash,
            share_target,
            capacity,
            owner_reward,
            after,
            Verdict::Block(block),
        ),
    ensures
        ({
            let job = before.current_job->0;
            let shares = after.current_job->0.shares;
            let own = shares_of(shares, addr).len();
            &&& block.nonce == candidate.nonce
            &&& block.header == candidate.header
            &&& after.current_job is Some
            &&& shares.len() == if job.shares.len() < capacity {
                job.shares.len() + 1
            } else {
                capacity
            }
            &&& shares[shares.len() - 1] == (ShareView {
                miner: candidate.miner@,
                nonce: candidate.nonce@,
            })
            &&& forall|i: int|
                0 <= i < shares.len() - 1 ==> #[trigger] shares[i] == job.shares[i
                    + job.shares.len() + 1 - shares.len()]
            &&& block.rewards@.dom().contains(addr) <==> own > 0
            &&& own > 0 ==> block.rewards@[addr] == ((job.puzzle.reward - owner_reward)
                / shares.len() as int) * own
        }),
{
    let job = before.current_job->0;
    let share = ShareView { miner: candidate.miner@, nonce: candidate.nonce@ };
    law_verdict_goes_by_numbers(
        before,
        candidate,
        hash,
        share_target,
        capacity,
        owner_reward,
        after,
        Verdict::Block(block),
    );
    law_new_share_is_newest(job, share, hash, share_target, capacity);
    law_reward_by_counting(
        after.current_job->0.shares,
        job.puzzle.reward,
        owner_reward,
        addr,
    );
}

/// A candidate can be judged exactly if there is a job, the share target bounds hashes, and, for a
/// new nonce that meets it, so does the puzzle's own target and, if that is met too, somebody is
/// to be paid and the owner's part is not more than the reward; nothing else stands in the way.
pub proof fn law_what_can_be_judged(
    ctx: MinerContextView,
    nonce: Seq<char>,
    hash: Seq<u8>,
    share_target: u32,
    capacity: nat,
    owner_reward: u64,
)
    ensures
        judgeable(ctx, nonce, hash, share_target, capacity, owner_reward) <==> (ctx.current_job
            is Some && ({
            let job = ctx.current_job->0;
            let number = big_endian(hash);
            let new_share = number <= target_value(share_target) && !job.nonces.contains(nonce);
            &&& share_target < 0x1e00_0000
            &&& new_share ==> job.puzzle.target < 0x1e00_0000
            &&& new_share && number <= target_value(job.puzzle.target) ==> capacity > 0
                && owner_reward <= job.puzzle.reward
        })),
{
    law_valid_targets(share_target);
    if ctx.current_job is Some {
        law_valid_targets(ctx.current_job->0.puzzle.target);
        law_outcome_goes_by_numbers(ctx.current_job->0, nonce, hash, share_target);
    }
}

/// A nonce that is handed in is tried on the header of the job in hand, all of it, at the place
/// that the puzzle names; without a job nothing is tried, and a header that cannot be read is an
/// error.
pub proof fn law_attempt_is_on_the_job(
    ctx: MinerContextView,
    miner: Miner,
    solution: Solution,
    r: Result<Option<Attempt>, PoolError>,
)
    requires
        begun(ctx, miner, solution, r),
    ensures
        ctx.current_job is None <==> r == Ok::<Option<Attempt>, PoolError>(None),
        r is Err <==> ctx.current_job is Some && hex_text(ctx.current_job->0.puzzle.blob) is Err,
        r matches Ok(Some(attempt)) ==> {
            &&& attempt.miner == miner
            &&& attempt.nonce == solution.nonce
            &&& hex_text(ctx.current_job->0.puzzle.blob) == Ok::<Seq<u8>, FromHexError>(
                attempt.blob@,
            )
            &&& attempt.offset == ctx.current_job->0.puzzle.offset
            &&& attempt.size == ctx.current_job->0.puzzle.size
        },
        r matches Err(PoolError::FromHexError(e)) ==> hex_text(ctx.current_job->0.puzzle.blob)
            == Err::<Seq<u8>, FromHexError>(e),
{
}

/// What is hashed is the attempt's header with the bytes of the nonce in their place: these bytes
/// can be read there, and every other byte is the header's. A nonce that cannot be read is an
/// error, and nothing else is.
pub proof fn law_nonce_is_hashed_in_its_place(
    attempt: Attempt,
    header: Header,
    r: Result<Candidate, PoolError>,
)
    requires
        attempt.has_place(),
        placed(attempt, header, r),
    ensures
        r is Ok <==> hex_text(attempt.nonce@) is Ok,
        r matches Err(PoolError::FromHexError(e)) ==> hex_text(attempt.nonce@) == Err::<
            Seq<u8>,
            FromHexError,
        >(e),
        r matches Ok(candidate) ==> {
            let nonce = hex_text(attempt.nonce@)->Ok_0;
            &&& candidate.miner == attempt.miner
            &&& candidate.nonce == attempt.nonce
            &&& candidate.header == header
            &&& candidate.blob@.len() == attempt.blob@.len()
            &&& nonce.len() == attempt.size
            &&& forall|i: int|
                0 <= i < candidate.blob@.len() ==> #[trigger] candidate.blob@[i]
                    == if attempt.offset <= i < attempt.offset + attempt.size {
                    nonce[i - attempt.offset]
                } else {
                    attempt.blob@[i]
                }
        },
{
}

/// A nonce has its place exactly if the place lies inside the header and the nonce, where it can
/// be read, has as many bytes as the place.
pub proof fn law_place_is_inside_the_header(attempt: Attempt)
    ensures
        attempt.has_place() <==> attempt.offset + attempt.size <= attempt.blob@.len() && (hex_text(
            attempt.nonce@,
        ) is Err || hex_text(attempt.nonce@)->Ok_0.len() == attempt.size),
{
}

} // verus!
