//! The job in hand: its puzzle, the shares that count, and the nonces that were handed in.

use crate::difficulty::{big_endian, meets, meets_difficulty, target_value, valid_target};
use crate::rewards::share_views;
use crate::types::{Miner, MinerView, Puzzle, PuzzleView, Share, ShareView};
use vstd::hash_set::StringHashSet;
use vstd::prelude::*;

verus! {

/// A puzzle that is being mined.
pub struct Job {
    pub puzzle: Puzzle,
    /// The shares that are paid when the puzzle is solved, oldest first.
    pub shares: Vec<Share>,
    /// Every nonce that became a share, also of shares that no longer count.
    pub nonces: StringHashSet,
}

#[verifier::ext_equal]
pub struct JobView {
    pub puzzle: PuzzleView,
    pub shares: Seq<ShareView>,
    pub nonces: Set<Seq<char>>,
}

impl View for Job {
    type V = JobView;

    open spec fn view(&self) -> JobView {
        JobView { puzzle: self.puzzle@, shares: share_views(self.shares@), nonces: self.nonces@ }
    }
}

/// What comes of a nonce that is handed in.
#[derive(Debug, Clone, Copy, PartialEq, Eq)]
pub enum Outcome {
    /// The hash is above the share target.
    Missed,
    /// The nonce became a share before.
    Duplicate,
    /// A new share.
    Share,
    /// A new share that also solves the block.
    Block,
}

/// The last `n` elements, or all where there are no more.
pub open spec fn last_n<A>(s: Seq<A>, n: nat) -> Seq<A> {
    if s.len() <= n {
        s
    } else {
        s.skip(s.len() - n)
    }
}

/// The job at its start: no shares, no nonces.
pub open spec fn fresh_job(puzzle: PuzzleView) -> JobView {
    JobView { puzzle, shares: Seq::empty(), nonces: Set::empty() }
}

impl JobView {
    /// The nonce is new and its hash meets the share target.
    pub open spec fn accepts(self, nonce: Seq<char>, hash: Seq<u8>, share_target: u32) -> bool {
        meets(hash, share_target) && !self.nonces.contains(nonce)
    }

    /// What comes of a nonce with this hash.
    pub open spec fn outcome(self, nonce: Seq<char>, hash: Seq<u8>, share_target: u32) -> Outcome {
        if !meets(hash, share_target) {
            Outcome::Missed
        } else if self.nonces.contains(nonce) {
            Outcome::Duplicate
        } else if meets(hash, self.puzzle.target) {
            Outcome::Block
        } else {
            Outcome::Share
        }
    }

    /// The job with one more share, where the last `capacity` shares count.
    pub open spec fn with_share(self, share: ShareView, capacity: nat) -> JobView {
        JobView {
            puzzle: self.puzzle,
            shares: last_n(self.shares.push(share), capacity),
            nonces: self.nonces.insert(share.nonce),
        }
    }

    /// The job after a nonce was handed in.
    pub open spec fn after(
        self,
        share: ShareView,
        hash: Seq<u8>,
        share_target: u32,
        capacity: nat,
    ) -> JobView {
        if self.accepts(share.nonce, hash, share_target) {
            self.with_share(share, capacity)
        } else {
            self
        }
    }

    /// The shares that count have different nonces, all of them noted.
    pub open spec fn wf(self) -> bool {
        &&& forall|i: int|
            0 <= i < self.shares.len() ==> self.nonces.contains(#[trigger] self.shares[i].nonce)
        &&& forall|i: int, j: int|
            0 <= i < j < self.shares.len() ==> #[trigger] self.shares[i].nonce
                != #[trigger] self.shares[j].nonce
    }
}

impl Job {
    /// Starts on a puzzle.
    pub fn new(puzzle: Puzzle) -> (r: Job)
        ensures
            r@ == fresh_job(puzzle@),
            r@.wf(),
    {
        let r = Job { puzzle, shares: Vec::new(), nonces: StringHashSet::new() };
        assert(r@.shares =~= Seq::<ShareView>::empty());
        r
    }

    /// Takes a nonce with its hash. Only one that meets the share target and is new becomes a
    /// share; then the oldest shares go, until no more than `share_capacity` are left.
    pub fn submit(
        &mut self,
        miner: &Miner,
        nonce: &String,
        hash: &[u8; 32],
        share_target: u32,
        share_capacity: usize,
    ) -> (r: Outcome)
        requires
            valid_target(share_target),
            old(self)@.accepts(nonce@, hash@, share_target) ==> valid_target(
                old(self)@.puzzle.target,
            ),
        ensures
            r == old(self)@.outcome(nonce@, hash@, share_target),
            final(self)@ == old(self)@.after(
                ShareView { miner: miner@, nonce: nonce@ },
                hash@,
                share_target,
                share_capacity as nat,
            ),
            old(self)@.wf() ==> final(self)@.wf(),
    {
        if !meets_difficulty(hash, share_target) {
            return Outcome::Missed;
        }
        if self.nonces.contains(nonce.as_str()) {
            return Outcome::Duplicate;
        }
        let ghost before = self@;
        let ghost share = ShareView { miner: miner@, nonce: nonce@ };
        self.shares.push(Share { miner: miner.clone(), nonce: nonce.clone() });
        let _ = self.nonces.insert(nonce.clone());
        let ghost grown = self.shares@;
        assert(share_views(grown) =~= before.shares.push(share));
        while self.shares.len() > share_capacity
            invariant
                self.puzzle@ == before.puzzle,
                self.nonces@ == before.nonces.insert(nonce@),
                self.shares@.len() <= grown.len(),
                self.shares@ == grown.skip(grown.len() - self.shares@.len()),
                self.shares@.len() == grown.len() || self.shares@.len() >= share_capacity,
            decreases self.shares@.len(),
        {
            let ghost kept = self.shares@;
            let _ = self.shares.remove(0);
            assert(self.shares@ =~= grown.skip(grown.len() - self.shares@.len())) by {
                assert(self.shares@ =~= kept.skip(1));
            }
        }
        assert(share_views(self.shares@) =~= last_n(before.shares.push(share), share_capacity as nat));
        assert(self@ =~= before.with_share(share, share_capacity as nat));
        proof {
            if before.wf() {
                lemma_share_keeps_wf(before, share, share_capacity as nat);
            }
        }
        if meets_difficulty(hash, self.puzzle.target) {
            Outcome::Block
        } else {
            Outcome::Share
        }
    }
}

proof fn lemma_share_keeps_wf(job: JobView, share: ShareView, capacity: nat)
    requires
        job.wf(),
        !job.nonces.contains(share.nonce),
    ensures
        job.with_share(share, capacity).wf(),
{
    let grown = job.shares.push(share);
    let next = job.with_share(share, capacity);
    let gone = grown.len() - next.shares.len();
    assert forall|i: int| 0 <= i < next.shares.len() implies next.nonces.contains(
        #[trigger] next.shares[i].nonce,
    ) by {
        assert(next.shares[i] == grown[i + gone]);
        if i + gone < job.shares.len() {
            assert(job.nonces.contains(job.shares[i + gone].nonce));
        }
    }
    assert forall|i: int, j: int| 0 <= i < j < next.shares.len() implies #[trigger] next.shares[i].nonce
        != #[trigger] next.shares[j].nonce by {
        assert(next.shares[i] == grown[i + gone]);
        assert(next.shares[j] == grown[j + gone]);
        assert(job.nonces.contains(job.shares[i + gone].nonce));
        if j + gone < job.shares.len() {
            assert(job.shares[i + gone].nonce != job.shares[j + gone].nonce);
        }
    }
}

/// A nonce as it was handed in: by whom, with which hash, against which share target.
pub struct Submission {
    pub miner: MinerView,
    pub nonce: Seq<char>,
    pub hash: Seq<u8>,
    pub share_target: u32,
}

impl Submission {
    pub open spec fn share(self) -> ShareView {
        ShareView { miner: self.miner, nonce: self.nonce }
    }
}

/// The job after a run of submissions.
pub open spec fn after_all(job: JobView, subs: Seq<Submission>, capacity: nat) -> JobView
    decreases subs.len(),
{
    if subs.len() == 0 {
        job
    } else {
        let last = subs.last();
        after_all(job, subs.drop_last(), capacity).after(
            last.share(),
            last.hash,
            last.share_target,
            capacity,
        )
    }
}

/// Those of the submissions that became shares, in order.
pub open spec fn accepted(job: JobView, subs: Seq<Submission>, capacity: nat) -> Seq<ShareView>
    decreases subs.len(),
{
    if subs.len() == 0 {
        Seq::empty()
    } else {
        let last = subs.last();
        let earlier = accepted(job, subs.drop_last(), capacity);
        if after_all(job, subs.drop_last(), capacity).accepts(
            last.nonce,
            last.hash,
            last.share_target,
        ) {
            earlier.push(last.share())
        } else {
            earlier
        }
    }
}

proof fn lemma_last_n_push<A>(s: Seq<A>, a: A, n: nat)
    ensures
        last_n(last_n(s, n).push(a), n) == last_n(s.push(a), n),
{
    assert(last_n(last_n(s, n).push(a), n) =~= last_n(s.push(a), n));
}

/// The shares that count are at every time the last `capacity` of all that were accepted: those
/// that are paid when the block is solved.
pub proof fn law_last_shares_count(puzzle: PuzzleView, subs: Seq<Submission>, capacity: nat)
    ensures
        after_all(fresh_job(puzzle), subs, capacity).shares == last_n(
            accepted(fresh_job(puzzle), subs, capacity),
            capacity,
        ),
        after_all(fresh_job(puzzle), subs, capacity).shares.len() <= capacity,
        after_all(fresh_job(puzzle), subs, capacity).puzzle == puzzle,
    decreases subs.len(),
{
    if subs.len() > 0 {
        let front = subs.drop_last();
        law_last_shares_count(puzzle, front, capacity);
        lemma_last_n_push(
            accepted(fresh_job(puzzle), front, capacity),
            subs.last().share(),
            capacity,
        );
    }
}

/// A nonce becomes a share at most once in the life of a job, also after its share has ceased to
/// count; and exactly the nonces of the accepted shares are noted.
pub proof fn law_nonce_counts_once(puzzle: PuzzleView, subs: Seq<Submission>, capacity: nat)
    ensures
        ({
            let shares = accepted(fresh_job(puzzle), subs, capacity);
            let nonces = after_all(fresh_job(puzzle), subs, capacity).nonces;
            &&& forall|i: int, j: int|
                0 <= i < j < shares.len() ==> #[trigger] shares[i].nonce
                    != #[trigger] shares[j].nonce
            &&& forall|i: int|
                0 <= i < shares.len() ==> nonces.contains(#[trigger] shares[i].nonce)
            &&& forall|nonce: Seq<char>| #[trigger]
                nonces.contains(nonce) ==> exists|i: int|
                    0 <= i < shares.len() && #[trigger] shares[i].nonce == nonce
        }),
    decreases subs.len(),
{
    let shares = accepted(fresh_job(puzzle), subs, capacity);
    let nonces = after_all(fresh_job(puzzle), subs, capacity).nonces;
    if subs.len() > 0 {
        let front = subs.drop_last();
        law_nonce_counts_once(puzzle, front, capacity);
        let earlier = accepted(fresh_job(puzzle), front, capacity);
        let noted = after_all(fresh_job(puzzle), front, capacity).nonces;
        assert forall|i: int, j: int| 0 <= i < j < shares.len() implies #[trigger] shares[i].nonce
            != #[trigger] shares[j].nonce by {
            assert(shares[i] == earlier[i]);
            assert(noted.contains(earlier[i].nonce));
            if j < earlier.len() {
                assert(earlier[i].nonce != earlier[j].nonce);
            }
        }
        assert forall|i: int| 0 <= i < shares.len() implies nonces.contains(
            #[trigger] shares[i].nonce,
        ) by {
            if i < earlier.len() {
                assert(shares[i] == earlier[i]);
                assert(noted.contains(earlier[i].nonce));
            }
        }
        assert forall|nonce: Seq<char>| #[trigger] nonces.contains(nonce) implies exists|i: int|
            0 <= i < shares.len() && #[trigger] shares[i].nonce == nonce by {
            if noted.contains(nonce) {
                let i = choose|i: int| 0 <= i < earlier.len() && #[trigger] earlier[i].nonce == nonce;
                assert(shares[i].nonce == nonce);
            } else {
                assert(shares[shares.len() - 1].nonce == nonce);
            }
        }
    }
}

/// A nonce that became a share is not accepted again, whatever hash comes with it: the job stays
/// as it is.
pub proof fn law_resubmission_changes_nothing(
    job: JobView,
    first: Submission,
    again: Submission,
    capacity: nat,
)
    requires
        job.accepts(first.nonce, first.hash, first.share_target),
        again.nonce == first.nonce,
    ensures
        ({
            let next = job.after(first.share(), first.hash, first.share_target, capacity);
            &&& next.after(again.share(), again.hash, again.share_target, capacity) == next
            &&& next.outcome(again.nonce, again.hash, again.share_target) == Outcome::Missed
                || next.outcome(again.nonce, again.hash, again.share_target) == Outcome::Duplicate
        }),
{
}

/// What comes of a nonce goes by numbers alone: the hash, read most significant byte first, must
/// not be above the share target to count at all; a nonce that counted before does not count
/// again; and a new one solves the block exactly if the hash is not above the puzzle's own target
/// either.
pub proof fn law_outcome_goes_by_numbers(
    job: JobView,
    nonce: Seq<char>,
    hash: Seq<u8>,
    share_target: u32,
)
    ensures
        ({
            let number = big_endian(hash);
            let outcome = job.outcome(nonce, hash, share_target);
            &&& outcome is Missed <==> number > target_value(share_target)
            &&& outcome is Duplicate <==> number <= target_value(share_target)
                && job.nonces.contains(nonce)
            &&& outcome is Block <==> number <= target_value(share_target) && !job.nonces.contains(
                nonce,
            ) && number <= target_value(job.puzzle.target)
            &&& outcome is Share <==> number <= target_value(share_target) && !job.nonces.contains(
                nonce,
            ) && number > target_value(job.puzzle.target)
        }),
{
}

/// Of two hashes for new nonces, the lower never comes off worse: where the higher is a share, so
/// is the lower, and where the higher solves the block, so does the lower.
pub proof fn law_lower_hash_is_no_worse(
    job: JobView,
    nonce: Seq<char>,
    low: Seq<u8>,
    high: Seq<u8>,
    share_target: u32,
)
    requires
        big_endian(low) <= big_endian(high),
        !job.nonces.contains(nonce),
    ensures
        job.outcome(nonce, high, share_target) is Share ==> job.outcome(nonce, low, share_target)
            is Share || job.outcome(nonce, low, share_target) is Block,
        job.outcome(nonce, high, share_target) is Block ==> job.outcome(nonce, low, share_target)
            is Block,
{
}

/// A new nonce whose hash is not above the share target adds one share, as the newest. Of the
/// shares and the new one the newest stay, in their order, and no more than `capacity`; none goes
/// that there is room for. The nonce is noted beside those that were, and the puzzle stays.
pub proof fn law_new_share_is_newest(
    job: JobView,
    share: ShareView,
    hash: Seq<u8>,
    share_target: u32,
    capacity: nat,
)
    requires
        big_endian(hash) <= target_value(share_target),
        !job.nonces.contains(share.nonce),
    ensures
        ({
            let next = job.after(share, hash, share_target, capacity);
            let gone = job.shares.len() + 1 - next.shares.len();
            &&& next.puzzle == job.puzzle
            &&& job.shares.len() < capacity ==> gone == 0
            &&& job.shares.len() >= capacity ==> next.shares.len() == capacity
            &&& capacity > 0 ==> next.shares[next.shares.len() - 1] == share
            &&& forall|i: int|
                0 <= i < next.shares.len() - 1 ==> #[trigger] next.shares[i] == job.shares[i + gone]
            &&& forall|nonce: Seq<char>| #[trigger]
                next.nonces.contains(nonce) <==> job.nonces.contains(nonce) || nonce == share.nonce
        }),
{
}

/// A nonce that was noted before, or whose hash is above the share target, changes nothing.
pub proof fn law_other_nonces_change_nothing(
    job: JobView,
    share: ShareView,
    hash: Seq<u8>,
    share_target: u32,
    capacity: nat,
)
    requires
        big_endian(hash) > target_value(share_target) || job.nonces.contains(share.nonce),
    ensures
        job.after(share, hash, share_target, capacity) == job,
{
}

/// A job starts with its puzzle, and with nothing handed in.
pub proof fn law_job_starts_empty(puzzle: PuzzleView, nonce: Seq<char>)
    ensures
        fresh_job(puzzle).puzzle == puzzle,
        fresh_job(puzzle).shares.len() == 0,
        !fresh_job(puzzle).nonces.contains(nonce),
{
}

/// The view of a job shows its puzzle, each of its shares in its place, and its nonces.
pub proof fn law_job_view_is_whole(job: Job)
    ensures
        job@.puzzle == job.puzzle@,
        job@.nonces == job.nonces@,
        job@.shares.len() == job.shares@.len(),
        forall|i: int| 0 <= i < job.shares@.len() ==> #[trigger] job@.shares[i] == job.shares@[i]@,
{
}

} // verus!
