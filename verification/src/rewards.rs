//! How a block's reward is divided among the miners of its shares.

use crate::table::{assoc, distinct_keys, has_key, lemma_assoc_at, lemma_assoc_dom, Key, Table};
use crate::types::{MpnAddress, MpnAddressView, Share, ShareView};
use vstd::prelude::*;

verus! {

/// What each address is owed.
pub type Rewards = Table<MpnAddress, u64>;

/// Shares, each as its view.
pub open spec fn share_views(shares: Seq<Share>) -> Seq<ShareView> {
    shares.map_values(|s: Share| s@)
}

/// How many of the shares belong to an address.
pub open spec fn share_count(shares: Seq<ShareView>, addr: MpnAddressView) -> nat
    decreases shares.len(),
{
    if shares.len() == 0 {
        0
    } else {
        share_count(shares.drop_last(), addr) + if shares.last().miner.mpn_addr == addr {
            1nat
        } else {
            0nat
        }
    }
}

/// What one share is worth: an equal part of what the owner leaves, rounded down.
pub open spec fn per_share(total_reward: u64, owner_reward: u64, shares: nat) -> int {
    (total_reward - owner_reward) / shares as int
}

/// Each address that has a share is owed the worth of a share for each share that it has.
pub open spec fn reward_map(shares: Seq<ShareView>, worth: int) -> Map<MpnAddressView, u64> {
    Map::new(
        |addr: MpnAddressView| share_count(shares, addr) > 0,
        |addr: MpnAddressView| (worth * share_count(shares, addr)) as u64,
    )
}

/// The sum of the amounts in rows of rewards.
pub open spec fn total_amount(rows: Seq<(MpnAddress, u64)>) -> nat
    decreases rows.len(),
{
    if rows.len() == 0 {
        0
    } else {
        total_amount(rows.drop_last()) + rows.last().1 as nat
    }
}

proof fn lemma_share_count_bound(shares: Seq<ShareView>, addr: MpnAddressView)
    ensures
        share_count(shares, addr) <= shares.len(),
    decreases shares.len(),
{
    if shares.len() > 0 {
        lemma_share_count_bound(shares.drop_last(), addr);
    }
}

/// Divides a reward: the owner's part is taken off, and the rest is split evenly over the shares.
pub fn job_solved(total_reward: u64, owner_reward: u64, shares: &Vec<Share>) -> (r: Rewards)
    requires
        owner_reward <= total_reward,
        shares@.len() > 0,
    ensures
        r@ == reward_map(
            share_views(shares@),
            per_share(total_reward, owner_reward, shares@.len()),
        ),
{
    let ghost all = share_views(shares@);
    let rest: u64 = total_reward - owner_reward;
    let worth: u64 = rest / shares.len() as u64;
    let ghost n = shares@.len() as int;
    assert(worth * n <= rest) by (nonlinear_arith)
        requires
            worth == rest as int / n,
            n > 0,
    ;
    let mut rewards: Rewards = Table::new();
    assert(all.take(0) =~= Seq::<ShareView>::empty());
    assert(rewards@ =~= reward_map(all.take(0), worth as int));
    let mut i: usize = 0;
    while i < shares.len()
        invariant
            i <= shares@.len(),
            n == shares@.len(),
            all == share_views(shares@),
            worth * n <= rest,
            rewards@ == reward_map(all.take(i as int), worth as int),
        decreases shares@.len() - i,
    {
        let ghost before = all.take(i as int);
        let ghost after = all.take(i + 1);
        let addr = &shares[i].miner.mpn_addr;
        let owed: u64 = match rewards.get(addr) {
            Some(amount) => *amount,
            None => 0,
        };
        proof {
            assert(after.drop_last() =~= before);
            assert(after.last() == shares@[i as int]@);
            lemma_share_count_bound(before, addr@);
            let c = share_count(before, addr@) as int;
            assert(worth * c + worth <= rest && 0 <= worth * c) by (nonlinear_arith)
                requires
                    0 <= c < n,
                    worth * n <= rest,
                    worth >= 0,
            ;
            assert(c == 0 ==> worth * c == 0) by (nonlinear_arith);
            assert(owed == worth * c);
            assert(worth * (c + 1) == worth * c + worth) by (nonlinear_arith);
        }
        rewards.insert(addr.duplicate(), owed + worth);
        assert(rewards@ =~= reward_map(after, worth as int));
        i += 1;
    }
    assert(all.take(shares@.len() as int) =~= all);
    rewards
}

/// How many rows have an address as their key.
spec fn row_count(rows: Seq<(MpnAddress, u64)>, addr: MpnAddressView) -> nat
    decreases rows.len(),
{
    if rows.len() == 0 {
        0
    } else {
        row_count(rows.drop_last(), addr) + if rows.last().0@ == addr {
            1nat
        } else {
            0nat
        }
    }
}

/// The shares of the rows' addresses, counted row by row.
spec fn counted_shares(rows: Seq<(MpnAddress, u64)>, shares: Seq<ShareView>) -> nat
    decreases rows.len(),
{
    if rows.len() == 0 {
        0
    } else {
        counted_shares(rows.drop_last(), shares) + share_count(shares, rows.last().0@)
    }
}

proof fn lemma_row_count(rows: Seq<(MpnAddress, u64)>, addr: MpnAddressView)
    requires
        distinct_keys(rows),
    ensures
        row_count(rows, addr) == if has_key(rows, addr) {
            1nat
        } else {
            0nat
        },
    decreases rows.len(),
{
    if rows.len() > 0 {
        let front = rows.drop_last();
        assert forall|a: int, b: int| 0 <= a < b < front.len() implies #[trigger] front[a].0@
            != #[trigger] front[b].0@ by {
            assert(rows[a].0@ != rows[b].0@);
        }
        lemma_row_count(front, addr);
        if has_key(front, addr) {
            let i = choose|i: int| 0 <= i < front.len() && #[trigger] front[i].0@ == addr;
            assert(rows[i].0@ == addr);
            assert(rows[i].0@ != rows[rows.len() - 1].0@);
        } else if rows.last().0@ == addr {
            assert(rows[rows.len() - 1].0@ == addr);
        } else if has_key(rows, addr) {
            let i = choose|i: int| 0 <= i < rows.len() && #[trigger] rows[i].0@ == addr;
            assert(front[i].0@ == addr);
        }
    }
}

proof fn lemma_counted_step(rows: Seq<(MpnAddress, u64)>, shares: Seq<ShareView>)
    requires
        shares.len() > 0,
    ensures
        counted_shares(rows, shares) == counted_shares(rows, shares.drop_last()) + row_count(
            rows,
            shares.last().miner.mpn_addr,
        ),
    decreases rows.len(),
{
    if rows.len() > 0 {
        lemma_counted_step(rows.drop_last(), shares);
    }
}

proof fn lemma_counted_empty(rows: Seq<(MpnAddress, u64)>, shares: Seq<ShareView>)
    requires
        shares.len() == 0,
    ensures
        counted_shares(rows, shares) == 0,
    decreases rows.len(),
{
    if rows.len() > 0 {
        lemma_counted_empty(rows.drop_last(), shares);
    }
}

/// Where the rows' addresses are all different and each share has one, every share is counted
/// once.
proof fn lemma_counted_all(rows: Seq<(MpnAddress, u64)>, shares: Seq<ShareView>)
    requires
        distinct_keys(rows),
        forall|i: int|
            0 <= i < shares.len() ==> has_key(rows, #[trigger] shares[i].miner.mpn_addr),
    ensures
        counted_shares(rows, shares) == shares.len(),
    decreases shares.len(),
{
    if shares.len() == 0 {
        lemma_counted_empty(rows, shares);
    } else {
        let front = shares.drop_last();
        assert forall|i: int| 0 <= i < front.len() implies has_key(
            rows,
            #[trigger] front[i].miner.mpn_addr,
        ) by {
            assert(front[i] == shares[i]);
        }
        lemma_counted_all(rows, front);
        lemma_counted_step(rows, shares);
        assert(has_key(rows, shares[shares.len() - 1].miner.mpn_addr));
        lemma_row_count(rows, shares.last().miner.mpn_addr);
    }
}

proof fn lemma_total_amount(rows: Seq<(MpnAddress, u64)>, shares: Seq<ShareView>, worth: int)
    requires
        forall|i: int|
            0 <= i < rows.len() ==> #[trigger] rows[i].1 == worth * share_count(shares, rows[i].0@),
    ensures
        total_amount(rows) == worth * counted_shares(rows, shares),
    decreases rows.len(),
{
    if rows.len() == 0 {
        assert(worth * 0 == 0);
    } else {
        let front = rows.drop_last();
        assert forall|i: int| 0 <= i < front.len() implies #[trigger] front[i].1 == worth
            * share_count(shares, front[i].0@) by {
            assert(front[i] == rows[i]);
        }
        lemma_total_amount(front, shares, worth);
        let a = counted_shares(front, shares) as int;
        let b = share_count(shares, rows.last().0@) as int;
        assert(rows[rows.len() - 1].1 == worth * b);
        assert(worth * (a + b) == worth * a + worth * b) by (nonlinear_arith);
    }
}

proof fn lemma_has_share(shares: Seq<ShareView>, i: int)
    requires
        0 <= i < shares.len(),
    ensures
        share_count(shares, shares[i].miner.mpn_addr) > 0,
    decreases shares.len(),
{
    if i < shares.len() - 1 {
        lemma_has_share(shares.drop_last(), i);
        assert(shares.drop_last()[i] == shares[i]);
    }
}

/// The worth of a share times the number of shares is what the owner leaves, up to a remainder
/// that is smaller than the number of shares.
proof fn lemma_per_share(total_reward: u64, owner_reward: u64, shares: nat)
    requires
        owner_reward <= total_reward,
        shares > 0,
    ensures
        0 <= per_share(total_reward, owner_reward, shares),
        per_share(total_reward, owner_reward, shares) * shares <= total_reward - owner_reward,
        total_reward - owner_reward < per_share(total_reward, owner_reward, shares) * shares
            + shares,
{
    let rest = total_reward - owner_reward;
    let n = shares as int;
    let worth = rest / n;
    assert(worth * n <= rest && rest < worth * n + n && 0 <= worth) by (nonlinear_arith)
        requires
            worth == rest / n,
            n > 0,
            rest >= 0,
    ;
}

/// An address is owed the worth of a share as many times as it has shares, exactly: two addresses
/// with equally many shares are owed the same.
pub proof fn law_reward_follows_shares(
    shares: Seq<ShareView>,
    total_reward: u64,
    owner_reward: u64,
    addr: MpnAddressView,
)
    requires
        owner_reward <= total_reward,
        shares.len() > 0,
        share_count(shares, addr) > 0,
    ensures
        reward_map(shares, per_share(total_reward, owner_reward, shares.len())).dom().contains(addr),
        reward_map(shares, per_share(total_reward, owner_reward, shares.len()))[addr] == per_share(
            total_reward,
            owner_reward,
            shares.len(),
        ) * share_count(shares, addr),
{
    lemma_per_share(total_reward, owner_reward, shares.len());
    lemma_share_count_bound(shares, addr);
    let worth = per_share(total_reward, owner_reward, shares.len());
    let c = share_count(shares, addr) as int;
    let n = shares.len() as int;
    assert(0 <= worth * c <= worth * n) by (nonlinear_arith)
        requires
            0 <= c <= n,
            0 <= worth,
    ;
}

/// Whoever divides a reward as `job_solved` does pays out, over all addresses together, the worth
/// of a share for each share: with the owner's part that is never more than the reward, and what
/// rounding leaves over is less than the number of shares.
pub proof fn law_rewards_add_up(
    rows: Seq<(MpnAddress, u64)>,
    shares: Seq<ShareView>,
    total_reward: u64,
    owner_reward: u64,
)
    requires
        owner_reward <= total_reward,
        shares.len() > 0,
        distinct_keys(rows),
        assoc(rows) == reward_map(shares, per_share(total_reward, owner_reward, shares.len())),
    ensures
        total_amount(rows) == per_share(total_reward, owner_reward, shares.len()) * shares.len(),
        owner_reward + total_amount(rows) <= total_reward,
        total_reward - owner_reward - total_amount(rows) < shares.len(),
{
    let worth = per_share(total_reward, owner_reward, shares.len());
    lemma_per_share(total_reward, owner_reward, shares.len());
    assert forall|i: int| 0 <= i < rows.len() implies #[trigger] rows[i].1 == worth * share_count(
        shares,
        rows[i].0@,
    ) by {
        lemma_assoc_at(rows, i);
        assert(reward_map(shares, worth).dom().contains(rows[i].0@));
        law_reward_follows_shares(shares, total_reward, owner_reward, rows[i].0@);
    }
    assert forall|i: int| 0 <= i < shares.len() implies has_key(
        rows,
        #[trigger] shares[i].miner.mpn_addr,
    ) by {
        lemma_has_share(shares, i);
        lemma_assoc_dom(rows, shares[i].miner.mpn_addr);
    }
    lemma_counted_all(rows, shares);
    lemma_total_amount(rows, shares, worth);
}

/// The miner of each share that counts has an entry in the division.
pub proof fn law_every_share_is_entered(shares: Seq<ShareView>, worth: int, i: int)
    requires
        0 <= i < shares.len(),
    ensures
        reward_map(shares, worth).dom().contains(shares[i].miner.mpn_addr),
{
    lemma_has_share(shares, i);
}

/// The shares whose miner has an address.
pub open spec fn shares_of(shares: Seq<ShareView>, addr: MpnAddressView) -> Seq<ShareView> {
    shares.filter(|s: ShareView| s.miner.mpn_addr == addr)
}

proof fn lemma_count_is_of_own_shares(shares: Seq<ShareView>, addr: MpnAddressView)
    ensures
        share_count(shares, addr) == shares_of(shares, addr).len(),
    decreases shares.len(),
{
    reveal(Seq::filter);
    if shares.len() > 0 {
        lemma_count_is_of_own_shares(shares.drop_last(), addr);
    }
}

/// A reward is divided by counting: what the owner leaves, split evenly over all shares and
/// rounded down, comes to each address once for every share of its own; an address without a
/// share gets no entry.
pub proof fn law_reward_by_counting(
    shares: Seq<ShareView>,
    total_reward: u64,
    owner_reward: u64,
    addr: MpnAddressView,
)
    requires
        owner_reward <= total_reward,
        shares.len() > 0,
    ensures
        ({
            let rewards = reward_map(shares, per_share(total_reward, owner_reward, shares.len()));
            let own = shares_of(shares, addr).len();
            &&& rewards.dom().contains(addr) <==> own > 0
            &&& own > 0 ==> rewards[addr] == ((total_reward - owner_reward) / shares.len() as int)
                * own
        }),
{
    lemma_count_is_of_own_shares(shares, addr);
    if share_count(shares, addr) > 0 {
        law_reward_follows_shares(shares, total_reward, owner_reward, addr);
    }
}

/// The total of rewards is their sum: nothing without rows, the amount of a single row, and for
/// rows in two parts the totals of both together.
pub proof fn law_total_is_the_sum(
    first: Seq<(MpnAddress, u64)>,
    second: Seq<(MpnAddress, u64)>,
    row: (MpnAddress, u64),
)
    ensures
        total_amount(Seq::empty()) == 0,
        total_amount(seq![row]) == row.1,
        total_amount(first + second) == total_amount(first) + total_amount(second),
    decreases second.len(),
{
    assert(seq![row].drop_last() =~= Seq::<(MpnAddress, u64)>::empty());
    assert(total_amount(seq![row].drop_last()) == 0);
    if second.len() == 0 {
        assert(first + second =~= first);
    } else {
        assert((first + second).drop_last() =~= first + second.drop_last());
        law_total_is_the_sum(first, second.drop_last(), row);
    }
}

/// Shares keep their places when they are looked at as views.
pub proof fn law_share_views_keep_places(shares: Seq<Share>, i: int)
    requires
        0 <= i < shares.len(),
    ensures
        share_views(shares).len() == shares.len(),
        share_views(shares)[i] == shares[i]@,
{
}

} // verus!
