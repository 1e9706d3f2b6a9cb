//! The transactions that pay the rewards of a block.

use crate::history::{is_outstanding, law_outstanding_until_all_are_taken, Sent};
use crate::rewards::{law_rewards_add_up, per_share, reward_map, total_amount, Rewards};
use crate::table::{assoc, distinct_keys};
use crate::text::{decimal, law_decimal_reads_back, number_of, push_decimal};
use crate::types::{MpnAddress, ShareView};
use vstd::prelude::*;

verus! {

/// The place in an account that holds what rewards and fees are paid in.
pub const REWARD_TOKEN_INDEX: u64 = 0;

/// The fee of each transaction that pays rewards.
pub const REWARD_FEE: u64 = 0;

/// One payment out of the pool's account. Amount and fee are in Ziesha.
#[derive(Debug, PartialEq, Eq)]
pub struct Transfer {
    /// The account that pays, and the place in it.
    pub from_index: u64,
    pub from_token_index: u64,
    pub to: MpnAddress,
    pub to_token_index: u64,
    pub amount: u64,
    pub fee_token_index: u64,
    pub fee: u64,
    pub nonce: u64,
}

/// What is to be signed: a deposit of the whole sum into the pool's account, and a payment to
/// each address. Amount and fee are in Ziesha.
#[derive(Debug, PartialEq, Eq)]
pub struct Payout {
    pub memo: String,
    pub deposit_to: MpnAddress,
    pub deposit_token_index: u64,
    pub deposit_nonce: u32,
    pub deposit_amount: u64,
    pub deposit_fee: u64,
    pub transfers: Vec<Transfer>,
}

/// The payment pays this row out of that account, with this nonce and at no cost.
pub open spec fn pays(
    transfer: Transfer,
    row: (MpnAddress, u64),
    from_index: u64,
    nonce: int,
) -> bool {
    &&& transfer.from_index == from_index
    &&& transfer.from_token_index == REWARD_TOKEN_INDEX
    &&& transfer.to == row.0
    &&& transfer.to_token_index == REWARD_TOKEN_INDEX
    &&& transfer.amount == row.1
    &&& transfer.fee_token_index == REWARD_TOKEN_INDEX
    &&& transfer.fee == REWARD_FEE
    &&& transfer.nonce == nonce
}

/// The payments pay the rows one by one, with nonces that follow one another.
pub open spec fn pays_rows(
    transfers: Seq<Transfer>,
    rows: Seq<(MpnAddress, u64)>,
    from_index: u64,
    first_nonce: int,
) -> bool {
    &&& transfers.len() == rows.len()
    &&& forall|i: int|
        0 <= i < transfers.len() ==> pays(
            #[trigger] transfers[i],
            rows[i],
            from_index,
            first_nonce + i,
        )
}

/// What payments take out of the account: their amounts and their fees.
pub open spec fn transferred(transfers: Seq<Transfer>) -> nat
    decreases transfers.len(),
{
    if transfers.len() == 0 {
        0
    } else {
        transferred(transfers.drop_last()) + transfers.last().amount as nat
            + transfers.last().fee as nat
    }
}

/// The nonce of the deposit: what the wallet holds next, or else one above the account's.
pub open spec fn first_nonce(wallet_nonce: Option<u32>, remote_nonce: u32) -> int {
    match wallet_nonce {
        Some(nonce) => nonce as int,
        None => remote_nonce + 1,
    }
}

/// The nonce of the first payment: what the wallet holds next, or else the account's.
pub open spec fn first_mpn_nonce(wallet_mpn_nonce: Option<u64>, remote_mpn_nonce: u64) -> int {
    match wallet_mpn_nonce {
        Some(nonce) => nonce as int,
        None => remote_mpn_nonce as int,
    }
}

/// The note on the deposit for a block.
pub open spec fn reward_note(number: u64) -> Seq<char> {
    "Pool-Reward, block #"@ + decimal(number as nat)
}

/// Writes the note on the deposit for a block.
pub fn reward_memo(number: u64) -> (r: String)
    ensures
        r@ == reward_note(number),
{
    let mut memo = "Pool-Reward, block #".to_owned();
    push_decimal(&mut memo, number);
    memo
}

proof fn lemma_total_amount_prefix(rows: Seq<(MpnAddress, u64)>, n: int)
    requires
        0 <= n <= rows.len(),
    ensures
        total_amount(rows.take(n)) <= total_amount(rows),
    decreases rows.len(),
{
    if n < rows.len() {
        assert(rows.drop_last().take(n) =~= rows.take(n));
        lemma_total_amount_prefix(rows.drop_last(), n);
    } else {
        assert(rows.take(n) =~= rows);
    }
}

/// The nonces and the sum of a payment fit their types.
pub open spec fn payable(
    rows: Seq<(MpnAddress, u64)>,
    wallet_mpn_nonce: Option<u64>,
    remote_nonce: u32,
    remote_mpn_nonce: u64,
) -> bool {
    &&& remote_nonce < u32::MAX
    &&& total_amount(rows) <= u64::MAX
    &&& first_mpn_nonce(wallet_mpn_nonce, remote_mpn_nonce) + rows.len() - 1 <= u64::MAX
}

/// Whether the payment of rewards can be planned.
pub fn can_create_tx(
    entries: &Rewards,
    wallet_mpn_nonce: Option<u64>,
    remote_nonce: u32,
    remote_mpn_nonce: u64,
) -> (r: bool)
    ensures
        r == payable(entries.entries(), wallet_mpn_nonce, remote_nonce, remote_mpn_nonce),
{
    let rows = entries.rows();
    let new_mpn_nonce: u64 = wallet_mpn_nonce.unwrap_or(remote_mpn_nonce);
    if remote_nonce == u32::MAX {
        return false;
    }
    if rows.len() > 0 && u64::MAX - new_mpn_nonce < (rows.len() - 1) as u64 {
        return false;
    }
    let mut sum: u64 = 0;
    let mut i: usize = 0;
    assert(rows@.take(0) =~= Seq::<(MpnAddress, u64)>::empty());
    while i < rows.len()
        invariant
            i <= rows@.len(),
            rows@ == entries.entries(),
            sum == total_amount(rows@.take(i as int)),
        decreases rows@.len() - i,
    {
        proof {
            lemma_total_amount_prefix(rows@, i + 1);
            assert(rows@.take(i + 1).drop_last() =~= rows@.take(i as int));
        }
        match sum.checked_add(rows[i].1) {
            Some(next) => {
                sum = next;
            },
            None => {
                return false;
            },
        }
        i += 1;
    }
    assert(rows@.take(rows@.len() as int) =~= rows@);
    true
}

/// The plan pays rows of rewards: one deposit of their sum into the pool's account, and one
/// payment for each row out of it.
pub open spec fn is_payout(
    r: Payout,
    memo: Seq<char>,
    rows: Seq<(MpnAddress, u64)>,
    wallet_nonce: Option<u32>,
    wallet_mpn_nonce: Option<u64>,
    remote_nonce: u32,
    remote_mpn_nonce: u64,
    pool: MpnAddress,
) -> bool {
    &&& r.memo@ == memo
    &&& r.deposit_to == pool
    &&& r.deposit_token_index == REWARD_TOKEN_INDEX
    &&& r.deposit_nonce == first_nonce(wallet_nonce, remote_nonce)
    &&& r.deposit_amount == total_amount(rows)
    &&& r.deposit_fee == REWARD_FEE
    &&& pays_rows(
        r.transfers@,
        rows,
        pool.account_index,
        first_mpn_nonce(wallet_mpn_nonce, remote_mpn_nonce),
    )
}

/// Plans the payment of rewards: one deposit of their sum into the pool's account, and out of it
/// for each row one payment, with nonces that follow one another.
pub fn create_tx(
    memo: String,
    entries: &Rewards,
    wallet_nonce: Option<u32>,
    wallet_mpn_nonce: Option<u64>,
    remote_nonce: u32,
    remote_mpn_nonce: u64,
    pool_mpn_address: &MpnAddress,
) -> (r: Payout)
    requires
        payable(entries.entries(), wallet_mpn_nonce, remote_nonce, remote_mpn_nonce),
    ensures
        r.memo == memo,
        r.deposit_nonce == first_nonce(wallet_nonce, remote_nonce),
        r.deposit_to == *pool_mpn_address,
        r.deposit_token_index == REWARD_TOKEN_INDEX,
        r.deposit_amount == total_amount(entries.entries()),
        r.deposit_fee == REWARD_FEE,
        pays_rows(
            r.transfers@,
            entries.entries(),
            pool_mpn_address.account_index,
            first_mpn_nonce(wallet_mpn_nonce, remote_mpn_nonce),
        ),
        is_payout(
            r,
            memo@,
            entries.entries(),
            wallet_nonce,
            wallet_mpn_nonce,
            remote_nonce,
            remote_mpn_nonce,
            *pool_mpn_address,
        ),
{
    let next_nonce: u32 = remote_nonce + 1;
    let new_nonce: u32 = wallet_nonce.unwrap_or(next_nonce);
    let new_mpn_nonce: u64 = wallet_mpn_nonce.unwrap_or(remote_mpn_nonce);
    let rows = entries.rows();
    let mut sum_all: u64 = 0;
    let mut transfers: Vec<Transfer> = Vec::new();
    let mut i: usize = 0;
    assert(rows@.take(0) =~= Seq::<(MpnAddress, u64)>::empty());
    while i < rows.len()
        invariant
            i <= rows@.len(),
            total_amount(rows@) <= u64::MAX,
            new_mpn_nonce + rows@.len() - 1 <= u64::MAX,
            sum_all == total_amount(rows@.take(i as int)),
            pays_rows(
                transfers@,
                rows@.take(i as int),
                pool_mpn_address.account_index,
                new_mpn_nonce as int,
            ),
        decreases rows@.len() - i,
    {
        proof {
            lemma_total_amount_prefix(rows@, i + 1);
            assert(rows@.take(i + 1).drop_last() =~= rows@.take(i as int));
        }
        let amount: u64 = rows[i].1;
        sum_all = sum_all + amount;
        transfers.push(
            Transfer {
                from_index: pool_mpn_address.account_index,
                from_token_index: REWARD_TOKEN_INDEX,
                to: rows[i].0.clone(),
                to_token_index: REWARD_TOKEN_INDEX,
                amount,
                fee_token_index: REWARD_TOKEN_INDEX,
                fee: REWARD_FEE,
                nonce: new_mpn_nonce + i as u64,
            },
        );
        i += 1;
    }
    assert(rows@.take(rows@.len() as int) =~= rows@);
    Payout {
        memo,
        deposit_to: pool_mpn_address.clone(),
        deposit_token_index: REWARD_TOKEN_INDEX,
        deposit_nonce: new_nonce,
        deposit_amount: sum_all,
        deposit_fee: REWARD_FEE,
        transfers,
    }
}

/// The payments of a plan take up the deposit exactly: payments that pay the rows one by one take
/// the sum of the rows out of the account, and no fees.
pub proof fn law_deposit_covers_transfers(
    rows: Seq<(MpnAddress, u64)>,
    transfers: Seq<Transfer>,
    from_index: u64,
    first_nonce: int,
)
    requires
        pays_rows(transfers, rows, from_index, first_nonce),
    ensures
        transferred(transfers) == total_amount(rows),
    decreases rows.len(),
{
    if rows.len() > 0 {
        let front = transfers.drop_last();
        assert forall|i: int| 0 <= i < front.len() implies pays(
            #[trigger] front[i],
            rows.drop_last()[i],
            from_index,
            first_nonce + i,
        ) by {
            assert(pays(transfers[i], rows[i], from_index, first_nonce + i));
        }
        law_deposit_covers_transfers(rows.drop_last(), front, from_index, first_nonce);
        let last = rows.len() - 1;
        assert(pays(transfers[last], rows[last], from_index, first_nonce + last));
    }
}

/// What is paid out for a block, with the fees and the owner's part, is never more than the reward
/// of the block; so the deposit can always be written down.
pub proof fn law_payout_within_reward(
    rows: Seq<(MpnAddress, u64)>,
    transfers: Seq<Transfer>,
    from_index: u64,
    first_nonce: int,
    shares: Seq<ShareView>,
    total_reward: u64,
    owner_reward: u64,
)
    requires
        owner_reward <= total_reward,
        shares.len() > 0,
        distinct_keys(rows),
        assoc(rows) == reward_map(shares, per_share(total_reward, owner_reward, shares.len())),
        pays_rows(transfers, rows, from_index, first_nonce),
    ensures
        total_amount(rows) <= u64::MAX,
        owner_reward + transferred(transfers) <= total_reward,
{
    law_rewards_add_up(rows, shares, total_reward, owner_reward);
    law_deposit_covers_transfers(rows, transfers, from_index, first_nonce);
}

/// Payments with the nonces of a plan are outstanding as long as the accounts' nonces are those
/// that the plan was made with, unless the wallet is behind in both: so where the wallet holds no
/// nonce of one kind, they are sent at least once.
pub proof fn law_new_payout_is_outstanding(
    sent: Sent,
    wallet_nonce: Option<u32>,
    wallet_mpn_nonce: Option<u64>,
    remote_nonce: u32,
    remote_mpn_nonce: u64,
)
    requires
        sent.transactions@.len() > 0,
        sent.deposit.nonce == first_nonce(wallet_nonce, remote_nonce),
        sent.transactions@.last().nonce == first_mpn_nonce(wallet_mpn_nonce, remote_mpn_nonce)
            + sent.transactions@.len() - 1,
        (wallet_nonce matches Some(nonce) ==> nonce > remote_nonce) || (
        wallet_mpn_nonce matches Some(nonce) ==> nonce >= remote_mpn_nonce),
    ensures
        is_outstanding(sent, remote_nonce, remote_mpn_nonce),
{
}

/// The sum of what payments hand over, fees left out.
pub open spec fn handed_over(transfers: Seq<Transfer>) -> nat
    decreases transfers.len(),
{
    if transfers.len() == 0 {
        0
    } else {
        handed_over(transfers.drop_last()) + transfers.last().amount as nat
    }
}

proof fn lemma_handed_over(rows: Seq<(MpnAddress, u64)>, transfers: Seq<Transfer>)
    requires
        transfers.len() == rows.len(),
        forall|i: int| 0 <= i < rows.len() ==> (#[trigger] transfers[i]).amount == rows[i].1,
    ensures
        handed_over(transfers) == total_amount(rows),
    decreases rows.len(),
{
    if rows.len() > 0 {
        let front = transfers.drop_last();
        assert forall|i: int| 0 <= i < rows.len() - 1 implies (#[trigger] front[i]).amount
            == rows.drop_last()[i].1 by {
            assert(transfers[i].amount == rows[i].1);
        }
        lemma_handed_over(rows.drop_last(), front);
        assert(transfers[rows.len() - 1].amount == rows[rows.len() - 1].1);
    }
}

/// Everyone is paid in full: a plan has one payment for each row, to the row's address and of the
/// row's whole amount, and no transaction of it costs a fee. What the payments hand over, fees
/// left out, is the deposit.
pub proof fn law_everyone_is_paid_in_full(
    r: Payout,
    memo: Seq<char>,
    rows: Seq<(MpnAddress, u64)>,
    wallet_nonce: Option<u32>,
    wallet_mpn_nonce: Option<u64>,
    remote_nonce: u32,
    remote_mpn_nonce: u64,
    pool: MpnAddress,
)
    requires
        is_payout(
            r,
            memo,
            rows,
            wallet_nonce,
            wallet_mpn_nonce,
            remote_nonce,
            remote_mpn_nonce,
            pool,
        ),
    ensures
        r.transfers@.len() == rows.len(),
        forall|i: int|
            0 <= i < rows.len() ==> (#[trigger] r.transfers@[i]).to == rows[i].0
                && r.transfers@[i].amount == rows[i].1 && r.transfers@[i].fee == 0,
        r.deposit_fee == 0,
        r.deposit_amount == total_amount(rows),
        r.deposit_amount == handed_over(r.transfers@),
{
    assert forall|i: int| 0 <= i < rows.len() implies (#[trigger] r.transfers@[i]).to == rows[i].0
        && r.transfers@[i].amount == rows[i].1 && r.transfers@[i].fee == 0 by {
        assert(pays(
            r.transfers@[i],
            rows[i],
            pool.account_index,
            first_mpn_nonce(wallet_mpn_nonce, remote_mpn_nonce) + i,
        ));
    }
    lemma_handed_over(rows, r.transfers@);
}

/// The deposit goes into the pool's account, with its note, and every payment comes out of it;
/// all of them are in the first token of their accounts.
pub proof fn law_payments_pass_through_the_pool(
    r: Payout,
    memo: Seq<char>,
    rows: Seq<(MpnAddress, u64)>,
    wallet_nonce: Option<u32>,
    wallet_mpn_nonce: Option<u64>,
    remote_nonce: u32,
    remote_mpn_nonce: u64,
    pool: MpnAddress,
)
    requires
        is_payout(
            r,
            memo,
            rows,
            wallet_nonce,
            wallet_mpn_nonce,
            remote_nonce,
            remote_mpn_nonce,
            pool,
        ),
    ensures
        r.memo@ == memo,
        r.deposit_to == pool,
        r.deposit_token_index == 0,
        forall|i: int|
            0 <= i < r.transfers@.len() ==> (#[trigger] r.transfers@[i]).from_index
                == pool.account_index && r.transfers@[i].from_token_index == 0
                && r.transfers@[i].to_token_index == 0 && r.transfers@[i].fee_token_index == 0,
{
    assert forall|i: int| 0 <= i < r.transfers@.len() implies (#[trigger] r.transfers@[i]).from_index
        == pool.account_index && r.transfers@[i].from_token_index == 0
        && r.transfers@[i].to_token_index == 0 && r.transfers@[i].fee_token_index == 0 by {
        assert(pays(
            r.transfers@[i],
            rows[i],
            pool.account_index,
            first_mpn_nonce(wallet_mpn_nonce, remote_mpn_nonce) + i,
        ));
    }
}

/// Nonces leave no gap: the deposit has the wallet's next nonce, or where the wallet holds none
/// the one after the account's; the first payment has the wallet's next, or where the wallet holds
/// none the account's; and each further payment has the nonce after the one before.
pub proof fn law_nonces_leave_no_gap(
    r: Payout,
    memo: Seq<char>,
    rows: Seq<(MpnAddress, u64)>,
    wallet_nonce: Option<u32>,
    wallet_mpn_nonce: Option<u64>,
    remote_nonce: u32,
    remote_mpn_nonce: u64,
    pool: MpnAddress,
)
    requires
        is_payout(
            r,
            memo,
            rows,
            wallet_nonce,
            wallet_mpn_nonce,
            remote_nonce,
            remote_mpn_nonce,
            pool,
        ),
    ensures
        wallet_nonce matches Some(nonce) ==> r.deposit_nonce == nonce,
        wallet_nonce is None ==> r.deposit_nonce == remote_nonce + 1,
        rows.len() > 0 ==> (wallet_mpn_nonce matches Some(nonce) ==> r.transfers@[0].nonce == nonce),
        rows.len() > 0 && wallet_mpn_nonce is None ==> r.transfers@[0].nonce == remote_mpn_nonce,
        forall|i: int, j: int|
            0 <= i < r.transfers@.len() && 0 <= j < r.transfers@.len() ==> (
            #[trigger] r.transfers@[i]).nonce - (#[trigger] r.transfers@[j]).nonce == i - j,
{
    let first = first_mpn_nonce(wallet_mpn_nonce, remote_mpn_nonce);
    assert forall|i: int| 0 <= i < r.transfers@.len() implies (#[trigger] r.transfers@[i]).nonce
        == first + i by {
        assert(pays(r.transfers@[i], rows[i], pool.account_index, first + i));
    }
}

/// What was planned is sent until all of it is taken: payments with the nonces of a plan are
/// outstanding exactly as long as the deposit is not taken, or any one of the payments is not.
pub proof fn law_plan_is_sent_until_taken(
    r: Payout,
    memo: Seq<char>,
    rows: Seq<(MpnAddress, u64)>,
    wallet_nonce: Option<u32>,
    wallet_mpn_nonce: Option<u64>,
    remote_nonce: u32,
    remote_mpn_nonce: u64,
    pool: MpnAddress,
    sent: Sent,
    nonce: u32,
    mpn_nonce: u64,
)
    requires
        is_payout(
            r,
            memo,
            rows,
            wallet_nonce,
            wallet_mpn_nonce,
            remote_nonce,
            remote_mpn_nonce,
            pool,
        ),
        rows.len() > 0,
        sent.deposit.nonce == r.deposit_nonce,
        sent.transactions@.len() == r.transfers@.len(),
        forall|i: int|
            0 <= i < r.transfers@.len() ==> (#[trigger] sent.transactions@[i]).nonce
                == r.transfers@[i].nonce,
    ensures
        is_outstanding(sent, nonce, mpn_nonce) <==> r.deposit_nonce > nonce || exists|i: int|
            0 <= i < r.transfers@.len() && (#[trigger] r.transfers@[i]).nonce >= mpn_nonce,
{
    law_nonces_leave_no_gap(
        r,
        memo,
        rows,
        wallet_nonce,
        wallet_mpn_nonce,
        remote_nonce,
        remote_mpn_nonce,
        pool,
    );
    law_outstanding_until_all_are_taken(sent, nonce, mpn_nonce);
    assert forall|i: int, j: int| 0 <= i < j < sent.transactions@.len() implies (
    #[trigger] sent.transactions@[i]).nonce <= (#[trigger] sent.transactions@[j]).nonce by {
        assert(r.transfers@[i].nonce - r.transfers@[j].nonce == i - j);
    }
    if exists|i: int|
        0 <= i < sent.transactions@.len() && (#[trigger] sent.transactions@[i]).nonce >= mpn_nonce {
        let i = choose|i: int|
            0 <= i < sent.transactions@.len() && (#[trigger] sent.transactions@[i]).nonce
                >= mpn_nonce;
        assert(r.transfers@[i].nonce >= mpn_nonce);
    }
    if exists|i: int|
        0 <= i < r.transfers@.len() && (#[trigger] r.transfers@[i]).nonce >= mpn_nonce {
        let i = choose|i: int|
            0 <= i < r.transfers@.len() && (#[trigger] r.transfers@[i]).nonce >= mpn_nonce;
        assert(sent.transactions@[i].nonce >= mpn_nonce);
    }
}

/// Rewards can be paid exactly if the nonce after the account's, the nonce of every payment, and
/// the sum fit their types; nothing else stands in the way.
pub proof fn law_what_fits_can_be_paid(
    rows: Seq<(MpnAddress, u64)>,
    wallet_mpn_nonce: Option<u64>,
    remote_nonce: u32,
    remote_mpn_nonce: u64,
)
    ensures
        ({
            let first = match wallet_mpn_nonce {
                Some(nonce) => nonce,
                None => remote_mpn_nonce,
            };
            payable(rows, wallet_mpn_nonce, remote_nonce, remote_mpn_nonce) <==> remote_nonce + 1
                <= u32::MAX && total_amount(rows) <= u64::MAX && (rows.len() == 0 || first
                + rows.len() - 1 <= u64::MAX)
        }),
{
}

/// The note on a deposit is its fixed words and then the number of the block, which can be read
/// back from it.
pub proof fn law_note_names_the_block(number: u64)
    ensures
        ({
            let words = "Pool-Reward, block #"@;
            let note = reward_note(number);
            &&& note.len() > words.len()
            &&& note.take(words.len() as int) == words
            &&& number_of(note.skip(words.len() as int)) == number
            &&& note[words.len() as int] == '0' ==> number == 0 && note.len() == words.len() + 1
        }),
{
    let words = "Pool-Reward, block #"@;
    let note = reward_note(number);
    law_decimal_reads_back(number as nat);
    assert(note.take(words.len() as int) =~= words);
    assert(note.skip(words.len() as int) =~= decimal(number as nat));
}

} // verus!
