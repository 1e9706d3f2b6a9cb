//! The blocks that the pool solved, and the payments that it made for them.

use crate::rewards::Rewards;
use crate::table::{Key, Table};
use crate::types::{Header, HeaderView};
use vstd::prelude::*;

verus! {

/// A signed deposit: its nonce, and the transaction as bytes.
#[derive(Debug, PartialEq, Eq)]
pub struct MpnDeposit {
    pub nonce: u32,
    pub encoded: Vec<u8>,
}

/// A signed payment: its nonce, and the transaction as bytes.
#[derive(Debug, PartialEq, Eq)]
pub struct MpnTransaction {
    pub nonce: u64,
    pub encoded: Vec<u8>,
}

/// The payments for a block.
#[derive(Debug, PartialEq, Eq)]
pub struct Sent {
    pub deposit: MpnDeposit,
    pub transactions: Vec<MpnTransaction>,
}

/// What the pool keeps of the past.
pub struct History {
    /// Solved blocks whose rewards are not paid yet.
    pub solved: Table<Header, Rewards>,
    /// Blocks whose rewards are paid, with the payments.
    pub sent: Table<Header, Sent>,
}

/// What comes of a solved block when the chain is looked at.
pub enum Settlement {
    /// It is too early to say.
    Waiting,
    /// Another block stands in its place: nothing is paid.
    Dropped,
    /// It is confirmed: these rewards are to be paid.
    Pay(Rewards),
}

/// A header as it is compared: the nonce of its proof of work does not count.
pub open spec fn without_nonce(header: HeaderView) -> HeaderView {
    HeaderView { nonce: 0, ..header }
}

/// The chain has a block of this number, and it is `delay` or more blocks old.
pub open spec fn is_due(header: HeaderView, actual: Option<Header>, height: u64, delay: u64) -> bool {
    actual is Some && height - header.number >= delay
}

/// What comes of a solved block, given the header that the chain has under its number: it is
/// settled once it is due, and paid exactly if it is the block of the chain.
pub open spec fn settlement(
    solved: Map<HeaderView, Rewards>,
    header: HeaderView,
    actual: Option<Header>,
    height: u64,
    delay: u64,
) -> Settlement {
    if !is_due(header, actual, height, delay) {
        Settlement::Waiting
    } else if without_nonce(actual->0@) == header {
        Settlement::Pay(solved[header])
    } else {
        Settlement::Dropped
    }
}

/// The solved blocks that are left: a block that is due is no longer among them.
pub open spec fn solved_after(
    solved: Map<HeaderView, Rewards>,
    header: HeaderView,
    actual: Option<Header>,
    height: u64,
    delay: u64,
) -> Map<HeaderView, Rewards> {
    if is_due(header, actual, height, delay) {
        solved.remove(header)
    } else {
        solved
    }
}

impl History {
    /// Every solved block owes somebody, and every payment has at least one transaction.
    pub open spec fn wf(&self) -> bool {
        &&& forall|h: HeaderView| #[trigger]
            self.solved@.dom().contains(h) ==> self.solved@[h].entries().len() > 0
        &&& forall|h: HeaderView| #[trigger]
            self.sent@.dom().contains(h) ==> self.sent@[h].transactions@.len() > 0
    }

    /// Nothing solved, nothing sent.
    pub fn new() -> (r: History)
        ensures
            r.solved@ == Map::<HeaderView, Rewards>::empty(),
            r.sent@ == Map::<HeaderView, Sent>::empty(),
            r.wf(),
    {
        History { solved: Table::new(), sent: Table::new() }
    }

    /// Notes a solved block and what is owed for it.
    pub fn insert_solved(&mut self, header: Header, entries: Rewards)
        ensures
            final(self).solved@ == old(self).solved@.insert(header@, entries),
            final(self).sent@ == old(self).sent@,
            old(self).wf() && entries.entries().len() > 0 ==> final(self).wf(),
    {
        self.solved.insert(header, entries);
    }

    /// Notes the payments for a block.
    pub fn insert_sent(&mut self, header: Header, sent: Sent)
        ensures
            final(self).sent@ == old(self).sent@.insert(header@, sent),
            final(self).solved@ == old(self).solved@,
            old(self).wf() && sent.transactions@.len() > 0 ==> final(self).wf(),
    {
        self.sent.insert(header, sent);
    }

    /// The headers of the solved blocks.
    pub fn solved_headers(&self) -> (r: Vec<Header>)
        ensures
            r@.len() == self.solved.entries().len(),
            forall|i: int|
                0 <= i < r@.len() ==> (#[trigger] r@[i])@ == self.solved.entries()[i].0@,
    {
        let rows = self.solved.rows();
        let mut headers: Vec<Header> = Vec::new();
        let mut i: usize = 0;
        while i < rows.len()
            invariant
                i <= rows@.len(),
                headers@.len() == i,
                forall|j: int| 0 <= j < i ==> (#[trigger] headers@[j])@ == rows@[j].0@,
            decreases rows@.len() - i,
        {
            headers.push(rows[i].0.duplicate());
            i += 1;
        }
        headers
    }

    /// Decides about a solved block, given the header that the chain has under its number. A
    /// block that is due is taken off the solved ones, and is paid exactly if it is the block of
    /// the chain.
    pub fn settle_block(
        &mut self,
        header: &Header,
        actual: Option<Header>,
        height: u64,
        reward_delay: u64,
    ) -> (r: Settlement)
        requires
            old(self).solved@.dom().contains(header@),
            actual is Some ==> header.number <= height,
        ensures
            final(self).sent@ == old(self).sent@,
            old(self).wf() ==> final(self).wf() && (r matches Settlement::Pay(entries) ==> entries.entries().len()
                > 0),
            r == settlement(old(self).solved@, header@, actual, height, reward_delay),
            final(self).solved@ == solved_after(
                old(self).solved@,
                header@,
                actual,
                height,
                reward_delay,
            ),
    {
        match actual {
            Some(found) => {
                if height - header.number >= reward_delay {
                    let mut found = found;
                    found.nonce = 0;
                    let matches: bool = found.same(header);
                    match self.solved.remove(header) {
                        Some(entries) => {
                            if matches {
                                Settlement::Pay(entries)
                            } else {
                                Settlement::Dropped
                            }
                        },
                        None => Settlement::Dropped,
                    }
                } else {
                    Settlement::Waiting
                }
            },
            None => Settlement::Waiting,
        }
    }

    /// The places of the payments in the order in which they are sent: by the nonce of the
    /// deposit.
    pub fn sending_order(&self) -> (r: Vec<usize>)
        ensures
            is_sending_order(r@, self.sent.entries()),
    {
        let rows = self.sent.rows();
        let mut order: Vec<usize> = Vec::new();
        let mut n: usize = 0;
        while n < rows.len()
            invariant
                n <= rows@.len(),
                is_sending_order(order@, rows@.take(n as int)),
            decreases rows@.len() - n,
        {
            let nonce: u32 = rows[n].1.deposit.nonce;
            let mut at: usize = order.len();
            while at > 0 && rows[order[at - 1]].1.deposit.nonce > nonce
                invariant
                    at <= order@.len(),
                    n < rows@.len(),
                    nonce == rows@[n as int].1.deposit.nonce,
                    is_sending_order(order@, rows@.take(n as int)),
                    forall|j: int|
                        at <= j < order@.len() ==> nonce < rows@[#[trigger] order@[j]
                            as int].1.deposit.nonce,
                decreases at,
            {
                at -= 1;
            }
            let ghost before = order@;
            order.insert(at, n);
            proof {
                lemma_insert_in_order(before, rows@, n as int, at as int);
            }
            n += 1;
        }
        assert(rows@.take(rows@.len() as int) =~= rows@);
        order
    }
}

/// Each place once, ordered by the nonce of the deposit there.
pub open spec fn is_sending_order(order: Seq<usize>, rows: Seq<(Header, Sent)>) -> bool {
    &&& order.len() == rows.len()
    &&& forall|i: int| 0 <= i < order.len() ==> 0 <= #[trigger] order[i] < rows.len()
    &&& forall|i: int, j: int| 0 <= i < j < order.len() ==> order[i] != order[j]
    &&& forall|i: int, j: int|
        0 <= i < j < order.len() ==> rows[#[trigger] order[i] as int].1.deposit.nonce
            <= rows[#[trigger] order[j] as int].1.deposit.nonce
}

proof fn lemma_insert_in_order(order: Seq<usize>, rows: Seq<(Header, Sent)>, n: int, at: int)
    requires
        0 <= n < rows.len(),
        n <= usize::MAX,
        is_sending_order(order, rows.take(n)),
        0 <= at <= order.len(),
        forall|j: int|
            at <= j < order.len() ==> rows[n].1.deposit.nonce < rows[#[trigger] order[j]
                as int].1.deposit.nonce,
        at > 0 ==> rows[order[at - 1] as int].1.deposit.nonce <= rows[n].1.deposit.nonce,
    ensures
        is_sending_order(order.insert(at, n as usize), rows.take(n + 1)),
{
    let next = order.insert(at, n as usize);
    let old_rows = rows.take(n);
    let new_rows = rows.take(n + 1);
    assert forall|i: int| 0 <= i < next.len() implies 0 <= #[trigger] next[i] < new_rows.len() by {
        if i < at {
            assert(next[i] == order[i]);
        } else if i > at {
            assert(next[i] == order[i - 1]);
        }
    }
    assert forall|i: int, j: int| 0 <= i < j < next.len() implies #[trigger] next[i]
        != #[trigger] next[j] by {
        let a = if i < at { i } else { i - 1 };
        let b = if j < at { j } else { j - 1 };
        if i != at {
            assert(next[i] == order[a]);
        }
        if j != at {
            assert(next[j] == order[b]);
        }
    }
    assert forall|i: int, j: int| 0 <= i < j < next.len() implies new_rows[#[trigger] next[i]
        as int].1.deposit.nonce <= new_rows[#[trigger] next[j] as int].1.deposit.nonce by {
        let a = if i < at { i } else { i - 1 };
        let b = if j < at { j } else { j - 1 };
        if i != at {
            assert(next[i] == order[a]);
            assert(old_rows[order[a] as int] == rows[order[a] as int]);
        }
        if j != at {
            assert(next[j] == order[b]);
            assert(old_rows[order[b] as int] == rows[order[b] as int]);
        }
        if i != at && j != at {
            assert(old_rows[order[a] as int].1.deposit.nonce <= old_rows[order[b] as int].1.deposit.nonce);
        } else if i == at {
            assert(rows[n].1.deposit.nonce < rows[order[b] as int].1.deposit.nonce);
        } else {
            let c = at - 1;
            assert(old_rows[order[c] as int] == rows[order[c] as int]);
            if a < c {
                assert(old_rows[order[a] as int].1.deposit.nonce
                    <= old_rows[order[c] as int].1.deposit.nonce);
            }
        }
    }
}

/// Whether payments are to be sent: as long as the deposit, or the last of the transactions, is
/// not yet taken into the chain.
pub open spec fn is_outstanding(sent: Sent, nonce: u32, mpn_nonce: u64) -> bool {
    sent.deposit.nonce > nonce || sent.transactions@.last().nonce >= mpn_nonce
}

impl Sent {
    /// Decides whether payments are to be sent, given the nonces of the accounts.
    pub fn needs_sending(&self, curr_nonce: u32, curr_mpn_nonce: u64) -> (r: bool)
        requires
            self.transactions@.len() > 0,
        ensures
            r == is_outstanding(*self, curr_nonce, curr_mpn_nonce),
    {
        let last: u64 = self.transactions[self.transactions.len() - 1].nonce;
        self.deposit.nonce > curr_nonce || last >= curr_mpn_nonce
    }
}

/// Payments that are taken into the chain are not sent again, however far the accounts' nonces
/// go on.
pub proof fn law_settled_stays_settled(
    sent: Sent,
    nonce: u32,
    mpn_nonce: u64,
    later_nonce: u32,
    later_mpn_nonce: u64,
)
    requires
        !is_outstanding(sent, nonce, mpn_nonce),
        nonce <= later_nonce,
        mpn_nonce <= later_mpn_nonce,
    ensures
        !is_outstanding(sent, later_nonce, later_mpn_nonce),
{
}

/// The rewards that were noted for a block are those that are paid for it, once it is due and the
/// chain confirms it; notes on other blocks make no difference.
pub proof fn law_recorded_rewards_are_paid(
    solved: Map<HeaderView, Rewards>,
    header: HeaderView,
    rewards: Rewards,
    other: HeaderView,
    other_rewards: Rewards,
    actual: Option<Header>,
    height: u64,
    delay: u64,
)
    requires
        other != header,
        is_due(header, actual, height, delay),
        without_nonce(actual->0@) == header,
    ensures
        settlement(
            solved.insert(header, rewards).insert(other, other_rewards),
            header,
            actual,
            height,
            delay,
        ) == Settlement::Pay(rewards),
{
}

/// A block is settled at most once: whatever comes of it, it is gone from the solved blocks
/// exactly if it did not have to wait, and no other block goes with it.
pub proof fn law_settled_once(
    solved: Map<HeaderView, Rewards>,
    header: HeaderView,
    actual: Option<Header>,
    height: u64,
    delay: u64,
    other: HeaderView,
)
    requires
        solved.dom().contains(header),
        other != header,
    ensures
        solved_after(solved, header, actual, height, delay).dom().contains(header) <==> settlement(
            solved,
            header,
            actual,
            height,
            delay,
        ) is Waiting,
        solved_after(solved, header, actual, height, delay).dom().contains(other)
            <==> solved.dom().contains(other),
{
}

/// A block of the chain confirms a recorded header exactly if the two agree in everything but the
/// nonce and the recorded nonce is zero.
pub proof fn law_confirmation_sets_nonce_aside(actual: HeaderView, recorded: HeaderView)
    ensures
        without_nonce(actual) == recorded <==> actual.number == recorded.number && actual.rest
            == recorded.rest && recorded.nonce == 0,
{
}

/// A solved block waits exactly as long as the chain shows no block of its number, or fewer than
/// `delay` blocks have come since. Then it is paid what was noted for it exactly if the chain's
/// header agrees with the recorded one in its number and in every byte besides the nonce, the
/// recorded nonce being zero; any other header in its place means that nothing is paid.
pub proof fn law_only_the_own_block_is_paid(
    solved: Map<HeaderView, Rewards>,
    header: Header,
    actual: Option<Header>,
    height: u64,
    delay: u64,
)
    ensures
        ({
            let r = settlement(solved, header@, actual, height, delay);
            let due = actual is Some && height - header.number >= delay;
            let found = actual->0;
            let own = found.number == header.number && header.nonce == 0 && found.rest@.len()
                == header.rest@.len() && forall|i: int|
                0 <= i < header.rest@.len() ==> #[trigger] found.rest@[i] == header.rest@[i];
            &&& r is Waiting <==> !due
            &&& r is Dropped <==> due && !own
            &&& r is Pay <==> due && own
            &&& r matches Settlement::Pay(rewards) ==> rewards == solved[header@]
        }),
{
    if actual is Some {
        let found = actual->0;
        if found.rest@.len() == header.rest@.len() && forall|i: int|
            0 <= i < header.rest@.len() ==> #[trigger] found.rest@[i] == header.rest@[i] {
            assert(found.rest@ =~= header.rest@);
        }
    }
}

/// Settling a block takes it off the solved blocks exactly if it is due, and leaves every other
/// block with what was noted for it.
pub proof fn law_settling_touches_one_block(
    solved: Map<HeaderView, Rewards>,
    header: Header,
    actual: Option<Header>,
    height: u64,
    delay: u64,
    other: HeaderView,
)
    requires
        solved.dom().contains(header@),
        other != header@,
    ensures
        ({
            let left = solved_after(solved, header@, actual, height, delay);
            &&& left.dom().contains(header@) <==> actual is None || height - header.number < delay
            &&& left.dom().contains(header@) ==> left[header@] == solved[header@]
            &&& left.dom().contains(other) <==> solved.dom().contains(other)
            &&& solved.dom().contains(other) ==> left[other] == solved[other]
        }),
{
}

/// A block that is not due stays so until the chain is long enough, and a block that is due stays
/// due as the chain grows.
pub proof fn law_due_stays_due(
    solved: Map<HeaderView, Rewards>,
    header: HeaderView,
    actual: Header,
    height: u64,
    later: u64,
    delay: u64,
)
    requires
        height <= later,
        !(settlement(solved, header, Some(actual), height, delay) is Waiting),
    ensures
        settlement(solved, header, Some(actual), later, delay) == settlement(
            solved,
            header,
            Some(actual),
            height,
            delay,
        ),
{
}

/// Payments are settled exactly if the account's nonce has reached the deposit's and the other
/// account's nonce has passed the last transaction's. Where the nonces of the transactions do not
/// fall, that means: they are outstanding as long as the deposit or any one of the transactions is
/// not taken into the chain, and no longer.
pub proof fn law_outstanding_until_all_are_taken(sent: Sent, nonce: u32, mpn_nonce: u64)
    requires
        sent.transactions@.len() > 0,
    ensures
        is_outstanding(sent, nonce, mpn_nonce) <==> !(sent.deposit.nonce <= nonce
            && sent.transactions@[sent.transactions@.len() - 1].nonce < mpn_nonce),
        (forall|i: int, j: int|
            0 <= i < j < sent.transactions@.len() ==> (#[trigger] sent.transactions@[i]).nonce <= (
            #[trigger] sent.transactions@[j]).nonce) ==> (is_outstanding(sent, nonce, mpn_nonce)
            <==> sent.deposit.nonce > nonce || exists|i: int|
            0 <= i < sent.transactions@.len() && (#[trigger] sent.transactions@[i]).nonce
                >= mpn_nonce),
{
    let last = sent.transactions@.len() - 1;
    if sent.transactions@[last].nonce >= mpn_nonce {
        assert(sent.transactions@[last].nonce >= mpn_nonce);
    }
}

/// An order of sending takes up every payment, none twice, and one whose deposit has a lower nonce
/// comes before one with a higher.
pub proof fn law_all_are_sent_by_nonce(order: Seq<usize>, rows: Seq<(Header, Sent)>)
    requires
        is_sending_order(order, rows),
    ensures
        order.len() == rows.len(),
        forall|place: usize| place < rows.len() ==> #[trigger] order.contains(place),
        forall|i: int, j: int|
            0 <= i < order.len() && 0 <= j < order.len() && i != j ==> #[trigger] order[i]
                != #[trigger] order[j],
        forall|i: int, j: int|
            0 <= i < order.len() && 0 <= j < order.len() && (rows[#[trigger] order[i]
                as int].1.deposit.nonce < rows[#[trigger] order[j] as int].1.deposit.nonce) ==> i
                < j,
{
    let places = order.map_values(|p: usize| p as int);
    assert(places.no_duplicates()) by {
        assert forall|i: int, j: int|
            0 <= i < places.len() && 0 <= j < places.len() && i != j implies places[i]
            != places[j] by {
            assert(order[i] != order[j]);
        }
    }
    places.unique_seq_to_set();
    let all = vstd::set_lib::set_int_range(0, rows.len() as int);
    vstd::set_lib::lemma_int_range(0, rows.len() as int);
    assert(places.to_set().subset_of(all)) by {
        assert forall|p: int| places.to_set().contains(p) implies all.contains(p) by {
            let i = choose|i: int| 0 <= i < places.len() && places[i] == p;
            assert(order[i] < rows.len());
        }
    }
    vstd::set_lib::lemma_subset_equality(places.to_set(), all);
    assert forall|place: usize| place < rows.len() implies #[trigger] order.contains(place) by {
        assert(all.contains(place as int));
        assert(places.to_set().contains(place as int));
        let i = choose|i: int| 0 <= i < places.len() && places[i] == place as int;
        assert(order[i] == place);
    }
}

} // verus!
