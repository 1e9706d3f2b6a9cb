//! The values that the pool works on.

use crate::table::Key;
use vstd::prelude::*;

verus! {

/// The address of an account, as it is printed, with the account's index.
#[derive(Debug, PartialEq, Eq)]
pub struct MpnAddress {
    pub text: String,
    pub account_index: u64,
}

pub struct MpnAddressView {
    pub text: Seq<char>,
    pub account_index: u64,
}

impl View for MpnAddress {
    type V = MpnAddressView;

    open spec fn view(&self) -> MpnAddressView {
        MpnAddressView { text: self.text@, account_index: self.account_index }
    }
}

impl Clone for MpnAddress {
    fn clone(&self) -> (r: Self)
        ensures
            r == *self,
    {
        MpnAddress { text: self.text.clone(), account_index: self.account_index }
    }
}

impl Key for MpnAddress {
    fn same(&self, other: &Self) -> (r: bool) {
        self.text == other.text && self.account_index == other.account_index
    }

    fn duplicate(&self) -> (r: Self) {
        self.clone()
    }
}

/// A member of the pool: who is paid, and the token that requests are known by.
#[derive(Debug, PartialEq, Eq)]
pub struct Miner {
    pub token: String,
    pub mpn_addr: MpnAddress,
}

pub struct MinerView {
    pub token: Seq<char>,
    pub mpn_addr: MpnAddressView,
}

impl View for Miner {
    type V = MinerView;

    open spec fn view(&self) -> MinerView {
        MinerView { token: self.token@, mpn_addr: self.mpn_addr@ }
    }
}

impl Clone for Miner {
    fn clone(&self) -> (r: Self)
        ensures
            r == *self,
    {
        Miner { token: self.token.clone(), mpn_addr: self.mpn_addr.clone() }
    }
}

/// A nonce that met the share target, and the miner who found it.
#[derive(Debug, PartialEq, Eq)]
pub struct Share {
    pub miner: Miner,
    pub nonce: String,
}

pub struct ShareView {
    pub miner: MinerView,
    pub nonce: Seq<char>,
}

impl View for Share {
    type V = ShareView;

    open spec fn view(&self) -> ShareView {
        ShareView { miner: self.miner@, nonce: self.nonce@ }
    }
}

/// A block to be mined: the key of the hash function, the block header in hexadecimal with the
/// place of the nonce in it, the block target, and the reward.
#[derive(Debug, PartialEq, Eq)]
pub struct Puzzle {
    pub key: String,
    pub blob: String,
    pub offset: usize,
    pub size: usize,
    pub target: u32,
    pub reward: u64,
}

pub struct PuzzleView {
    pub key: Seq<char>,
    pub blob: Seq<char>,
    pub offset: usize,
    pub size: usize,
    pub target: u32,
    pub reward: u64,
}

impl View for Puzzle {
    type V = PuzzleView;

    open spec fn view(&self) -> PuzzleView {
        PuzzleView {
            key: self.key@,
            blob: self.blob@,
            offset: self.offset,
            size: self.size,
            target: self.target,
            reward: self.reward,
        }
    }
}

impl Clone for Puzzle {
    fn clone(&self) -> (r: Self)
        ensures
            r == *self,
    {
        Puzzle {
            key: self.key.clone(),
            blob: self.blob.clone(),
            offset: self.offset,
            size: self.size,
            target: self.target,
            reward: self.reward,
        }
    }
}

impl Puzzle {
    /// Whether two puzzles agree in every field.
    pub fn same(&self, other: &Puzzle) -> (r: bool)
        ensures
            r == (self@ == other@),
    {
        self.key == other.key && self.blob == other.blob && self.offset == other.offset
            && self.size == other.size && self.target == other.target && self.reward
            == other.reward
    }

    /// The puzzle as it is given to miners: only the target is another.
    pub fn with_target(&self, target: u32) -> (r: Puzzle)
        ensures
            r@ == (PuzzleView { target: target, ..self@ }),
    {
        Puzzle {
            key: self.key.clone(),
            blob: self.blob.clone(),
            offset: self.offset,
            size: self.size,
            target: target,
            reward: self.reward,
        }
    }
}

/// What the node answers when it is asked for a puzzle, and what the pool answers its miners.
#[derive(Debug, PartialEq, Eq)]
pub struct PuzzleWrapper {
    pub puzzle: Option<Puzzle>,
}

/// What the wrapper holds.
pub open spec fn puzzle_view(puzzle: Option<Puzzle>) -> Option<PuzzleView> {
    match puzzle {
        Some(p) => Some(p@),
        None => None,
    }
}

/// A nonce, in hexadecimal, that a miner hands in.
#[derive(Debug, PartialEq, Eq)]
pub struct Solution {
    pub nonce: String,
}

/// The token of the member that was added.
#[derive(Debug, PartialEq, Eq)]
pub struct AddMinerResponse {
    pub miner_token: String,
}

/// A block header: its number, the nonce of its proof of work, and everything else in it as
/// bytes.
#[derive(Debug, PartialEq, Eq)]
pub struct Header {
    pub number: u64,
    pub nonce: u64,
    pub rest: Vec<u8>,
}

pub struct HeaderView {
    pub number: u64,
    pub nonce: u64,
    pub rest: Seq<u8>,
}

impl View for Header {
    type V = HeaderView;

    open spec fn view(&self) -> HeaderView {
        HeaderView { number: self.number, nonce: self.nonce, rest: self.rest@ }
    }
}

/// Whether two runs of bytes are equal.
pub(crate) fn same_bytes(a: &Vec<u8>, b: &Vec<u8>) -> (r: bool)
    ensures
        r == (a@ == b@),
{
    if a.len() != b.len() {
        return false;
    }
    let mut i: usize = 0;
    while i < a.len()
        invariant
            i <= a@.len(),
            a@.len() == b@.len(),
            forall|j: int| 0 <= j < i ==> a@[j] == b@[j],
        decreases a@.len() - i,
    {
        if a[i] != b[i] {
            assert(a@[i as int] != b@[i as int]);
            return false;
        }
        i += 1;
    }
    assert(a@ =~= b@);
    true
}

impl Key for Header {
    fn same(&self, other: &Self) -> (r: bool) {
        self.number == other.number && self.nonce == other.nonce && same_bytes(
            &self.rest,
            &other.rest,
        )
    }

    fn duplicate(&self) -> (r: Self) {
        let rest = self.rest.clone();
        assert(rest@ =~= self.rest@);
        Header { number: self.number, nonce: self.nonce, rest }
    }
}

/// The view of an address shows its text and its index.
pub proof fn law_address_view_is_whole(address: MpnAddress)
    ensures
        address@.text == address.text@,
        address@.account_index == address.account_index,
{
}

/// The view of a member shows the token and the address.
pub proof fn law_miner_view_is_whole(miner: Miner)
    ensures
        miner@.token == miner.token@,
        miner@.mpn_addr == miner.mpn_addr@,
{
}

/// The view of a share shows who found it and its nonce.
pub proof fn law_share_view_is_whole(share: Share)
    ensures
        share@.miner == share.miner@,
        share@.nonce == share.nonce@,
{
}

/// Two puzzles look alike exactly if they agree in every field.
pub proof fn law_puzzles_differ_by_any_field(a: Puzzle, b: Puzzle)
    ensures
        a@ == b@ <==> a.key@ == b.key@ && a.blob@ == b.blob@ && a.offset == b.offset && a.size
            == b.size && a.target == b.target && a.reward == b.reward,
        puzzle_view(Some(a)) == puzzle_view(Some(b)) <==> a@ == b@,
        puzzle_view(Some(a)) != puzzle_view(None),
        a@.key == a.key@ && a@.blob == a.blob@ && a@.target == a.target && a@.reward == a.reward,
        a@.offset == a.offset && a@.size == a.size,
        puzzle_view(Some(a)) == Some(a@),
{
}

/// Two headers look alike exactly if they agree in number, nonce and every other byte.
pub proof fn law_headers_differ_by_any_byte(a: Header, b: Header)
    ensures
        a@ == b@ <==> a.number == b.number && a.nonce == b.nonce && a.rest@.len() == b.rest@.len()
            && forall|i: int| 0 <= i < a.rest@.len() ==> #[trigger] a.rest@[i] == b.rest@[i],
{
    if a.rest@.len() == b.rest@.len() && forall|i: int|
        0 <= i < a.rest@.len() ==> #[trigger] a.rest@[i] == b.rest@[i] {
        assert(a.rest@ =~= b.rest@);
    }
}

} // verus!
