use uzi_pool::job::{Job, Outcome};
use uzi_pool::types::{Miner, MpnAddress, Puzzle};

const SHARE_TARGET: u32 = 0x00ffffff;
const BLOCK_TARGET: u32 = 0x02ffffff;

fn miner(who: &str) -> Miner {
    Miner {
        token: who.to_string(),
        mpn_addr: MpnAddress { text: who.to_string(), account_index: 0 },
    }
}

fn job(target: u32) -> Job {
    Job::new(Puzzle {
        key: "00".to_string(),
        blob: "00".to_string(),
        offset: 0,
        size: 1,
        target,
        reward: 100,
    })
}

fn share_hash() -> [u8; 32] {
    let mut h = [0; 32];
    h[0] = 0x10;
    h
}

fn nonces(job: &Job) -> Vec<String> {
    job.shares.iter().map(|s| s.nonce.clone()).collect()
}

#[test]
fn new_job_has_no_shares() {
    let j = job(BLOCK_TARGET);
    assert!(j.shares.is_empty());
    assert_eq!(j.puzzle.target, BLOCK_TARGET);
}

#[test]
fn hash_above_share_target_is_missed() {
    let mut j = job(BLOCK_TARGET);
    let r = j.submit(&miner("a"), &"01".to_string(), &share_hash(), 0x01ffffff, 10);
    assert_eq!(r, Outcome::Missed);
    assert!(j.shares.is_empty());
    let r = j.submit(&miner("a"), &"01".to_string(), &share_hash(), SHARE_TARGET, 10);
    assert_eq!(r, Outcome::Share);
}

#[test]
fn share_is_noted_with_its_miner() {
    let mut j = job(BLOCK_TARGET);
    let r = j.submit(&miner("a"), &"01".to_string(), &share_hash(), SHARE_TARGET, 10);
    assert_eq!(r, Outcome::Share);
    assert_eq!(j.shares.len(), 1);
    assert_eq!(j.shares[0].miner, miner("a"));
    assert_eq!(j.shares[0].nonce, "01");
}

#[test]
fn nonce_counts_once() {
    let mut j = job(BLOCK_TARGET);
    let nonce = "01".to_string();
    assert_eq!(j.submit(&miner("a"), &nonce, &share_hash(), SHARE_TARGET, 10), Outcome::Share);
    assert_eq!(j.submit(&miner("b"), &nonce, &[0; 32], SHARE_TARGET, 10), Outcome::Duplicate);
    assert_eq!(j.shares.len(), 1);
}

#[test]
fn nonce_of_a_share_that_left_is_still_a_duplicate() {
    let mut j = job(BLOCK_TARGET);
    for n in ["01", "02", "03"] {
        j.submit(&miner("a"), &n.to_string(), &share_hash(), SHARE_TARGET, 1);
    }
    assert_eq!(nonces(&j), vec!["03"]);
    let r = j.submit(&miner("a"), &"01".to_string(), &share_hash(), SHARE_TARGET, 1);
    assert_eq!(r, Outcome::Duplicate);
    assert_eq!(nonces(&j), vec!["03"]);
}

#[test]
fn only_the_last_shares_count() {
    let mut j = job(BLOCK_TARGET);
    for n in 0..45 {
        j.submit(&miner("a"), &format!("{:02}", n), &share_hash(), SHARE_TARGET, 40);
    }
    let expected: Vec<String> = (5..45).map(|n| format!("{:02}", n)).collect();
    assert_eq!(nonces(&j), expected);
}

#[test]
fn smaller_capacity_drops_the_oldest_at_once() {
    let mut j = job(BLOCK_TARGET);
    for n in ["01", "02", "03"] {
        j.submit(&miner("a"), &n.to_string(), &share_hash(), SHARE_TARGET, 10);
    }
    j.submit(&miner("a"), &"04".to_string(), &share_hash(), SHARE_TARGET, 2);
    assert_eq!(nonces(&j), vec!["03", "04"]);
}

#[test]
fn capacity_zero_keeps_no_share() {
    let mut j = job(BLOCK_TARGET);
    let r = j.submit(&miner("a"), &"01".to_string(), &share_hash(), SHARE_TARGET, 0);
    assert_eq!(r, Outcome::Share);
    assert!(j.shares.is_empty());
}

#[test]
fn hash_below_block_target_is_a_block() {
    let mut j = job(BLOCK_TARGET);
    let r = j.submit(&miner("a"), &"01".to_string(), &[0; 32], SHARE_TARGET, 10);
    assert_eq!(r, Outcome::Block);
    assert_eq!(j.shares.len(), 1);
}

#[test]
fn block_target_above_share_target_does_not_make_a_share() {
    let mut j = job(0x00ffffff);
    let r = j.submit(&miner("a"), &"01".to_string(), &share_hash(), 0x01ffffff, 10);
    assert_eq!(r, Outcome::Missed);
}
