use uzi_pool::context::MinerContext;
use uzi_pool::error::{FromHexError, PoolError};
use uzi_pool::history::History;
use uzi_pool::miners::index_miners;
use uzi_pool::solution::{Attempt, Candidate, Verdict};
use uzi_pool::types::{Header, Miner, MpnAddress, Puzzle, PuzzleWrapper, Solution};

const SHARE_TARGET: u32 = 0x00ffffff;

fn addr(who: &str) -> MpnAddress {
    MpnAddress { text: who.to_string(), account_index: 0 }
}

fn miner(who: &str) -> Miner {
    Miner { token: who.to_string(), mpn_addr: addr(who) }
}

fn header(number: u64) -> Header {
    Header { number, nonce: 0, rest: vec![1, 2, 3] }
}

fn pool(blob: &str) -> MinerContext {
    let mut ctx = MinerContext::new(index_miners(&vec![miner("a"), miner("b")]));
    let puzzle = Puzzle {
        key: "ab".to_string(),
        blob: blob.to_string(),
        offset: 1,
        size: 2,
        target: 0x02ffffff,
        reward: 100,
    };
    ctx.new_puzzle(PuzzleWrapper { puzzle: Some(puzzle) }).unwrap();
    ctx
}

fn solution(nonce: &str) -> Solution {
    Solution { nonce: nonce.to_string() }
}

fn attempt(ctx: &MinerContext, who: &str, nonce: &str) -> Attempt {
    ctx.begin_solution(miner(who), solution(nonce)).unwrap().unwrap()
}

fn candidate(ctx: &MinerContext, who: &str, nonce: &str) -> Candidate {
    attempt(ctx, who, nonce).place_nonce(header(9)).unwrap()
}

fn share_hash() -> [u8; 32] {
    let mut h = [0; 32];
    h[0] = 0x10;
    h
}

#[test]
fn without_a_job_nothing_is_taken() {
    let ctx = MinerContext::new(index_miners(&vec![]));
    assert_eq!(ctx.begin_solution(miner("a"), solution("0102")), Ok(None));
}

#[test]
fn header_bytes_are_decoded() {
    let ctx = pool("00FF10ab");
    let a = attempt(&ctx, "a", "0102");
    assert_eq!(a.blob, vec![0x00, 0xff, 0x10, 0xab]);
    assert_eq!((a.offset, a.size), (1, 2));
    assert_eq!(a.miner, miner("a"));
}

#[test]
fn header_that_is_no_hexadecimal_is_an_error() {
    let ctx = pool("00x0");
    let bad = FromHexError::InvalidHexCharacter { c: 'x', index: 2 };
    let r = ctx.begin_solution(miner("a"), solution("0102"));
    assert_eq!(r, Err(PoolError::FromHexError(bad)));
}

#[test]
fn nonce_is_put_in_its_place() {
    let c = candidate(&pool("00000000"), "a", "0aBc");
    assert_eq!(c.blob, vec![0x00, 0x0a, 0xbc, 0x00]);
    assert_eq!(c.nonce, "0aBc");
    assert_eq!(c.header, header(9));
    assert_eq!(c.miner, miner("a"));
}

#[test]
fn nonce_that_is_no_hexadecimal_is_an_error() {
    let ctx = pool("00000000");
    let r = attempt(&ctx, "a", "010").place_nonce(header(9));
    assert_eq!(r, Err(PoolError::FromHexError(FromHexError::OddLength)));
    let bad = FromHexError::InvalidHexCharacter { c: '-', index: 0 };
    let r = attempt(&ctx, "a", "-1zz").place_nonce(header(9));
    assert_eq!(r, Err(PoolError::FromHexError(bad)));
}

#[test]
fn missed_candidate_changes_nothing() {
    let mut ctx = pool("00000000");
    let c = candidate(&ctx, "a", "0001");
    assert!(matches!(ctx.judge(c, &[0xff; 32], 0x01ffffff, 10, 0), Verdict::Missed));
    assert!(ctx.current_job.as_ref().unwrap().shares.is_empty());
}

#[test]
fn duplicate_candidate_changes_nothing() {
    let mut ctx = pool("00000000");
    let c = candidate(&ctx, "a", "0001");
    assert!(matches!(ctx.judge(c, &share_hash(), SHARE_TARGET, 10, 0), Verdict::Share));
    let c = candidate(&ctx, "b", "0001");
    assert!(matches!(ctx.judge(c, &[0; 32], SHARE_TARGET, 10, 0), Verdict::Duplicate));
    assert_eq!(ctx.current_job.as_ref().unwrap().shares.len(), 1);
}

#[test]
fn block_is_divided_over_the_shares_that_count() {
    let mut ctx = pool("00000000");
    for (who, nonce) in [("a", "0001"), ("b", "0002"), ("a", "0003")] {
        let c = candidate(&ctx, who, nonce);
        assert!(matches!(ctx.judge(c, &share_hash(), SHARE_TARGET, 3, 1), Verdict::Share));
    }
    let c = candidate(&ctx, "b", "0004");
    let block = match ctx.judge(c, &[0; 32], SHARE_TARGET, 3, 1) {
        Verdict::Block(block) => block,
        _ => panic!("no block"),
    };
    assert_eq!(block.nonce, "0004");
    assert_eq!(block.report(), r#"{"nonce":"0004"}"#);
    assert_eq!(block.header, header(9));
    assert_eq!(block.rewards.get(&addr("a")), Some(&33));
    assert_eq!(block.rewards.get(&addr("b")), Some(&66));
    assert!(ctx.current_job.is_some());

    let mut history = History::new();
    block.record(&mut history);
    ctx.finish_job();
    assert!(ctx.current_job.is_none());
    assert_eq!(history.solved.get(&header(9)).unwrap().get(&addr("b")), Some(&66));
    assert!(history.sent.rows().is_empty());
}

#[test]
fn finder_alone_is_paid_with_capacity_one() {
    let mut ctx = pool("00000000");
    let c = candidate(&ctx, "a", "0001");
    ctx.judge(c, &share_hash(), SHARE_TARGET, 1, 0);
    let c = candidate(&ctx, "b", "0002");
    match ctx.judge(c, &[0; 32], SHARE_TARGET, 1, 0) {
        Verdict::Block(block) => {
            assert_eq!(block.rewards.rows().len(), 1);
            assert_eq!(block.rewards.get(&addr("b")), Some(&100));
        }
        _ => panic!("no block"),
    }
}

#[test]
fn nonce_must_fill_its_place() {
    let ctx = pool("00000000");
    assert!(attempt(&ctx, "a", "0102").fits());
    assert!(!attempt(&ctx, "a", "01").fits());
    assert!(!attempt(&ctx, "a", "010203").fits());
    assert!(attempt(&ctx, "a", "zz").fits());
    assert!(!attempt(&pool("0000"), "a", "0102").fits());
    assert!(!attempt(&pool("00"), "a", "zz").fits());
    assert!(attempt(&pool("000000"), "a", "0102").fits());
}

#[test]
fn candidates_that_cannot_be_judged() {
    let ctx = pool("00000000");
    let n = "0001".to_string();
    assert!(ctx.can_judge(&n, &[0; 32], SHARE_TARGET, 1, 100));
    assert!(!ctx.can_judge(&n, &[0; 32], SHARE_TARGET, 1, 101));
    assert!(!ctx.can_judge(&n, &[0; 32], SHARE_TARGET, 0, 0));
    assert!(!ctx.can_judge(&n, &[0; 32], 0x1e000001, 1, 0));
    assert!(ctx.can_judge(&n, &share_hash(), SHARE_TARGET, 0, 101));
    let idle = MinerContext::new(index_miners(&vec![]));
    assert!(!idle.can_judge(&n, &[0; 32], SHARE_TARGET, 1, 0));
}

#[test]
fn bad_block_target_matters_only_for_a_new_share() {
    let mut ctx = pool("00000000");
    let n = "0001".to_string();
    let c = candidate(&ctx, "a", "0001");
    ctx.judge(c, &share_hash(), SHARE_TARGET, 10, 0);
    ctx.current_job.as_mut().unwrap().puzzle.target = 0xff000000;
    assert!(ctx.can_judge(&n, &[0; 32], SHARE_TARGET, 10, 0));
    assert!(ctx.can_judge(&"0002".to_string(), &[0xff; 32], SHARE_TARGET, 10, 0));
    assert!(!ctx.can_judge(&"0002".to_string(), &[0; 32], SHARE_TARGET, 10, 0));
}
