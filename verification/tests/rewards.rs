use uzi_pool::rewards::{job_solved, Rewards};
use uzi_pool::types::{Miner, MpnAddress, Share};

fn addr(text: &str) -> MpnAddress {
    MpnAddress { text: text.to_string(), account_index: 7 }
}

fn share(who: &str, nonce: &str) -> Share {
    Share {
        miner: Miner { token: format!("token of {}", who), mpn_addr: addr(who) },
        nonce: nonce.to_string(),
    }
}

fn total(rewards: &Rewards) -> u64 {
    rewards.rows().iter().map(|r| r.1).sum()
}

#[test]
fn rewards_follow_the_number_of_shares() {
    let shares = vec![share("a", "1"), share("b", "2"), share("a", "3")];
    let r = job_solved(1000, 10, &shares);
    assert_eq!(r.rows().len(), 2);
    assert_eq!(r.get(&addr("a")), Some(&660));
    assert_eq!(r.get(&addr("b")), Some(&330));
    assert_eq!(r.get(&addr("c")), None);
}

#[test]
fn rounding_leaves_less_than_the_number_of_shares() {
    let shares = vec![share("a", "1"), share("b", "2"), share("c", "3")];
    let r = job_solved(100, 0, &shares);
    assert_eq!(r.get(&addr("a")), Some(&33));
    assert_eq!(total(&r), 99);
}

#[test]
fn owner_can_take_everything() {
    let r = job_solved(50, 50, &vec![share("a", "1")]);
    assert_eq!(r.get(&addr("a")), Some(&0));
    assert_eq!(total(&r), 0);
}

#[test]
fn the_largest_reward_does_not_overflow() {
    let shares = vec![share("a", "1"), share("a", "2")];
    let r = job_solved(u64::MAX, 0, &shares);
    assert_eq!(r.get(&addr("a")), Some(&(u64::MAX - 1)));
}

#[test]
fn addresses_differ_by_account() {
    let mut other = share("a", "2");
    other.miner.mpn_addr.account_index = 8;
    let r = job_solved(10, 0, &vec![share("a", "1"), other]);
    assert_eq!(r.rows().len(), 2);
    assert_eq!(r.get(&addr("a")), Some(&5));
}

#[test]
fn one_address_under_two_tokens_is_paid_once() {
    let mut other = share("a", "2");
    other.miner.token = "another".to_string();
    let r = job_solved(10, 0, &vec![share("a", "1"), other]);
    assert_eq!(r.rows().len(), 1);
    assert_eq!(r.get(&addr("a")), Some(&10));
}
