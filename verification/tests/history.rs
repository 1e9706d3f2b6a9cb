use uzi_pool::history::{History, MpnDeposit, MpnTransaction, Settlement, Sent};
use uzi_pool::payout::{can_create_tx, create_tx, reward_memo, Payout, Transfer};
use uzi_pool::rewards::Rewards;
use uzi_pool::table::{Key, Table};
use uzi_pool::types::{Header, MpnAddress};

fn addr(who: &str) -> MpnAddress {
    MpnAddress { text: who.to_string(), account_index: 0 }
}

fn header(number: u64, rest: u8) -> Header {
    Header { number, nonce: 0, rest: vec![rest] }
}

fn rewards(amounts: &[(&str, u64)]) -> Rewards {
    let mut r: Rewards = Table::new();
    for (who, amount) in amounts {
        r.insert(addr(who), *amount);
    }
    r
}

fn pool() -> MpnAddress {
    MpnAddress { text: "pool".to_string(), account_index: 77 }
}

fn transfer(who: &str, amount: u64, nonce: u64) -> Transfer {
    Transfer {
        from_index: 77,
        from_token_index: 0,
        to: addr(who),
        to_token_index: 0,
        amount,
        fee_token_index: 0,
        fee: 0,
        nonce,
    }
}

fn sent(nonce: u32, last: u64) -> Sent {
    Sent {
        deposit: MpnDeposit { nonce, encoded: vec![] },
        transactions: vec![
            MpnTransaction { nonce: last - 1, encoded: vec![] },
            MpnTransaction { nonce: last, encoded: vec![] },
        ],
    }
}

fn solved() -> History {
    let mut h = History::new();
    h.insert_solved(header(10, 1), rewards(&[("a", 5)]));
    h
}

fn on_chain(nonce: u64) -> Option<Header> {
    Some(Header { nonce, ..header(10, 1) })
}

#[test]
fn solved_block_waits_for_the_delay() {
    let mut h = solved();
    assert!(matches!(h.settle_block(&header(10, 1), on_chain(77), 14, 5), Settlement::Waiting));
    assert!(h.solved.contains(&header(10, 1)));
}

#[test]
fn solved_block_waits_for_the_chain() {
    let mut h = solved();
    assert!(matches!(h.settle_block(&header(10, 1), None, 100, 5), Settlement::Waiting));
    assert!(h.solved.contains(&header(10, 1)));
}

#[test]
fn confirmed_block_is_paid_once() {
    let mut h = solved();
    match h.settle_block(&header(10, 1), on_chain(77), 15, 5) {
        Settlement::Pay(r) => assert_eq!(r.get(&addr("a")), Some(&5)),
        _ => panic!("not paid"),
    }
    assert!(!h.solved.contains(&header(10, 1)));
}

#[test]
fn replaced_block_is_dropped() {
    let mut h = solved();
    let other = Some(Header { nonce: 77, ..header(10, 2) });
    assert!(matches!(h.settle_block(&header(10, 1), other, 15, 5), Settlement::Dropped));
    assert!(!h.solved.contains(&header(10, 1)));
}

#[test]
fn delay_zero_pays_at_once() {
    let mut h = solved();
    assert!(matches!(h.settle_block(&header(10, 1), on_chain(0), 10, 0), Settlement::Pay(_)));
}

#[test]
fn headers_of_solved_blocks_are_listed() {
    let mut h = solved();
    h.insert_solved(header(11, 1), rewards(&[("b", 1)]));
    h.insert_solved(header(10, 1), rewards(&[("c", 2)]));
    assert_eq!(h.solved_headers(), vec![header(10, 1), header(11, 1)]);
    assert_eq!(h.solved.get(&header(10, 1)).unwrap().get(&addr("c")), Some(&2));
    assert_eq!(h.solved.get(&header(10, 1)).unwrap().get(&addr("a")), None);
}

#[test]
fn payments_are_sent_by_nonce() {
    let mut h = History::new();
    for (number, nonce) in [(1, 30), (2, 10), (3, 20), (4, 10)] {
        h.insert_sent(header(number, 0), sent(nonce, 5));
    }
    let order = h.sending_order();
    let nonces: Vec<u32> =
        order.iter().map(|i| h.sent.rows()[*i].1.deposit.nonce).collect();
    assert_eq!(nonces, vec![10, 10, 20, 30]);
    let mut places = order;
    places.sort();
    assert_eq!(places, vec![0, 1, 2, 3]);
}

#[test]
fn nothing_sent_has_no_order() {
    assert_eq!(History::new().sending_order(), Vec::<usize>::new());
}

#[test]
fn payments_are_sent_until_both_nonces_are_passed() {
    let s = sent(10, 100);
    assert!(s.needs_sending(9, 101));
    assert!(s.needs_sending(10, 100));
    assert!(s.needs_sending(9, 100));
    assert!(!s.needs_sending(10, 101));
    assert!(!s.needs_sending(11, 200));
}

#[test]
fn memo_names_the_block() {
    assert_eq!(reward_memo(0), "Pool-Reward, block #0");
    assert_eq!(reward_memo(1205), "Pool-Reward, block #1205");
    assert_eq!(reward_memo(u64::MAX), "Pool-Reward, block #18446744073709551615");
}

#[test]
fn payout_pays_each_address_from_one_deposit() {
    let r = rewards(&[("a", 5), ("b", 7), ("c", 0)]);
    let p = create_tx("memo".to_string(), &r, None, None, 4, 9, &pool());
    assert_eq!(
        p,
        Payout {
            memo: "memo".to_string(),
            deposit_to: pool(),
            deposit_token_index: 0,
            deposit_nonce: 5,
            deposit_amount: 12,
            deposit_fee: 0,
            transfers: vec![transfer("a", 5, 9), transfer("b", 7, 10), transfer("c", 0, 11)],
        }
    );
    let total: u64 = p.transfers.iter().map(|t| t.amount + t.fee).sum();
    assert_eq!(total, p.deposit_amount);
}

#[test]
fn wallet_nonces_go_first() {
    let r = rewards(&[("a", 5)]);
    let p = create_tx(String::new(), &r, Some(40), Some(50), 4, 9, &pool());
    assert_eq!(p.deposit_nonce, 40);
    assert_eq!(p.transfers[0].nonce, 50);
}

#[test]
fn new_payout_is_outstanding() {
    let r = rewards(&[("a", 5), ("b", 6)]);
    let p = create_tx(String::new(), &r, None, None, 4, 9, &pool());
    let s = Sent {
        deposit: MpnDeposit { nonce: p.deposit_nonce, encoded: vec![] },
        transactions: p
            .transfers
            .iter()
            .map(|t| MpnTransaction { nonce: t.nonce, encoded: vec![] })
            .collect(),
    };
    assert!(s.needs_sending(4, 9));
    assert!(!s.needs_sending(5, 11));
}

#[test]
fn recorded_payments_are_kept() {
    let mut h = solved();
    h.insert_sent(header(10, 1), sent(3, 4));
    assert_eq!(h.sent.get(&header(10, 1)), Some(&sent(3, 4)));
    assert!(h.solved.contains(&header(10, 1)));
}

#[test]
fn payout_must_fit() {
    let r = rewards(&[("a", u64::MAX), ("b", 0)]);
    assert!(can_create_tx(&r, None, 4, 9));
    assert!(can_create_tx(&r, Some(u64::MAX - 1), 4, 9));
    assert!(!can_create_tx(&r, Some(u64::MAX), 4, 9));
    assert!(!can_create_tx(&r, None, 4, u64::MAX));
    assert!(!can_create_tx(&r, None, u32::MAX, 9));
    assert!(!can_create_tx(&rewards(&[("a", u64::MAX), ("b", 1)]), None, 4, 9));
    assert!(can_create_tx(&rewards(&[]), Some(u64::MAX), 4, 9));
}

#[test]
fn recorded_nonce_other_than_zero_is_never_confirmed() {
    let recorded = Header { nonce: 3, ..header(10, 1) };
    let mut h = History::new();
    h.insert_solved(recorded.duplicate(), rewards(&[("a", 5)]));
    assert!(matches!(h.settle_block(&recorded, on_chain(3), 15, 5), Settlement::Dropped));
}
