use uzi_pool::context::{MinerContext, PuzzleNews, Step};
use uzi_pool::error::{FromHexError, PoolError};
use uzi_pool::miners::{add_miner, index_miners};
use uzi_pool::response::Response;
use uzi_pool::types::{Miner, MpnAddress, Puzzle, PuzzleWrapper};

fn miner() -> Miner {
    Miner {
        token: "tok".to_string(),
        mpn_addr: MpnAddress { text: "zaddr".to_string(), account_index: 1 },
    }
}

fn pool() -> MinerContext {
    MinerContext::new(index_miners(&vec![miner()]))
}

fn puzzle(key: &str) -> Puzzle {
    Puzzle {
        key: key.to_string(),
        blob: "00".to_string(),
        offset: 0,
        size: 1,
        target: 0x00ffffff,
        reward: 10,
    }
}

fn wrap(p: Puzzle) -> PuzzleWrapper {
    PuzzleWrapper { puzzle: Some(p) }
}

fn response(step: Step) -> Response {
    match step {
        Step::Respond(r) => r,
        _ => panic!("no answer yet"),
    }
}

#[test]
fn members_are_listed_for_the_own_machine() {
    let r = response(pool().process_request("/get-miners", None, Some(true)));
    assert_eq!(r.status, 200);
    assert_eq!(r.content_type, Some("application/json".to_string()));
    assert_eq!(r.body, r#"{"tok":"zaddr"}"#);
}

#[test]
fn other_machines_may_not_manage_members() {
    for path in ["/get-miners", "/add-miner"] {
        let r = response(pool().process_request(path, Some(b"tok"), Some(false)));
        assert_eq!(r, Response { status: 403, content_type: None, body: String::new() });
    }
}

#[test]
fn unknown_client_is_taken_for_the_own_machine() {
    assert!(matches!(pool().process_request("/add-miner", None, None), Step::RegisterMiner));
    assert!(matches!(pool().process_request("/add-miner", None, Some(true)), Step::RegisterMiner));
}

#[test]
fn strangers_may_not_mine() {
    for path in ["/miner/puzzle", "/miner/solution"] {
        for token in [None, Some(&b"other"[..]), Some(&b"tok\n"[..])] {
            let r = response(pool().process_request(path, token, Some(true)));
            assert_eq!(r.status, 403);
            assert_eq!(r.body, "");
        }
    }
}

#[test]
fn member_is_recognised_from_anywhere() {
    match pool().process_request("/miner/solution", Some(b"tok"), Some(false)) {
        Step::TakeSolution(m) => assert_eq!(m, miner()),
        _ => panic!("not taken"),
    }
}

fn address(text: &str) -> MpnAddress {
    MpnAddress { text: text.to_string(), account_index: 2 }
}

#[test]
fn new_member_may_mine_at_once() {
    let mut ctx = MinerContext::new(index_miners(&vec![]));
    ctx.new_puzzle(wrap(puzzle("ab"))).unwrap();
    assert!(matches!(ctx.process_request("/add-miner", None, Some(true)), Step::RegisterMiner));
    let (_, answer) = ctx.register_miner(address("zA"));
    let token = answer.miner_token.as_bytes();
    match ctx.process_request("/miner/puzzle", Some(token), Some(false)) {
        Step::OfferPuzzle(w) => assert_eq!(w.puzzle, Some(puzzle("ab"))),
        _ => panic!("not offered"),
    }
    match ctx.process_request("/miner/solution", Some(token), Some(false)) {
        Step::TakeSolution(m) => assert_eq!(m.mpn_addr, address("zA")),
        _ => panic!("not taken"),
    }
}

#[test]
fn second_new_member_does_not_drop_the_first() {
    let mut ctx = MinerContext::new(index_miners(&vec![]));
    let (list, first) = ctx.register_miner(address("zA"));
    let a = Miner { token: first.miner_token.clone(), mpn_addr: address("zA") };
    assert_eq!(list, vec![a.clone()]);
    let (list, second) = ctx.register_miner(address("zB"));
    let b = Miner { token: second.miner_token.clone(), mpn_addr: address("zB") };
    assert_eq!(list, vec![a.clone(), b.clone()]);
    for member in [a, b] {
        let token = member.token.clone();
        match ctx.process_request("/miner/solution", Some(token.as_bytes()), Some(false)) {
            Step::TakeSolution(m) => assert_eq!(m, member),
            _ => panic!("not taken"),
        }
    }
}

#[test]
fn registration_can_be_taken_back() {
    let mut ctx = pool();
    ctx.new_puzzle(wrap(puzzle("ab"))).unwrap();
    let (list, answer) = ctx.register_miner(address("zA"));
    ctx.undo_registration(list);
    let r = response(ctx.process_request(
        "/miner/puzzle",
        Some(answer.miner_token.as_bytes()),
        Some(true),
    ));
    assert_eq!(r.status, 403);
    assert_eq!(ctx.eligible_miners.rows().len(), 1);
    assert_eq!(ctx.current_job.as_ref().unwrap().puzzle, puzzle("ab"));
}

#[test]
fn registration_under_a_token_in_use_can_be_taken_back() {
    let mut ctx = pool();
    let (list, _) = add_miner(&mut ctx.eligible_miners, address("zA"), "tok".to_string());
    assert_eq!(ctx.eligible_miners.get(&"tok".to_string()).unwrap().mpn_addr, address("zA"));
    ctx.undo_registration(list);
    assert_eq!(ctx.eligible_miners.get(&"tok".to_string()), Some(&miner()));
}

#[test]
fn new_member_is_listed() {
    let mut ctx = MinerContext::new(index_miners(&vec![]));
    let (_, answer) = ctx.register_miner(address("zA"));
    let r = response(ctx.process_request("/get-miners", None, Some(true)));
    assert_eq!(r.body, format!("{{\"{}\":\"zA\"}}", answer.miner_token));
}

#[test]
fn member_is_offered_the_puzzle_in_hand() {
    let mut ctx = pool();
    match ctx.process_request("/miner/puzzle", Some(b"tok"), Some(false)) {
        Step::OfferPuzzle(w) => assert_eq!(w.puzzle, None),
        _ => panic!("not offered"),
    }
    ctx.new_puzzle(wrap(puzzle("ab"))).unwrap();
    match ctx.process_request("/miner/puzzle", Some(b"tok"), Some(false)) {
        Step::OfferPuzzle(w) => assert_eq!(w.puzzle, Some(puzzle("ab"))),
        _ => panic!("not offered"),
    }
}

#[test]
fn offered_puzzle_differs_in_the_target_alone() {
    let easy = puzzle("ab").with_target(5);
    assert_eq!(easy.target, 5);
    assert_eq!(Puzzle { target: 0x00ffffff, ..easy }, puzzle("ab"));
}

#[test]
fn other_paths_are_answered_with_nothing() {
    for path in ["/", "", "/miner", "/get-miners/"] {
        let r = response(pool().process_request(path, Some(b"tok"), Some(true)));
        assert_eq!(r, Response { status: 200, content_type: None, body: String::new() });
    }
}

#[test]
fn first_puzzle_sets_up_the_hash_function() {
    let mut ctx = pool();
    assert_eq!(ctx.new_puzzle(wrap(puzzle("aB01"))), Ok(PuzzleNews::StartedWithNewKey));
    assert_eq!(ctx.hasher_key, vec![0xab, 0x01]);
    assert_eq!(ctx.current_job.as_ref().unwrap().puzzle, puzzle("aB01"));
}

#[test]
fn empty_key_is_the_key_at_the_start() {
    let mut ctx = pool();
    assert_eq!(ctx.new_puzzle(wrap(puzzle(""))), Ok(PuzzleNews::Started));
}

#[test]
fn new_puzzle_with_the_same_key_starts_without_set_up() {
    let mut ctx = pool();
    ctx.new_puzzle(wrap(puzzle("ab"))).unwrap();
    let mut other = puzzle("ab");
    other.reward = 11;
    assert_eq!(ctx.new_puzzle(wrap(other)), Ok(PuzzleNews::Started));
    assert_eq!(ctx.current_job.as_ref().unwrap().puzzle.reward, 11);
}

#[test]
fn same_puzzle_keeps_the_shares() {
    let mut ctx = pool();
    ctx.new_puzzle(wrap(puzzle("ab"))).unwrap();
    let job = ctx.current_job.as_mut().unwrap();
    job.submit(&miner(), &"01".to_string(), &[0; 32], 0x00ffffff, 10);
    assert_eq!(ctx.new_puzzle(wrap(puzzle("ab"))), Ok(PuzzleNews::Unchanged));
    assert_eq!(ctx.current_job.as_ref().unwrap().shares.len(), 1);
    let mut other = puzzle("ab");
    other.target = 1;
    assert_eq!(ctx.new_puzzle(wrap(other)), Ok(PuzzleNews::Started));
    assert_eq!(ctx.current_job.as_ref().unwrap().shares.len(), 0);
}

#[test]
fn no_puzzle_ends_the_job() {
    let mut ctx = pool();
    assert_eq!(ctx.new_puzzle(PuzzleWrapper { puzzle: None }), Ok(PuzzleNews::Unchanged));
    ctx.new_puzzle(wrap(puzzle("ab"))).unwrap();
    assert_eq!(ctx.new_puzzle(PuzzleWrapper { puzzle: None }), Ok(PuzzleNews::NoPuzzle));
    assert!(ctx.current_job.is_none());
    assert_eq!(ctx.hasher_key, vec![0xab]);
}

#[test]
fn key_that_is_no_hexadecimal_is_an_error_once() {
    let mut ctx = pool();
    let bad = FromHexError::InvalidHexCharacter { c: 'g', index: 3 };
    assert_eq!(ctx.new_puzzle(wrap(puzzle("012g"))), Err(PoolError::FromHexError(bad)));
    assert!(ctx.current_job.is_some());
    assert_eq!(ctx.hasher_key, Vec::<u8>::new());
    assert_eq!(ctx.new_puzzle(wrap(puzzle("012g"))), Ok(PuzzleNews::Unchanged));
}

#[test]
fn key_of_odd_length_is_an_error() {
    let r = pool().new_puzzle(wrap(puzzle("01g")));
    assert_eq!(r, Err(PoolError::FromHexError(FromHexError::OddLength)));
}

#[test]
fn key_beyond_ascii_is_read_by_its_bytes() {
    let bad = FromHexError::InvalidHexCharacter { c: '\u{c3}', index: 2 };
    let r = pool().new_puzzle(wrap(puzzle("00\u{e9}")));
    assert_eq!(r, Err(PoolError::FromHexError(bad)));
}
