use uzi_pool::miners::{
    add_miner, add_miner_answer, get_miners, index_miners, miners_file, miners_json, register_miner,
    undo_add, MinersFile,
};
use uzi_pool::response::Response;
use uzi_pool::token::{fetch_miner_token, generate_miner_token, token_text};
use uzi_pool::types::{AddMinerResponse, Miner, MpnAddress};

fn miner(token: &str, address: &str) -> Miner {
    Miner {
        token: token.to_string(),
        mpn_addr: MpnAddress { text: address.to_string(), account_index: 3 },
    }
}

#[test]
fn member_is_found_by_token() {
    let m = index_miners(&vec![miner("t1", "z1"), miner("t2", "z2")]);
    assert_eq!(m.get(&"t2".to_string()), Some(&miner("t2", "z2")));
    assert_eq!(m.get(&"z2".to_string()), None);
}

#[test]
fn later_member_with_a_token_counts() {
    let m = index_miners(&vec![miner("t", "z1"), miner("u", "z2"), miner("t", "z3")]);
    assert_eq!(m.rows().len(), 2);
    assert_eq!(m.get(&"t".to_string()), Some(&miner("t", "z3")));
}

#[test]
fn missing_file_has_no_members() {
    let (m, rewrite) = get_miners(MinersFile::Missing);
    assert!(m.rows().is_empty());
    assert_eq!(rewrite, None);
}

#[test]
fn binary_file_is_rewritten() {
    let (m, rewrite) = get_miners(MinersFile::Binary(vec![miner("t", "z")]));
    assert!(m.contains(&"t".to_string()));
    assert_eq!(rewrite, Some(vec![miner("t", "z")]));
}

#[test]
fn json_file_stays() {
    let (m, rewrite) = get_miners(MinersFile::Json(vec![miner("t", "z")]));
    assert!(m.contains(&"t".to_string()));
    assert_eq!(rewrite, None);
}

#[test]
fn file_that_is_not_there_is_missing() {
    let list = Some(vec![miner("t", "z")]);
    assert_eq!(miners_file(false, None, None), Some(MinersFile::Missing));
    assert_eq!(miners_file(false, list, None), Some(MinersFile::Missing));
}

#[test]
fn binary_form_goes_before_json() {
    let (one, two) = (vec![miner("t", "z")], vec![miner("u", "y")]);
    assert_eq!(
        miners_file(true, Some(one), Some(two)),
        Some(MinersFile::Binary(vec![miner("t", "z")]))
    );
    assert_eq!(
        miners_file(true, None, Some(vec![miner("u", "y")])),
        Some(MinersFile::Json(vec![miner("u", "y")]))
    );
}

#[test]
fn file_in_neither_form_is_not_read() {
    assert_eq!(miners_file(true, None, None), None);
}

#[test]
fn added_member_is_known_at_once_and_stored() {
    let mut m = index_miners(&vec![miner("t1", "z1"), miner("t2", "z2")]);
    let (list, response) = add_miner(&mut m, miner("", "z3").mpn_addr, "t3".to_string());
    assert_eq!(list.len(), 3);
    assert_eq!(list[2], miner("t3", "z3"));
    assert_eq!(response.miner_token, "t3");
    let again = index_miners(&list);
    for members in [&m, &again] {
        assert_eq!(members.rows().len(), 3);
        assert_eq!(members.get(&"t3".to_string()), Some(&miner("t3", "z3")));
        assert_eq!(members.get(&"t1".to_string()), Some(&miner("t1", "z1")));
        assert_eq!(members.get(&"t2".to_string()), Some(&miner("t2", "z2")));
    }
}

#[test]
fn member_with_a_token_in_use_takes_it_over() {
    let mut m = index_miners(&vec![miner("t", "z1")]);
    let (list, _) = add_miner(&mut m, miner("", "z2").mpn_addr, "t".to_string());
    assert_eq!(list, vec![miner("t", "z1"), miner("t", "z2")]);
    assert_eq!(m.rows().len(), 1);
    assert_eq!(m.get(&"t".to_string()), Some(&miner("t", "z2")));
    assert_eq!(index_miners(&list).get(&"t".to_string()), Some(&miner("t", "z2")));
}

#[test]
fn answer_holds_the_token() {
    let answer = AddMinerResponse { miner_token: "tA1".to_string() };
    assert_eq!(
        add_miner_answer(&answer),
        Response {
            status: 200,
            content_type: Some("application/json".to_string()),
            body: r#"{"miner_token":"tA1"}"#.to_string(),
        }
    );
}

#[test]
fn added_member_can_be_taken_back() {
    let mut m = index_miners(&vec![miner("t1", "z1"), miner("t2", "z2")]);
    let (list, _) = add_miner(&mut m, miner("", "z3").mpn_addr, "t3".to_string());
    let again = undo_add(list);
    assert_eq!(again.rows().len(), 2);
    assert_eq!(again.get(&"t1".to_string()), Some(&miner("t1", "z1")));
    assert_eq!(again.get(&"t2".to_string()), Some(&miner("t2", "z2")));
    assert!(undo_add(vec![]).rows().is_empty());
}

#[test]
fn stored_members_come_back() {
    let m = index_miners(&vec![miner("t1", "z1"), miner("t2", "z2")]);
    let list: Vec<Miner> = m.rows().iter().map(|r| r.1.clone()).collect();
    let again = index_miners(&list);
    assert_eq!(again.rows().len(), 2);
    assert_eq!(again.get(&"t1".to_string()), Some(&miner("t1", "z1")));
    assert_eq!(again.get(&"t2".to_string()), Some(&miner("t2", "z2")));
}

#[test]
fn registered_member_gets_a_fresh_token() {
    let mut m = index_miners(&vec![miner("t1", "z1")]);
    let (list, response) = register_miner(&mut m, miner("", "z2").mpn_addr);
    assert_eq!(list.len(), 2);
    assert_eq!(list[1], miner(&response.miner_token, "z2"));
    assert_eq!(response.miner_token.len(), 30);
    assert_eq!(m.get(&response.miner_token), Some(&list[1]));
}

#[test]
fn tokens_are_thirty_letters_and_digits() {
    let a = generate_miner_token();
    let b = generate_miner_token();
    assert_eq!(a.len(), 30);
    assert!(a.chars().all(|c| c.is_ascii_alphanumeric()));
    assert_ne!(a, b);
}

#[test]
fn token_has_the_drawn_characters() {
    assert_eq!(token_text(&vec![]), "");
    assert_eq!(token_text(&vec![b'a', b'Z', b'0', b'a']), "aZ0a");
}

#[test]
fn generated_token_can_be_shown_in_a_header() {
    let token = generate_miner_token();
    assert_eq!(fetch_miner_token(Some(token.as_bytes())), Some(token));
}

#[test]
fn header_is_read_as_text() {
    assert_eq!(fetch_miner_token(None), None);
    assert_eq!(fetch_miner_token(Some(b"abc 1~\t")), Some("abc 1~\t".to_string()));
    assert_eq!(fetch_miner_token(Some(b"")), Some(String::new()));
}

#[test]
fn header_that_is_no_text_shows_no_token() {
    assert_eq!(fetch_miner_token(Some(b"ab\x7f")), None);
    assert_eq!(fetch_miner_token(Some(b"ab\n")), None);
    assert_eq!(fetch_miner_token(Some(b"ab\xfa")), None);
}

#[test]
fn members_are_listed_as_json() {
    assert_eq!(miners_json(&index_miners(&vec![])), "{}");
    let m = index_miners(&vec![miner("t2", "z\"2"), miner("t1", "z1")]);
    assert_eq!(miners_json(&m), r#"{"t1":"z1","t2":"z\"2"}"#);
}
