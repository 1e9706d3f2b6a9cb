//! The members of the pool.

use crate::json::{json_member, json_object, text_map, write_json_object};
use crate::response::{json_response, Response};
use crate::table::{assoc, distinct_keys, lemma_assoc_at, lemma_assoc_dom, Table};
use crate::token::{generate_miner_token, is_miner_token};
use crate::types::{AddMinerResponse, Miner, MpnAddress};
use vstd::prelude::*;

verus! {

/// The members, by token.
pub type Miners = Table<String, Miner>;

/// The members of a list by token; where two have one token, the later counts.
pub open spec fn token_map(list: Seq<Miner>) -> Map<Seq<char>, Miner>
    decreases list.len(),
{
    if list.len() == 0 {
        Map::empty()
    } else {
        token_map(list.drop_last()).insert(list.last().token@, list.last())
    }
}

/// The members in rows.
pub open spec fn row_miners(rows: Seq<(String, Miner)>) -> Seq<Miner> {
    rows.map_values(|row: (String, Miner)| row.1)
}

/// Each member stands under the own token.
pub open spec fn keyed_by_token(miners: Map<Seq<char>, Miner>) -> bool {
    forall|token: Seq<char>| #[trigger]
        miners.dom().contains(token) ==> miners[token].token@ == token
}

/// Puts a list of members under their tokens.
pub fn index_miners(list: &Vec<Miner>) -> (r: Miners)
    ensures
        r@ == token_map(list@),
        keyed_by_token(r@),
{
    let mut miners: Miners = Table::new();
    assert(list@.take(0) =~= Seq::<Miner>::empty());
    let mut i: usize = 0;
    while i < list.len()
        invariant
            i <= list@.len(),
            miners@ == token_map(list@.take(i as int)),
            keyed_by_token(miners@),
        decreases list@.len() - i,
    {
        let miner = list[i].clone();
        assert(list@.take(i + 1).drop_last() =~= list@.take(i as int));
        miners.insert(miner.token.clone(), miner);
        i += 1;
    }
    assert(list@.take(list@.len() as int) =~= list@);
    miners
}

/// The file that keeps the members, as it was found.
#[derive(Debug, PartialEq, Eq)]
pub enum MinersFile {
    /// There is none.
    Missing,
    /// It holds this list in binary form, which is read but no longer written.
    Binary(Vec<Miner>),
    /// It holds this list as JSON.
    Json(Vec<Miner>),
}

/// The list that a file holds.
pub open spec fn file_list(file: MinersFile) -> Seq<Miner> {
    match file {
        MinersFile::Missing => Seq::empty(),
        MinersFile::Binary(list) => list@,
        MinersFile::Json(list) => list@,
    }
}

/// The file that was found, by what its bytes can be read as; binary form goes before JSON. None,
/// if there is a file and it is neither.
pub fn miners_file(
    found: bool,
    binary: Option<Vec<Miner>>,
    json: Option<Vec<Miner>>,
) -> (r: Option<MinersFile>)
    ensures
        r == (if !found {
            Some(MinersFile::Missing)
        } else {
            match (binary, json) {
                (Some(list), _) => Some(MinersFile::Binary(list)),
                (None, Some(list)) => Some(MinersFile::Json(list)),
                (None, None) => None,
            }
        }),
{
    if !found {
        return Some(MinersFile::Missing);
    }
    match binary {
        Some(list) => Some(MinersFile::Binary(list)),
        None => match json {
            Some(list) => Some(MinersFile::Json(list)),
            None => None,
        },
    }
}

/// The members that a file holds, and the list to write back as JSON, where the file is to be
/// replaced.
pub fn get_miners(file: MinersFile) -> (r: (Miners, Option<Vec<Miner>>))
    ensures
        r.0@ == token_map(file_list(file)),
        keyed_by_token(r.0@),
        match r.1 {
            Some(list) => file is Binary && list@ == file_list(file),
            None => !(file is Binary),
        },
{
    match file {
        MinersFile::Missing => (Table::new(), None),
        MinersFile::Binary(list) => (index_miners(&list), Some(list)),
        MinersFile::Json(list) => (index_miners(&list), None),
    }
}

/// The list names every member.
pub open spec fn lists_all(list: Seq<Miner>, miners: Map<Seq<char>, Miner>) -> bool {
    forall|token: Seq<char>| #[trigger]
        miners.dom().contains(token) ==> list.contains(miners[token])
}

/// Adds a member under a token. What comes back is the list to store, and the answer to who
/// asked.
pub fn add_miner(miners: &mut Miners, mpn_addr: MpnAddress, token: String) -> (r: (
    Vec<Miner>,
    AddMinerResponse,
))
    ensures
        r.1.miner_token == token,
        r.0@ == row_miners(old(miners).entries()).push(Miner { token, mpn_addr }),
        final(miners)@ == old(miners)@.insert(token@, Miner { token, mpn_addr }),
        lists_all(r.0@, final(miners)@),
        keyed_by_token(old(miners)@) ==> keyed_by_token(final(miners)@) && token_map(r.0@)
            == final(miners)@,
{
    let rows = miners.rows();
    let mut list: Vec<Miner> = Vec::new();
    let mut i: usize = 0;
    while i < rows.len()
        invariant
            i <= rows@.len(),
            list@ =~= row_miners(rows@).take(i as int),
        decreases rows@.len() - i,
    {
        list.push(rows[i].1.clone());
        i += 1;
    }
    assert(row_miners(rows@).take(rows@.len() as int) =~= row_miners(rows@));
    let miner = Miner { token: token.clone(), mpn_addr };
    proof {
        lemma_list_names_all(rows@, miner);
        if keyed_by_token(assoc(rows@)) {
            law_added_miner_is_stored(rows@, miner);
        }
    }
    list.push(miner.clone());
    miners.insert(token.clone(), miner);
    (list, AddMinerResponse { miner_token: token })
}

/// Adds a member under a new token.
pub fn register_miner(miners: &mut Miners, mpn_addr: MpnAddress) -> (r: (
    Vec<Miner>,
    AddMinerResponse,
))
    ensures
        is_miner_token(r.1.miner_token@),
        r.0@ == row_miners(old(miners).entries()).push(Miner { token: r.1.miner_token, mpn_addr }),
        final(miners)@ == old(miners)@.insert(
            r.1.miner_token@,
            Miner { token: r.1.miner_token, mpn_addr },
        ),
        lists_all(r.0@, final(miners)@),
        keyed_by_token(old(miners)@) ==> keyed_by_token(final(miners)@) && token_map(r.0@)
            == final(miners)@,
{
    let token = generate_miner_token();
    add_miner(miners, mpn_addr, token)
}

/// Answers who added a member: a JSON object with the member's token.
pub fn add_miner_answer(answer: &AddMinerResponse) -> (r: Response)
    ensures
        r@ == json_response(json_object(map!["miner_token"@ => answer.miner_token@])),
{
    Response::json(json_member("miner_token", answer.miner_token.as_str()))
}

/// A list as it was before its last member was added.
pub open spec fn before_last(list: Seq<Miner>) -> Seq<Miner> {
    if list.len() == 0 {
        list
    } else {
        list.drop_last()
    }
}

/// The members as they were before the last one of a list was added.
pub fn undo_add(list: Vec<Miner>) -> (r: Miners)
    ensures
        r@ == token_map(before_last(list@)),
        keyed_by_token(r@),
{
    let mut list = list;
    list.pop();
    index_miners(&list)
}

/// The addresses of the members, as printed, by token.
pub open spec fn address_book(miners: Map<Seq<char>, Miner>) -> Map<Seq<char>, Seq<char>> {
    miners.map_values(|m: Miner| m.mpn_addr.text@)
}

/// The members' tokens and addresses as a JSON object.
pub fn miners_json(miners: &Miners) -> (r: String)
    ensures
        r@ == json_object(address_book(miners@)),
{
    let rows = miners.rows();
    let mut members: Vec<(String, String)> = Vec::new();
    let mut i: usize = 0;
    while i < rows.len()
        invariant
            i <= rows@.len(),
            members@.len() == i,
            forall|j: int|
                0 <= j < i ==> (#[trigger] members@[j]).0 == rows@[j].0 && members@[j].1
                    == rows@[j].1.mpn_addr.text,
        decreases rows@.len() - i,
    {
        members.push((rows[i].0.clone(), rows[i].1.mpn_addr.text.clone()));
        i += 1;
    }
    proof {
        lemma_address_rows(rows@, members@);
        assert forall|a: int, b: int| 0 <= a < b < members@.len() implies #[trigger] members@[a].0@
            != #[trigger] members@[b].0@ by {
            assert(rows@[a].0@ != rows@[b].0@);
        }
    }
    write_json_object(&members)
}

proof fn lemma_address_rows(rows: Seq<(String, Miner)>, members: Seq<(String, String)>)
    requires
        rows.len() == members.len(),
        forall|j: int|
            0 <= j < rows.len() ==> (#[trigger] members[j]).0 == rows[j].0 && members[j].1
                == rows[j].1.mpn_addr.text,
    ensures
        text_map(members) == address_book(assoc(rows)),
    decreases rows.len(),
{
    if rows.len() > 0 {
        let front = members.drop_last();
        let miners = rows.drop_last();
        lemma_address_rows(miners, front);
        assert(members[members.len() - 1].0 == rows.last().0);
        assert forall|token: Seq<char>| #[trigger]
            assoc(front).dom().contains(token) <==> assoc(miners).dom().contains(token) by {
            assert(text_map(front).dom().contains(token) <==> assoc(front).dom().contains(token));
            assert(address_book(assoc(miners)).dom().contains(token) <==> assoc(
                miners,
            ).dom().contains(token));
        }
        assert forall|token: Seq<char>| assoc(front).dom().contains(token) implies assoc(
            front,
        )[token]@ == #[trigger] assoc(miners)[token].mpn_addr.text@ by {
            assert(text_map(front)[token] == assoc(front)[token]@);
            assert(address_book(assoc(miners))[token] == assoc(miners)[token].mpn_addr.text@);
        }
        assert(text_map(members) =~= address_book(assoc(rows)));
    } else {
        assert(text_map(members) =~= address_book(assoc(rows)));
    }
}

proof fn lemma_rows_by_token(rows: Seq<(String, Miner)>)
    requires
        forall|i: int| 0 <= i < rows.len() ==> (#[trigger] rows[i]).0@ == rows[i].1.token@,
    ensures
        token_map(row_miners(rows)) == assoc(rows),
    decreases rows.len(),
{
    if rows.len() > 0 {
        let front = rows.drop_last();
        lemma_rows_by_token(front);
        assert(row_miners(rows).drop_last() =~= row_miners(front));
        assert(rows[rows.len() - 1].0@ == rows[rows.len() - 1].1.token@);
    }
}

/// A list of all rows and one more member names every member that is then known.
pub(crate) proof fn lemma_list_names_all(rows: Seq<(String, Miner)>, miner: Miner)
    requires
        distinct_keys(rows),
    ensures
        lists_all(row_miners(rows).push(miner), assoc(rows)),
        lists_all(row_miners(rows).push(miner), assoc(rows).insert(miner.token@, miner)),
{
    let list = row_miners(rows).push(miner);
    assert(list[rows.len() as int] == miner);
    assert forall|token: Seq<char>| #[trigger] assoc(rows).dom().contains(token) implies list.contains(
        assoc(rows)[token],
    ) by {
        lemma_assoc_dom(rows, token);
        let i = choose|i: int| 0 <= i < rows.len() && #[trigger] rows[i].0@ == token;
        lemma_assoc_at(rows, i);
        assert(list[i] == rows[i].1);
    }
}

/// The list that is stored when a member is added stands for the members with the new one, and
/// for no other change.
pub proof fn law_added_miner_is_stored(rows: Seq<(String, Miner)>, miner: Miner)
    requires
        distinct_keys(rows),
        keyed_by_token(assoc(rows)),
    ensures
        token_map(row_miners(rows).push(miner)) == assoc(rows).insert(miner.token@, miner),
{
    law_stored_miners_come_back(rows);
    assert(row_miners(rows).push(miner).drop_last() =~= row_miners(rows));
}

/// Taking back what `add_miner` did leaves the members as they were before, also where the token
/// was in use.
pub proof fn law_undone_add_changes_nothing(rows: Seq<(String, Miner)>, miner: Miner)
    requires
        distinct_keys(rows),
        keyed_by_token(assoc(rows)),
    ensures
        token_map(before_last(row_miners(rows).push(miner))) == assoc(rows),
{
    law_stored_miners_come_back(rows);
    assert(row_miners(rows).push(miner).drop_last() =~= row_miners(rows));
}

/// Storing the members and reading them back changes nothing.
pub proof fn law_stored_miners_come_back(rows: Seq<(String, Miner)>)
    requires
        distinct_keys(rows),
        keyed_by_token(assoc(rows)),
    ensures
        token_map(row_miners(rows)) == assoc(rows),
{
    assert forall|i: int| 0 <= i < rows.len() implies (#[trigger] rows[i]).0@ == rows[i].1.token@ by {
        lemma_assoc_at(rows, i);
    }
    lemma_rows_by_token(rows);
}

/// A list read back knows a token exactly if one of its members has it, and gives it to the last
/// of those.
pub proof fn law_last_with_a_token_has_it(list: Seq<Miner>, token: Seq<char>)
    ensures
        token_map(list).dom().contains(token) <==> exists|i: int|
            0 <= i < list.len() && #[trigger] list[i].token@ == token,
        forall|i: int|
            0 <= i < list.len() && #[trigger] list[i].token@ == token && (forall|j: int|
                i < j < list.len() ==> #[trigger] list[j].token@ != token) ==> token_map(list)[token]
                == list[i],
    decreases list.len(),
{
    if list.len() > 0 {
        let front = list.drop_last();
        let last = list.len() - 1;
        law_last_with_a_token_has_it(front, token);
        if list[last].token@ == token {
            assert forall|i: int|
                0 <= i < list.len() && #[trigger] list[i].token@ == token && (forall|j: int|
                    i < j < list.len() ==> #[trigger] list[j].token@ != token) implies token_map(
                list,
            )[token] == list[i] by {
                if i < last {
                    assert(list[last].token@ != token);
                }
            }
        } else {
            if exists|i: int| 0 <= i < list.len() && #[trigger] list[i].token@ == token {
                let i = choose|i: int| 0 <= i < list.len() && #[trigger] list[i].token@ == token;
                assert(front[i].token@ == token);
            }
            if exists|i: int| 0 <= i < front.len() && #[trigger] front[i].token@ == token {
                let i = choose|i: int| 0 <= i < front.len() && #[trigger] front[i].token@ == token;
                assert(list[i].token@ == token);
            }
            assert forall|i: int|
                0 <= i < list.len() && #[trigger] list[i].token@ == token && (forall|j: int|
                    i < j < list.len() ==> #[trigger] list[j].token@ != token) implies token_map(
                list,
            )[token] == list[i] by {
                assert(front[i].token@ == token);
                assert forall|j: int| i < j < front.len() implies #[trigger] front[j].token@
                    != token by {
                    assert(list[j].token@ != token);
                }
            }
        }
    }
}

/// Rows hold their members in order, and a file all that it was written with, in either form.
pub proof fn law_no_member_is_left_out(rows: Seq<(String, Miner)>, list: Vec<Miner>)
    ensures
        row_miners(rows).len() == rows.len(),
        forall|i: int| 0 <= i < rows.len() ==> #[trigger] row_miners(rows)[i] == rows[i].1,
        file_list(MinersFile::Binary(list)) == list@,
        file_list(MinersFile::Json(list)) == list@,
        file_list(MinersFile::Missing).len() == 0,
{
}

/// The list of addresses has every member's, under the member's token, and no other.
pub proof fn law_address_book_is_whole(miners: Map<Seq<char>, Miner>, token: Seq<char>)
    ensures
        address_book(miners).dom().contains(token) <==> miners.dom().contains(token),
        miners.dom().contains(token) ==> address_book(miners)[token] == miners[token].mpn_addr.text@,
{
}

/// A list before its last addition is the list that was added to.
pub proof fn law_last_addition_is_taken_off(list: Seq<Miner>, miner: Miner)
    ensures
        before_last(list.push(miner)) == list,
        before_last(Seq::<Miner>::empty()).len() == 0,
{
    assert(list.push(miner).drop_last() =~= list);
}

} // verus!
