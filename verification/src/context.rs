//! What the pool knows at a time, how it answers requests, and how it takes up a puzzle.

use crate::error::PoolError;
use crate::hexadecimal::{hex_decode, hex_text};
use crate::job::{fresh_job, Job, JobView};
use crate::json::json_object;
use crate::miners::{
    address_book, before_last, keyed_by_token, law_undone_add_changes_nothing,
    lemma_list_names_all, lists_all, miners_json, register_miner, row_miners, token_map, undo_add,
    Miners,
};
use crate::response::{empty_response, forbidden_response, json_response, Response};
use crate::text::same_text;
use crate::table::{assoc, distinct_keys};
use crate::token::{
    fetch_miner_token, header_text_of, is_miner_token, law_token_survives_header,
};
use crate::types::{
    puzzle_view, same_bytes, AddMinerResponse, Miner, MpnAddress, Puzzle, PuzzleView, PuzzleWrapper,
};
use vstd::prelude::*;

verus! {

/// The state of the pool.
pub struct MinerContext {
    /// The key that the hash function was set up with.
    pub hasher_key: Vec<u8>,
    pub current_job: Option<Job>,
    pub eligible_miners: Miners,
}

#[verifier::ext_equal]
pub struct MinerContextView {
    pub hasher_key: Seq<u8>,
    pub current_job: Option<JobView>,
    pub eligible_miners: Map<Seq<char>, Miner>,
}

impl View for MinerContext {
    type V = MinerContextView;

    open spec fn view(&self) -> MinerContextView {
        MinerContextView {
            hasher_key: self.hasher_key@,
            current_job: match self.current_job {
                Some(job) => Some(job@),
                None => None,
            },
            eligible_miners: self.eligible_miners@,
        }
    }
}

impl MinerContextView {
    /// Each member stands under the own token, and the shares of the job in hand have different
    /// nonces, all of them noted.
    pub open spec fn wf(self) -> bool {
        &&& keyed_by_token(self.eligible_miners)
        &&& self.current_job matches Some(job) ==> job.wf()
    }

    /// The puzzle in hand.
    pub open spec fn puzzle(self) -> Option<PuzzleView> {
        match self.current_job {
            Some(job) => Some(job.puzzle),
            None => None,
        }
    }
}

/// What a request asks for, and whether it is granted.
pub enum Route {
    /// Refused.
    Forbidden,
    /// The list of members.
    ListMiners,
    /// A new member.
    RegisterMiner,
    /// The puzzle in hand, for a member.
    OfferPuzzle,
    /// A nonce from this member.
    TakeSolution(Miner),
    /// Nothing that the pool knows.
    Unknown,
}

/// The member that a token stands for.
pub open spec fn known_miner(miners: Map<Seq<char>, Miner>, token: Option<Seq<char>>) -> Option<
    Miner,
> {
    match token {
        Some(t) => if miners.dom().contains(t) {
            Some(miners[t])
        } else {
            None
        },
        None => None,
    }
}

/// How a request is taken: members are listed and added only for the pool's own machine, and
/// puzzles and nonces are only for members.
pub open spec fn route(
    miners: Map<Seq<char>, Miner>,
    path: Seq<char>,
    token: Option<Seq<char>>,
    is_local: bool,
) -> Route {
    if path == "/get-miners"@ {
        if is_local {
            Route::ListMiners
        } else {
            Route::Forbidden
        }
    } else if path == "/add-miner"@ {
        if is_local {
            Route::RegisterMiner
        } else {
            Route::Forbidden
        }
    } else if path == "/miner/puzzle"@ {
        match known_miner(miners, token) {
            Some(_) => Route::OfferPuzzle,
            None => Route::Forbidden,
        }
    } else if path == "/miner/solution"@ {
        match known_miner(miners, token) {
            Some(miner) => Route::TakeSolution(miner),
            None => Route::Forbidden,
        }
    } else {
        Route::Unknown
    }
}

/// The text in the token header of a request, where it has that header.
pub open spec fn shown_token(header: Option<&[u8]>) -> Option<Seq<char>> {
    match header {
        Some(value) => header_text_of(value@),
        None => None,
    }
}

/// What is to be done about a request.
pub enum Step {
    /// Answer this.
    Respond(Response),
    /// Read the address of the new member, and add it.
    RegisterMiner,
    /// Answer with this puzzle, its target made easier.
    OfferPuzzle(PuzzleWrapper),
    /// Read the nonce, and take it from this member.
    TakeSolution(Miner),
}

/// What comes of a new answer to the question for a puzzle.
#[derive(Debug, Clone, Copy, PartialEq, Eq)]
pub enum PuzzleNews {
    /// The puzzle is the one in hand, or there is still none.
    Unchanged,
    /// There is no puzzle any more.
    NoPuzzle,
    /// There is a new puzzle; the hash function stays as it is set up.
    Started,
    /// There is a new puzzle, and the hash function is to be set up with its key.
    StartedWithNewKey,
}

/// What comes of an answer of the node.
pub open spec fn puzzle_news(ctx: MinerContextView, puzzle: Option<PuzzleView>) -> Result<
    PuzzleNews,
    PoolError,
> {
    if ctx.puzzle() == puzzle {
        Ok(PuzzleNews::Unchanged)
    } else {
        match puzzle {
            None => Ok(PuzzleNews::NoPuzzle),
            Some(p) => match hex_text(p.key) {
                Err(e) => Err(PoolError::FromHexError(e)),
                Ok(key) => if key == ctx.hasher_key {
                    Ok(PuzzleNews::Started)
                } else {
                    Ok(PuzzleNews::StartedWithNewKey)
                },
            },
        }
    }
}

/// The state after an answer of the node: a puzzle other than the one in hand starts a job
/// without shares, and its key, where it can be read, is the key of the hash function.
pub open spec fn after_puzzle(
    ctx: MinerContextView,
    puzzle: Option<PuzzleView>,
) -> MinerContextView {
    if ctx.puzzle() == puzzle {
        ctx
    } else {
        match puzzle {
            None => MinerContextView { current_job: None, ..ctx },
            Some(p) => MinerContextView {
                current_job: Some(fresh_job(p)),
                hasher_key: match hex_text(p.key) {
                    Ok(key) => key,
                    Err(_) => ctx.hasher_key,
                },
                ..ctx
            },
        }
    }
}

/// The state with this member under the member's token.
pub open spec fn with_member(ctx: MinerContextView, miner: Miner) -> MinerContextView {
    MinerContextView { eligible_miners: ctx.eligible_miners.insert(miner.token@, miner), ..ctx }
}

/// The state when the addition of the last member of a list is taken back.
pub open spec fn without_registration(ctx: MinerContextView, list: Seq<Miner>) -> MinerContextView {
    MinerContextView { eligible_miners: token_map(before_last(list)), ..ctx }
}

/// The step is what the request calls for.
pub open spec fn answered(
    ctx: MinerContextView,
    path: Seq<char>,
    token_header: Option<&[u8]>,
    client_is_loopback: Option<bool>,
    step: Step,
) -> bool {
    match route(
        ctx.eligible_miners,
        path,
        shown_token(token_header),
        client_is_loopback.unwrap_or(true),
    ) {
        Route::Forbidden => step matches Step::Respond(r) && r@ == forbidden_response(),
        Route::ListMiners => step matches Step::Respond(r) && r@ == json_response(
            json_object(address_book(ctx.eligible_miners)),
        ),
        Route::RegisterMiner => step is RegisterMiner,
        Route::OfferPuzzle => step matches Step::OfferPuzzle(w) && puzzle_view(w.puzzle)
            == ctx.puzzle(),
        Route::TakeSolution(miner) => step == Step::TakeSolution(miner),
        Route::Unknown => step matches Step::Respond(r) && r@ == empty_response(),
    }
}

impl MinerContext {
    /// The state at the start.
    pub fn new(eligible_miners: Miners) -> (r: MinerContext)
        ensures
            r@.hasher_key.len() == 0,
            r@.current_job is None,
            r@.eligible_miners == eligible_miners@,
            keyed_by_token(eligible_miners@) ==> r@.wf(),
    {
        MinerContext { hasher_key: Vec::new(), current_job: None, eligible_miners }
    }

    /// Decides about a request: by its path, the value of its token header, and whether it comes
    /// from the pool's own machine, which is taken for granted where that is not known.
    pub fn process_request(
        &self,
        path: &str,
        token_header: Option<&[u8]>,
        client_is_loopback: Option<bool>,
    ) -> (r: Step)
        ensures
            match route(
                self@.eligible_miners,
                path@,
                shown_token(token_header),
                client_is_loopback.unwrap_or(true),
            ) {
                Route::Forbidden => r matches Step::Respond(resp) && resp@ == forbidden_response(),
                Route::ListMiners => r matches Step::Respond(resp) && resp@ == json_response(
                    json_object(address_book(self@.eligible_miners)),
                ),
                Route::RegisterMiner => r is RegisterMiner,
                Route::OfferPuzzle => r matches Step::OfferPuzzle(wrapper) && puzzle_view(
                    wrapper.puzzle,
                ) == self@.puzzle(),
                Route::TakeSolution(miner) => r == Step::TakeSolution(miner),
                Route::Unknown => r matches Step::Respond(resp) && resp@ == empty_response(),
            },
            answered(self@, path@, token_header, client_is_loopback, r),
    {
        let miner: Option<Miner> = match fetch_miner_token(token_header) {
            Some(token) => match self.eligible_miners.get(&token) {
                Some(miner) => Some(miner.clone()),
                None => None,
            },
            None => None,
        };
        let is_local: bool = client_is_loopback.unwrap_or(true);
        if same_text(path, "/get-miners") {
            if !is_local {
                Step::Respond(Response::forbidden())
            } else {
                Step::Respond(Response::json(miners_json(&self.eligible_miners)))
            }
        } else if same_text(path, "/add-miner") {
            if !is_local {
                Step::Respond(Response::forbidden())
            } else {
                Step::RegisterMiner
            }
        } else if same_text(path, "/miner/puzzle") {
            if miner.is_none() {
                Step::Respond(Response::forbidden())
            } else {
                let puzzle: Option<Puzzle> = match &self.current_job {
                    Some(job) => Some(job.puzzle.clone()),
                    None => None,
                };
                Step::OfferPuzzle(PuzzleWrapper { puzzle })
            }
        } else if same_text(path, "/miner/solution") {
            match miner {
                Some(miner) => Step::TakeSolution(miner),
                None => Step::Respond(Response::forbidden()),
            }
        } else {
            Step::Respond(Response::empty())
        }
    }

    /// Takes in a member under a new token. What comes back is the list to store, which stands
    /// for the members as they now are, and the answer to who asked.
    pub fn register_miner(&mut self, mpn_addr: MpnAddress) -> (r: (Vec<Miner>, AddMinerResponse))
        ensures
            is_miner_token(r.1.miner_token@),
            r.0@ == row_miners(old(self).eligible_miners.entries()).push(
                Miner { token: r.1.miner_token, mpn_addr },
            ),
            final(self)@ == with_member(
                old(self)@,
                Miner { token: r.1.miner_token, mpn_addr },
            ),
            lists_all(r.0@, final(self)@.eligible_miners),
            old(self)@.wf() ==> final(self)@.wf() && token_map(r.0@)
                == final(self)@.eligible_miners,
    {
        register_miner(&mut self.eligible_miners, mpn_addr)
    }

    /// Takes back a registration whose list, `list`, could not be stored: the members are those
    /// that the list names before its last.
    pub fn undo_registration(&mut self, list: Vec<Miner>)
        ensures
            final(self)@ == without_registration(old(self)@, list@),
            old(self)@.wf() ==> final(self)@.wf(),
    {
        self.eligible_miners = undo_add(list);
    }

    /// Takes up what the node gives as the puzzle. A puzzle other than the one in hand starts a
    /// job without shares; that happens also where its key is not hexadecimal, which is an error.
    pub fn new_puzzle(&mut self, req: PuzzleWrapper) -> (r: Result<PuzzleNews, PoolError>)
        ensures
            r == puzzle_news(old(self)@, puzzle_view(req.puzzle)),
            final(self)@ == after_puzzle(old(self)@, puzzle_view(req.puzzle)),
            old(self)@.wf() ==> final(self)@.wf(),
    {
        let unchanged: bool = match (&self.current_job, &req.puzzle) {
            (Some(job), Some(puzzle)) => job.puzzle.same(puzzle),
            (None, None) => true,
            _ => false,
        };
        if unchanged {
            return Ok(PuzzleNews::Unchanged);
        }
        match req.puzzle {
            Some(puzzle) => {
                let key = hex_decode(puzzle.key.as_str());
                self.current_job = Some(Job::new(puzzle));
                match key {
                    Ok(key) => {
                        if same_bytes(&self.hasher_key, &key) {
                            Ok(PuzzleNews::Started)
                        } else {
                            self.hasher_key = key;
                            Ok(PuzzleNews::StartedWithNewKey)
                        }
                    },
                    Err(e) => Err(PoolError::FromHexError(e)),
                }
            },
            None => {
                self.current_job = None;
                Ok(PuzzleNews::NoPuzzle)
            },
        }
    }

    /// Leaves the job in hand, once its block is on record.
    pub fn finish_job(&mut self)
        ensures
            final(self)@ == (MinerContextView { current_job: None, ..old(self)@ }),
            old(self)@.wf() ==> final(self)@.wf(),
    {
        self.current_job = None;
    }
}

/// Asking the node again, while it gives the same puzzle, changes nothing: the job keeps its
/// shares, and no error comes a second time.
pub proof fn law_same_puzzle_keeps_job(ctx: MinerContextView, puzzle: Option<PuzzleView>)
    ensures
        after_puzzle(after_puzzle(ctx, puzzle), puzzle) == after_puzzle(ctx, puzzle),
        puzzle_news(after_puzzle(ctx, puzzle), puzzle) == Ok::<PuzzleNews, PoolError>(
            PuzzleNews::Unchanged,
        ),
        after_puzzle(ctx, puzzle).puzzle() == puzzle,
        after_puzzle(ctx, puzzle).eligible_miners == ctx.eligible_miners,
{
}

/// From another machine, members are neither listed nor added, whatever token is shown.
pub proof fn law_only_local_manages_miners(
    miners: Map<Seq<char>, Miner>,
    path: Seq<char>,
    token: Option<Seq<char>>,
)
    requires
        path == "/get-miners"@ || path == "/add-miner"@,
    ensures
        route(miners, path, token, false) is Forbidden,
        !(route(miners, path, token, true) is Forbidden),
{
}

/// Puzzles and nonces are refused exactly if the request shows no token or one that is no
/// member's, wherever it comes from.
pub proof fn law_only_members_mine(
    miners: Map<Seq<char>, Miner>,
    path: Seq<char>,
    token: Option<Seq<char>>,
    is_local: bool,
)
    requires
        path == "/miner/puzzle"@ || path == "/miner/solution"@,
    ensures
        route(miners, path, token, is_local) is Forbidden <==> known_miner(miners, token) is None,
{
    reveal_strlit("/get-miners");
    reveal_strlit("/add-miner");
    reveal_strlit("/miner/puzzle");
    reveal_strlit("/miner/solution");
    assert(path[1] == 'm');
    assert("/get-miners"@[1] == 'g');
    assert("/add-miner"@[1] == 'a');
}

/// A new member may mine: from the moment of being added, a request that shows the bytes of the
/// member's token is taken as the member's, and the puzzle in hand is the one that it was.
pub proof fn law_new_member_may_mine(ctx: MinerContextView, miner: Miner, is_local: bool)
    requires
        is_miner_token(miner.token@),
    ensures
        ({
            let miners = with_member(ctx, miner).eligible_miners;
            let token = header_text_of(vstd::utf8::encode_utf8(miner.token@));
            &&& route(miners, "/miner/puzzle"@, token, is_local) is OfferPuzzle
            &&& route(miners, "/miner/solution"@, token, is_local) == Route::TakeSolution(miner)
        }),
        with_member(ctx, miner).puzzle() == ctx.puzzle(),
{
    law_token_survives_header(miner.token@);
    reveal_strlit("/get-miners");
    reveal_strlit("/add-miner");
    reveal_strlit("/miner/puzzle");
    reveal_strlit("/miner/solution");
    assert("/get-miners"@[1] == 'g');
    assert("/add-miner"@[1] == 'a');
    assert("/miner/puzzle"@[1] == 'm');
    assert("/miner/puzzle"@[7] == 'p');
    assert("/miner/solution"@[1] == 'm');
    assert("/miner/solution"@[7] == 's');
}

/// A registration that is taken back changes nothing, also where chance gave the new member a
/// token in use. `rows` are the members before the registration.
pub proof fn law_undone_registration_changes_nothing(
    ctx: MinerContextView,
    rows: Seq<(String, Miner)>,
    miner: Miner,
)
    requires
        ctx.wf(),
        distinct_keys(rows),
        assoc(rows) == ctx.eligible_miners,
    ensures
        without_registration(with_member(ctx, miner), row_miners(rows).push(miner)) == ctx,
{
    law_undone_add_changes_nothing(rows, miner);
}

/// Adding a member drops none: when a second is added after a first, the list that is stored then
/// names both. Both are known by their tokens, unless chance gave them the same one, and nothing
/// changes for other tokens. `rows` are the members at the time of the second addition.
pub proof fn law_added_members_stay(
    ctx: MinerContextView,
    first: Miner,
    second: Miner,
    rows: Seq<(String, Miner)>,
)
    requires
        distinct_keys(rows),
        assoc(rows) == with_member(ctx, first).eligible_miners,
    ensures
        row_miners(rows).push(second).contains(first),
        row_miners(rows).push(second).contains(second),
        ({
            let miners = with_member(with_member(ctx, first), second).eligible_miners;
            &&& known_miner(miners, Some(second.token@)) == Some(second)
            &&& first.token@ != second.token@ ==> known_miner(miners, Some(first.token@)) == Some(
                first,
            )
            &&& forall|token: Seq<char>|
                token != first.token@ && token != second.token@ ==> #[trigger] known_miner(
                    miners,
                    Some(token),
                ) == known_miner(ctx.eligible_miners, Some(token))
        }),
{
    lemma_list_names_all(rows, second);
    assert(assoc(rows).dom().contains(first.token@));
    let after = assoc(rows).insert(second.token@, second);
    assert(after.dom().contains(second.token@));
}

/// A puzzle other than the one in hand is taken up whole: its job has no shares and no nonces, and
/// its key, where it can be read, is the key of the hash function, whatever key was set up before.
/// The answer is that the key is new exactly if it differs from the one before; a key that cannot
/// be read is an error, and leaves the one before. Members are not touched.
pub proof fn law_puzzle_is_taken_up(ctx: MinerContextView, puzzle: PuzzleView)
    requires
        ctx.current_job matches Some(job) ==> job.puzzle != puzzle,
    ensures
        ({
            let next = after_puzzle(ctx, Some(puzzle));
            let news = puzzle_news(ctx, Some(puzzle));
            &&& next.current_job matches Some(job)
            &&& job.puzzle == puzzle
            &&& job.shares.len() == 0
            &&& forall|nonce: Seq<char>| !#[trigger] job.nonces.contains(nonce)
            &&& next.eligible_miners == ctx.eligible_miners
            &&& hex_text(puzzle.key) matches Ok(key) ==> {
                &&& next.hasher_key == key
                &&& news matches Ok(n)
                &&& n == PuzzleNews::StartedWithNewKey <==> next.hasher_key != ctx.hasher_key
                &&& n == PuzzleNews::Started <==> next.hasher_key == ctx.hasher_key
            }
            &&& hex_text(puzzle.key) matches Err(e) ==> {
                &&& next.hasher_key == ctx.hasher_key
                &&& news == Err::<PuzzleNews, PoolError>(PoolError::FromHexError(e))
            }
        }),
{
}

/// The puzzle in hand is left as it is, with its shares; where there is no puzzle the job in hand
/// ends, and the key of the hash function and the members stay.
pub proof fn law_other_answers_of_the_node(ctx: MinerContextView)
    ensures
        ctx.current_job matches Some(job) ==> {
            &&& after_puzzle(ctx, Some(job.puzzle)) == ctx
            &&& puzzle_news(ctx, Some(job.puzzle)) == Ok::<PuzzleNews, PoolError>(
                PuzzleNews::Unchanged,
            )
            &&& puzzle_news(ctx, None) == Ok::<PuzzleNews, PoolError>(PuzzleNews::NoPuzzle)
        },
        ctx.current_job is None ==> puzzle_news(ctx, None) == Ok::<PuzzleNews, PoolError>(
            PuzzleNews::Unchanged,
        ),
        after_puzzle(ctx, None).current_job is None,
        after_puzzle(ctx, None).hasher_key == ctx.hasher_key,
        after_puzzle(ctx, None).eligible_miners == ctx.eligible_miners,
{
}

/// Which key is set up depends on the last puzzle alone: two pools that take up the same puzzles
/// one after the other end with the same key, if the key of the last can be read and it is not
/// the one in hand.
pub proof fn law_last_key_is_set_up(
    a: MinerContextView,
    b: MinerContextView,
    first: PuzzleView,
    second: PuzzleView,
)
    requires
        first != second,
        hex_text(second.key) is Ok,
    ensures
        after_puzzle(after_puzzle(a, Some(first)), Some(second)).hasher_key == after_puzzle(
            after_puzzle(b, Some(first)),
            Some(second),
        ).hasher_key,
        after_puzzle(after_puzzle(a, Some(first)), Some(second)).hasher_key == hex_text(
            second.key,
        )->Ok_0,
{
}

proof fn lemma_paths_differ()
    ensures
        "/get-miners"@ != "/add-miner"@,
        "/get-miners"@ != "/miner/puzzle"@,
        "/get-miners"@ != "/miner/solution"@,
        "/add-miner"@ != "/miner/puzzle"@,
        "/add-miner"@ != "/miner/solution"@,
        "/miner/puzzle"@ != "/miner/solution"@,
{
    reveal_strlit("/get-miners");
    reveal_strlit("/add-miner");
    reveal_strlit("/miner/puzzle");
    reveal_strlit("/miner/solution");
    assert("/get-miners"@[1] == 'g');
    assert("/add-miner"@[1] == 'a');
    assert("/miner/puzzle"@[1] == 'm');
    assert("/miner/puzzle"@[7] == 'p');
    assert("/miner/solution"@[1] == 'm');
    assert("/miner/solution"@[7] == 's');
}

/// Members are listed and added for whoever is not known to be on another machine, and nobody
/// else; the list has every member's address.
pub proof fn law_members_are_managed_locally(
    ctx: MinerContextView,
    path: Seq<char>,
    token_header: Option<&[u8]>,
    client_is_loopback: Option<bool>,
    step: Step,
)
    requires
        answered(ctx, path, token_header, client_is_loopback, step),
    ensures
        path == "/get-miners"@ ==> (step matches Step::Respond(r) && if client_is_loopback == Some(
            false,
        ) {
            r@.status == 403 && r@.body.len() == 0
        } else {
            r@.status == 200 && r@.body == json_object(
                ctx.eligible_miners.map_values(|m: Miner| m.mpn_addr.text@),
            )
        }),
        path == "/add-miner"@ ==> if client_is_loopback == Some(false) {
            step matches Step::Respond(r) && r@.status == 403 && r@.body.len() == 0
        } else {
            step is RegisterMiner
        },
{
    lemma_paths_differ();
    let book = ctx.eligible_miners.map_values(|m: Miner| m.mpn_addr.text@);
    assert(address_book(ctx.eligible_miners) =~= book);
}

/// Whoever shows the token of a member, in a header that can be read, is offered the puzzle in
/// hand and may hand in nonces as that member, from any machine; whoever shows none, or another,
/// is refused.
pub proof fn law_members_mine_by_token(
    ctx: MinerContextView,
    path: Seq<char>,
    token_header: Option<&[u8]>,
    client_is_loopback: Option<bool>,
    step: Step,
)
    requires
        path == "/miner/puzzle"@ || path == "/miner/solution"@,
        answered(ctx, path, token_header, client_is_loopback, step),
    ensures
        ({
            let refused = step matches Step::Respond(r) && r@.status == 403 && r@.body.len() == 0;
            match token_header {
                None => refused,
                Some(value) => match header_text_of(value@) {
                    None => refused,
                    Some(token) => if !ctx.eligible_miners.dom().contains(token) {
                        refused
                    } else if path == "/miner/solution"@ {
                        step == Step::TakeSolution(ctx.eligible_miners[token])
                    } else {
                        step matches Step::OfferPuzzle(w) && match w.puzzle {
                            Some(p) => ctx.current_job matches Some(job) && job.puzzle == p@,
                            None => ctx.current_job is None,
                        }
                    },
                },
            }
        }),
{
    lemma_paths_differ();
}

/// Any other path is answered with success and nothing in it.
pub proof fn law_other_paths_do_nothing(
    ctx: MinerContextView,
    path: Seq<char>,
    token_header: Option<&[u8]>,
    client_is_loopback: Option<bool>,
    step: Step,
)
    requires
        path != "/get-miners"@,
        path != "/add-miner"@,
        path != "/miner/puzzle"@,
        path != "/miner/solution"@,
        answered(ctx, path, token_header, client_is_loopback, step),
    ensures
        step matches Step::Respond(r) && r@.status == 200 && r@.body.len() == 0,
{
}

/// Adding a member changes nothing but what the member's token stands for: the job in hand keeps
/// its shares, the key stays, and so does every other member.
pub proof fn law_adding_touches_one_token(ctx: MinerContextView, miner: Miner, other: Seq<char>)
    requires
        other != miner.token@,
    ensures
        ({
            let next = with_member(ctx, miner);
            &&& next.current_job == ctx.current_job
            &&& next.hasher_key == ctx.hasher_key
            &&& next.eligible_miners.dom().contains(miner.token@)
            &&& next.eligible_miners[miner.token@] == miner
            &&& next.eligible_miners.dom().contains(other) <==> ctx.eligible_miners.dom().contains(
                other,
            )
            &&& ctx.eligible_miners.dom().contains(other) ==> next.eligible_miners[other]
                == ctx.eligible_miners[other]
        }),
{
}

/// Taking back a registration touches the members alone.
pub proof fn law_undoing_touches_members_alone(ctx: MinerContextView, list: Seq<Miner>)
    ensures
        without_registration(ctx, list).current_job == ctx.current_job,
        without_registration(ctx, list).hasher_key == ctx.hasher_key,
{
}

/// The view of the state shows the key, the job where there is one, and the members.
pub proof fn law_context_view_is_whole(ctx: MinerContext)
    ensures
        ctx@.hasher_key == ctx.hasher_key@,
        ctx@.eligible_miners == ctx.eligible_miners@,
        ctx.current_job matches Some(job) ==> ctx@.current_job == Some(job@) && ctx@.puzzle()
            == Some(job.puzzle@),
        ctx.current_job is None ==> ctx@.current_job is None && ctx@.puzzle() is None,
{
}

} // verus!
