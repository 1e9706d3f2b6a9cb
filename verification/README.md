# Uzi Pool

A mining pool that pays per last N shares (PPLNS), for the Ziesha chain and its RandomX puzzles.

Members ask the pool for the puzzle in hand, with an easier target than the block's, and hand in
nonces. A nonce whose header hashes below the easier target is a share. When a share also solves
the block, the block's reward, less the owner's part, is divided evenly over the last N shares.
The rewards are paid some blocks later, if the block is still in the chain.

## Layout

- `src/` holds the pool's rules and is verified with Verus:
  - `difficulty`: when a hash meets a target
  - `job`: which nonces become shares, and which shares count
  - `rewards`: how a reward is divided
  - `solution`: from a nonce that is handed in to a solved block
  - `context`: requests, authorization, and new puzzles
  - `miners`, `token`: the members and their tokens
  - `history`, `payout`: when solved blocks are paid, with which transactions, and which of them
    are to be sent
  - `hexadecimal`, `json`, `text`, `table`, `types`, `response`, `error`: what these rest on
- `app/` is the program around it: the HTTP server, the client of the node, the wallet, the files
  and their formats, the hash function, and what is computed in floating point (the easier target
  and the owner's part)
- `tests/` runs the library on examples

## Laws

Public proof functions whose names begin with `law_` state what holds of several operations
together: that the shares that count are always the last accepted ones, that a nonce counts once,
that what is paid never exceeds the reward, that a member may mine from the moment of being added
and stays when others are added, and more.
