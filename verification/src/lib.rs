//! The decisions of a mining pool that pays per last N shares: which nonces are shares, which
//! shares count, how the reward of a block is divided, and when and how it is paid.

pub mod context;
pub mod difficulty;
pub mod error;
pub mod hexadecimal;
pub mod history;
pub mod job;
pub mod json;
pub mod miners;
pub mod payout;
pub mod response;
pub mod rewards;
pub mod solution;
pub mod table;
pub mod text;
pub mod token;
pub mod types;
