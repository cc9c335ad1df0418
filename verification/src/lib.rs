//! Flood: the verified core of a web fuzzer.
//!
//! Keyword substitution, wordlist handling, match/filter rules, recursion
//! bookkeeping, throttling arithmetic and result formatting live here with
//! their contracts; network and terminal I/O live in the application.
pub mod text;
pub mod fuzz;
pub mod wordlist;
pub mod cli;
pub mod recursion;
pub mod filter;
pub mod colors;
pub mod output;
pub mod rate_limiter;
pub mod requester;
pub mod state;
pub mod scan;
pub mod control;
pub mod banner;
