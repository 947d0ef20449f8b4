//! Rate-limited, retrying dispatch of templated HTTP requests.
//!
//! The library holds the decisions of the dispatch engine: turning a request
//! skeleton and a wordlist entry into a concrete request, pacing and retrying
//! within each lane, and judging each outcome. The caller performs the I/O.
pub mod lane;
pub mod template;
pub mod head;
pub mod request;
pub mod verdict;
pub mod run;
pub mod wordlist;
