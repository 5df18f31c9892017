use vstd::prelude::*;

pub mod env;
pub mod store;
pub mod accounts;
pub mod engine;
pub mod transaction;
pub mod rlp;
pub mod codec;
pub mod submit;
pub mod bridge;
pub mod keccak;
pub mod laws;

verus! {

// The key space (`store`), accounts with generational storage (`accounts`),
// the configuration and upgrade protocol (`engine`), transactions and their
// wire encoding (`transaction`, `rlp`, `codec`), admission, gas accounting and
// commit (`submit`), the token bridge (`bridge`), and the laws they obey
// (`laws`).

} // verus!
