//! Read-only pricing for a multi-pool automated market maker: forward and
//! reverse swap simulation over constant-product and stable pools, and
//! multi-hop composition of swaps.
pub mod arith;
pub mod types;
pub mod fees;
pub mod stable;
pub mod swap;
pub mod queries;
