//! Pileup aggregation and ambiguity filtering for aligned sequencing reads.
pub mod category;
pub mod pileup;
pub mod config;
pub mod column;
pub mod filter;
pub mod region;
pub mod ambig;
pub mod depth;
