//! Shanten (distance-to-completion) and wait analysis for mahjong hands.
//!
//! A hand is a sorted multiset of concealed tiles plus a list of declared
//! open groups.  The library decomposes the concealed tiles into groups
//! under three completion patterns, computes the minimal shanten number,
//! and derives, for every candidate discard, the set of tiles that would
//! bring the hand closer to completion together with how many copies of
//! each remain unseen.

pub mod tile;
pub mod mentsu;
pub mod error;
pub mod tehai;
pub mod decomp;
pub mod search;
pub mod shanten;
pub mod machi;
pub mod haiyama;
pub mod game;
pub mod laws;
