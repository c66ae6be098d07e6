//! Pushed-down expression evaluation for a distributed storage node.
//!
//! A storage node receives query fragments as expression trees and must
//! evaluate them against individual rows locally, under SQL three-valued
//! logic.  The crate provides the typed scalar value model ([`datum`]),
//! the byte codec for literals and value lists ([`codec`]), the immutable
//! expression tree ([`expr`]), the row-scoped evaluator ([`evaluator`]),
//! and the local key layout of the store ([`keys`]).

pub mod codec;
pub mod datum;
pub mod error;
pub mod evaluator;
pub mod expr;
pub mod keys;
pub mod text;
