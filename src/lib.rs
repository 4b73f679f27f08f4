//! A proof-of-work captcha: challenge tokens, their solver and validator, and
//! the decisions of a form that fetches and solves a challenge before it
//! submits.
//!
//! `codec` reads and writes the tokens, `work` issues and solves challenges
//! through spow, `validate` checks solutions with an optional anti-replay set,
//! and `dispatch` holds the three-state cycle that a form goes through.
use vstd::prelude::*;

pub mod codec;
pub mod decimal;
pub mod dispatch;
pub mod validate;
pub mod work;

verus! {

} // verus!
