//! Task avoidance: the reference shaping that lets only a safe goal reach the law.

use vstd::prelude::*;

verus! {

/// The goal-side half of keep-out avoidance; it carries no state of its own.
#[derive(Clone, Copy, Debug, Default)]
pub struct TaskAvoidance;

} // verus!
