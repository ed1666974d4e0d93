//! A verified Conway's Game of Life engine on a bounded rectangular grid.
//!
//! The board is a row-major sequence of cells together with a row width.
//! One step of the simulation scans the whole board against its state at
//! the start of the step, records the cells that change, and only then
//! commits those changes, so that no neighbor count ever reads a
//! partially updated generation.

pub mod game;
pub mod grid;
mod rng;

use vstd::prelude::*;
use vstd::string::StringExecFns;

verus! {

/// The greeting text that a host binding shows for `name`.
pub fn greeting(name: &str) -> (r: String)
    ensures
        r@ == "Hello, "@ + name@,
{
    let mut s = String::new();
    s.append("Hello, ");
    s.append(name);
    s
}

} // verus!
