//! The injected random source used for reward placement.
//!
//! The engine itself is deterministic; the one point of non-determinism,
//! drawing a candidate reward cell, is supplied by the host through this
//! capability so the engine stays testable under a scripted source.

use vstd::prelude::*;

verus! {

/// A source of uniform draws, supplied by the host. The engine calls it only
/// for reward placement and relies on nothing beyond the stated range.
pub trait RandomSource {
    /// Draw an integer in `[0, max_exclusive)`.
    fn draw(&mut self, max_exclusive: usize) -> (r: usize)
        requires
            max_exclusive >= 1,
        ensures
            r < max_exclusive,
    ;
}

/// A deterministic source that replays a fixed script of draws, for driving
/// the engine in tests. Each scripted value is reduced modulo the requested
/// bound; once the script is exhausted every draw is zero.
pub struct ScriptedSource {
    /// The scripted draws, replayed in order.
    pub values: Vec<usize>,
    /// How many draws have been taken so far.
    pub pos: usize,
}

impl ScriptedSource {
    /// A source that will replay `values` in order.
    pub fn new(values: Vec<usize>) -> (s: ScriptedSource)
        ensures
            s.values@ == values@,
            s.pos == 0,
    {
        ScriptedSource { values, pos: 0 }
    }
}

impl RandomSource for ScriptedSource {
    fn draw(&mut self, max_exclusive: usize) -> (r: usize) {
        let v: usize = if self.pos < self.values.len() {
            let v = self.values[self.pos];
            self.pos = self.pos + 1;
            v
        } else {
            0
        };
        v % max_exclusive
    }
}

} // verus!
