//! The queue of tiles awaiting a worker.
//!
//! Workers share one queue and advance a single claim position. `claim`
//! hands out the tile at that position and moves past it, so over a whole
//! render every tile is handed out exactly once, in queue order: after each
//! call the claimed prefix has grown by exactly the returned tile. The
//! caller is responsible for making claims mutually exclusive when the queue
//! is shared between threads; the contract here describes each single claim.

use crate::tile::Work;
use vstd::prelude::*;

verus! {

/// A queue of tiles and the position of the next tile to hand out.
#[derive(PartialEq, Debug)]
pub struct WorkQueue {
    pub tiles: Vec<Work>,
    pub next_tile: usize,
}

impl WorkQueue {
    /// The claim position never passes the end of the queue.
    pub open spec fn wf(self) -> bool {
        self.next_tile <= self.tiles@.len()
    }

    /// The tiles already handed out, in the order they were handed out.
    pub open spec fn claimed(self) -> Seq<Work> {
        self.tiles@.take(self.next_tile as int)
    }

    /// The tiles not yet handed out, in the order they will be handed out.
    pub open spec fn remaining(self) -> Seq<Work> {
        self.tiles@.skip(self.next_tile as int)
    }

    /// A fresh queue over `tiles` with nothing claimed yet.
    pub fn new(tiles: Vec<Work>) -> (q: WorkQueue)
        ensures
            q.wf(),
            q.tiles == tiles,
            q.next_tile == 0,
            q.claimed() == Seq::<Work>::empty(),
    {
        let q = WorkQueue { tiles, next_tile: 0 };
        proof {
            assert(q.claimed() =~= Seq::<Work>::empty());
        }
        q
    }

    /// Hands out the next unclaimed tile, or `None` once every tile has been
    /// handed out. Each tile of the queue is returned by exactly one claim.
    pub fn claim(&mut self) -> (r: Option<Work>)
        requires
            old(self).wf(),
        ensures
            final(self).wf(),
            final(self).tiles == old(self).tiles,
            old(self).next_tile < old(self).tiles@.len() ==> {
                &&& r == Some(old(self).tiles@[old(self).next_tile as int])
                &&& final(self).next_tile == old(self).next_tile + 1
                &&& final(self).claimed() == old(self).claimed().push(
                    old(self).tiles@[old(self).next_tile as int],
                )
            },
            old(self).next_tile >= old(self).tiles@.len() ==> {
                &&& r is None
                &&& *final(self) == *old(self)
            },
    {
        if self.next_tile < self.tiles.len() {
            let t = self.tiles[self.next_tile];
            self.next_tile = self.next_tile + 1;
            proof {
                assert(self.tiles@.take(self.next_tile as int) =~= self.tiles@.take(
                    self.next_tile as int - 1,
                ).push(t));
            }
            Some(t)
        } else {
            None
        }
    }

    /// How many tiles are still unclaimed.
    pub fn remaining_count(&self) -> (n: usize)
        requires
            self.wf(),
        ensures
            n == self.remaining().len(),
    {
        self.tiles.len() - self.next_tile
    }
}

} // verus!
