//! Append-only, growable pools of semantic nodes.
//!
//! One arena exists per node kind; it owns every node of that kind for the
//! whole compilation run. A node, once allocated, never moves, is never
//! mutated in place and is never freed individually, so the identifier
//! (its index) handed out by `allocate` stays valid and denotes the same
//! value for the remainder of the session. No deletion operation exists.

use vstd::prelude::*;

verus! {

/// An append-only pool of nodes of one kind, addressed by index.
pub struct Arena<T> {
    items: Vec<T>,
}

impl<T> View for Arena<T> {
    type V = Seq<T>;

    closed spec fn view(&self) -> Seq<T> {
        self.items@
    }
}

impl<T> Arena<T> {
    /// Create an empty arena.
    pub fn new() -> (a: Arena<T>)
        ensures
            a@ == Seq::<T>::empty(),
    {
        Arena { items: Vec::new() }
    }

    /// The number of nodes allocated so far.
    pub fn len(&self) -> (n: usize)
        ensures
            n == self@.len(),
    {
        self.items.len()
    }

    /// Insert a node and return its stable index. The arena only grows:
    /// every previously allocated node keeps its index and its value.
    pub fn allocate(&mut self, value: T) -> (i: usize)
        ensures
            final(self)@ == old(self)@.push(value),
            i == old(self)@.len(),
    {
        let i = self.items.len();
        self.items.push(value);
        i
    }

    /// Dereference an index. Requesting an index never returned by `allocate`
    /// on this arena is a contract violation (a defect in the compiler,
    /// not a recoverable diagnostic), which this precondition excludes.
    pub fn get(&self, i: usize) -> (r: &T)
        requires
            i < self@.len(),
        ensures
            *r == self@[i as int],
    {
        &self.items[i]
    }
}

/// Whether `post` carries everything `pre` does, unchanged and at the
/// same positions, with possibly more behind it. Every arena operation
/// leaves the arena's contents extending what they were.
pub open spec fn seq_extends<T>(pre: Seq<T>, post: Seq<T>) -> bool {
    &&& pre.len() <= post.len()
    &&& forall|i: int| 0 <= i < pre.len() ==> post[i] == #[trigger] pre[i]
}

/// Extension composes.
pub proof fn lemma_seq_extends_trans<T>(a: Seq<T>, b: Seq<T>, c: Seq<T>)
    requires
        seq_extends(a, b),
        seq_extends(b, c),
    ensures
        seq_extends(a, c),
{
}

/// Arena stability: once a sequence of allocated nodes has been extended
/// to a larger one (as every arena operation does -- arenas only grow),
/// every node reachable before is still there, unchanged, at its old
/// index. Identifiers obtained from one query therefore remain
/// dereferenceable and denote the same value after any number of
/// unrelated queries have executed.
pub proof fn lemma_arena_stability<T>(pre: Seq<T>, post: Seq<T>, i: int)
    requires
        seq_extends(pre, post),
        0 <= i < pre.len(),
    ensures
        post[i] == pre[i],
        pre.len() <= post.len(),
{
}

} // verus!
