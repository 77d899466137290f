//! Definitions tables: the mapping a scope-introducing construct makes
//! from a name to the ordered, insertion-order-preserving list of
//! span-tagged definitions the name may denote.
//!
//! A table is modelled as a sequence of rows, one row per name, in first-
//! insertion order; each row carries the definitions bound under that name
//! in insertion order. Multiple definitions under one name are legal only
//! for overloadable kinds (enumeration literals); for the other kinds a
//! second insertion replaces the row and is reported as a duplicate by the
//! resolver that drives the table.

use vstd::prelude::*;
use crate::common::{ResolvableName, Span, Spanned};
use crate::ids::Def;

verus! {

/// One row of a definitions table.
#[derive(Clone, PartialEq, Eq, Debug)]
pub struct DefsRow {
    pub name: ResolvableName,
    pub defs: Vec<Spanned<Def>>,
}

/// The index of the row bound to `name`, or -1 when no row is.
pub open spec fn idx_of(rows: Seq<(ResolvableName, Seq<Spanned<Def>>)>, name: ResolvableName) -> int
    decreases rows.len(),
{
    if rows.len() == 0 {
        -1
    } else if rows[0].0 == name {
        0
    } else {
        let t = idx_of(rows.skip(1), name);
        if t == -1 {
            -1
        } else {
            t + 1
        }
    }
}

/// What `idx_of` returns: either -1 and no row is bound to `name`, or the
/// first index whose row is.
pub proof fn lemma_idx_of_props(rows: Seq<(ResolvableName, Seq<Spanned<Def>>)>, name: ResolvableName)
    ensures
        idx_of(rows, name) == -1 ==> forall|i: int| 0 <= i < rows.len() ==> (#[trigger] rows[i]).0 != name,
        idx_of(rows, name) != -1 ==> {
            let k = idx_of(rows, name);
            &&& 0 <= k < rows.len()
            &&& rows[k].0 == name
            &&& forall|i: int| 0 <= i < k ==> (#[trigger] rows[i]).0 != name
        },
    decreases rows.len(),
{
    if rows.len() == 0 {
    } else if rows[0].0 == name {
    } else {
        lemma_idx_of_props(rows.skip(1), name);
        assert forall|i: int| 1 <= i < rows.len() implies rows.skip(1)[i - 1] == rows[i] by {}
    }
}

/// The converse: the first row bound to `name` is what `idx_of` finds.
pub proof fn lemma_idx_of_first(rows: Seq<(ResolvableName, Seq<Spanned<Def>>)>, name: ResolvableName, k: int)
    requires
        0 <= k < rows.len(),
        rows[k].0 == name,
        forall|i: int| 0 <= i < k ==> (#[trigger] rows[i]).0 != name,
    ensures
        idx_of(rows, name) == k,
    decreases k,
{
    if k == 0 {
    } else {
        assert(rows[0].0 != name);
        assert(rows.skip(1)[k - 1] == rows[k]);
        assert forall|i: int| 0 <= i < k - 1 implies (#[trigger] rows.skip(1)[i]).0 != name by {
            assert(rows.skip(1)[i] == rows[i + 1]);
        }
        lemma_idx_of_first(rows.skip(1), name, k - 1);
    }
}

/// The table after appending `def` under `name`: the first row bound to
/// `name` grows by one definition, or a fresh row is added at the end.
pub open spec fn append_def(
    rows: Seq<(ResolvableName, Seq<Spanned<Def>>)>,
    name: ResolvableName,
    def: Spanned<Def>,
) -> Seq<(ResolvableName, Seq<Spanned<Def>>)> {
    let k = idx_of(rows, name);
    if k == -1 {
        rows.push((name, seq![def]))
    } else {
        rows.update(k, (name, rows[k].1.push(def)))
    }
}

/// The table after binding `name` to `def` alone: the first row bound to
/// `name` is replaced, or a fresh row is added at the end.
pub open spec fn replace_def(
    rows: Seq<(ResolvableName, Seq<Spanned<Def>>)>,
    name: ResolvableName,
    def: Spanned<Def>,
) -> Seq<(ResolvableName, Seq<Spanned<Def>>)> {
    let k = idx_of(rows, name);
    if k == -1 {
        rows.push((name, seq![def]))
    } else {
        rows.update(k, (name, seq![def]))
    }
}

/// A definitions table.
pub struct Defs {
    rows: Vec<DefsRow>,
}

impl View for Defs {
    type V = Seq<(ResolvableName, Seq<Spanned<Def>>)>;

    closed spec fn view(&self) -> Seq<(ResolvableName, Seq<Spanned<Def>>)> {
        self.rows@.map_values(|r: DefsRow| (r.name, r.defs@))
    }
}

impl Defs {
    /// Every row holds at least one definition. Construction and the two
    /// insertion operations keep this.
    pub open spec fn wf(self) -> bool {
        forall|i: int| 0 <= i < self@.len() ==> (#[trigger] self@[i]).1.len() > 0
    }

    /// Create an empty table.
    pub fn new() -> (d: Defs)
        ensures
            d@ == Seq::<(ResolvableName, Seq<Spanned<Def>>)>::empty(),
            d.wf(),
    {
        let d = Defs { rows: Vec::new() };
        proof {
            assert(d@ =~= Seq::<(ResolvableName, Seq<Spanned<Def>>)>::empty());
        }
        d
    }

    /// The number of distinct names bound.
    pub fn len(&self) -> (n: usize)
        ensures
            n == self@.len(),
    {
        self.rows.len()
    }

    /// The name of the row at position `i` (rows stand in first-insertion
    /// order).
    pub fn name_at(&self, i: usize) -> (r: ResolvableName)
        requires
            i < self@.len(),
        ensures
            r == self@[i as int].0,
    {
        self.rows[i].name
    }

    /// The definitions of the row at position `i`, in insertion order.
    pub fn defs_at(&self, i: usize) -> (r: &Vec<Spanned<Def>>)
        requires
            i < self@.len(),
        ensures
            r@ == self@[i as int].1,
    {
        &self.rows[i].defs
    }

    /// The position of the row bound to `name`, if any.
    fn find(&self, name: ResolvableName) -> (r: Option<usize>)
        ensures
            match r {
                Some(k) => idx_of(self@, name) == k as int,
                None => idx_of(self@, name) == -1,
            },
    {
        let ghost rows = self@;
        let n = self.rows.len();
        for i in 0..n
            invariant
                n == rows.len(),
                rows == self@,
                forall|j: int| 0 <= j < i ==> (#[trigger] rows[j]).0 != name,
        {
            if self.rows[i].name == name {
                proof {
                    lemma_idx_of_first(rows, name, i as int);
                }
                return Some(i);
            }
        }
        proof {
            if idx_of(rows, name) != -1 {
                lemma_idx_of_props(rows, name);
            }
        }
        None
    }

    /// Whether the table binds `name`.
    pub fn contains(&self, name: ResolvableName) -> (r: bool)
        ensures
            r <==> idx_of(self@, name) != -1,
    {
        match self.find(name) {
            Some(_) => true,
            None => false,
        }
    }

    /// Look a name up: the definitions bound to it, or `None` when the
    /// table does not bind it.
    pub fn lookup(&self, name: ResolvableName) -> (r: Option<Vec<Spanned<Def>>>)
        ensures
            match r {
                Some(v) => idx_of(self@, name) != -1 && v@ == self@[idx_of(self@, name)].1,
                None => idx_of(self@, name) == -1,
            },
    {
        match self.find(name) {
            Some(k) => {
                proof {
                    lemma_idx_of_props(self@, name);
                }
                let row = &self.rows[k].defs;
                let n = row.len();
                let mut v: Vec<Spanned<Def>> = Vec::new();
                for i in 0..n
                    invariant
                        n == row@.len(),
                        v@ == row@.take(i as int),
                {
                    v.push(row[i]);
                    proof {
                        assert(v@ =~= row@.take(i + 1));
                    }
                }
                proof {
                    assert(row@.take(n as int) =~= row@);
                }
                Some(v)
            }
            None => None,
        }
    }

    /// Bind one more definition under `name`, keeping whatever was bound
    /// before (the overloadable case: definitions accumulate).
    pub fn append(&mut self, name: ResolvableName, def: Spanned<Def>)
        requires
            old(self).wf(),
        ensures
            final(self)@ == append_def(old(self)@, name, def),
            final(self).wf(),
    {
        let ghost pre = self@;
        match self.find(name) {
            Some(k) => {
                proof {
                    lemma_idx_of_props(pre, name);
                }
                self.rows[k].defs.push(def);
                proof {
                    assert(self@ =~= pre.update(k as int, (name, pre[k as int].1.push(def))));
                }
            }
            None => {
                let mut v: Vec<Spanned<Def>> = Vec::new();
                v.push(def);
                self.rows.push(DefsRow { name, defs: v });
                proof {
                    assert(self@ =~= pre.push((name, seq![def])));
                }
            }
        }
    }

    /// Bind `name` to `def` alone (the non-overloadable case). When the
    /// name was already bound, the old row is replaced and the span of its
    /// last definition is returned, for the duplicate diagnostic's note.
    pub fn insert_unique(&mut self, name: ResolvableName, def: Spanned<Def>) -> (prev: Option<Span>)
        requires
            old(self).wf(),
        ensures
            final(self)@ == replace_def(old(self)@, name, def),
            final(self).wf(),
            match prev {
                Some(s) => {
                    let k = idx_of(old(self)@, name);
                    k != -1 && s == old(self)@[k].1.last().span
                },
                None => idx_of(old(self)@, name) == -1,
            },
    {
        let ghost pre = self@;
        match self.find(name) {
            Some(k) => {
                proof {
                    lemma_idx_of_props(pre, name);
                }
                let last = self.rows[k].defs.len() - 1;
                let prev_span = self.rows[k].defs[last].span;
                let mut v: Vec<Spanned<Def>> = Vec::new();
                v.push(def);
                self.rows[k] = DefsRow { name, defs: v };
                proof {
                    assert(self@ =~= pre.update(k as int, (name, seq![def])));
                }
                Some(prev_span)
            }
            None => {
                let mut v: Vec<Spanned<Def>> = Vec::new();
                v.push(def);
                self.rows.push(DefsRow { name, defs: v });
                proof {
                    assert(self@ =~= pre.push((name, seq![def])));
                }
                None
            }
        }
    }
}

} // verus!
