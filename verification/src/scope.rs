//! Scope construction and compound-name resolution.
//!
//! A scope record chains to a parent scope and lists the identifiers
//! whose definition tables are visible, plus explicit imports bound by
//! use clauses. A library's scope stands alone; an entity's or
//! architecture's scope chains to the scope built from its context items;
//! a package's scope chains to its lexical parent. Resolving a compound
//! (dotted) name walks its parts: the leading part is looked up in the
//! context items' own definitions, intermediate parts within the
//! previously resolved part's exposed definitions, and a trailing
//! wildcard selector imports all exported names of a package.

use vstd::prelude::*;
use crate::common::{is_error_diag, DiagKind, Diagnostic, ResolvableName, Severity, Span, Spanned};
use crate::defs::{idx_of, Defs};
use crate::ids::{ArchRef, CtxItemsRef, Def, EntityRef, LibRef, PkgDeclRef, PkgInstRef, ScopeRef};
use crate::score::{
    append_defs, circular_diag, copy_vec, ctx_scope_fails, ctx_scope_step, ctx_items_fold,
    ctx_use_fold, exposed_rows, gview, is_container, is_defs_diag, is_scope_fail_diag,
    is_scope_layer_diag, items_fail_descrs, lemma_evolves_step, lemma_evolves_trans,
    lemma_items_descrs_aborted, lemma_items_fold_aborted, lemma_scope_diags_add,
    lemma_scope_diags_none, lemma_push_scope_diag, lemma_use_descrs_aborted, lemma_use_fold_aborted,
    lemma_wf_preserved, name_fail_descrs, resolve_compound, resolve_parts, scope_diags,
    scope_fail_descrs, use_fail_descrs, CacheSlot, CtxScopeFold, Failure, GName, RcnOut,
    ResolvedName, ScopeFailDescr, ScoreContext,
};
use crate::syntax::{CompoundName, CtxItem, NamePart};

verus! {

/// A materialized scope record.
pub struct Scope {
    /// The parent scope this one chains to, if any.
    pub parent: Option<ScopeRef>,
    /// The identifiers whose definition tables are visible here: the
    /// construct itself, then every wildcard-imported package.
    pub defs: Vec<ScopeRef>,
    /// The explicit imports: definitions individual use clauses bind by
    /// name.
    pub explicit_defs: Defs,
}

impl ScoreContext {
    /// Resolve a compound name within the scope the context items
    /// preceding a design unit establish. Returns the last resolved
    /// name, the definitions it denotes, the span of the valid prefix,
    /// and how many trailing parts were consumed; the walk stops at a
    /// wildcard selector, at a part the previous definitions cannot be
    /// selected into, or at the end of the name.
    #[verifier::loop_isolation(false)]
    pub fn resolve_compound_name(&mut self, name: &CompoundName, id: CtxItemsRef) -> (r: Result<
        (ResolvableName, Vec<Spanned<Def>>, Span, usize),
        Failure,
    >)
        requires
            old(self).wf(),
            old(self).defs_ready(),
            id.0 < old(self).ast.ctx_items@.len(),
        ensures
            final(self).wf(),
            final(self).defs_ready(),
            old(self).evolves_to(*final(self)),
            // Every diagnostic this call adds belongs to the definitions
            // layer or names an unresolved part: the reason of a failure
            // is emitted once, at the point of detection.
            forall|k: int| old(self).sess.diags@.len() <= k < final(self).sess.diags@.len()
                ==> is_defs_diag(#[trigger] final(self).sess.diags@[k]),
            ({
                let out = resolve_compound(final(self).ast, final(self).lib_names@, id.0 as int, gview(*name));
                match r {
                    Ok(v) => {
                        &&& out matches RcnOut::Resolved(st)
                        &&& v.0 == st.res_name
                        &&& v.1@ == st.defs
                        &&& v.2 == st.valid_span
                        &&& v.3 as int == st.consumed
                        &&& 0 <= st.consumed <= name.parts@.len()
                        &&& st.defs.len() > 0
                    }
                    Err(_) => !(out is Resolved),
                }
            }),
    {
        let ghost pre = *self;
        let ghost reg = self.lib_names@;
        let d = match self.ctx_defs(id) {
            Ok(d) => d,
            Err(_) => {
                proof {
                    assert(self.slot_ctx_defs_ok(id.0 as int));
                }
                return Err(Failure);
            }
        };
        proof {
            assert(self.slot_ctx_defs_ok(id.0 as int));
        }
        proof {
            crate::defs::lemma_idx_of_props(self.defs_arena@[d as int]@, name.primary.value);
        }
        let first = self.defs_record(d).lookup(name.primary.value);
        let mut out_defs = match first {
            Some(v) => v,
            None => {
                let ghost s1 = *self;
                let mut spans: Vec<Span> = Vec::new();
                spans.push(name.primary.span);
                let dg = Diagnostic {
                    severity: Severity::Error,
                    kind: DiagKind::UnresolvedName { name: name.primary.value },
                    spans,
                    note_spans: Vec::new(),
                };
                self.sess.emit(dg);
                proof {
                    lemma_wf_preserved(s1, *self);
                    lemma_evolves_step(pre, s1, *self);
                }
                return Err(Failure);
            }
        };
        let mut res_name = name.primary.value;
        let mut valid_span = name.primary.span;
        let mut consumed: usize = 0;
        let nparts = name.parts.len();
        let ghost goal = resolve_compound(self.ast, reg, id.0 as int, gview(*name));
        proof {
            assert(goal == resolve_parts(
                self.ast,
                reg,
                ResolvedName {
                    res_name: res_name,
                    defs: out_defs@,
                    valid_span: valid_span,
                    consumed: 0,
                },
                name.parts@,
                0,
            ));
        }
        while consumed < nparts
            invariant
                self.wf(),
                self.defs_ready(),
                pre.evolves_to(*self),
                self.ast == pre.ast,
                reg == self.lib_names@,
                nparts == name.parts@.len(),
                consumed <= nparts,
                out_defs@.len() > 0,
                goal == resolve_parts(
                    self.ast,
                    reg,
                    ResolvedName {
                        res_name: res_name,
                        defs: out_defs@,
                        valid_span: valid_span,
                        consumed: consumed as int,
                    },
                    name.parts@,
                    consumed as int,
                ),
                goal == resolve_compound(self.ast, reg, id.0 as int, gview(*name)),
                forall|k: int| pre.sess.diags@.len() <= k < self.sess.diags@.len()
                    ==> is_defs_diag(#[trigger] self.sess.diags@[k]),
            decreases nparts - consumed,
        {
            let ghost st_cur = ResolvedName {
                res_name: res_name,
                defs: out_defs@,
                valid_span: valid_span,
                consumed: consumed as int,
            };
            match &name.parts[consumed] {
                NamePart::SelectAll(_) => {
                    proof {
                        assert(goal == RcnOut::Resolved(st_cur));
                    }
                    return Ok((res_name, out_defs, valid_span, consumed));
                }
                NamePart::Select(n) => {
                    let single = out_defs.len() == 1;
                    let container = single && match out_defs[0].value {
                        Def::Lib(_) => true,
                        Def::Pkg(_) => true,
                        _ => false,
                    };
                    if !container {
                        proof {
                            assert(goal == RcnOut::Resolved(st_cur));
                        }
                        return Ok((res_name, out_defs, valid_span, consumed));
                    }
                    let ghost before_call = *self;
                    let tbl = match out_defs[0].value {
                        Def::Lib(l) => {
                            if l.0 < self.ast.libs.len() {
                                self.lib_defs(l)
                            } else {
                                Err(Failure)
                            }
                        }
                        Def::Pkg(p) => {
                            if p.0 < self.ast.pkg_decls.len() {
                                self.pkg_defs(p)
                            } else {
                                Err(Failure)
                            }
                        }
                        _ => Err(Failure),
                    };
                    let k = match tbl {
                        Ok(k) => k,
                        Err(_) => {
                            proof {
                                match st_cur.defs[0].value {
                                    Def::Lib(l) => {
                                        if l.0 < before_call.ast.libs@.len() {
                                            assert(before_call.slot_lib_hir_ok(l.0 as int));
                                            assert(self.slot_lib_defs_ok(l.0 as int));
                                        }
                                    }
                                    Def::Pkg(p) => {
                                        if p.0 < before_call.ast.pkg_decls@.len() {
                                            assert(before_call.slot_pkg_hir_ok(p.0 as int));
                                            assert(self.slot_pkg_defs_ok(p.0 as int));
                                        }
                                    }
                                    _ => {}
                                }
                                assert(exposed_rows(self.ast, reg, st_cur.defs[0].value) is None);
                                assert(!(goal is Resolved));
                                lemma_evolves_trans(pre, before_call, *self);
                                assert(before_call.defs_ready());
                                assert(before_call.evolves_to(*self));
                                assert forall|k: int| pre.sess.diags@.len() <= k < self.sess.diags@.len()
                                    implies is_defs_diag(#[trigger] self.sess.diags@[k]) by {
                                    if k < before_call.sess.diags@.len() {
                                        assert(is_defs_diag(before_call.sess.diags@[k]));
                                        assert(self.sess.diags@[k] == before_call.sess.diags@[k]);
                                    } else {
                                        assert(is_defs_diag(self.sess.diags@[k]));
                                    }
                                }
                            }
                            return Err(Failure);
                        }
                    };
                    proof {
                        lemma_evolves_trans(pre, before_call, *self);
                        match st_cur.defs[0].value {
                            Def::Lib(l) => {
                                assert(self.slot_lib_defs_ok(l.0 as int));
                            }
                            Def::Pkg(p) => {
                                assert(self.slot_pkg_defs_ok(p.0 as int));
                            }
                            _ => {}
                        }
                        assert(exposed_rows(self.ast, reg, st_cur.defs[0].value)
                            == Some(self.defs_arena@[k as int]@));
                        assert(before_call.defs_ready());
                        assert(before_call.evolves_to(*self));
                        assert forall|t: int| pre.sess.diags@.len() <= t < self.sess.diags@.len()
                            implies is_defs_diag(#[trigger] self.sess.diags@[t]) by {
                            if t < before_call.sess.diags@.len() {
                                assert(is_defs_diag(before_call.sess.diags@[t]));
                                assert(self.sess.diags@[t] == before_call.sess.diags@[t]);
                            } else {
                                assert(is_defs_diag(self.sess.diags@[t]));
                            }
                        }
                    }
                    match self.defs_record(k).lookup(n.value) {
                        None => {
                            let ghost s1 = *self;
                            let mut spans: Vec<Span> = Vec::new();
                            spans.push(n.span);
                            let dg = Diagnostic {
                                severity: Severity::Error,
                                kind: DiagKind::UnresolvedName { name: n.value },
                                spans,
                                note_spans: Vec::new(),
                            };
                            self.sess.emit(dg);
                            proof {
                                lemma_wf_preserved(s1, *self);
                                assert(s1.evolves_to(*self));
                                lemma_evolves_trans(pre, s1, *self);
                                assert(!(goal is Resolved));
                            }
                            return Err(Failure);
                        }
                        Some(v2) => {
                            proof {
                                crate::defs::lemma_idx_of_props(self.defs_arena@[k as int]@, n.value);
                            }
                            res_name = n.value;
                            out_defs = v2;
                            valid_span = n.span;
                            consumed = consumed + 1;
                        }
                    }
                }
            }
        }
        proof {
            assert(goal == RcnOut::Resolved(ResolvedName {
                res_name: res_name,
                defs: out_defs@,
                valid_span: valid_span,
                consumed: consumed as int,
            }));
        }
        Ok((res_name, out_defs, valid_span, consumed))
    }

    /// Build the scope the context items preceding a design unit
    /// establish: the scope of the design unit itself is a subscope of
    /// it. Memoized per identifier (a later call serves the cached scope
    /// and ignores `parent`). Every use clause is resolved; a wildcard
    /// selector imports a package's definition table, any other clause
    /// binds its definitions explicitly. A wildcard on a non-package and
    /// trailing garbage after a valid prefix are errors; all clauses are
    /// still processed, then the query fails.
    #[verifier::rlimit(100)]
    #[verifier::loop_isolation(false)]
    pub fn make_ctx_items_scope(&mut self, id: CtxItemsRef, parent: Option<ScopeRef>) -> (r: Result<
        CtxItemsRef,
        Failure,
    >)
        requires
            old(self).wf(),
            old(self).defs_ready(),
            id.0 < old(self).ast.ctx_items@.len(),
            match parent {
                Some(p) => old(self).ast.valid_scope_ref(p),
                None => true,
            },
        ensures
            final(self).wf(),
            final(self).defs_ready(),
            old(self).evolves_to(*final(self)),
            old(self).ctx_scope@[id.0 as int] is Done
                ==> *final(self) == *old(self) && r == Result::<CtxItemsRef, Failure>::Ok(id),
            old(self).ctx_scope@[id.0 as int] is Failed ==> *final(self) == *old(self) && r is Err,
            // A failed construction settles the slot: the side-effecting
            // computation, diagnostics included, never runs again.
            old(self).ctx_scope@[id.0 as int] is Unevaluated && r is Err
                ==> final(self).ctx_scope@[id.0 as int] is Failed,
            // Re-entrance: a request for a scope still under construction
            // fails at once with one circular-dependency diagnostic.
            old(self).ctx_scope@[id.0 as int] is InProgress ==> r is Err
                && final(self).sess.diags@ == old(self).sess.diags@.push(final(self).sess.diags@.last())
                && is_error_diag(final(self).sess.diags@.last(), DiagKind::CircularDependency, Seq::empty(), Seq::empty())
                && final(self).ctx_scope@ == old(self).ctx_scope@,
            r matches Ok(rid) ==> rid == id && final(self).ctx_scope@[id.0 as int] is Done
                && ctx_scope_fails(final(self).ast, final(self).lib_names@, id.0 as int) == 0,
            !(old(self).ctx_scope@[id.0 as int] is InProgress) ==> (r is Ok <==> ctx_scope_fails(
                old(self).ast,
                old(self).lib_names@,
                id.0 as int,
            ) == 0),
            old(self).ctx_scope@[id.0 as int] is Unevaluated && r is Ok
                ==> (final(self).ctx_scope@[id.0 as int] matches CacheSlot::Done(k)
                    && k < final(self).scope_arena@.len()
                    && final(self).scope_arena@[k as int].parent == parent),
            // The scope-construction diagnostics this call adds are, in
            // order, exactly the ones the use clauses owe: one per
            // wildcard on a non-package (spanning the selector) and one
            // per trailing garbage (spanning from the end of the valid
            // prefix to the end of the name). Everything else added to
            // the sink belongs to the queries that detected it.
            old(self).ctx_scope@[id.0 as int] is Unevaluated ==> ({
                let sd = scope_diags(final(self).sess.diags@.skip(old(self).sess.diags@.len() as int));
                let descrs = scope_fail_descrs(old(self).ast, old(self).lib_names@, id.0 as int);
                &&& sd.len() == descrs.len()
                &&& forall|k: int| 0 <= k < descrs.len() ==> is_scope_fail_diag(#[trigger] sd[k], descrs[k])
            }),
    {
        let i = id.0;
        match self.ctx_scope[i] {
            CacheSlot::Done(k) => {
                proof {
                    assert(self.slot_ctx_scope_ok(i as int));
                }
                Ok(id)
            }
            CacheSlot::Failed => {
                proof {
                    assert(self.slot_ctx_scope_ok(i as int));
                }
                Err(Failure)
            }
            CacheSlot::InProgress => {
                let ghost pre = *self;
                self.sess.emit(circular_diag());
                proof {
                    lemma_wf_preserved(pre, *self);
                }
                Err(Failure)
            }
            CacheSlot::Unevaluated => {
                let ghost pre = *self;
                self.ctx_scope[i] = CacheSlot::InProgress;
                proof {
                    lemma_wf_preserved(pre, *self);
                }
                let ghost s1 = *self;
                let ghost reg = self.lib_names@;
                let ghost items = self.ast.ctx_items@[i as int]@;
                let ghost dbase = pre.sess.diags@.len() as int;
                proof {
                    assert(self.sess.diags@.skip(dbase) =~= Seq::<Diagnostic>::empty());
                }

                let mut visible: Vec<ScopeRef> = Vec::new();
                visible.push(ScopeRef::CtxItems(id));
                let mut explicit = Defs::new();
                let mut had_fails = false;
                let ni = self.ast.ctx_items[i].len();
                proof {
                    assert(visible@ =~= seq![ScopeRef::CtxItems(id)]);
                }
                for j in 0..ni
                    invariant
                        self.wf(),
                        self.defs_ready(),
                        pre.evolves_to(*self),
                        self.ctx_scope@[i as int] is InProgress,
                        self.ast == pre.ast,
                        reg == self.lib_names@,
                        i == id.0,
                        i < self.ast.ctx_items@.len(),
                        ni == items.len(),
                        items == self.ast.ctx_items@[i as int]@,
                        explicit.wf(),
                        forall|t: int| 0 <= t < visible@.len()
                            ==> self.ast.valid_scope_ref(#[trigger] visible@[t]),
                        ({
                            let acc = ctx_items_fold(self.ast, reg, i as int, items.take(j as int));
                            &&& !acc.aborted
                            &&& visible@ == acc.visible
                            &&& explicit@ == acc.explicit
                            &&& (had_fails <==> acc.fails > 0)
                        }),
                        dbase == pre.sess.diags@.len(),
                        ({
                            let sd = scope_diags(self.sess.diags@.skip(dbase));
                            let descrs = items_fail_descrs(self.ast, reg, i as int, items.take(j as int));
                            &&& sd.len() == descrs.len()
                            &&& forall|k: int| 0 <= k < descrs.len()
                                ==> is_scope_fail_diag(#[trigger] sd[k], descrs[k])
                        }),
                {
                    proof {
                        assert(items.take(j + 1).drop_last() =~= items.take(j as int));
                        assert(items.take(j + 1).last() == items[j as int]);
                    }
                    let ghost acc_j = ctx_items_fold(self.ast, reg, i as int, items.take(j as int));
                    let is_use = match &self.ast.ctx_items[i][j] {
                        CtxItem::UseClause(_) => true,
                        CtxItem::LibClause(_) => false,
                    };
                    if is_use {
                        let nq = match &self.ast.ctx_items[i][j] {
                            CtxItem::UseClause(names) => names.value.len(),
                            CtxItem::LibClause(_) => 0,
                        };
                        let ghost cnames = items[j as int]->UseClause_0.value@;
                        for q in 0..nq
                            invariant
                                self.wf(),
                                self.defs_ready(),
                                pre.evolves_to(*self),
                                self.ctx_scope@[i as int] is InProgress,
                                self.ast == pre.ast,
                                reg == self.lib_names@,
                                i == id.0,
                                i < self.ast.ctx_items@.len(),
                                ni == items.len(),
                                j < ni,
                                items == self.ast.ctx_items@[i as int]@,
                                items[j as int] matches CtxItem::UseClause(nn) && nn.value@ == cnames,
                                nq == cnames.len(),
                                explicit.wf(),
                                acc_j == ctx_items_fold(self.ast, reg, i as int, items.take(j as int)),
                                !acc_j.aborted,
                                forall|t: int| 0 <= t < visible@.len()
                                    ==> self.ast.valid_scope_ref(#[trigger] visible@[t]),
                                ({
                                    let acc = ctx_use_fold(self.ast, reg, i as int, acc_j, cnames.take(q as int));
                                    &&& !acc.aborted
                                    &&& visible@ == acc.visible
                                    &&& explicit@ == acc.explicit
                                    &&& (had_fails <==> acc.fails > 0)
                                }),
                                dbase == pre.sess.diags@.len(),
                                ({
                                    let sd = scope_diags(self.sess.diags@.skip(dbase));
                                    let descrs = items_fail_descrs(self.ast, reg, i as int, items.take(j as int))
                                        + use_fail_descrs(self.ast, reg, i as int, acc_j, cnames.take(q as int));
                                    &&& sd.len() == descrs.len()
                                    &&& forall|k: int| 0 <= k < descrs.len()
                                        ==> is_scope_fail_diag(#[trigger] sd[k], descrs[k])
                                }),
                        {
                            proof {
                                assert(cnames.take(q + 1).drop_last() =~= cnames.take(q as int));
                                assert(cnames.take(q + 1).last() == cnames[q as int]);
                            }
                            let ghost acc_q = ctx_use_fold(self.ast, reg, i as int, acc_j, cnames.take(q as int));
                            let cur_name = match &self.ast.ctx_items[i][j] {
                                CtxItem::UseClause(names) => CompoundName {
                                    span: names.value[q].span,
                                    primary: names.value[q].primary,
                                    parts: copy_vec(&names.value[q].parts),
                                },
                                CtxItem::LibClause(_) => CompoundName {
                                    span: Span { begin: 0, end: 0 },
                                    primary: Spanned { value: ResolvableName::Ident(0), span: Span { begin: 0, end: 0 } },
                                    parts: Vec::new(),
                                },
                            };
                            proof {
                                assert(gview(cur_name) == gview(cnames[q as int]));
                            }
                            let ghost before_rr = *self;
                            let rr = self.resolve_compound_name(&cur_name, id);
                            proof {
                                lemma_evolves_trans(pre, before_rr, *self);
                                let added_old = before_rr.sess.diags@.skip(dbase);
                                let batch = self.sess.diags@.skip(before_rr.sess.diags@.len() as int);
                                assert(self.sess.diags@.skip(dbase) =~= added_old + batch);
                                assert forall|k: int| 0 <= k < batch.len()
                                    implies !is_scope_layer_diag(#[trigger] batch[k]) by {
                                    assert(batch[k] == self.sess.diags@[before_rr.sess.diags@.len() + k]);
                                    assert(is_defs_diag(self.sess.diags@[before_rr.sess.diags@.len() + k]));
                                }
                                lemma_scope_diags_add(added_old, batch);
                                lemma_scope_diags_none(batch);
                                assert(scope_diags(self.sess.diags@.skip(dbase)) =~= scope_diags(added_old));
                            }
                            match rr {
                                Err(_) => {
                                    // The name did not resolve at all:
                                    // record the failure and give up on
                                    // this scope.
                                    let ghost s2 = *self;
                                    self.ctx_scope[i] = CacheSlot::Failed;
                                    proof {
                                        assert(ctx_scope_step(self.ast, reg, i as int, acc_q, gview(cnames[q as int])).aborted);
                                        assert(ctx_use_fold(self.ast, reg, i as int, acc_j, cnames.take(q + 1)).aborted);
                                        lemma_use_fold_aborted(self.ast, reg, i as int, acc_j, cnames, q + 1);
                                        assert(ctx_items_fold(self.ast, reg, i as int, items.take(j + 1)).aborted);
                                        lemma_items_fold_aborted(self.ast, reg, i as int, items, j + 1);
                                        assert(ctx_scope_fails(self.ast, reg, i as int) != 0);
                                        assert(self.slot_ctx_scope_ok(i as int) == s2.slot_ctx_scope_ok(i as int) || true);
                                        lemma_wf_preserved(s2, *self);
                                        lemma_evolves_step(pre, s2, *self);
                                        // The owed scope-construction diagnostics
                                        // stop at the abort, and the aborting
                                        // name owes none.
                                        assert(name_fail_descrs(self.ast, reg, i as int, gview(cnames[q as int])) =~= Seq::<ScopeFailDescr>::empty());
                                        assert(use_fail_descrs(self.ast, reg, i as int, acc_j, cnames.take(q + 1))
                                            =~= use_fail_descrs(self.ast, reg, i as int, acc_j, cnames.take(q as int)));
                                        lemma_use_descrs_aborted(self.ast, reg, i as int, acc_j, cnames, q + 1);
                                        lemma_items_descrs_aborted(self.ast, reg, i as int, items, j + 1);
                                        assert(items_fail_descrs(self.ast, reg, i as int, items.take(j + 1))
                                            =~= items_fail_descrs(self.ast, reg, i as int, items.take(j as int))
                                                + use_fail_descrs(self.ast, reg, i as int, acc_j, cnames.take(q as int)));
                                        assert(scope_fail_descrs(self.ast, reg, i as int)
                                            == items_fail_descrs(self.ast, reg, i as int, items.take(j + 1)));
                                    }
                                    return Err(Failure);
                                }
                                Ok((rn, odefs, vspan, cons)) => {
                                    let ghost after_rr = *self;
                                    let ghost name_q = gview(cnames[q as int]);
                                    let nparts = cur_name.parts.len();
                                    let all_span_opt = if cons < nparts {
                                        match &cur_name.parts[cons] {
                                            NamePart::SelectAll(sp) => Some(*sp),
                                            NamePart::Select(_) => None,
                                        }
                                    } else {
                                        None
                                    };
                                    let name_end = cur_name.span.end;
                                    let ghost old_added = after_rr.sess.diags@.skip(dbase);
                                    let ghost old_descrs = items_fail_descrs(self.ast, reg, i as int, items.take(j as int))
                                        + use_fail_descrs(self.ast, reg, i as int, acc_j, cnames.take(q as int));
                                    let ghost nd_descrs = name_fail_descrs(self.ast, reg, i as int, name_q);
                                    match all_span_opt {
                                        Some(all_span) => {
                                            // A wildcard selector: import
                                            // the package's table.
                                            let lastd = odefs[odefs.len() - 1].value;
                                            match lastd {
                                                Def::Pkg(p) => {
                                                    if p.0 < self.ast.pkg_decls.len() {
                                                        visible.push(ScopeRef::Pkg(p));
                                                        if cons + 1 < nparts {
                                                            let mut spans: Vec<Span> = Vec::new();
                                                            spans.push(Span { begin: all_span.end, end: name_end });
                                                            let dg = Diagnostic {
                                                                severity: Severity::Error,
                                                                kind: DiagKind::InvalidNameSuffix,
                                                                spans,
                                                                note_spans: Vec::new(),
                                                            };
                                                            proof {
                                                                assert(dg.spans@ =~= seq![Span { begin: all_span.end, end: name_end }]);
                                                                assert(dg.note_spans@ =~= Seq::<Span>::empty());
                                                            }
                                                            self.sess.emit(dg);
                                                            had_fails = true;
                                                            proof {
                                                                assert(nd_descrs =~= seq![ScopeFailDescr::Suffix(Span { begin: all_span.end, end: name_end })]);
                                                                assert(self.sess.diags@.skip(dbase) =~= old_added.push(dg));
                                                                lemma_push_scope_diag(old_added, self.sess.diags@.skip(dbase), old_descrs, dg, nd_descrs[0]);
                                                            }
                                                        } else {
                                                            proof {
                                                                assert(nd_descrs =~= Seq::<ScopeFailDescr>::empty());
                                                            }
                                                        }
                                                    } else {
                                                        let mut spans: Vec<Span> = Vec::new();
                                                        spans.push(all_span);
                                                        let dg = Diagnostic {
                                                            severity: Severity::Error,
                                                            kind: DiagKind::SelectAllOnNonPackage,
                                                            spans,
                                                            note_spans: Vec::new(),
                                                        };
                                                        proof {
                                                            assert(dg.spans@ =~= seq![all_span]);
                                                            assert(dg.note_spans@ =~= Seq::<Span>::empty());
                                                        }
                                                        self.sess.emit(dg);
                                                        had_fails = true;
                                                        proof {
                                                            assert(nd_descrs =~= seq![ScopeFailDescr::AllOnNonPackage(all_span)]);
                                                            assert(self.sess.diags@.skip(dbase) =~= old_added.push(dg));
                                                            lemma_push_scope_diag(old_added, self.sess.diags@.skip(dbase), old_descrs, dg, nd_descrs[0]);
                                                        }
                                                    }
                                                }
                                                _ => {
                                                    let mut spans: Vec<Span> = Vec::new();
                                                    spans.push(all_span);
                                                    let dg = Diagnostic {
                                                        severity: Severity::Error,
                                                        kind: DiagKind::SelectAllOnNonPackage,
                                                        spans,
                                                        note_spans: Vec::new(),
                                                    };
                                                    proof {
                                                        assert(dg.spans@ =~= seq![all_span]);
                                                        assert(dg.note_spans@ =~= Seq::<Span>::empty());
                                                    }
                                                    self.sess.emit(dg);
                                                    had_fails = true;
                                                    proof {
                                                        assert(nd_descrs =~= seq![ScopeFailDescr::AllOnNonPackage(all_span)]);
                                                        assert(self.sess.diags@.skip(dbase) =~= old_added.push(dg));
                                                        lemma_push_scope_diag(old_added, self.sess.diags@.skip(dbase), old_descrs, dg, nd_descrs[0]);
                                                    }
                                                }
                                            }
                                        }
                                        None => {
                                            if cons < nparts {
                                                // Trailing garbage after a
                                                // valid prefix.
                                                let mut spans: Vec<Span> = Vec::new();
                                                spans.push(Span { begin: vspan.end, end: name_end });
                                                let dg = Diagnostic {
                                                    severity: Severity::Error,
                                                    kind: DiagKind::InvalidNameSuffix,
                                                    spans,
                                                    note_spans: Vec::new(),
                                                };
                                                proof {
                                                    assert(dg.spans@ =~= seq![Span { begin: vspan.end, end: name_end }]);
                                                    assert(dg.note_spans@ =~= Seq::<Span>::empty());
                                                }
                                                self.sess.emit(dg);
                                                had_fails = true;
                                                proof {
                                                    assert(nd_descrs =~= seq![ScopeFailDescr::Suffix(Span { begin: vspan.end, end: name_end })]);
                                                    assert(self.sess.diags@.skip(dbase) =~= old_added.push(dg));
                                                    lemma_push_scope_diag(old_added, self.sess.diags@.skip(dbase), old_descrs, dg, nd_descrs[0]);
                                                }
                                            } else {
                                                // Bind the resolved
                                                // definitions explicitly.
                                                let ghost ex0 = explicit@;
                                                let nd = odefs.len();
                                                for t in 0..nd
                                                    invariant
                                                        nd == odefs@.len(),
                                                        explicit.wf(),
                                                        explicit@ == append_defs(ex0, rn, odefs@.take(t as int)),
                                                    {
                                                    proof {
                                                        assert(odefs@.take(t + 1).drop_last() =~= odefs@.take(t as int));
                                                        assert(odefs@.take(t + 1).last() == odefs@[t as int]);
                                                    }
                                                    explicit.append(rn, odefs[t]);
                                                }
                                                proof {
                                                    assert(odefs@.take(nd as int) =~= odefs@);
                                                }
                                            }
                                        }
                                    }
                                    proof {
                                        lemma_wf_preserved(after_rr, *self);
                                        lemma_evolves_trans(pre, after_rr, *self);
                                        let stepped = ctx_scope_step(self.ast, reg, i as int, acc_q, name_q);
                                        assert(ctx_use_fold(self.ast, reg, i as int, acc_j, cnames.take(q + 1)) == stepped);
                                        assert(visible@ == stepped.visible);
                                        assert(explicit@ == stepped.explicit);
                                        assert(had_fails <==> stepped.fails > 0);
                                        assert(use_fail_descrs(self.ast, reg, i as int, acc_j, cnames.take(q + 1))
                                            =~= use_fail_descrs(self.ast, reg, i as int, acc_j, cnames.take(q as int)) + nd_descrs);
                                        if nd_descrs.len() == 0 {
                                            assert(self.sess.diags@.skip(dbase) =~= old_added);
                                            assert(old_descrs + nd_descrs =~= old_descrs);
                                        } else {
                                            assert(old_descrs + nd_descrs =~= old_descrs.push(nd_descrs[0]));
                                        }
                                    }
                                }
                            }
                        }
                        proof {
                            assert(cnames.take(nq as int) =~= cnames);
                        }
                    }
                    proof {
                        assert(ctx_items_fold(self.ast, reg, i as int, items.take(j + 1)) == (
                            match items[j as int] {
                                CtxItem::UseClause(names) => ctx_use_fold(self.ast, reg, i as int, acc_j, names.value@),
                                CtxItem::LibClause(_) => acc_j,
                            }
                        ));
                        assert(items_fail_descrs(self.ast, reg, i as int, items.take(j + 1)) == (
                            match items[j as int] {
                                CtxItem::UseClause(names) => items_fail_descrs(self.ast, reg, i as int, items.take(j as int))
                                    + use_fail_descrs(self.ast, reg, i as int, acc_j, names.value@),
                                CtxItem::LibClause(_) => items_fail_descrs(self.ast, reg, i as int, items.take(j as int)),
                            }
                        ));
                        if items[j as int] is LibClause {
                            assert(items_fail_descrs(self.ast, reg, i as int, items.take(j + 1))
                                =~= items_fail_descrs(self.ast, reg, i as int, items.take(j as int))
                                    + use_fail_descrs(self.ast, reg, i as int, acc_j, Seq::<CompoundName>::empty()));
                        }
                    }
                }
                proof {
                    assert(items.take(ni as int) =~= items);
                }

                if had_fails {
                    let ghost s2 = *self;
                    self.ctx_scope[i] = CacheSlot::Failed;
                    proof {
                        lemma_wf_preserved(s2, *self);
                        lemma_evolves_step(pre, s2, *self);
                    }
                    Err(Failure)
                } else {
                    let ghost s2 = *self;
                    proof {
                        assert(!ctx_items_fold(self.ast, reg, i as int, items).aborted);
                        assert(ctx_scope_fails(self.ast, reg, i as int) == 0);
                    }
                    let k = self.scope_arena.allocate(Scope {
                        parent,
                        defs: visible,
                        explicit_defs: explicit,
                    });
                    self.ctx_scope[i] = CacheSlot::Done(k);
                    proof {
                        assert(self.scope_arena@[k as int].defs@ == ctx_items_fold(self.ast, reg, i as int, items).visible);
                        assert(self.slot_ctx_scope_ok(i as int));
                        lemma_wf_preserved(s2, *self);
                        lemma_evolves_step(pre, s2, *self);
                    }
                    Ok(id)
                }
            }
        }
    }
}

} // verus!
