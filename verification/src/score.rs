//! The scoreboard: the memoizing query engine coordinating HIR, scope and
//! definition computation.
//!
//! Each query is keyed by a typed identifier and memoized per identifier:
//! the first call computes, commits the result to the arena of its kind
//! and caches the arena index; every later call with the same identifier
//! returns the cached index without recomputation -- including a cached
//! failure, which returns silently because its reason was already
//! reported to the diagnostics sink when it was first detected.
//!
//! Queries execute depth-first on the caller's stack. Before a query
//! computes, its cache slot is marked in progress; a request for a slot
//! already in progress fails immediately with a circular-dependency
//! diagnostic instead of recursing without termination.

use vstd::prelude::*;
use crate::arena::{Arena, seq_extends};
use crate::common::{
    is_error_diag, DiagKind, Diagnostic, Name, ResolvableName, Session, Severity, Span, Spanned,
    TraceEvent,
};
use crate::defs::{append_def, idx_of, replace_def, Defs};
use crate::hir::{Arch, Arenas, Entity, EnumLit, Lib, Package, SubtypeDecl, SubtypeInd, TypeData, TypeDecl, Constraint};
use crate::ids::{
    ArchRef, CtxItemsRef, Def, DeclInPkgRef, EntityRef, EnumRef, LibRef, PkgDeclRef, PkgInstRef,
    ScopeRef, SubtypeDeclRef, TypeDeclRef,
};
use crate::scope::Scope;
use crate::syntax::{AstEntity, AstLib, AstPackage, CtxItem, SyntaxTree};

verus! {

/// The unit-valued failure a query returns. The reason was reported to
/// the diagnostics sink at the point of detection; callers branch on
/// success without re-deriving the message.
#[derive(Clone, Copy, PartialEq, Eq, Structural, Debug)]
pub struct Failure;

/// The memoization state of one (artifact kind, identifier) pair.
#[derive(Clone, Copy, PartialEq, Eq, Structural, Debug)]
pub enum CacheSlot {
    /// Never requested.
    Unevaluated,
    /// Requested and still computing further down the call stack.
    InProgress,
    /// Computed; the payload is the index of the result in the arena of
    /// the artifact's kind.
    Done(usize),
    /// Computed and failed; the reason was already reported.
    Failed,
}

/// How a memoization table may change across a query: settled slots never
/// change again, and a slot marked in progress belongs to a query further
/// up the call stack, which alone completes it.
pub open spec fn cache_extends(pre: Seq<CacheSlot>, post: Seq<CacheSlot>) -> bool {
    &&& pre.len() == post.len()
    &&& forall|i: int| 0 <= i < pre.len() && !((#[trigger] pre[i]) is Unevaluated)
        ==> post[i] == pre[i]
}

/// The scoreboard context: the shared state every query can reach. One
/// context exists per compilation session; queries take it exclusively
/// (single-threaded execution discipline).
pub struct ScoreContext {
    /// The session: options and the diagnostics sink.
    pub sess: Session,
    /// The syntax tree, read-only input for the whole session.
    pub ast: SyntaxTree,
    /// The library-name registry, populated at session setup and treated
    /// as read-only thereafter.
    pub lib_names: Vec<(Name, LibRef)>,
    /// The arenas all HIR nodes live in.
    pub arenas: Arenas,
    /// The arena holding materialized definition tables.
    pub defs_arena: Arena<Defs>,
    /// The arena holding materialized scope records.
    pub scope_arena: Arena<Scope>,
    // One memoization table per artifact kind, one slot per syntax node.
    pub lib_hir: Vec<CacheSlot>,
    pub entity_hir: Vec<CacheSlot>,
    pub arch_hir: Vec<CacheSlot>,
    pub pkg_hir: Vec<CacheSlot>,
    pub type_hir: Vec<CacheSlot>,
    pub subtype_hir: Vec<CacheSlot>,
    pub lib_defs: Vec<CacheSlot>,
    pub ctx_defs: Vec<CacheSlot>,
    pub entity_defs: Vec<CacheSlot>,
    pub arch_defs: Vec<CacheSlot>,
    pub pkg_defs: Vec<CacheSlot>,
    pub pkg_inst_defs: Vec<CacheSlot>,
    pub lib_scope: Vec<CacheSlot>,
    pub ctx_scope: Vec<CacheSlot>,
    pub entity_scope: Vec<CacheSlot>,
    pub arch_scope: Vec<CacheSlot>,
    pub pkg_scope: Vec<CacheSlot>,
    pub pkg_inst_scope: Vec<CacheSlot>,
}

/// Whether the HIR of a library mirrors its syntax node: the same design
/// units, in the same order.
pub open spec fn lib_matches(l: Lib, a: AstLib) -> bool {
    &&& l.entities@ == a.entities@
    &&& l.cfgs@ == a.cfgs@
    &&& l.pkg_decls@ == a.pkg_decls@
    &&& l.pkg_insts@ == a.pkg_insts@
    &&& l.ctxs@ == a.ctxs@
    &&& l.archs@ == a.archs@
    &&& l.pkg_bodies@ == a.pkg_bodies@
}

/// Whether the HIR of an entity mirrors its syntax node. Lowering of the
/// locally declared interface (generics, ports) is not part of this core
/// slice, so those lists are empty.
pub open spec fn entity_matches(e: Entity, a: AstEntity) -> bool {
    &&& e.ctx_items == a.ctx_items
    &&& e.lib == a.lib
    &&& e.name == a.name
    &&& e.generics@.len() == 0
    &&& e.ports@.len() == 0
}

/// Whether two type payloads carry the same data.
pub open spec fn type_data_matches(a: Option<TypeData>, b: Option<TypeData>) -> bool {
    match (a, b) {
        (Option::None, Option::None) => true,
        (Option::Some(TypeData::Range(s1, d1, l1, r1)), Option::Some(TypeData::Range(s2, d2, l2, r2))) =>
            s1 == s2 && d1 == d2 && l1 == l2 && r1 == r2,
        (Option::Some(TypeData::Enum(s1, v1)), Option::Some(TypeData::Enum(s2, v2))) =>
            s1 == s2 && v1@ == v2@,
        _ => false,
    }
}

impl ScoreContext {
    /// Every memoization table has one slot per syntax node of its kind.
    pub open spec fn caches_sized(self) -> bool {
        &&& self.lib_hir@.len() == self.ast.libs@.len()
        &&& self.entity_hir@.len() == self.ast.entities@.len()
        &&& self.arch_hir@.len() == self.ast.archs@.len()
        &&& self.pkg_hir@.len() == self.ast.pkg_decls@.len()
        &&& self.type_hir@.len() == self.ast.type_decls@.len()
        &&& self.subtype_hir@.len() == self.ast.subtype_decls@.len()
        &&& self.lib_defs@.len() == self.ast.libs@.len()
        &&& self.ctx_defs@.len() == self.ast.ctx_items@.len()
        &&& self.entity_defs@.len() == self.ast.entities@.len()
        &&& self.arch_defs@.len() == self.ast.archs@.len()
        &&& self.pkg_defs@.len() == self.ast.pkg_decls@.len()
        &&& self.pkg_inst_defs@.len() == self.ast.pkg_insts@.len()
        &&& self.lib_scope@.len() == self.ast.libs@.len()
        &&& self.ctx_scope@.len() == self.ast.ctx_items@.len()
        &&& self.entity_scope@.len() == self.ast.entities@.len()
        &&& self.arch_scope@.len() == self.ast.archs@.len()
        &&& self.pkg_scope@.len() == self.ast.pkg_decls@.len()
        &&& self.pkg_inst_scope@.len() == self.ast.pkg_insts@.len()
    }

    /// The registry only names existing libraries.
    pub open spec fn lib_names_ok(self) -> bool {
        forall|i: int| 0 <= i < self.lib_names@.len()
            ==> (#[trigger] self.lib_names@[i]).1.0 < self.ast.libs@.len()
    }

    pub open spec fn slot_lib_hir_ok(self, i: int) -> bool {
        match self.lib_hir@[i] {
            CacheSlot::Failed => false,
            CacheSlot::Done(k) => k < self.arenas.lib@.len()
                && lib_matches(self.arenas.lib@[k as int], self.ast.libs@[i]),
            _ => true,
        }
    }

    pub open spec fn slot_entity_hir_ok(self, i: int) -> bool {
        match self.entity_hir@[i] {
            CacheSlot::Failed => false,
            CacheSlot::Done(k) => k < self.arenas.entity@.len()
                && entity_matches(self.arenas.entity@[k as int], self.ast.entities@[i]),
            _ => true,
        }
    }

    pub open spec fn slot_arch_hir_ok(self, i: int) -> bool {
        match self.arch_hir@[i] {
            CacheSlot::Failed => false,
            CacheSlot::Done(k) => {
                let node = self.arenas.arch@[k as int];
                let a = self.ast.archs@[i];
                &&& k < self.arenas.arch@.len()
                &&& node.ctx_items == a.ctx_items
                &&& node.entity == a.entity
                &&& node.name == a.name
                &&& node.decls@.len() == 0
                &&& node.stmts@.len() == 0
            }
            _ => true,
        }
    }

    pub open spec fn slot_pkg_hir_ok(self, i: int) -> bool {
        match self.pkg_hir@[i] {
            CacheSlot::Failed => false,
            CacheSlot::Done(k) => {
                let node = self.arenas.package@[k as int];
                let a = self.ast.pkg_decls@[i];
                &&& k < self.arenas.package@.len()
                &&& node.parent == a.parent
                &&& node.name == a.name
                &&& node.generics@.len() == 0
                &&& node.decls@ == a.decls@
            }
            _ => true,
        }
    }

    pub open spec fn slot_type_hir_ok(self, i: int) -> bool {
        match self.type_hir@[i] {
            CacheSlot::Failed => false,
            CacheSlot::Done(k) => {
                let node = self.arenas.type_decl@[k as int];
                let a = self.ast.type_decls@[i];
                &&& k < self.arenas.type_decl@.len()
                &&& node.parent == a.parent
                &&& node.name == a.name
                &&& type_data_matches(node.data, a.data)
            }
            _ => true,
        }
    }

    pub open spec fn slot_subtype_hir_ok(self, i: int) -> bool {
        match self.subtype_hir@[i] {
            CacheSlot::Failed => false,
            CacheSlot::Done(k) => {
                let node = self.arenas.subtype_decl@[k as int];
                let a = self.ast.subtype_decls@[i];
                &&& k < self.arenas.subtype_decl@.len()
                &&& node.parent == a.parent
                &&& node.name == a.name
                &&& node.subty.0 < self.arenas.subtype_ind@.len()
                &&& subtype_ind_matches(self.arenas.subtype_ind@[node.subty.0 as int], self.ast.subtype_decls@[i].subty)
            }
            _ => true,
        }
    }

    pub open spec fn slot_lib_defs_ok(self, i: int) -> bool {
        match self.lib_defs@[i] {
            CacheSlot::Failed => dup_rows(lib_rows(self.ast, i)).len() != 0,
            CacheSlot::Done(k) => {
                &&& k < self.defs_arena@.len()
                &&& self.defs_arena@[k as int].wf()
                &&& self.defs_arena@[k as int]@ == lib_rows(self.ast, i)
                &&& dup_rows(lib_rows(self.ast, i)).len() == 0
            }
            _ => true,
        }
    }

    pub open spec fn slot_ctx_defs_ok(self, i: int) -> bool {
        match self.ctx_defs@[i] {
            CacheSlot::Failed =>
                ctx_fail_count(self.lib_names@, clause_idents(self.ast.ctx_items@[i]@)) != 0,
            CacheSlot::Done(k) => {
                &&& k < self.defs_arena@.len()
                &&& self.defs_arena@[k as int].wf()
                &&& self.defs_arena@[k as int]@ == ctx_rows(self.lib_names@, clause_idents(self.ast.ctx_items@[i]@))
                &&& ctx_fail_count(self.lib_names@, clause_idents(self.ast.ctx_items@[i]@)) == 0
            }
            _ => true,
        }
    }

    pub open spec fn slot_pkg_defs_ok(self, i: int) -> bool {
        match self.pkg_defs@[i] {
            CacheSlot::Failed => pkg_fails(pkg_pairs(self.ast, self.ast.pkg_decls@[i])).len() != 0,
            CacheSlot::Done(k) => {
                &&& k < self.defs_arena@.len()
                &&& self.defs_arena@[k as int].wf()
                &&& self.defs_arena@[k as int]@ == pkg_rows(pkg_pairs(self.ast, self.ast.pkg_decls@[i]))
                &&& pkg_fails(pkg_pairs(self.ast, self.ast.pkg_decls@[i])).len() == 0
            }
            _ => true,
        }
    }

    /// Resolution of the names an entity, architecture or package
    /// instance declares is intentionally unimplemented in this core
    /// slice; their definitions queries always fail (with a
    /// not-yet-supported diagnostic on first request), so their slots are
    /// never settled successfully.
    pub open spec fn slot_unsupported_defs_ok(self) -> bool {
        &&& forall|i: int| 0 <= i < self.entity_defs@.len() ==> !((#[trigger] self.entity_defs@[i]) is Done)
        &&& forall|i: int| 0 <= i < self.arch_defs@.len() ==> !((#[trigger] self.arch_defs@[i]) is Done)
        &&& forall|i: int| 0 <= i < self.pkg_inst_defs@.len() ==> !((#[trigger] self.pkg_inst_defs@[i]) is Done)
        &&& forall|i: int| 0 <= i < self.pkg_inst_scope@.len() ==> !((#[trigger] self.pkg_inst_scope@[i]) is Done)
    }

    pub open spec fn slot_lib_scope_ok(self, i: int) -> bool {
        match self.lib_scope@[i] {
            CacheSlot::Failed => lib_scope_failed_ok(self.ast, self.lib_names@, i),
            CacheSlot::Done(k) => {
                let s = self.scope_arena@[k as int];
                &&& k < self.scope_arena@.len()
                &&& s.parent is None
                &&& s.defs@ == seq![ScopeRef::Lib(LibRef(i as usize))]
                &&& s.explicit_defs@.len() == 0
                &&& s.explicit_defs.wf()
            }
            _ => true,
        }
    }

    pub open spec fn slot_ctx_scope_ok(self, i: int) -> bool {
        match self.ctx_scope@[i] {
            CacheSlot::Failed => ctx_scope_fails(self.ast, self.lib_names@, i) != 0,
            CacheSlot::Done(k) => {
                let s = self.scope_arena@[k as int];
                let items = self.ast.ctx_items@[i]@;
                &&& k < self.scope_arena@.len()
                &&& s.defs@ == ctx_scope_visible(self.ast, self.lib_names@, i)
                &&& s.explicit_defs@ == ctx_scope_explicit(self.ast, self.lib_names@, i)
                &&& s.explicit_defs.wf()
                &&& ctx_scope_fails(self.ast, self.lib_names@, i) == 0
                &&& forall|j: int| 0 <= j < s.defs@.len()
                    ==> self.ast.valid_scope_ref(#[trigger] s.defs@[j])
            }
            _ => true,
        }
    }

    pub open spec fn slot_entity_scope_ok(self, i: int) -> bool {
        match self.entity_scope@[i] {
            CacheSlot::Failed => entity_scope_failed_ok(self.ast, self.lib_names@, i),
            CacheSlot::Done(k) => {
                let s = self.scope_arena@[k as int];
                &&& k < self.scope_arena@.len()
                &&& s.parent == Some(ScopeRef::CtxItems(self.ast.entities@[i].ctx_items))
                &&& s.defs@ == seq![ScopeRef::Entity(EntityRef(i as usize))]
                &&& s.explicit_defs@.len() == 0
                &&& s.explicit_defs.wf()
            }
            _ => true,
        }
    }

    pub open spec fn slot_arch_scope_ok(self, i: int) -> bool {
        match self.arch_scope@[i] {
            CacheSlot::Failed => arch_scope_failed_ok(self.ast, self.lib_names@, i),
            CacheSlot::Done(k) => {
                let s = self.scope_arena@[k as int];
                &&& k < self.scope_arena@.len()
                &&& s.parent == Some(ScopeRef::CtxItems(self.ast.archs@[i].ctx_items))
                &&& s.defs@ == seq![ScopeRef::Arch(ArchRef(i as usize))]
                &&& s.explicit_defs@.len() == 0
                &&& s.explicit_defs.wf()
            }
            _ => true,
        }
    }

    pub open spec fn slot_pkg_scope_ok(self, i: int) -> bool {
        match self.pkg_scope@[i] {
            CacheSlot::Failed => pkg_scope_failed_ok(self.ast, self.lib_names@, i),
            CacheSlot::Done(k) => {
                let s = self.scope_arena@[k as int];
                &&& k < self.scope_arena@.len()
                &&& s.parent == Some(self.ast.pkg_decls@[i].parent)
                &&& s.defs@ == seq![ScopeRef::Pkg(PkgDeclRef(i as usize))]
                &&& s.explicit_defs@.len() == 0
                &&& s.explicit_defs.wf()
            }
            _ => true,
        }
    }

    /// Every settled cache slot points at an arena node whose content is
    /// what the specification of its query says.
    pub open spec fn coherent(self) -> bool {
        &&& forall|i: int| 0 <= i < self.lib_hir@.len() ==> #[trigger] self.slot_lib_hir_ok(i)
        &&& forall|i: int| 0 <= i < self.entity_hir@.len() ==> #[trigger] self.slot_entity_hir_ok(i)
        &&& forall|i: int| 0 <= i < self.arch_hir@.len() ==> #[trigger] self.slot_arch_hir_ok(i)
        &&& forall|i: int| 0 <= i < self.pkg_hir@.len() ==> #[trigger] self.slot_pkg_hir_ok(i)
        &&& forall|i: int| 0 <= i < self.type_hir@.len() ==> #[trigger] self.slot_type_hir_ok(i)
        &&& forall|i: int| 0 <= i < self.subtype_hir@.len() ==> #[trigger] self.slot_subtype_hir_ok(i)
        &&& forall|i: int| 0 <= i < self.lib_defs@.len() ==> #[trigger] self.slot_lib_defs_ok(i)
        &&& forall|i: int| 0 <= i < self.ctx_defs@.len() ==> #[trigger] self.slot_ctx_defs_ok(i)
        &&& forall|i: int| 0 <= i < self.pkg_defs@.len() ==> #[trigger] self.slot_pkg_defs_ok(i)
        &&& self.slot_unsupported_defs_ok()
        &&& forall|i: int| 0 <= i < self.lib_scope@.len() ==> #[trigger] self.slot_lib_scope_ok(i)
        &&& forall|i: int| 0 <= i < self.ctx_scope@.len() ==> #[trigger] self.slot_ctx_scope_ok(i)
        &&& forall|i: int| 0 <= i < self.entity_scope@.len() ==> #[trigger] self.slot_entity_scope_ok(i)
        &&& forall|i: int| 0 <= i < self.arch_scope@.len() ==> #[trigger] self.slot_arch_scope_ok(i)
        &&& forall|i: int| 0 <= i < self.pkg_scope@.len() ==> #[trigger] self.slot_pkg_scope_ok(i)
    }

    /// The context invariant every query requires and preserves.
    pub open spec fn wf(self) -> bool {
        &&& self.ast.wf()
        &&& self.lib_names_ok()
        &&& self.caches_sized()
        &&& self.coherent()
    }

    /// How a query may change the context: the inputs (syntax tree,
    /// registry, options) stay; arenas and sinks only grow; settled cache
    /// slots never change. This is what makes identifiers stable and
    /// memoized results permanent.
    pub open spec fn evolves_to(self, post: ScoreContext) -> bool {
        &&& post.ast == self.ast
        &&& post.lib_names@ == self.lib_names@
        &&& post.sess.opts == self.sess.opts
        &&& seq_extends(self.sess.diags@, post.sess.diags@)
        &&& seq_extends(self.sess.trace@, post.sess.trace@)
        &&& seq_extends(self.arenas.lib@, post.arenas.lib@)
        &&& seq_extends(self.arenas.entity@, post.arenas.entity@)
        &&& seq_extends(self.arenas.arch@, post.arenas.arch@)
        &&& seq_extends(self.arenas.intf_sig@, post.arenas.intf_sig@)
        &&& seq_extends(self.arenas.subtype_ind@, post.arenas.subtype_ind@)
        &&& seq_extends(self.arenas.package@, post.arenas.package@)
        &&& seq_extends(self.arenas.type_decl@, post.arenas.type_decl@)
        &&& seq_extends(self.arenas.subtype_decl@, post.arenas.subtype_decl@)
        &&& seq_extends(self.arenas.expr@, post.arenas.expr@)
        &&& seq_extends(self.arenas.const_decl@, post.arenas.const_decl@)
        &&& seq_extends(self.arenas.signal_decl@, post.arenas.signal_decl@)
        &&& seq_extends(self.arenas.variable_decl@, post.arenas.variable_decl@)
        &&& seq_extends(self.arenas.file_decl@, post.arenas.file_decl@)
        &&& seq_extends(self.defs_arena@, post.defs_arena@)
        &&& seq_extends(self.scope_arena@, post.scope_arena@)
        &&& cache_extends(self.lib_hir@, post.lib_hir@)
        &&& cache_extends(self.entity_hir@, post.entity_hir@)
        &&& cache_extends(self.arch_hir@, post.arch_hir@)
        &&& cache_extends(self.pkg_hir@, post.pkg_hir@)
        &&& cache_extends(self.type_hir@, post.type_hir@)
        &&& cache_extends(self.subtype_hir@, post.subtype_hir@)
        &&& cache_extends(self.lib_defs@, post.lib_defs@)
        &&& cache_extends(self.ctx_defs@, post.ctx_defs@)
        &&& cache_extends(self.entity_defs@, post.entity_defs@)
        &&& cache_extends(self.arch_defs@, post.arch_defs@)
        &&& cache_extends(self.pkg_defs@, post.pkg_defs@)
        &&& cache_extends(self.pkg_inst_defs@, post.pkg_inst_defs@)
        &&& cache_extends(self.lib_scope@, post.lib_scope@)
        &&& cache_extends(self.ctx_scope@, post.ctx_scope@)
        &&& cache_extends(self.entity_scope@, post.entity_scope@)
        &&& cache_extends(self.arch_scope@, post.arch_scope@)
        &&& cache_extends(self.pkg_scope@, post.pkg_scope@)
        &&& cache_extends(self.pkg_inst_scope@, post.pkg_inst_scope@)
    }
}


/// A library's scope has no failure mode of its own; its slot is never
/// settled as failed.
pub open spec fn lib_scope_failed_ok(ast: SyntaxTree, reg: Seq<(Name, LibRef)>, i: int) -> bool {
    false
}

/// An entity's scope fails exactly when the scope of its context items
/// does. A failure that merely propagates another query's transient state
/// is not cached, so a settled failure pins the reason down.
pub open spec fn entity_scope_failed_ok(ast: SyntaxTree, reg: Seq<(Name, LibRef)>, i: int) -> bool {
    ctx_scope_fails(ast, reg, ast.entities@[i].ctx_items.0 as int) != 0
}

/// An architecture's scope fails exactly when the scope of its context
/// items does.
pub open spec fn arch_scope_failed_ok(ast: SyntaxTree, reg: Seq<(Name, LibRef)>, i: int) -> bool {
    ctx_scope_fails(ast, reg, ast.archs@[i].ctx_items.0 as int) != 0
}

/// A package's scope fails exactly when its parent is a pending
/// context-item scope whose construction fails.
pub open spec fn pkg_scope_failed_ok(ast: SyntaxTree, reg: Seq<(Name, LibRef)>, i: int) -> bool {
    match ast.pkg_decls@[i].parent {
        ScopeRef::CtxItems(c) => ctx_scope_fails(ast, reg, c.0 as int) != 0,
        _ => false,
    }
}

impl ScoreContext {
    /// No definitions or HIR query is on the call stack: the state from
    /// which name resolution gets exact answers. Scope queries preserve
    /// this while they run, because resolution never re-enters a scope
    /// query through a definitions table.
    pub open spec fn defs_ready(self) -> bool {
        &&& self.hir_ready()
        &&& forall|i: int| 0 <= i < self.lib_defs@.len() ==> !((#[trigger] self.lib_defs@[i]) is InProgress)
        &&& forall|i: int| 0 <= i < self.ctx_defs@.len() ==> !((#[trigger] self.ctx_defs@[i]) is InProgress)
        &&& forall|i: int| 0 <= i < self.pkg_defs@.len() ==> !((#[trigger] self.pkg_defs@[i]) is InProgress)
    }

    /// No HIR query that a definitions query depends on is on the call
    /// stack.
    pub open spec fn hir_ready(self) -> bool {
        &&& forall|i: int| 0 <= i < self.lib_hir@.len() ==> !((#[trigger] self.lib_hir@[i]) is InProgress)
        &&& forall|i: int| 0 <= i < self.pkg_hir@.len() ==> !((#[trigger] self.pkg_hir@[i]) is InProgress)
    }
}

/// Evolution composes: what one query guarantees, a chain of queries
/// guarantees too.
pub proof fn lemma_evolves_trans(a: ScoreContext, b: ScoreContext, c: ScoreContext)
    requires
        a.evolves_to(b),
        b.evolves_to(c),
    ensures
        a.evolves_to(c),
{
}

/// A query's completing step evolves from its entry state: after the
/// sub-queries ran (`pre` to `mid`), the query may append to the sinks
/// and arenas and fill slots that were unevaluated at its entry and are
/// not settled yet.
pub open spec fn step_cache_ok(pre: Seq<CacheSlot>, mid: Seq<CacheSlot>, post: Seq<CacheSlot>) -> bool {
    &&& post.len() == mid.len()
    &&& forall|i: int| 0 <= i < post.len()
        ==> (#[trigger] post[i]) == mid[i]
            || ((mid[i] is Unevaluated || mid[i] is InProgress) && pre[i] is Unevaluated)
}

pub proof fn lemma_evolves_step(pre: ScoreContext, mid: ScoreContext, post: ScoreContext)
    requires
        pre.evolves_to(mid),
        post.ast == mid.ast,
        post.lib_names@ == mid.lib_names@,
        post.sess.opts == mid.sess.opts,
        seq_extends(mid.sess.diags@, post.sess.diags@),
        seq_extends(mid.sess.trace@, post.sess.trace@),
        seq_extends(mid.arenas.lib@, post.arenas.lib@),
        seq_extends(mid.arenas.entity@, post.arenas.entity@),
        seq_extends(mid.arenas.arch@, post.arenas.arch@),
        seq_extends(mid.arenas.intf_sig@, post.arenas.intf_sig@),
        seq_extends(mid.arenas.subtype_ind@, post.arenas.subtype_ind@),
        seq_extends(mid.arenas.package@, post.arenas.package@),
        seq_extends(mid.arenas.type_decl@, post.arenas.type_decl@),
        seq_extends(mid.arenas.subtype_decl@, post.arenas.subtype_decl@),
        seq_extends(mid.arenas.expr@, post.arenas.expr@),
        seq_extends(mid.arenas.const_decl@, post.arenas.const_decl@),
        seq_extends(mid.arenas.signal_decl@, post.arenas.signal_decl@),
        seq_extends(mid.arenas.variable_decl@, post.arenas.variable_decl@),
        seq_extends(mid.arenas.file_decl@, post.arenas.file_decl@),
        seq_extends(mid.defs_arena@, post.defs_arena@),
        seq_extends(mid.scope_arena@, post.scope_arena@),
        step_cache_ok(pre.lib_hir@, mid.lib_hir@, post.lib_hir@),
        step_cache_ok(pre.entity_hir@, mid.entity_hir@, post.entity_hir@),
        step_cache_ok(pre.arch_hir@, mid.arch_hir@, post.arch_hir@),
        step_cache_ok(pre.pkg_hir@, mid.pkg_hir@, post.pkg_hir@),
        step_cache_ok(pre.type_hir@, mid.type_hir@, post.type_hir@),
        step_cache_ok(pre.subtype_hir@, mid.subtype_hir@, post.subtype_hir@),
        step_cache_ok(pre.lib_defs@, mid.lib_defs@, post.lib_defs@),
        step_cache_ok(pre.ctx_defs@, mid.ctx_defs@, post.ctx_defs@),
        step_cache_ok(pre.entity_defs@, mid.entity_defs@, post.entity_defs@),
        step_cache_ok(pre.arch_defs@, mid.arch_defs@, post.arch_defs@),
        step_cache_ok(pre.pkg_defs@, mid.pkg_defs@, post.pkg_defs@),
        step_cache_ok(pre.pkg_inst_defs@, mid.pkg_inst_defs@, post.pkg_inst_defs@),
        step_cache_ok(pre.lib_scope@, mid.lib_scope@, post.lib_scope@),
        step_cache_ok(pre.ctx_scope@, mid.ctx_scope@, post.ctx_scope@),
        step_cache_ok(pre.entity_scope@, mid.entity_scope@, post.entity_scope@),
        step_cache_ok(pre.arch_scope@, mid.arch_scope@, post.arch_scope@),
        step_cache_ok(pre.pkg_scope@, mid.pkg_scope@, post.pkg_scope@),
        step_cache_ok(pre.pkg_inst_scope@, mid.pkg_inst_scope@, post.pkg_inst_scope@),
    ensures
        pre.evolves_to(post),
{
}

/// Whether the HIR of a subtype indication mirrors its syntax node.
pub open spec fn subtype_ind_matches(n: SubtypeInd, a: crate::syntax::AstSubtypeInd) -> bool {
    &&& n.span == a.span
    &&& n.type_mark == a.type_mark
    &&& n.constraint is Unconstrained
}

// ---------------------------------------------------------------------
// Content specification of the definitions a library exports.
// ---------------------------------------------------------------------

/// The (name, definition) pairs the design units of a library contribute,
/// in unit-kind order: entities, configurations, package declarations,
/// package instances, contexts. Architectures and package bodies
/// contribute no top-level names.
pub open spec fn lib_pairs(ast: SyntaxTree, l: AstLib) -> Seq<(ResolvableName, Spanned<Def>)> {
    l.entities@.map_values(
        |r: EntityRef|
            (
                ResolvableName::Ident(ast.entities@[r.0 as int].name.value),
                Spanned { value: Def::Entity(r), span: ast.entities@[r.0 as int].name.span },
            ),
    ).add(
        l.cfgs@.map_values(
            |r: crate::ids::CfgRef|
                (
                    ResolvableName::Ident(ast.cfgs@[r.0 as int].name.value),
                    Spanned { value: Def::Cfg(r), span: ast.cfgs@[r.0 as int].name.span },
                ),
        ),
    ).add(
        l.pkg_decls@.map_values(
            |r: PkgDeclRef|
                (
                    ResolvableName::Ident(ast.pkg_decls@[r.0 as int].name.value),
                    Spanned { value: Def::Pkg(r), span: ast.pkg_decls@[r.0 as int].name.span },
                ),
        ),
    ).add(
        l.pkg_insts@.map_values(
            |r: PkgInstRef|
                (
                    ResolvableName::Ident(ast.pkg_insts@[r.0 as int].name.value),
                    Spanned { value: Def::PkgInst(r), span: ast.pkg_insts@[r.0 as int].name.span },
                ),
        ),
    ).add(
        l.ctxs@.map_values(
            |r: crate::ids::CtxRef|
                (
                    ResolvableName::Ident(ast.ctxs@[r.0 as int].name.value),
                    Spanned { value: Def::Ctx(r), span: ast.ctxs@[r.0 as int].name.span },
                ),
        ),
    )
}

/// The definitions table built by appending every pair in order: every
/// contribution is kept, so a duplicated name shows as a row with more
/// than one definition.
pub open spec fn rows_of(pairs: Seq<(ResolvableName, Spanned<Def>)>) -> Seq<(ResolvableName, Seq<Spanned<Def>>)>
    decreases pairs.len(),
{
    if pairs.len() == 0 {
        Seq::empty()
    } else {
        append_def(rows_of(pairs.drop_last()), pairs.last().0, pairs.last().1)
    }
}

/// The definitions table of a library.
pub open spec fn lib_rows(ast: SyntaxTree, i: int) -> Seq<(ResolvableName, Seq<Spanned<Def>>)> {
    rows_of(lib_pairs(ast, ast.libs@[i]))
}

/// The rows holding more than one definition, in row order: the names a
/// duplicate-definition error is owed for.
pub open spec fn dup_rows(rows: Seq<(ResolvableName, Seq<Spanned<Def>>)>) -> Seq<(ResolvableName, Seq<Spanned<Def>>)>
    decreases rows.len(),
{
    if rows.len() == 0 {
        Seq::empty()
    } else if rows.last().1.len() > 1 {
        dup_rows(rows.drop_last()).push(rows.last())
    } else {
        dup_rows(rows.drop_last())
    }
}

/// The diagnostic owed for one duplicated name: an error citing every
/// conflicting span, in insertion order.
pub open spec fn is_dup_diag(d: Diagnostic, row: (ResolvableName, Seq<Spanned<Def>>)) -> bool {
    is_error_diag(
        d,
        DiagKind::DuplicateDefinition { name: row.0 },
        row.1.map_values(|s: Spanned<Def>| s.span),
        Seq::empty(),
    )
}

// ---------------------------------------------------------------------
// Content specification of the definitions the context items preceding a
// design unit make: one binding per library clause name.
// ---------------------------------------------------------------------

/// The names of all library clauses among the context items, flattened in
/// source order. Use clauses contribute no definitions here; they are
/// resolved during scope construction.
pub open spec fn clause_idents(items: Seq<CtxItem>) -> Seq<Spanned<Name>>
    decreases items.len(),
{
    if items.len() == 0 {
        Seq::empty()
    } else {
        clause_idents(items.drop_last()).add(
            match items.last() {
                CtxItem::LibClause(names) => names.value@,
                CtxItem::UseClause(_) => Seq::empty(),
            },
        )
    }
}

/// The registry lookup: the library bound to `n`, if any (first match).
pub open spec fn lib_lookup(reg: Seq<(Name, LibRef)>, n: Name) -> Option<LibRef>
    decreases reg.len(),
{
    if reg.len() == 0 {
        Option::None
    } else if reg[0].0 == n {
        Option::Some(reg[0].1)
    } else {
        lib_lookup(reg.skip(1), n)
    }
}

/// The definitions table the library clauses build: each known name binds
/// once; a second binding of the same name, and a name the registry does
/// not know, are failures and leave the table unchanged.
pub open spec fn ctx_rows(reg: Seq<(Name, LibRef)>, idents: Seq<Spanned<Name>>) -> Seq<(ResolvableName, Seq<Spanned<Def>>)>
    decreases idents.len(),
{
    if idents.len() == 0 {
        Seq::empty()
    } else {
        let rows = ctx_rows(reg, idents.drop_last());
        let id = idents.last();
        match lib_lookup(reg, id.value) {
            Option::Some(l) => {
                if idx_of(rows, ResolvableName::Ident(id.value)) != -1 {
                    rows
                } else {
                    rows.push(
                        (
                            ResolvableName::Ident(id.value),
                            seq![Spanned { value: Def::Lib(l), span: id.span }],
                        ),
                    )
                }
            }
            Option::None => rows,
        }
    }
}

/// Which library clause names fail, and how: true for a name the registry
/// does not know, false for a name bound twice. Order of occurrence.
pub open spec fn ctx_fail_descrs(reg: Seq<(Name, LibRef)>, idents: Seq<Spanned<Name>>) -> Seq<(bool, Spanned<Name>)>
    decreases idents.len(),
{
    if idents.len() == 0 {
        Seq::empty()
    } else {
        let descrs = ctx_fail_descrs(reg, idents.drop_last());
        let rows = ctx_rows(reg, idents.drop_last());
        let id = idents.last();
        match lib_lookup(reg, id.value) {
            Option::Some(l) => {
                if idx_of(rows, ResolvableName::Ident(id.value)) != -1 {
                    descrs.push((false, id))
                } else {
                    descrs
                }
            }
            Option::None => descrs.push((true, id)),
        }
    }
}

/// The number of failing library clause names.
pub open spec fn ctx_fail_count(reg: Seq<(Name, LibRef)>, idents: Seq<Spanned<Name>>) -> int {
    ctx_fail_descrs(reg, idents).len() as int
}

/// The diagnostic owed for one failing library clause name.
pub open spec fn is_ctx_fail_diag(d: Diagnostic, descr: (bool, Spanned<Name>)) -> bool {
    is_error_diag(
        d,
        if descr.0 {
            DiagKind::UnknownLibrary { name: descr.1.value }
        } else {
            DiagKind::AlreadyDeclared { name: descr.1.value }
        },
        seq![descr.1.span],
        Seq::empty(),
    )
}

// ---------------------------------------------------------------------
// Content specification of the definitions a package declaration makes.
// ---------------------------------------------------------------------

/// The (name, definition) pairs one declaration inside a package
/// contributes: its own name, and, for an enumeration type, one pair per
/// literal.
pub open spec fn decl_pairs(ast: SyntaxTree, d: DeclInPkgRef) -> Seq<(ResolvableName, Spanned<Def>)> {
    match d {
        DeclInPkgRef::Pkg(id) => seq![
            (
                ResolvableName::Ident(ast.pkg_decls@[id.0 as int].name.value),
                Spanned { value: Def::Pkg(id), span: ast.pkg_decls@[id.0 as int].name.span },
            ),
        ],
        DeclInPkgRef::PkgInst(id) => seq![
            (
                ResolvableName::Ident(ast.pkg_insts@[id.0 as int].name.value),
                Spanned { value: Def::PkgInst(id), span: ast.pkg_insts@[id.0 as int].name.span },
            ),
        ],
        DeclInPkgRef::Subtype(id) => seq![
            (
                ResolvableName::Ident(ast.subtype_decls@[id.0 as int].name.value),
                Spanned { value: Def::Subtype(id), span: ast.subtype_decls@[id.0 as int].name.span },
            ),
        ],
        DeclInPkgRef::Type(id) => {
            let t = ast.type_decls@[id.0 as int];
            seq![
                (
                    ResolvableName::Ident(t.name.value),
                    Spanned { value: Def::Type(id), span: t.name.span },
                ),
            ].add(enum_lit_pairs(id, t.data))
        }
    }
}

/// The pair one literal of an enumeration type contributes: literal `k`
/// of the declaring type.
pub open spec fn enum_lit_pair(id: TypeDeclRef, k: int, lit: EnumLit) -> (ResolvableName, Spanned<Def>) {
    match lit {
        EnumLit::Ident(n) => (
            ResolvableName::Ident(n.value),
            Spanned { value: Def::Enum(EnumRef(id, k as usize)), span: n.span },
        ),
        EnumLit::Char(c) => (
            ResolvableName::Bit(c.value),
            Spanned { value: Def::Enum(EnumRef(id, k as usize)), span: c.span },
        ),
    }
}

/// The pairs the first `n` literals contribute, in order.
pub open spec fn enum_pairs_upto(id: TypeDeclRef, lits: Seq<EnumLit>, n: int) -> Seq<(ResolvableName, Spanned<Def>)>
    decreases n,
{
    if n <= 0 {
        Seq::empty()
    } else {
        enum_pairs_upto(id, lits, n - 1).push(enum_lit_pair(id, n - 1, lits[n - 1]))
    }
}

/// The pairs the literals of an enumeration type contribute.
pub open spec fn enum_lit_pairs(id: TypeDeclRef, data: Option<TypeData>) -> Seq<(ResolvableName, Spanned<Def>)> {
    match data {
        Option::Some(TypeData::Enum(span, lits)) => enum_pairs_upto(id, lits@, lits@.len() as int),
        _ => Seq::empty(),
    }
}

/// What the first `n` literals contribute, pointwise.
pub proof fn lemma_enum_pairs_upto(id: TypeDeclRef, lits: Seq<EnumLit>, n: int)
    requires
        0 <= n <= lits.len(),
    ensures
        enum_pairs_upto(id, lits, n).len() == n,
        forall|k: int| 0 <= k < n
            ==> #[trigger] enum_pairs_upto(id, lits, n)[k] == enum_lit_pair(id, k, lits[k]),
    decreases n,
{
    if n > 0 {
        lemma_enum_pairs_upto(id, lits, n - 1);
    }
}

/// All pairs the declarations of a package contribute, in source order.
pub open spec fn pkg_pairs_prefix(ast: SyntaxTree, decls: Seq<DeclInPkgRef>) -> Seq<(ResolvableName, Spanned<Def>)>
    decreases decls.len(),
{
    if decls.len() == 0 {
        Seq::empty()
    } else {
        pkg_pairs_prefix(ast, decls.drop_last()).add(decl_pairs(ast, decls.last()))
    }
}

/// All pairs a package contributes.
pub open spec fn pkg_pairs(ast: SyntaxTree, p: AstPackage) -> Seq<(ResolvableName, Spanned<Def>)> {
    pkg_pairs_prefix(ast, p.decls@)
}

/// The definitions table a package builds: overloadable definitions
/// (enumeration literals) accumulate under their name; a non-overloadable
/// definition replaces what its name was bound to, which is a duplicate
/// failure when the name was bound.
pub open spec fn pkg_rows(pairs: Seq<(ResolvableName, Spanned<Def>)>) -> Seq<(ResolvableName, Seq<Spanned<Def>>)>
    decreases pairs.len(),
{
    if pairs.len() == 0 {
        Seq::empty()
    } else {
        let rows = pkg_rows(pairs.drop_last());
        let p = pairs.last();
        if p.1.value.is_overloadable() {
            append_def(rows, p.0, p.1)
        } else {
            replace_def(rows, p.0, p.1)
        }
    }
}

/// The duplicate failures a package's pairs run into: the name, the span
/// of the new binding, and the span of the previous binding it conflicts
/// with, in order of occurrence.
pub open spec fn pkg_fails(pairs: Seq<(ResolvableName, Spanned<Def>)>) -> Seq<(ResolvableName, Span, Span)>
    decreases pairs.len(),
{
    if pairs.len() == 0 {
        Seq::empty()
    } else {
        let fails = pkg_fails(pairs.drop_last());
        let rows = pkg_rows(pairs.drop_last());
        let p = pairs.last();
        if !p.1.value.is_overloadable() && idx_of(rows, p.0) != -1 {
            fails.push((p.0, p.1.span, rows[idx_of(rows, p.0)].1.last().span))
        } else {
            fails
        }
    }
}

/// The diagnostic owed for one duplicate inside a package: an error on
/// the new binding's span, with a note citing the previous one.
pub open spec fn is_pkg_fail_diag(d: Diagnostic, f: (ResolvableName, Span, Span)) -> bool {
    is_error_diag(d, DiagKind::DuplicateDefinition { name: f.0 }, seq![f.1], seq![f.2])
}

/// The trace events a package's pairs produce when tracing is on.
pub open spec fn pkg_trace(pairs: Seq<(ResolvableName, Spanned<Def>)>) -> Seq<TraceEvent> {
    pairs.map_values(|p: (ResolvableName, Spanned<Def>)| TraceEvent { name: p.0, def: p.1.value })
}

// ---------------------------------------------------------------------
// Content specification of compound-name resolution and of the scope the
// context items preceding a design unit establish.
// ---------------------------------------------------------------------

/// A compound name as the resolution specification sees it: the leading
/// part, the remaining parts, and the span of the whole name.
pub ghost struct GName {
    pub primary: Spanned<ResolvableName>,
    pub parts: Seq<crate::syntax::NamePart>,
    pub span: Span,
}

/// The specification view of a parsed compound name.
pub open spec fn gview(n: crate::syntax::CompoundName) -> GName {
    GName { primary: n.primary, parts: n.parts@, span: n.span }
}

/// The state of a partly resolved compound name: the last resolved name,
/// what it denotes, the span of the valid prefix, and how many of the
/// trailing parts were consumed.
pub ghost struct ResolvedName {
    pub res_name: ResolvableName,
    pub defs: Seq<Spanned<Def>>,
    pub valid_span: Span,
    pub consumed: int,
}

/// How resolving a compound name can end.
pub ghost enum RcnOut {
    /// A valid prefix resolved; `consumed` parts were used up.
    Resolved(ResolvedName),
    /// Some part did not resolve: the name and span to report.
    Unresolved(ResolvableName, Span),
    /// A definitions table the walk needed could not be built (its
    /// failure was reported by the query that built it).
    TableFailed,
}

/// The definitions table a definition exposes for further selection, when
/// it exposes one: a library's or a package's table. `None` when the
/// table's own construction fails.
pub open spec fn exposed_rows(ast: SyntaxTree, reg: Seq<(Name, LibRef)>, d: Def) -> Option<Seq<(ResolvableName, Seq<Spanned<Def>>)>> {
    match d {
        Def::Lib(l) => if l.0 < ast.libs@.len() && dup_rows(lib_rows(ast, l.0 as int)).len() == 0 {
            Option::Some(lib_rows(ast, l.0 as int))
        } else {
            Option::None
        },
        Def::Pkg(p) => if p.0 < ast.pkg_decls@.len()
            && pkg_fails(pkg_pairs(ast, ast.pkg_decls@[p.0 as int])).len() == 0 {
            Option::Some(pkg_rows(pkg_pairs(ast, ast.pkg_decls@[p.0 as int])))
        } else {
            Option::None
        },
        _ => Option::None,
    }
}

/// Whether a definition exposes a table at all (regardless of whether the
/// table can be built).
pub open spec fn is_container(d: Def) -> bool {
    d is Lib || d is Pkg
}

/// Walking the parts of a compound name from part `j` on: an intermediate
/// selected part is looked up within the previously resolved part's
/// exposed definitions; the walk stops at a wildcard selector, at a part
/// the previous definitions cannot be selected into, or at the end.
pub open spec fn resolve_parts(
    ast: SyntaxTree,
    reg: Seq<(Name, LibRef)>,
    st: ResolvedName,
    parts: Seq<crate::syntax::NamePart>,
    j: int,
) -> RcnOut
    decreases parts.len() - j,
{
    if j < 0 || j >= parts.len() {
        RcnOut::Resolved(st)
    } else {
        match parts[j] {
            crate::syntax::NamePart::SelectAll(_) => RcnOut::Resolved(st),
            crate::syntax::NamePart::Select(n) => {
                if st.defs.len() == 1 && is_container(st.defs[0].value) {
                    match exposed_rows(ast, reg, st.defs[0].value) {
                        Option::None => RcnOut::TableFailed,
                        Option::Some(rows) => {
                            let k = idx_of(rows, n.value);
                            if k == -1 {
                                RcnOut::Unresolved(n.value, n.span)
                            } else {
                                resolve_parts(
                                    ast,
                                    reg,
                                    ResolvedName {
                                        res_name: n.value,
                                        defs: rows[k].1,
                                        valid_span: n.span,
                                        consumed: j + 1,
                                    },
                                    parts,
                                    j + 1,
                                )
                            }
                        }
                    }
                } else {
                    RcnOut::Resolved(st)
                }
            }
        }
    }
}

/// Resolving a compound name within the scope the context items preceding
/// a design unit establish: the leading part is looked up in the context
/// items' own definitions (the library clauses), the rest by walking.
pub open spec fn resolve_compound(
    ast: SyntaxTree,
    reg: Seq<(Name, LibRef)>,
    ctx: int,
    name: GName,
) -> RcnOut {
    let idents = clause_idents(ast.ctx_items@[ctx]@);
    if ctx_fail_count(reg, idents) != 0 {
        RcnOut::TableFailed
    } else {
        let rows = ctx_rows(reg, idents);
        let k = idx_of(rows, name.primary.value);
        if k == -1 {
            RcnOut::Unresolved(name.primary.value, name.primary.span)
        } else {
            resolve_parts(
                ast,
                reg,
                ResolvedName {
                    res_name: name.primary.value,
                    defs: rows[k].1,
                    valid_span: name.primary.span,
                    consumed: 0,
                },
                name.parts,
                0,
            )
        }
    }
}

/// The compound names of all use clauses among the context items,
/// flattened in source order.
pub open spec fn use_names(items: Seq<CtxItem>) -> Seq<crate::syntax::CompoundName>
    decreases items.len(),
{
    if items.len() == 0 {
        Seq::empty()
    } else {
        use_names(items.drop_last()).add(
            match items.last() {
                CtxItem::UseClause(names) => names.value@,
                CtxItem::LibClause(_) => Seq::empty(),
            },
        )
    }
}

/// What processing the use clauses of a context-item scope accumulates.
pub ghost struct CtxScopeFold {
    /// The identifiers whose definition tables the scope makes visible:
    /// the context items themselves, then every wildcard-imported package.
    pub visible: Seq<ScopeRef>,
    /// The explicit imports: name to definitions, from use clauses without
    /// a wildcard selector.
    pub explicit: Seq<(ResolvableName, Seq<Spanned<Def>>)>,
    /// How many use-clause names failed (wildcard on a non-package, or
    /// trailing garbage after a valid prefix).
    pub fails: nat,
    /// Whether processing aborted: a name did not resolve at all, or a
    /// table it needed could not be built.
    pub aborted: bool,
}

/// Appending several definitions under one name.
pub open spec fn append_defs(
    rows: Seq<(ResolvableName, Seq<Spanned<Def>>)>,
    name: ResolvableName,
    defs: Seq<Spanned<Def>>,
) -> Seq<(ResolvableName, Seq<Spanned<Def>>)>
    decreases defs.len(),
{
    if defs.len() == 0 {
        rows
    } else {
        append_def(append_defs(rows, name, defs.drop_last()), name, defs.last())
    }
}

/// Processing one use-clause name on top of an accumulated fold state.
pub open spec fn ctx_scope_step(
    ast: SyntaxTree,
    reg: Seq<(Name, LibRef)>,
    ctx: int,
    acc: CtxScopeFold,
    name: GName,
) -> CtxScopeFold {
    match resolve_compound(ast, reg, ctx, name) {
        RcnOut::TableFailed => CtxScopeFold { aborted: true, ..acc },
        RcnOut::Unresolved(_, _) => CtxScopeFold { aborted: true, ..acc },
        RcnOut::Resolved(st) => {
            let parts = name.parts;
            if st.consumed < parts.len() && parts[st.consumed] is SelectAll {
                match st.defs.last().value {
                    Def::Pkg(p) => {
                        if p.0 >= ast.pkg_decls@.len() {
                            CtxScopeFold { fails: acc.fails + 1, ..acc }
                        } else if st.consumed + 1 < parts.len() {
                            // Trailing garbage after the wildcard.
                            CtxScopeFold {
                                visible: acc.visible.push(ScopeRef::Pkg(p)),
                                fails: acc.fails + 1,
                                ..acc
                            }
                        } else {
                            CtxScopeFold { visible: acc.visible.push(ScopeRef::Pkg(p)), ..acc }
                        }
                    }
                    _ => CtxScopeFold { fails: acc.fails + 1, ..acc },
                }
            } else if st.consumed < parts.len() {
                // Trailing garbage after a valid prefix.
                CtxScopeFold { fails: acc.fails + 1, ..acc }
            } else {
                CtxScopeFold {
                    explicit: append_defs(acc.explicit, st.res_name, st.defs),
                    ..acc
                }
            }
        }
    }
}

/// Processing the names of one use clause, left to right, on top of an
/// accumulated state. Processing aborts at the first name whose
/// resolution fails outright; other failures are recorded and processing
/// goes on, so one request surfaces every diagnostic it can.
pub open spec fn ctx_use_fold(
    ast: SyntaxTree,
    reg: Seq<(Name, LibRef)>,
    ctx: int,
    acc: CtxScopeFold,
    names: Seq<crate::syntax::CompoundName>,
) -> CtxScopeFold
    decreases names.len(),
{
    if names.len() == 0 {
        acc
    } else {
        let a = ctx_use_fold(ast, reg, ctx, acc, names.drop_last());
        if a.aborted {
            a
        } else {
            ctx_scope_step(ast, reg, ctx, a, gview(names.last()))
        }
    }
}

/// The initial fold state of a context-item scope: only the context
/// items' own definitions are visible.
pub open spec fn ctx_fold_base(ctx: int) -> CtxScopeFold {
    CtxScopeFold {
        visible: seq![ScopeRef::CtxItems(CtxItemsRef(ctx as usize))],
        explicit: Seq::empty(),
        fails: 0,
        aborted: false,
    }
}

/// Processing the context items in source order: library clauses
/// contribute nothing here; each use clause's names are processed in
/// order.
pub open spec fn ctx_items_fold(
    ast: SyntaxTree,
    reg: Seq<(Name, LibRef)>,
    ctx: int,
    items: Seq<CtxItem>,
) -> CtxScopeFold
    decreases items.len(),
{
    if items.len() == 0 {
        ctx_fold_base(ctx)
    } else {
        let a = ctx_items_fold(ast, reg, ctx, items.drop_last());
        if a.aborted {
            a
        } else {
            match items.last() {
                CtxItem::UseClause(names) => ctx_use_fold(ast, reg, ctx, a, names.value@),
                CtxItem::LibClause(_) => a,
            }
        }
    }
}

/// The full fold over all context items of `i`.
pub open spec fn ctx_scope_out(ast: SyntaxTree, reg: Seq<(Name, LibRef)>, i: int) -> CtxScopeFold {
    ctx_items_fold(ast, reg, i, ast.ctx_items@[i]@)
}

/// A diagnostic of the definitions layer (or of compound-name
/// resolution): what the scope layer's sub-queries may emit, each pinned
/// exactly by its own query's contract.
pub open spec fn is_defs_diag(d: Diagnostic) -> bool {
    ||| d.kind is DuplicateDefinition
    ||| d.kind is AlreadyDeclared
    ||| d.kind is UnknownLibrary
    ||| d.kind is UnresolvedName
}

/// A diagnostic owed by scope construction itself.
pub open spec fn is_scope_layer_diag(d: Diagnostic) -> bool {
    ||| d.kind is SelectAllOnNonPackage
    ||| d.kind is InvalidNameSuffix
}

/// One failure scope construction owes a diagnostic for.
pub ghost enum ScopeFailDescr {
    /// `all` selected on something that is not a package: the selector's
    /// span.
    AllOnNonPackage(Span),
    /// Trailing garbage after a valid prefix: from the end of the prefix
    /// to the end of the name.
    Suffix(Span),
}

/// The diagnostic owed for one scope-construction failure.
pub open spec fn is_scope_fail_diag(d: Diagnostic, descr: ScopeFailDescr) -> bool {
    match descr {
        ScopeFailDescr::AllOnNonPackage(sp) => is_error_diag(
            d,
            DiagKind::SelectAllOnNonPackage,
            seq![sp],
            Seq::empty(),
        ),
        ScopeFailDescr::Suffix(sp) => is_error_diag(
            d,
            DiagKind::InvalidNameSuffix,
            seq![sp],
            Seq::empty(),
        ),
    }
}

/// The failures one use-clause name owes a scope-construction diagnostic
/// for, mirroring `ctx_scope_step`'s failing branches. A name that does
/// not resolve at all owes nothing here: its reason was emitted by the
/// resolver or the definitions query that detected it.
pub open spec fn name_fail_descrs(
    ast: SyntaxTree,
    reg: Seq<(Name, LibRef)>,
    ctx: int,
    name: GName,
) -> Seq<ScopeFailDescr> {
    match resolve_compound(ast, reg, ctx, name) {
        RcnOut::Resolved(st) => {
            let parts = name.parts;
            if st.consumed < parts.len() && parts[st.consumed] is SelectAll {
                let asp = parts[st.consumed]->SelectAll_0;
                match st.defs.last().value {
                    Def::Pkg(p) => {
                        if p.0 >= ast.pkg_decls@.len() {
                            seq![ScopeFailDescr::AllOnNonPackage(asp)]
                        } else if st.consumed + 1 < parts.len() {
                            seq![
                                ScopeFailDescr::Suffix(
                                    Span { begin: asp.end, end: name.span.end },
                                ),
                            ]
                        } else {
                            Seq::empty()
                        }
                    }
                    _ => seq![ScopeFailDescr::AllOnNonPackage(asp)],
                }
            } else if st.consumed < parts.len() {
                seq![
                    ScopeFailDescr::Suffix(
                        Span { begin: st.valid_span.end, end: name.span.end },
                    ),
                ]
            } else {
                Seq::empty()
            }
        }
        _ => Seq::empty(),
    }
}

/// The scope-construction failures of one use clause's names, up to an
/// abort.
pub open spec fn use_fail_descrs(
    ast: SyntaxTree,
    reg: Seq<(Name, LibRef)>,
    ctx: int,
    acc: CtxScopeFold,
    names: Seq<crate::syntax::CompoundName>,
) -> Seq<ScopeFailDescr>
    decreases names.len(),
{
    if names.len() == 0 {
        Seq::empty()
    } else {
        let a = ctx_use_fold(ast, reg, ctx, acc, names.drop_last());
        let d = use_fail_descrs(ast, reg, ctx, acc, names.drop_last());
        if a.aborted {
            d
        } else {
            d + name_fail_descrs(ast, reg, ctx, gview(names.last()))
        }
    }
}

/// The scope-construction failures of a run of context items, up to an
/// abort.
pub open spec fn items_fail_descrs(
    ast: SyntaxTree,
    reg: Seq<(Name, LibRef)>,
    ctx: int,
    items: Seq<CtxItem>,
) -> Seq<ScopeFailDescr>
    decreases items.len(),
{
    if items.len() == 0 {
        Seq::empty()
    } else {
        let a = ctx_items_fold(ast, reg, ctx, items.drop_last());
        let d = items_fail_descrs(ast, reg, ctx, items.drop_last());
        if a.aborted {
            d
        } else {
            match items.last() {
                CtxItem::UseClause(names) => d + use_fail_descrs(ast, reg, ctx, a, names.value@),
                CtxItem::LibClause(_) => d,
            }
        }
    }
}

/// Every scope-construction diagnostic a context-item scope owes, in
/// emission order.
pub open spec fn scope_fail_descrs(ast: SyntaxTree, reg: Seq<(Name, LibRef)>, i: int) -> Seq<ScopeFailDescr> {
    items_fail_descrs(ast, reg, i, ast.ctx_items@[i]@)
}

/// The scope-layer diagnostics among a sequence, in order.
pub open spec fn scope_diags(s: Seq<Diagnostic>) -> Seq<Diagnostic>
    decreases s.len(),
{
    if s.len() == 0 {
        Seq::empty()
    } else if is_scope_layer_diag(s.last()) {
        scope_diags(s.drop_last()).push(s.last())
    } else {
        scope_diags(s.drop_last())
    }
}

/// Selecting the scope-layer diagnostics distributes over concatenation.
pub proof fn lemma_scope_diags_add(s: Seq<Diagnostic>, t: Seq<Diagnostic>)
    ensures
        scope_diags(s + t) == scope_diags(s) + scope_diags(t),
    decreases t.len(),
{
    if t.len() == 0 {
        assert(s + t =~= s);
        assert(scope_diags(s) + Seq::<Diagnostic>::empty() =~= scope_diags(s));
    } else {
        lemma_scope_diags_add(s, t.drop_last());
        assert((s + t).drop_last() =~= s + t.drop_last());
        assert((s + t).last() == t.last());
        if is_scope_layer_diag(t.last()) {
            assert(scope_diags(s) + scope_diags(t) =~= (scope_diags(s) + scope_diags(t.drop_last())).push(t.last()));
        }
    }
}

/// A run of diagnostics none of which belongs to the scope layer
/// contributes nothing.
pub proof fn lemma_scope_diags_none(t: Seq<Diagnostic>)
    requires
        forall|k: int| 0 <= k < t.len() ==> !is_scope_layer_diag(#[trigger] t[k]),
    ensures
        scope_diags(t) == Seq::<Diagnostic>::empty(),
    decreases t.len(),
{
    if t.len() > 0 {
        lemma_scope_diags_none(t.drop_last());
    }
}

/// Emitting one owed scope-construction diagnostic extends the selected
/// run by exactly that record.
pub proof fn lemma_push_scope_diag(
    old_added: Seq<Diagnostic>,
    new_added: Seq<Diagnostic>,
    old_descrs: Seq<ScopeFailDescr>,
    d: Diagnostic,
    descr: ScopeFailDescr,
)
    requires
        new_added == old_added.push(d),
        is_scope_layer_diag(d),
        is_scope_fail_diag(d, descr),
        scope_diags(old_added).len() == old_descrs.len(),
        forall|k: int| 0 <= k < old_descrs.len()
            ==> is_scope_fail_diag(#[trigger] scope_diags(old_added)[k], old_descrs[k]),
    ensures
        scope_diags(new_added).len() == old_descrs.len() + 1,
        forall|k: int| 0 <= k < old_descrs.push(descr).len()
            ==> is_scope_fail_diag(#[trigger] scope_diags(new_added)[k], old_descrs.push(descr)[k]),
{
    assert(new_added.drop_last() =~= old_added);
    assert(new_added.last() == d);
    assert(scope_diags(new_added) =~= scope_diags(old_added).push(d));
    assert forall|k: int| 0 <= k < old_descrs.push(descr).len()
        implies is_scope_fail_diag(#[trigger] scope_diags(new_added)[k], old_descrs.push(descr)[k]) by {
        if k < old_descrs.len() {
            assert(scope_diags(new_added)[k] == scope_diags(old_added)[k]);
        }
    }
}

/// An aborted prefix settles the owed diagnostics of the whole item run.
pub proof fn lemma_items_descrs_aborted(ast: SyntaxTree, reg: Seq<(Name, LibRef)>, ctx: int, items: Seq<CtxItem>, k: int)
    requires
        0 <= k <= items.len(),
        ctx_items_fold(ast, reg, ctx, items.take(k)).aborted,
    ensures
        items_fail_descrs(ast, reg, ctx, items) == items_fail_descrs(ast, reg, ctx, items.take(k)),
    decreases items.len() - k,
{
    lemma_items_fold_aborted(ast, reg, ctx, items, k);
    if k < items.len() {
        assert(items.take(k + 1).drop_last() =~= items.take(k));
        lemma_items_fold_aborted(ast, reg, ctx, items.take(k + 1), k);
        lemma_items_descrs_aborted(ast, reg, ctx, items, k + 1);
        assert(items.take(items.len() as int) =~= items);
    } else {
        assert(items.take(k) =~= items);
    }
}

/// An aborted prefix settles the owed diagnostics of one use clause.
pub proof fn lemma_use_descrs_aborted(
    ast: SyntaxTree,
    reg: Seq<(Name, LibRef)>,
    ctx: int,
    acc: CtxScopeFold,
    names: Seq<crate::syntax::CompoundName>,
    k: int,
)
    requires
        0 <= k <= names.len(),
        ctx_use_fold(ast, reg, ctx, acc, names.take(k)).aborted,
    ensures
        use_fail_descrs(ast, reg, ctx, acc, names) == use_fail_descrs(ast, reg, ctx, acc, names.take(k)),
    decreases names.len() - k,
{
    lemma_use_fold_aborted(ast, reg, ctx, acc, names, k);
    if k < names.len() {
        assert(names.take(k + 1).drop_last() =~= names.take(k));
        lemma_use_fold_aborted(ast, reg, ctx, acc, names.take(k + 1), k);
        lemma_use_descrs_aborted(ast, reg, ctx, acc, names, k + 1);
        assert(names.take(names.len() as int) =~= names);
    } else {
        assert(names.take(k) =~= names);
    }
}

/// An aborted prefix settles the whole item fold.
pub proof fn lemma_items_fold_aborted(ast: SyntaxTree, reg: Seq<(Name, LibRef)>, ctx: int, items: Seq<CtxItem>, k: int)
    requires
        0 <= k <= items.len(),
        ctx_items_fold(ast, reg, ctx, items.take(k)).aborted,
    ensures
        ctx_items_fold(ast, reg, ctx, items) == ctx_items_fold(ast, reg, ctx, items.take(k)),
    decreases items.len() - k,
{
    if k < items.len() {
        assert(items.take(k + 1).drop_last() =~= items.take(k));
        lemma_items_fold_aborted(ast, reg, ctx, items, k + 1);
        assert(items.take(items.len() as int) =~= items);
    } else {
        assert(items.take(k) =~= items);
    }
}

/// An aborted prefix settles the whole use-clause fold.
pub proof fn lemma_use_fold_aborted(
    ast: SyntaxTree,
    reg: Seq<(Name, LibRef)>,
    ctx: int,
    acc: CtxScopeFold,
    names: Seq<crate::syntax::CompoundName>,
    k: int,
)
    requires
        0 <= k <= names.len(),
        ctx_use_fold(ast, reg, ctx, acc, names.take(k)).aborted,
    ensures
        ctx_use_fold(ast, reg, ctx, acc, names) == ctx_use_fold(ast, reg, ctx, acc, names.take(k)),
    decreases names.len() - k,
{
    if k < names.len() {
        assert(names.take(k + 1).drop_last() =~= names.take(k));
        lemma_use_fold_aborted(ast, reg, ctx, acc, names, k + 1);
        assert(names.take(names.len() as int) =~= names);
    } else {
        assert(names.take(k) =~= names);
    }
}

/// The definition tables a context-item scope makes visible.
pub open spec fn ctx_scope_visible(ast: SyntaxTree, reg: Seq<(Name, LibRef)>, i: int) -> Seq<ScopeRef> {
    ctx_scope_out(ast, reg, i).visible
}

/// The explicit imports of a context-item scope.
pub open spec fn ctx_scope_explicit(ast: SyntaxTree, reg: Seq<(Name, LibRef)>, i: int) -> Seq<(ResolvableName, Seq<Spanned<Def>>)> {
    ctx_scope_out(ast, reg, i).explicit
}

/// How many failures building a context-item scope runs into; the scope
/// query succeeds if and only if this is zero.
pub open spec fn ctx_scope_fails(ast: SyntaxTree, reg: Seq<(Name, LibRef)>, i: int) -> nat {
    let out = ctx_scope_out(ast, reg, i);
    if out.aborted {
        out.fails + 1
    } else {
        out.fails
    }
}

/// What `lib_lookup` returns: `None` and no entry is bound to `n`, or the
/// library of the first entry that is.
pub proof fn lemma_lib_lookup_props(reg: Seq<(Name, LibRef)>, n: Name)
    ensures
        lib_lookup(reg, n) is None ==> forall|i: int| 0 <= i < reg.len() ==> (#[trigger] reg[i]).0 != n,
        lib_lookup(reg, n) matches Some(l) ==> exists|i: int|
            0 <= i < reg.len() && (#[trigger] reg[i]).0 == n && reg[i].1 == l,
    decreases reg.len(),
{
    if reg.len() == 0 {
    } else if reg[0].0 == n {
        assert(reg[0].0 == n);
    } else {
        lemma_lib_lookup_props(reg.skip(1), n);
        assert forall|i: int| 1 <= i < reg.len() implies reg.skip(1)[i - 1] == reg[i] by {}
        if lib_lookup(reg, n) is Some {
            let i = choose|i: int| 0 <= i < reg.skip(1).len() && (#[trigger] reg.skip(1)[i]).0 == n
                && reg.skip(1)[i].1 == lib_lookup(reg.skip(1), n)->Some_0;
            assert(reg[i + 1].0 == n && reg[i + 1].1 == lib_lookup(reg, n)->Some_0);
        }
    }
}

/// The first matching entry is what `lib_lookup` finds.
pub proof fn lemma_lib_lookup_first(reg: Seq<(Name, LibRef)>, n: Name, k: int)
    requires
        0 <= k < reg.len(),
        reg[k].0 == n,
        forall|i: int| 0 <= i < k ==> (#[trigger] reg[i]).0 != n,
    ensures
        lib_lookup(reg, n) == Some(reg[k].1),
    decreases k,
{
    if k == 0 {
    } else {
        assert(reg[0].0 != n);
        assert(reg.skip(1)[k - 1] == reg[k]);
        assert forall|i: int| 0 <= i < k - 1 implies (#[trigger] reg.skip(1)[i]).0 != n by {
            assert(reg.skip(1)[i] == reg[i + 1]);
        }
        lemma_lib_lookup_first(reg.skip(1), n, k - 1);
    }
}

// ---------------------------------------------------------------------
// The queries.
// ---------------------------------------------------------------------

/// Copy a vector of plain identifiers.
pub(crate) fn copy_vec<T: Copy>(src: &Vec<T>) -> (r: Vec<T>)
    ensures
        r@ == src@,
{
    let n = src.len();
    let mut v: Vec<T> = Vec::new();
    for i in 0..n
        invariant
            n == src@.len(),
            v@ == src@.take(i as int),
    {
        v.push(src[i]);
        proof {
            assert(v@ =~= src@.take(i + 1));
        }
    }
    proof {
        assert(src@.take(n as int) =~= src@);
    }
    v
}

/// A memoization table of `n` unevaluated slots.
fn make_slots(n: usize) -> (r: Vec<CacheSlot>)
    ensures
        r@.len() == n,
        forall|i: int| 0 <= i < n ==> r@[i] == CacheSlot::Unevaluated,
{
    let mut v: Vec<CacheSlot> = Vec::new();
    for i in 0..n
        invariant
            v@.len() == i,
            forall|j: int| 0 <= j < i ==> v@[j] == CacheSlot::Unevaluated,
    {
        v.push(CacheSlot::Unevaluated);
    }
    v
}

/// The diagnostic reporting a query that required its own result.
pub(crate) fn circular_diag() -> (d: Diagnostic)
    ensures
        is_error_diag(d, DiagKind::CircularDependency, Seq::empty(), Seq::empty()),
{
    let d = Diagnostic {
        severity: Severity::Error,
        kind: DiagKind::CircularDependency,
        spans: Vec::new(),
        note_spans: Vec::new(),
    };
    proof {
        assert(d.spans@ =~= Seq::<Span>::empty());
        assert(d.note_spans@ =~= Seq::<Span>::empty());
    }
    d
}

/// Well-formedness is preserved by any step that keeps the inputs, only
/// grows the arenas, and changes cache slots only to states that are
/// themselves coherent.
pub proof fn lemma_wf_preserved(pre: ScoreContext, post: ScoreContext)
    requires
        pre.wf(),
        post.ast == pre.ast,
        post.lib_names@ == pre.lib_names@,
        seq_extends(pre.arenas.lib@, post.arenas.lib@),
        seq_extends(pre.arenas.entity@, post.arenas.entity@),
        seq_extends(pre.arenas.arch@, post.arenas.arch@),
        seq_extends(pre.arenas.intf_sig@, post.arenas.intf_sig@),
        seq_extends(pre.arenas.subtype_ind@, post.arenas.subtype_ind@),
        seq_extends(pre.arenas.package@, post.arenas.package@),
        seq_extends(pre.arenas.type_decl@, post.arenas.type_decl@),
        seq_extends(pre.arenas.subtype_decl@, post.arenas.subtype_decl@),
        seq_extends(pre.defs_arena@, post.defs_arena@),
        seq_extends(pre.scope_arena@, post.scope_arena@),
        post.lib_hir@.len() == pre.lib_hir@.len(),
        post.entity_hir@.len() == pre.entity_hir@.len(),
        post.arch_hir@.len() == pre.arch_hir@.len(),
        post.pkg_hir@.len() == pre.pkg_hir@.len(),
        post.type_hir@.len() == pre.type_hir@.len(),
        post.subtype_hir@.len() == pre.subtype_hir@.len(),
        post.lib_defs@.len() == pre.lib_defs@.len(),
        post.ctx_defs@.len() == pre.ctx_defs@.len(),
        post.entity_defs@.len() == pre.entity_defs@.len(),
        post.arch_defs@.len() == pre.arch_defs@.len(),
        post.pkg_defs@.len() == pre.pkg_defs@.len(),
        post.pkg_inst_defs@.len() == pre.pkg_inst_defs@.len(),
        post.lib_scope@.len() == pre.lib_scope@.len(),
        post.ctx_scope@.len() == pre.ctx_scope@.len(),
        post.entity_scope@.len() == pre.entity_scope@.len(),
        post.arch_scope@.len() == pre.arch_scope@.len(),
        post.pkg_scope@.len() == pre.pkg_scope@.len(),
        post.pkg_inst_scope@.len() == pre.pkg_inst_scope@.len(),
        forall|i: int| 0 <= i < post.lib_hir@.len()
            ==> post.lib_hir@[i] == pre.lib_hir@[i] || #[trigger] post.slot_lib_hir_ok(i),
        forall|i: int| 0 <= i < post.entity_hir@.len()
            ==> post.entity_hir@[i] == pre.entity_hir@[i] || #[trigger] post.slot_entity_hir_ok(i),
        forall|i: int| 0 <= i < post.arch_hir@.len()
            ==> post.arch_hir@[i] == pre.arch_hir@[i] || #[trigger] post.slot_arch_hir_ok(i),
        forall|i: int| 0 <= i < post.pkg_hir@.len()
            ==> post.pkg_hir@[i] == pre.pkg_hir@[i] || #[trigger] post.slot_pkg_hir_ok(i),
        forall|i: int| 0 <= i < post.type_hir@.len()
            ==> post.type_hir@[i] == pre.type_hir@[i] || #[trigger] post.slot_type_hir_ok(i),
        forall|i: int| 0 <= i < post.subtype_hir@.len()
            ==> post.subtype_hir@[i] == pre.subtype_hir@[i] || #[trigger] post.slot_subtype_hir_ok(i),
        forall|i: int| 0 <= i < post.lib_defs@.len()
            ==> post.lib_defs@[i] == pre.lib_defs@[i] || #[trigger] post.slot_lib_defs_ok(i),
        forall|i: int| 0 <= i < post.ctx_defs@.len()
            ==> post.ctx_defs@[i] == pre.ctx_defs@[i] || #[trigger] post.slot_ctx_defs_ok(i),
        forall|i: int| 0 <= i < post.pkg_defs@.len()
            ==> post.pkg_defs@[i] == pre.pkg_defs@[i] || #[trigger] post.slot_pkg_defs_ok(i),
        forall|i: int| 0 <= i < post.entity_defs@.len()
            ==> post.entity_defs@[i] == pre.entity_defs@[i] || !((#[trigger] post.entity_defs@[i]) is Done),
        forall|i: int| 0 <= i < post.arch_defs@.len()
            ==> post.arch_defs@[i] == pre.arch_defs@[i] || !((#[trigger] post.arch_defs@[i]) is Done),
        forall|i: int| 0 <= i < post.pkg_inst_defs@.len()
            ==> post.pkg_inst_defs@[i] == pre.pkg_inst_defs@[i] || !((#[trigger] post.pkg_inst_defs@[i]) is Done),
        forall|i: int| 0 <= i < post.pkg_inst_scope@.len()
            ==> post.pkg_inst_scope@[i] == pre.pkg_inst_scope@[i] || !((#[trigger] post.pkg_inst_scope@[i]) is Done),
        forall|i: int| 0 <= i < post.lib_scope@.len()
            ==> post.lib_scope@[i] == pre.lib_scope@[i] || #[trigger] post.slot_lib_scope_ok(i),
        forall|i: int| 0 <= i < post.ctx_scope@.len()
            ==> post.ctx_scope@[i] == pre.ctx_scope@[i] || #[trigger] post.slot_ctx_scope_ok(i),
        forall|i: int| 0 <= i < post.entity_scope@.len()
            ==> post.entity_scope@[i] == pre.entity_scope@[i] || #[trigger] post.slot_entity_scope_ok(i),
        forall|i: int| 0 <= i < post.arch_scope@.len()
            ==> post.arch_scope@[i] == pre.arch_scope@[i] || #[trigger] post.slot_arch_scope_ok(i),
        forall|i: int| 0 <= i < post.pkg_scope@.len()
            ==> post.pkg_scope@[i] == pre.pkg_scope@[i] || #[trigger] post.slot_pkg_scope_ok(i),
    ensures
        post.wf(),
{
    assert forall|i: int| 0 <= i < post.lib_hir@.len() implies #[trigger] post.slot_lib_hir_ok(i) by {
        if post.lib_hir@[i] == pre.lib_hir@[i] {
            assert(pre.slot_lib_hir_ok(i));
        }
    }
    assert forall|i: int| 0 <= i < post.entity_hir@.len() implies #[trigger] post.slot_entity_hir_ok(i) by {
        if post.entity_hir@[i] == pre.entity_hir@[i] {
            assert(pre.slot_entity_hir_ok(i));
        }
    }
    assert forall|i: int| 0 <= i < post.arch_hir@.len() implies #[trigger] post.slot_arch_hir_ok(i) by {
        if post.arch_hir@[i] == pre.arch_hir@[i] {
            assert(pre.slot_arch_hir_ok(i));
        }
    }
    assert forall|i: int| 0 <= i < post.pkg_hir@.len() implies #[trigger] post.slot_pkg_hir_ok(i) by {
        if post.pkg_hir@[i] == pre.pkg_hir@[i] {
            assert(pre.slot_pkg_hir_ok(i));
        }
    }
    assert forall|i: int| 0 <= i < post.type_hir@.len() implies #[trigger] post.slot_type_hir_ok(i) by {
        if post.type_hir@[i] == pre.type_hir@[i] {
            assert(pre.slot_type_hir_ok(i));
        }
    }
    assert forall|i: int| 0 <= i < post.subtype_hir@.len() implies #[trigger] post.slot_subtype_hir_ok(i) by {
        if post.subtype_hir@[i] == pre.subtype_hir@[i] {
            assert(pre.slot_subtype_hir_ok(i));
        }
    }
    assert forall|i: int| 0 <= i < post.lib_defs@.len() implies #[trigger] post.slot_lib_defs_ok(i) by {
        if post.lib_defs@[i] == pre.lib_defs@[i] {
            assert(pre.slot_lib_defs_ok(i));
        }
    }
    assert forall|i: int| 0 <= i < post.ctx_defs@.len() implies #[trigger] post.slot_ctx_defs_ok(i) by {
        if post.ctx_defs@[i] == pre.ctx_defs@[i] {
            assert(pre.slot_ctx_defs_ok(i));
        }
    }
    assert forall|i: int| 0 <= i < post.pkg_defs@.len() implies #[trigger] post.slot_pkg_defs_ok(i) by {
        if post.pkg_defs@[i] == pre.pkg_defs@[i] {
            assert(pre.slot_pkg_defs_ok(i));
        }
    }
    assert forall|i: int| 0 <= i < post.lib_scope@.len() implies #[trigger] post.slot_lib_scope_ok(i) by {
        if post.lib_scope@[i] == pre.lib_scope@[i] {
            assert(pre.slot_lib_scope_ok(i));
        }
    }
    assert forall|i: int| 0 <= i < post.ctx_scope@.len() implies #[trigger] post.slot_ctx_scope_ok(i) by {
        if post.ctx_scope@[i] == pre.ctx_scope@[i] {
            assert(pre.slot_ctx_scope_ok(i));
        }
    }
    assert forall|i: int| 0 <= i < post.entity_scope@.len() implies #[trigger] post.slot_entity_scope_ok(i) by {
        if post.entity_scope@[i] == pre.entity_scope@[i] {
            assert(pre.slot_entity_scope_ok(i));
        }
    }
    assert forall|i: int| 0 <= i < post.arch_scope@.len() implies #[trigger] post.slot_arch_scope_ok(i) by {
        if post.arch_scope@[i] == pre.arch_scope@[i] {
            assert(pre.slot_arch_scope_ok(i));
        }
    }
    assert forall|i: int| 0 <= i < post.pkg_scope@.len() implies #[trigger] post.slot_pkg_scope_ok(i) by {
        if post.pkg_scope@[i] == pre.pkg_scope@[i] {
            assert(pre.slot_pkg_scope_ok(i));
        }
    }
}

impl ScoreContext {
    /// Create the context of one compilation session: the session, the
    /// parsed syntax tree, and the library-name registry, with empty
    /// arenas and every query unevaluated.
    pub fn new(sess: Session, ast: SyntaxTree, lib_names: Vec<(Name, LibRef)>) -> (ctx: ScoreContext)
        requires
            ast.wf(),
            forall|i: int| 0 <= i < lib_names@.len()
                ==> (#[trigger] lib_names@[i]).1.0 < ast.libs@.len(),
        ensures
            ctx.wf(),
            ctx.sess == sess,
            ctx.ast == ast,
            ctx.lib_names == lib_names,
            ctx.arenas.lib@.len() == 0,
            ctx.defs_arena@.len() == 0,
            ctx.scope_arena@.len() == 0,
            forall|i: int| 0 <= i < ctx.lib_defs@.len() ==> ctx.lib_defs@[i] == CacheSlot::Unevaluated,
            forall|i: int| 0 <= i < ctx.ctx_defs@.len() ==> ctx.ctx_defs@[i] == CacheSlot::Unevaluated,
            forall|i: int| 0 <= i < ctx.pkg_defs@.len() ==> ctx.pkg_defs@[i] == CacheSlot::Unevaluated,
            forall|i: int| 0 <= i < ctx.lib_hir@.len() ==> ctx.lib_hir@[i] == CacheSlot::Unevaluated,
            forall|i: int| 0 <= i < ctx.ctx_scope@.len() ==> ctx.ctx_scope@[i] == CacheSlot::Unevaluated,
            forall|i: int| 0 <= i < ctx.entity_scope@.len() ==> ctx.entity_scope@[i] == CacheSlot::Unevaluated,
    {
        let n_libs = ast.libs.len();
        let n_ctx = ast.ctx_items.len();
        let n_ent = ast.entities.len();
        let n_arch = ast.archs.len();
        let n_pkg = ast.pkg_decls.len();
        let n_inst = ast.pkg_insts.len();
        let n_type = ast.type_decls.len();
        let n_sub = ast.subtype_decls.len();
        ScoreContext {
            sess,
            ast,
            lib_names,
            arenas: Arenas::new(),
            defs_arena: Arena::new(),
            scope_arena: Arena::new(),
            lib_hir: make_slots(n_libs),
            entity_hir: make_slots(n_ent),
            arch_hir: make_slots(n_arch),
            pkg_hir: make_slots(n_pkg),
            type_hir: make_slots(n_type),
            subtype_hir: make_slots(n_sub),
            lib_defs: make_slots(n_libs),
            ctx_defs: make_slots(n_ctx),
            entity_defs: make_slots(n_ent),
            arch_defs: make_slots(n_arch),
            pkg_defs: make_slots(n_pkg),
            pkg_inst_defs: make_slots(n_inst),
            lib_scope: make_slots(n_libs),
            ctx_scope: make_slots(n_ctx),
            entity_scope: make_slots(n_ent),
            arch_scope: make_slots(n_arch),
            pkg_scope: make_slots(n_pkg),
            pkg_inst_scope: make_slots(n_inst),
        }
    }

    /// Dereference a materialized definitions table.
    pub fn defs_record(&self, k: usize) -> (r: &Defs)
        requires
            k < self.defs_arena@.len(),
        ensures
            *r == self.defs_arena@[k as int],
    {
        self.defs_arena.get(k)
    }

    /// Dereference a materialized scope record.
    pub fn scope_record(&self, k: usize) -> (r: &Scope)
        requires
            k < self.scope_arena@.len(),
        ensures
            *r == self.scope_arena@[k as int],
    {
        self.scope_arena.get(k)
    }

    /// The HIR of a library: the design units it contains. Memoized per
    /// identifier; the side-effecting construction runs at most once.
    pub fn lib_hir(&mut self, id: LibRef) -> (r: Result<usize, Failure>)
        requires
            old(self).wf(),
            id.0 < old(self).ast.libs@.len(),
        ensures
            final(self).wf(),
            old(self).evolves_to(*final(self)),
            old(self).hir_ready() ==> final(self).hir_ready(),
            final(self).lib_defs@ == old(self).lib_defs@,
            final(self).ctx_defs@ == old(self).ctx_defs@,
            final(self).pkg_defs@ == old(self).pkg_defs@,
            old(self).lib_hir@[id.0 as int] matches CacheSlot::Done(k)
                ==> *final(self) == *old(self) && r == Result::<usize, Failure>::Ok(k),
            old(self).lib_hir@[id.0 as int] is Failed ==> *final(self) == *old(self) && r is Err,
            r matches Ok(k) ==> final(self).lib_hir@[id.0 as int] == CacheSlot::Done(k)
                && k < final(self).arenas.lib@.len()
                && lib_matches(final(self).arenas.lib@[k as int], final(self).ast.libs@[id.0 as int]),
            old(self).lib_hir@[id.0 as int] is Unevaluated ==> r is Ok
                && final(self).sess == old(self).sess,
            old(self).lib_hir@[id.0 as int] is InProgress ==> r is Err
                && final(self).sess.diags@ == old(self).sess.diags@.push(final(self).sess.diags@.last())
                && is_error_diag(final(self).sess.diags@.last(), DiagKind::CircularDependency, Seq::empty(), Seq::empty()),
    {
        let i = id.0;
        match self.lib_hir[i] {
            CacheSlot::Done(k) => {
                proof {
                    assert(self.slot_lib_hir_ok(i as int));
                }
                Ok(k)
            }
            CacheSlot::Failed => Err(Failure),
            CacheSlot::InProgress => {
                let ghost pre = *self;
                self.sess.emit(circular_diag());
                proof {
                    lemma_wf_preserved(pre, *self);
                }
                Err(Failure)
            }
            CacheSlot::Unevaluated => {
                let ghost pre = *self;
                self.lib_hir[i] = CacheSlot::InProgress;
                let node = Lib {
                    entities: copy_vec(&self.ast.libs[i].entities),
                    cfgs: copy_vec(&self.ast.libs[i].cfgs),
                    pkg_decls: copy_vec(&self.ast.libs[i].pkg_decls),
                    pkg_insts: copy_vec(&self.ast.libs[i].pkg_insts),
                    ctxs: copy_vec(&self.ast.libs[i].ctxs),
                    archs: copy_vec(&self.ast.libs[i].archs),
                    pkg_bodies: copy_vec(&self.ast.libs[i].pkg_bodies),
                };
                let k = self.arenas.lib.allocate(node);
                self.lib_hir[i] = CacheSlot::Done(k);
                proof {
                    assert(self.slot_lib_hir_ok(i as int));
                    lemma_wf_preserved(pre, *self);
                }
                Ok(k)
            }
        }
    }

    /// The HIR of an entity declaration. Memoized per identifier.
    pub fn entity_hir(&mut self, id: EntityRef) -> (r: Result<usize, Failure>)
        requires
            old(self).wf(),
            id.0 < old(self).ast.entities@.len(),
        ensures
            final(self).wf(),
            old(self).evolves_to(*final(self)),
            old(self).hir_ready() ==> final(self).hir_ready(),
            final(self).lib_defs@ == old(self).lib_defs@,
            final(self).ctx_defs@ == old(self).ctx_defs@,
            final(self).pkg_defs@ == old(self).pkg_defs@,
            old(self).entity_hir@[id.0 as int] matches CacheSlot::Done(k)
                ==> *final(self) == *old(self) && r == Result::<usize, Failure>::Ok(k),
            old(self).entity_hir@[id.0 as int] is Failed ==> *final(self) == *old(self) && r is Err,
            r matches Ok(k) ==> final(self).entity_hir@[id.0 as int] == CacheSlot::Done(k)
                && k < final(self).arenas.entity@.len()
                && entity_matches(final(self).arenas.entity@[k as int], final(self).ast.entities@[id.0 as int]),
            old(self).entity_hir@[id.0 as int] is Unevaluated ==> r is Ok
                && final(self).sess == old(self).sess,
            old(self).entity_hir@[id.0 as int] is InProgress ==> r is Err
                && final(self).sess.diags@ == old(self).sess.diags@.push(final(self).sess.diags@.last())
                && is_error_diag(final(self).sess.diags@.last(), DiagKind::CircularDependency, Seq::empty(), Seq::empty()),
    {
        let i = id.0;
        match self.entity_hir[i] {
            CacheSlot::Done(k) => {
                proof {
                    assert(self.slot_entity_hir_ok(i as int));
                }
                Ok(k)
            }
            CacheSlot::Failed => Err(Failure),
            CacheSlot::InProgress => {
                let ghost pre = *self;
                self.sess.emit(circular_diag());
                proof {
                    lemma_wf_preserved(pre, *self);
                }
                Err(Failure)
            }
            CacheSlot::Unevaluated => {
                let ghost pre = *self;
                self.entity_hir[i] = CacheSlot::InProgress;
                let node = Entity {
                    ctx_items: self.ast.entities[i].ctx_items,
                    lib: self.ast.entities[i].lib,
                    name: self.ast.entities[i].name,
                    generics: Vec::new(),
                    ports: Vec::new(),
                };
                let k = self.arenas.entity.allocate(node);
                self.entity_hir[i] = CacheSlot::Done(k);
                proof {
                    assert(self.slot_entity_hir_ok(i as int));
                    lemma_wf_preserved(pre, *self);
                }
                Ok(k)
            }
        }
    }

    /// The HIR of an architecture body. Memoized per identifier.
    pub fn arch_hir(&mut self, id: ArchRef) -> (r: Result<usize, Failure>)
        requires
            old(self).wf(),
            id.0 < old(self).ast.archs@.len(),
        ensures
            final(self).wf(),
            old(self).evolves_to(*final(self)),
            old(self).hir_ready() ==> final(self).hir_ready(),
            final(self).lib_defs@ == old(self).lib_defs@,
            final(self).ctx_defs@ == old(self).ctx_defs@,
            final(self).pkg_defs@ == old(self).pkg_defs@,
            old(self).arch_hir@[id.0 as int] matches CacheSlot::Done(k)
                ==> *final(self) == *old(self) && r == Result::<usize, Failure>::Ok(k),
            old(self).arch_hir@[id.0 as int] is Failed ==> *final(self) == *old(self) && r is Err,
            r matches Ok(k) ==> final(self).arch_hir@[id.0 as int] == CacheSlot::Done(k)
                && k < final(self).arenas.arch@.len()
                && final(self).arenas.arch@[k as int].ctx_items == final(self).ast.archs@[id.0 as int].ctx_items
                && final(self).arenas.arch@[k as int].entity == final(self).ast.archs@[id.0 as int].entity
                && final(self).arenas.arch@[k as int].name == final(self).ast.archs@[id.0 as int].name,
            old(self).arch_hir@[id.0 as int] is Unevaluated ==> r is Ok
                && final(self).sess == old(self).sess,
            old(self).arch_hir@[id.0 as int] is InProgress ==> r is Err
                && final(self).sess.diags@ == old(self).sess.diags@.push(final(self).sess.diags@.last())
                && is_error_diag(final(self).sess.diags@.last(), DiagKind::CircularDependency, Seq::empty(), Seq::empty()),
    {
        let i = id.0;
        match self.arch_hir[i] {
            CacheSlot::Done(k) => {
                proof {
                    assert(self.slot_arch_hir_ok(i as int));
                }
                Ok(k)
            }
            CacheSlot::Failed => Err(Failure),
            CacheSlot::InProgress => {
                let ghost pre = *self;
                self.sess.emit(circular_diag());
                proof {
                    lemma_wf_preserved(pre, *self);
                }
                Err(Failure)
            }
            CacheSlot::Unevaluated => {
                let ghost pre = *self;
                self.arch_hir[i] = CacheSlot::InProgress;
                let node = Arch {
                    ctx_items: self.ast.archs[i].ctx_items,
                    entity: self.ast.archs[i].entity,
                    name: self.ast.archs[i].name,
                    decls: Vec::new(),
                    stmts: Vec::new(),
                };
                let k = self.arenas.arch.allocate(node);
                self.arch_hir[i] = CacheSlot::Done(k);
                proof {
                    assert(self.slot_arch_hir_ok(i as int));
                    lemma_wf_preserved(pre, *self);
                }
                Ok(k)
            }
        }
    }

    /// The HIR of a package declaration. Memoized per identifier.
    pub fn pkg_hir(&mut self, id: PkgDeclRef) -> (r: Result<usize, Failure>)
        requires
            old(self).wf(),
            id.0 < old(self).ast.pkg_decls@.len(),
        ensures
            final(self).wf(),
            old(self).evolves_to(*final(self)),
            old(self).hir_ready() ==> final(self).hir_ready(),
            final(self).lib_defs@ == old(self).lib_defs@,
            final(self).ctx_defs@ == old(self).ctx_defs@,
            final(self).pkg_defs@ == old(self).pkg_defs@,
            old(self).pkg_hir@[id.0 as int] matches CacheSlot::Done(k)
                ==> *final(self) == *old(self) && r == Result::<usize, Failure>::Ok(k),
            old(self).pkg_hir@[id.0 as int] is Failed ==> *final(self) == *old(self) && r is Err,
            r matches Ok(k) ==> final(self).pkg_hir@[id.0 as int] == CacheSlot::Done(k)
                && k < final(self).arenas.package@.len()
                && final(self).arenas.package@[k as int].parent == final(self).ast.pkg_decls@[id.0 as int].parent
                && final(self).arenas.package@[k as int].name == final(self).ast.pkg_decls@[id.0 as int].name
                && final(self).arenas.package@[k as int].decls@ == final(self).ast.pkg_decls@[id.0 as int].decls@,
            old(self).pkg_hir@[id.0 as int] is Unevaluated ==> r is Ok
                && final(self).sess == old(self).sess,
            old(self).pkg_hir@[id.0 as int] is InProgress ==> r is Err
                && final(self).sess.diags@ == old(self).sess.diags@.push(final(self).sess.diags@.last())
                && is_error_diag(final(self).sess.diags@.last(), DiagKind::CircularDependency, Seq::empty(), Seq::empty()),
    {
        let i = id.0;
        match self.pkg_hir[i] {
            CacheSlot::Done(k) => {
                proof {
                    assert(self.slot_pkg_hir_ok(i as int));
                }
                Ok(k)
            }
            CacheSlot::Failed => Err(Failure),
            CacheSlot::InProgress => {
                let ghost pre = *self;
                self.sess.emit(circular_diag());
                proof {
                    lemma_wf_preserved(pre, *self);
                }
                Err(Failure)
            }
            CacheSlot::Unevaluated => {
                let ghost pre = *self;
                self.pkg_hir[i] = CacheSlot::InProgress;
                let node = Package {
                    parent: self.ast.pkg_decls[i].parent,
                    name: self.ast.pkg_decls[i].name,
                    generics: Vec::new(),
                    decls: copy_vec(&self.ast.pkg_decls[i].decls),
                };
                let k = self.arenas.package.allocate(node);
                self.pkg_hir[i] = CacheSlot::Done(k);
                proof {
                    assert(self.slot_pkg_hir_ok(i as int));
                    lemma_wf_preserved(pre, *self);
                }
                Ok(k)
            }
        }
    }

    /// The HIR of a type declaration. Memoized per identifier.
    pub fn type_hir(&mut self, id: TypeDeclRef) -> (r: Result<usize, Failure>)
        requires
            old(self).wf(),
            id.0 < old(self).ast.type_decls@.len(),
        ensures
            final(self).wf(),
            old(self).evolves_to(*final(self)),
            old(self).hir_ready() ==> final(self).hir_ready(),
            final(self).lib_defs@ == old(self).lib_defs@,
            final(self).ctx_defs@ == old(self).ctx_defs@,
            final(self).pkg_defs@ == old(self).pkg_defs@,
            old(self).type_hir@[id.0 as int] matches CacheSlot::Done(k)
                ==> *final(self) == *old(self) && r == Result::<usize, Failure>::Ok(k),
            old(self).type_hir@[id.0 as int] is Failed ==> *final(self) == *old(self) && r is Err,
            r matches Ok(k) ==> final(self).type_hir@[id.0 as int] == CacheSlot::Done(k)
                && k < final(self).arenas.type_decl@.len()
                && final(self).arenas.type_decl@[k as int].parent == final(self).ast.type_decls@[id.0 as int].parent
                && final(self).arenas.type_decl@[k as int].name == final(self).ast.type_decls@[id.0 as int].name
                && type_data_matches(final(self).arenas.type_decl@[k as int].data, final(self).ast.type_decls@[id.0 as int].data),
            old(self).type_hir@[id.0 as int] is Unevaluated ==> r is Ok
                && final(self).sess == old(self).sess,
            old(self).type_hir@[id.0 as int] is InProgress ==> r is Err
                && final(self).sess.diags@ == old(self).sess.diags@.push(final(self).sess.diags@.last())
                && is_error_diag(final(self).sess.diags@.last(), DiagKind::CircularDependency, Seq::empty(), Seq::empty()),
    {
        let i = id.0;
        match self.type_hir[i] {
            CacheSlot::Done(k) => {
                proof {
                    assert(self.slot_type_hir_ok(i as int));
                }
                Ok(k)
            }
            CacheSlot::Failed => Err(Failure),
            CacheSlot::InProgress => {
                let ghost pre = *self;
                self.sess.emit(circular_diag());
                proof {
                    lemma_wf_preserved(pre, *self);
                }
                Err(Failure)
            }
            CacheSlot::Unevaluated => {
                let ghost pre = *self;
                self.type_hir[i] = CacheSlot::InProgress;
                let data = match &self.ast.type_decls[i].data {
                    Option::None => Option::None,
                    Option::Some(TypeData::Range(s, d, lo, hi)) => Option::Some(TypeData::Range(*s, *d, *lo, *hi)),
                    Option::Some(TypeData::Enum(s, lits)) => Option::Some(TypeData::Enum(*s, copy_vec(lits))),
                };
                let node = TypeDecl {
                    parent: self.ast.type_decls[i].parent,
                    name: self.ast.type_decls[i].name,
                    data,
                };
                let k = self.arenas.type_decl.allocate(node);
                self.type_hir[i] = CacheSlot::Done(k);
                proof {
                    assert(self.slot_type_hir_ok(i as int));
                    lemma_wf_preserved(pre, *self);
                }
                Ok(k)
            }
        }
    }

    /// The HIR of a subtype declaration: commits the subtype indication
    /// to its arena, then the declaration. Memoized per identifier.
    pub fn subtype_hir(&mut self, id: SubtypeDeclRef) -> (r: Result<usize, Failure>)
        requires
            old(self).wf(),
            id.0 < old(self).ast.subtype_decls@.len(),
        ensures
            final(self).wf(),
            old(self).evolves_to(*final(self)),
            old(self).hir_ready() ==> final(self).hir_ready(),
            final(self).lib_defs@ == old(self).lib_defs@,
            final(self).ctx_defs@ == old(self).ctx_defs@,
            final(self).pkg_defs@ == old(self).pkg_defs@,
            old(self).subtype_hir@[id.0 as int] matches CacheSlot::Done(k)
                ==> *final(self) == *old(self) && r == Result::<usize, Failure>::Ok(k),
            old(self).subtype_hir@[id.0 as int] is Failed ==> *final(self) == *old(self) && r is Err,
            r matches Ok(k) ==> final(self).subtype_hir@[id.0 as int] == CacheSlot::Done(k)
                && k < final(self).arenas.subtype_decl@.len()
                && final(self).arenas.subtype_decl@[k as int].parent == final(self).ast.subtype_decls@[id.0 as int].parent
                && final(self).arenas.subtype_decl@[k as int].name == final(self).ast.subtype_decls@[id.0 as int].name
                && final(self).arenas.subtype_decl@[k as int].subty.0 < final(self).arenas.subtype_ind@.len()
                && subtype_ind_matches(
                    final(self).arenas.subtype_ind@[final(self).arenas.subtype_decl@[k as int].subty.0 as int],
                    final(self).ast.subtype_decls@[id.0 as int].subty,
                ),
            old(self).subtype_hir@[id.0 as int] is Unevaluated ==> r is Ok
                && final(self).sess == old(self).sess,
            old(self).subtype_hir@[id.0 as int] is InProgress ==> r is Err
                && final(self).sess.diags@ == old(self).sess.diags@.push(final(self).sess.diags@.last())
                && is_error_diag(final(self).sess.diags@.last(), DiagKind::CircularDependency, Seq::empty(), Seq::empty()),
    {
        let i = id.0;
        match self.subtype_hir[i] {
            CacheSlot::Done(k) => {
                proof {
                    assert(self.slot_subtype_hir_ok(i as int));
                }
                Ok(k)
            }
            CacheSlot::Failed => Err(Failure),
            CacheSlot::InProgress => {
                let ghost pre = *self;
                self.sess.emit(circular_diag());
                proof {
                    lemma_wf_preserved(pre, *self);
                }
                Err(Failure)
            }
            CacheSlot::Unevaluated => {
                let ghost pre = *self;
                self.subtype_hir[i] = CacheSlot::InProgress;
                let ind = SubtypeInd {
                    span: self.ast.subtype_decls[i].subty.span,
                    type_mark: self.ast.subtype_decls[i].subty.type_mark,
                    constraint: Constraint::Unconstrained,
                };
                let ki = self.arenas.subtype_ind.allocate(ind);
                let node = SubtypeDecl {
                    parent: self.ast.subtype_decls[i].parent,
                    name: self.ast.subtype_decls[i].name,
                    subty: crate::ids::SubtypeIndRef(ki),
                };
                let k = self.arenas.subtype_decl.allocate(node);
                self.subtype_hir[i] = CacheSlot::Done(k);
                proof {
                    assert(self.slot_subtype_hir_ok(i as int));
                    lemma_wf_preserved(pre, *self);
                }
                Ok(k)
            }
        }
    }

    /// The definitions a library exports: the names of every design unit
    /// it directly contains. Memoized per identifier. The first request
    /// computes the table; a name contributed more than once is a
    /// duplicate-definition error citing all conflicting spans, one
    /// diagnostic per duplicated name, and the whole query fails.
    #[verifier::rlimit(60)]
    pub fn lib_defs(&mut self, id: LibRef) -> (r: Result<usize, Failure>)
        requires
            old(self).wf(),
            id.0 < old(self).ast.libs@.len(),
        ensures
            final(self).wf(),
            old(self).evolves_to(*final(self)),
            old(self).defs_ready() ==> final(self).defs_ready(),
            // With no query mid-flight, everything this call adds to the
            // sink belongs to the definitions layer.
            old(self).defs_ready() ==> forall|k: int|
                old(self).sess.diags@.len() <= k < final(self).sess.diags@.len()
                    ==> is_defs_diag(#[trigger] final(self).sess.diags@[k]),
            old(self).lib_defs@[id.0 as int] matches CacheSlot::Done(k)
                ==> *final(self) == *old(self) && r == Result::<usize, Failure>::Ok(k),
            old(self).lib_defs@[id.0 as int] is Failed ==> *final(self) == *old(self) && r is Err,
            r matches Ok(k) ==> final(self).lib_defs@[id.0 as int] == CacheSlot::Done(k)
                && k < final(self).defs_arena@.len()
                && final(self).defs_arena@[k as int]@ == lib_rows(final(self).ast, id.0 as int)
                && final(self).defs_arena@[k as int].wf()
                && dup_rows(lib_rows(final(self).ast, id.0 as int)).len() == 0,
            old(self).lib_defs@[id.0 as int] is InProgress ==> r is Err
                && final(self).sess.diags@ == old(self).sess.diags@.push(final(self).sess.diags@.last())
                && is_error_diag(final(self).sess.diags@.last(), DiagKind::CircularDependency, Seq::empty(), Seq::empty()),
            // The computing path, undisturbed by earlier failures of the
            // library's HIR: success exactly when no name is duplicated,
            // and one diagnostic per duplicated name, citing all its
            // spans, in first-insertion order.
            old(self).lib_defs@[id.0 as int] is Unevaluated
                && !(old(self).lib_hir@[id.0 as int] is Failed)
                && !(old(self).lib_hir@[id.0 as int] is InProgress) ==> {
                let dups = dup_rows(lib_rows(old(self).ast, id.0 as int));
                &&& (r is Ok <==> dups.len() == 0)
                &&& (r is Err ==> final(self).lib_defs@[id.0 as int] == CacheSlot::Failed)
                &&& final(self).sess.diags@.len() == old(self).sess.diags@.len() + dups.len()
                &&& forall|k: int| 0 <= k < dups.len()
                    ==> is_dup_diag(#[trigger] final(self).sess.diags@[old(self).sess.diags@.len() + k], dups[k])
                &&& final(self).sess.trace@ == old(self).sess.trace@
            },
    {
        let i = id.0;
        match self.lib_defs[i] {
            CacheSlot::Done(k) => {
                proof {
                    assert(self.slot_lib_defs_ok(i as int));
                }
                Ok(k)
            }
            CacheSlot::Failed => Err(Failure),
            CacheSlot::InProgress => {
                let ghost pre = *self;
                proof {
                    if pre.defs_ready() {
                        assert(!(pre.lib_defs@[i as int] is InProgress));
                    }
                }
                self.sess.emit(circular_diag());
                proof {
                    lemma_wf_preserved(pre, *self);
                }
                Err(Failure)
            }
            CacheSlot::Unevaluated => {
                let ghost pre = *self;
                self.lib_defs[i] = CacheSlot::InProgress;
                proof {
                    lemma_wf_preserved(pre, *self);
                }
                let ghost s1 = *self;
                let h = match self.lib_hir(id) {
                    Ok(h) => h,
                    Err(e) => {
                        proof {
                            if pre.defs_ready() {
                                assert(s1.slot_lib_hir_ok(i as int));
                                assert(!(s1.lib_hir@[i as int] is InProgress));
                            }
                        }
                        let ghost s2 = *self;
                        self.lib_defs[i] = CacheSlot::Unevaluated;
                        proof {
                            lemma_wf_preserved(s2, *self);
                            assert(pre.evolves_to(s1));
                            lemma_evolves_trans(pre, s1, s2);
                            lemma_evolves_step(pre, s2, *self);
                        }
                        return Err(e);
                    }
                };
                let ghost s2 = *self;
                let ghost gpairs = lib_pairs(self.ast, self.ast.libs@[i as int]);
                proof {
                    assert(self.slot_lib_hir_ok(i as int));
                    assert(self.ast.valid_lib(self.ast.libs@[i as int]));
                }

                // Gather the (name, definition) pairs every design unit
                // contributes, in unit-kind order.
                let mut pairs: Vec<(ResolvableName, Spanned<Def>)> = Vec::new();
                let ghost m1 = self.ast.libs@[i as int].entities@.map_values(
                    |r: EntityRef|
                        (
                            ResolvableName::Ident(self.ast.entities@[r.0 as int].name.value),
                            Spanned { value: Def::Entity(r), span: self.ast.entities@[r.0 as int].name.span },
                        ),
                );
                let ghost m2 = self.ast.libs@[i as int].cfgs@.map_values(
                    |r: crate::ids::CfgRef|
                        (
                            ResolvableName::Ident(self.ast.cfgs@[r.0 as int].name.value),
                            Spanned { value: Def::Cfg(r), span: self.ast.cfgs@[r.0 as int].name.span },
                        ),
                );
                let ghost m3 = self.ast.libs@[i as int].pkg_decls@.map_values(
                    |r: PkgDeclRef|
                        (
                            ResolvableName::Ident(self.ast.pkg_decls@[r.0 as int].name.value),
                            Spanned { value: Def::Pkg(r), span: self.ast.pkg_decls@[r.0 as int].name.span },
                        ),
                );
                let ghost m4 = self.ast.libs@[i as int].pkg_insts@.map_values(
                    |r: PkgInstRef|
                        (
                            ResolvableName::Ident(self.ast.pkg_insts@[r.0 as int].name.value),
                            Spanned { value: Def::PkgInst(r), span: self.ast.pkg_insts@[r.0 as int].name.span },
                        ),
                );
                let ghost m5 = self.ast.libs@[i as int].ctxs@.map_values(
                    |r: crate::ids::CtxRef|
                        (
                            ResolvableName::Ident(self.ast.ctxs@[r.0 as int].name.value),
                            Spanned { value: Def::Ctx(r), span: self.ast.ctxs@[r.0 as int].name.span },
                        ),
                );
                let node = self.arenas.lib.get(h);
                let n1 = node.entities.len();
                for j in 0..n1
                    invariant
                        *self == s2,
                        n1 == node.entities@.len(),
                        node.entities@ == self.ast.libs@[i as int].entities@,
                        self.ast.wf(),
                        self.ast.valid_lib(self.ast.libs@[i as int]),
                        i < self.ast.libs@.len(),
                        pairs@ == m1.take(j as int),
                        m1 == self.ast.libs@[i as int].entities@.map_values(
                            |r: EntityRef|
                                (
                                    ResolvableName::Ident(self.ast.entities@[r.0 as int].name.value),
                                    Spanned { value: Def::Entity(r), span: self.ast.entities@[r.0 as int].name.span },
                                ),
                        ),
                {
                    let e = node.entities[j];
                    pairs.push(
                        (
                            ResolvableName::Ident(self.ast.entities[e.0].name.value),
                            Spanned::new(Def::Entity(e), self.ast.entities[e.0].name.span),
                        ),
                    );
                    proof {
                        assert(pairs@ =~= m1.take(j + 1));
                    }
                }
                proof {
                    assert(m1.take(n1 as int) =~= m1);
                }
                let n2 = node.cfgs.len();
                for j in 0..n2
                    invariant
                        *self == s2,
                        n2 == node.cfgs@.len(),
                        node.cfgs@ == self.ast.libs@[i as int].cfgs@,
                        self.ast.wf(),
                        self.ast.valid_lib(self.ast.libs@[i as int]),
                        i < self.ast.libs@.len(),
                        pairs@ == m1.add(m2.take(j as int)),
                        m2 == self.ast.libs@[i as int].cfgs@.map_values(
                            |r: crate::ids::CfgRef|
                                (
                                    ResolvableName::Ident(self.ast.cfgs@[r.0 as int].name.value),
                                    Spanned { value: Def::Cfg(r), span: self.ast.cfgs@[r.0 as int].name.span },
                                ),
                        ),
                {
                    let e = node.cfgs[j];
                    pairs.push(
                        (
                            ResolvableName::Ident(self.ast.cfgs[e.0].name.value),
                            Spanned::new(Def::Cfg(e), self.ast.cfgs[e.0].name.span),
                        ),
                    );
                    proof {
                        assert(pairs@ =~= m1.add(m2.take(j + 1)));
                    }
                }
                proof {
                    assert(m2.take(n2 as int) =~= m2);
                }
                let n3 = node.pkg_decls.len();
                for j in 0..n3
                    invariant
                        *self == s2,
                        n3 == node.pkg_decls@.len(),
                        node.pkg_decls@ == self.ast.libs@[i as int].pkg_decls@,
                        self.ast.wf(),
                        self.ast.valid_lib(self.ast.libs@[i as int]),
                        i < self.ast.libs@.len(),
                        pairs@ == m1.add(m2).add(m3.take(j as int)),
                        m3 == self.ast.libs@[i as int].pkg_decls@.map_values(
                            |r: PkgDeclRef|
                                (
                                    ResolvableName::Ident(self.ast.pkg_decls@[r.0 as int].name.value),
                                    Spanned { value: Def::Pkg(r), span: self.ast.pkg_decls@[r.0 as int].name.span },
                                ),
                        ),
                {
                    let e = node.pkg_decls[j];
                    pairs.push(
                        (
                            ResolvableName::Ident(self.ast.pkg_decls[e.0].name.value),
                            Spanned::new(Def::Pkg(e), self.ast.pkg_decls[e.0].name.span),
                        ),
                    );
                    proof {
                        assert(pairs@ =~= m1.add(m2).add(m3.take(j + 1)));
                    }
                }
                proof {
                    assert(m3.take(n3 as int) =~= m3);
                }
                let n4 = node.pkg_insts.len();
                for j in 0..n4
                    invariant
                        *self == s2,
                        n4 == node.pkg_insts@.len(),
                        node.pkg_insts@ == self.ast.libs@[i as int].pkg_insts@,
                        self.ast.wf(),
                        self.ast.valid_lib(self.ast.libs@[i as int]),
                        i < self.ast.libs@.len(),
                        pairs@ == m1.add(m2).add(m3).add(m4.take(j as int)),
                        m4 == self.ast.libs@[i as int].pkg_insts@.map_values(
                            |r: PkgInstRef|
                                (
                                    ResolvableName::Ident(self.ast.pkg_insts@[r.0 as int].name.value),
                                    Spanned { value: Def::PkgInst(r), span: self.ast.pkg_insts@[r.0 as int].name.span },
                                ),
                        ),
                {
                    let e = node.pkg_insts[j];
                    pairs.push(
                        (
                            ResolvableName::Ident(self.ast.pkg_insts[e.0].name.value),
                            Spanned::new(Def::PkgInst(e), self.ast.pkg_insts[e.0].name.span),
                        ),
                    );
                    proof {
                        assert(pairs@ =~= m1.add(m2).add(m3).add(m4.take(j + 1)));
                    }
                }
                proof {
                    assert(m4.take(n4 as int) =~= m4);
                }
                let n5 = node.ctxs.len();
                for j in 0..n5
                    invariant
                        *self == s2,
                        n5 == node.ctxs@.len(),
                        node.ctxs@ == self.ast.libs@[i as int].ctxs@,
                        self.ast.wf(),
                        self.ast.valid_lib(self.ast.libs@[i as int]),
                        i < self.ast.libs@.len(),
                        pairs@ == m1.add(m2).add(m3).add(m4).add(m5.take(j as int)),
                        m5 == self.ast.libs@[i as int].ctxs@.map_values(
                            |r: crate::ids::CtxRef|
                                (
                                    ResolvableName::Ident(self.ast.ctxs@[r.0 as int].name.value),
                                    Spanned { value: Def::Ctx(r), span: self.ast.ctxs@[r.0 as int].name.span },
                                ),
                        ),
                {
                    let e = node.ctxs[j];
                    pairs.push(
                        (
                            ResolvableName::Ident(self.ast.ctxs[e.0].name.value),
                            Spanned::new(Def::Ctx(e), self.ast.ctxs[e.0].name.span),
                        ),
                    );
                    proof {
                        assert(pairs@ =~= m1.add(m2).add(m3).add(m4).add(m5.take(j + 1)));
                    }
                }
                proof {
                    assert(m5.take(n5 as int) =~= m5);
                    assert(pairs@ == gpairs);
                }

                // Build the table, keeping every contribution.
                let mut table = Defs::new();
                let np = pairs.len();
                for j in 0..np
                    invariant
                        np == pairs@.len(),
                        table@ == rows_of(pairs@.take(j as int)),
                        table.wf(),
                {
                    let (name, def) = pairs[j];
                    table.append(name, def);
                    proof {
                        assert(pairs@.take(j + 1).drop_last() =~= pairs@.take(j as int));
                        assert(pairs@.take(j + 1).last() == pairs@[j as int]);
                    }
                }
                proof {
                    assert(pairs@.take(np as int) =~= pairs@);
                }
                let ghost rows = table@;
                let ghost dups = dup_rows(rows);

                // Report every duplicated name with all its spans.
                let ghost mid = *self;
                let ghost base = self.sess.diags@.len();
                let mut had_dups = false;
                let nt = table.len();
                for j in 0..nt
                    invariant
                        *self == (ScoreContext { sess: self.sess, ..mid }),
                        self.sess.opts == mid.sess.opts,
                        self.sess.trace@ == mid.sess.trace@,
                        nt == table@.len(),
                        table@ == rows,
                        table.wf(),
                        base == mid.sess.diags@.len(),
                        self.sess.diags@.len() == base + dup_rows(rows.take(j as int)).len(),
                        seq_extends(mid.sess.diags@, self.sess.diags@),
                        forall|k: int| 0 <= k < dup_rows(rows.take(j as int)).len()
                            ==> is_dup_diag(#[trigger] self.sess.diags@[base + k], dup_rows(rows.take(j as int))[k]),
                        had_dups <==> dup_rows(rows.take(j as int)).len() > 0,
                {
                    proof {
                        assert(rows.take(j + 1).drop_last() =~= rows.take(j as int));
                        assert(rows.take(j + 1).last() == rows[j as int]);
                    }
                    let row_defs = table.defs_at(j);
                    if row_defs.len() > 1 {
                        let nd = row_defs.len();
                        let mut spans: Vec<Span> = Vec::new();
                        for q in 0..nd
                            invariant
                                nd == row_defs@.len(),
                                spans@ == row_defs@.take(q as int).map_values(|s: Spanned<Def>| s.span),
                        {
                            spans.push(row_defs[q].span);
                            proof {
                                assert(spans@ =~= row_defs@.take(q + 1).map_values(|s: Spanned<Def>| s.span));
                            }
                        }
                        proof {
                            assert(row_defs@.take(nd as int) =~= row_defs@);
                        }
                        let d = Diagnostic {
                            severity: Severity::Error,
                            kind: DiagKind::DuplicateDefinition { name: table.name_at(j) },
                            spans,
                            note_spans: Vec::new(),
                        };
                        proof {
                            assert(d.note_spans@ =~= Seq::<Span>::empty());
                        }
                        self.sess.emit(d);
                        had_dups = true;
                    }
                }
                proof {
                    assert(rows.take(nt as int) =~= rows);
                    lemma_wf_preserved(mid, *self);
                    if pre.defs_ready() {
                        assert(s1.slot_lib_hir_ok(i as int));
                        assert(!(s1.lib_hir@[i as int] is InProgress));
                        assert(base == pre.sess.diags@.len());
                        assert forall|t: int| pre.sess.diags@.len() <= t < self.sess.diags@.len()
                            implies is_defs_diag(#[trigger] self.sess.diags@[t]) by {
                            assert(is_dup_diag(self.sess.diags@[base + (t - base)], dup_rows(rows)[t - base]));
                        }
                    }
                }

                if had_dups {
                    let ghost s3 = *self;
                    self.lib_defs[i] = CacheSlot::Failed;
                    proof {
                        lemma_wf_preserved(s3, *self);
                        assert(pre.evolves_to(s1));
                        lemma_evolves_trans(pre, s1, s2);
                        lemma_evolves_step(pre, s2, *self);
                    }
                    Err(Failure)
                } else {
                    let ghost s3 = *self;
                    let k = self.defs_arena.allocate(table);
                    self.lib_defs[i] = CacheSlot::Done(k);
                    proof {
                        assert(self.slot_lib_defs_ok(i as int));
                        lemma_wf_preserved(s3, *self);
                        assert(pre.evolves_to(s1));
                        lemma_evolves_trans(pre, s1, s2);
                        lemma_evolves_step(pre, s2, *self);
                    }
                    Ok(k)
                }
            }
        }
    }

    /// The definitions this construct declares: resolution of locally
    /// declared names is intentionally unimplemented in this core slice.
    /// The first request reports not-yet-supported, citing the construct's
    /// name, and the failure settles the slot, so the diagnostic is
    /// emitted exactly once and the query never misrepresents an empty
    /// table as success.
    pub fn entity_defs(&mut self, id: EntityRef) -> (r: Result<usize, Failure>)
        requires
            old(self).wf(),
            id.0 < old(self).ast.entities@.len(),
        ensures
            final(self).wf(),
            old(self).evolves_to(*final(self)),
            old(self).defs_ready() ==> final(self).defs_ready(),
            r is Err,
            old(self).entity_defs@[id.0 as int] is Failed ==> *final(self) == *old(self),
            old(self).entity_defs@[id.0 as int] is Unevaluated
                ==> final(self).entity_defs@[id.0 as int] is Failed
                    && final(self).sess.diags@ == old(self).sess.diags@.push(final(self).sess.diags@.last())
                    && is_error_diag(
                        final(self).sess.diags@.last(),
                        DiagKind::NotYetSupported,
                        seq![old(self).ast.entities@[id.0 as int].name.span],
                        Seq::empty(),
                    ),
            old(self).entity_defs@[id.0 as int] is InProgress ==> *final(self) == *old(self),
    {
        let i = id.0;
        match self.entity_defs[i] {
            CacheSlot::Done(_) => Err(Failure),
            CacheSlot::Failed => Err(Failure),
            CacheSlot::InProgress => Err(Failure),
            CacheSlot::Unevaluated => {
                let ghost pre = *self;
                let mut spans: Vec<Span> = Vec::new();
                spans.push(self.ast.entities[i].name.span);
                let dg = Diagnostic {
                    severity: Severity::Error,
                    kind: DiagKind::NotYetSupported,
                    spans,
                    note_spans: Vec::new(),
                };
                proof {
                    assert(dg.spans@ =~= seq![pre.ast.entities@[i as int].name.span]);
                    assert(dg.note_spans@ =~= Seq::<Span>::empty());
                }
                self.sess.emit(dg);
                self.entity_defs[i] = CacheSlot::Failed;
                proof {
                    lemma_wf_preserved(pre, *self);
                }
                Err(Failure)
            }
        }
    }

    /// The definitions this construct declares: resolution of locally
    /// declared names is intentionally unimplemented in this core slice.
    /// The first request reports not-yet-supported, citing the construct's
    /// name, and the failure settles the slot, so the diagnostic is
    /// emitted exactly once and the query never misrepresents an empty
    /// table as success.
    pub fn arch_defs(&mut self, id: ArchRef) -> (r: Result<usize, Failure>)
        requires
            old(self).wf(),
            id.0 < old(self).ast.archs@.len(),
        ensures
            final(self).wf(),
            old(self).evolves_to(*final(self)),
            old(self).defs_ready() ==> final(self).defs_ready(),
            r is Err,
            old(self).arch_defs@[id.0 as int] is Failed ==> *final(self) == *old(self),
            old(self).arch_defs@[id.0 as int] is Unevaluated
                ==> final(self).arch_defs@[id.0 as int] is Failed
                    && final(self).sess.diags@ == old(self).sess.diags@.push(final(self).sess.diags@.last())
                    && is_error_diag(
                        final(self).sess.diags@.last(),
                        DiagKind::NotYetSupported,
                        seq![old(self).ast.archs@[id.0 as int].name.span],
                        Seq::empty(),
                    ),
            old(self).arch_defs@[id.0 as int] is InProgress ==> *final(self) == *old(self),
    {
        let i = id.0;
        match self.arch_defs[i] {
            CacheSlot::Done(_) => Err(Failure),
            CacheSlot::Failed => Err(Failure),
            CacheSlot::InProgress => Err(Failure),
            CacheSlot::Unevaluated => {
                let ghost pre = *self;
                let mut spans: Vec<Span> = Vec::new();
                spans.push(self.ast.archs[i].name.span);
                let dg = Diagnostic {
                    severity: Severity::Error,
                    kind: DiagKind::NotYetSupported,
                    spans,
                    note_spans: Vec::new(),
                };
                proof {
                    assert(dg.spans@ =~= seq![pre.ast.archs@[i as int].name.span]);
                    assert(dg.note_spans@ =~= Seq::<Span>::empty());
                }
                self.sess.emit(dg);
                self.arch_defs[i] = CacheSlot::Failed;
                proof {
                    lemma_wf_preserved(pre, *self);
                }
                Err(Failure)
            }
        }
    }

    /// The definitions this construct declares: resolution of locally
    /// declared names is intentionally unimplemented in this core slice.
    /// The first request reports not-yet-supported, citing the construct's
    /// name, and the failure settles the slot, so the diagnostic is
    /// emitted exactly once and the query never misrepresents an empty
    /// table as success.
    pub fn pkg_inst_defs(&mut self, id: PkgInstRef) -> (r: Result<usize, Failure>)
        requires
            old(self).wf(),
            id.0 < old(self).ast.pkg_insts@.len(),
        ensures
            final(self).wf(),
            old(self).evolves_to(*final(self)),
            old(self).defs_ready() ==> final(self).defs_ready(),
            r is Err,
            old(self).pkg_inst_defs@[id.0 as int] is Failed ==> *final(self) == *old(self),
            old(self).pkg_inst_defs@[id.0 as int] is Unevaluated
                ==> final(self).pkg_inst_defs@[id.0 as int] is Failed
                    && final(self).sess.diags@ == old(self).sess.diags@.push(final(self).sess.diags@.last())
                    && is_error_diag(
                        final(self).sess.diags@.last(),
                        DiagKind::NotYetSupported,
                        seq![old(self).ast.pkg_insts@[id.0 as int].name.span],
                        Seq::empty(),
                    ),
            old(self).pkg_inst_defs@[id.0 as int] is InProgress ==> *final(self) == *old(self),
    {
        let i = id.0;
        match self.pkg_inst_defs[i] {
            CacheSlot::Done(_) => Err(Failure),
            CacheSlot::Failed => Err(Failure),
            CacheSlot::InProgress => Err(Failure),
            CacheSlot::Unevaluated => {
                let ghost pre = *self;
                let mut spans: Vec<Span> = Vec::new();
                spans.push(self.ast.pkg_insts[i].name.span);
                let dg = Diagnostic {
                    severity: Severity::Error,
                    kind: DiagKind::NotYetSupported,
                    spans,
                    note_spans: Vec::new(),
                };
                proof {
                    assert(dg.spans@ =~= seq![pre.ast.pkg_insts@[i as int].name.span]);
                    assert(dg.note_spans@ =~= Seq::<Span>::empty());
                }
                self.sess.emit(dg);
                self.pkg_inst_defs[i] = CacheSlot::Failed;
                proof {
                    lemma_wf_preserved(pre, *self);
                }
                Err(Failure)
            }
        }
    }

    /// The registry lookup behind library clauses: the library bound to a
    /// name, populated once at session setup.
    pub fn lookup_lib(&self, n: Name) -> (r: Option<LibRef>)
        ensures
            r == lib_lookup(self.lib_names@, n),
    {
        let ghost reg = self.lib_names@;
        let m = self.lib_names.len();
        for q in 0..m
            invariant
                m == reg.len(),
                reg == self.lib_names@,
                forall|j: int| 0 <= j < q ==> (#[trigger] reg[j]).0 != n,
        {
            if self.lib_names[q].0 == n {
                proof {
                    lemma_lib_lookup_first(reg, n, q as int);
                }
                return Some(self.lib_names[q].1);
            }
        }
        proof {
            lemma_lib_lookup_props(reg, n);
        }
        None
    }

    /// The definitions the context items preceding a design unit make:
    /// one binding per library clause name. Memoized per identifier. A
    /// name bound twice, or naming no known library, is an error; the
    /// query fails after processing every clause, so one request surfaces
    /// every failing name.
    #[verifier::rlimit(60)]
    pub fn ctx_defs(&mut self, id: CtxItemsRef) -> (r: Result<usize, Failure>)
        requires
            old(self).wf(),
            id.0 < old(self).ast.ctx_items@.len(),
        ensures
            final(self).wf(),
            old(self).evolves_to(*final(self)),
            old(self).defs_ready() ==> final(self).defs_ready(),
            // With no query mid-flight, everything this call adds to the
            // sink belongs to the definitions layer.
            old(self).defs_ready() ==> forall|k: int|
                old(self).sess.diags@.len() <= k < final(self).sess.diags@.len()
                    ==> is_defs_diag(#[trigger] final(self).sess.diags@[k]),
            old(self).ctx_defs@[id.0 as int] matches CacheSlot::Done(k)
                ==> *final(self) == *old(self) && r == Result::<usize, Failure>::Ok(k),
            old(self).ctx_defs@[id.0 as int] is Failed ==> *final(self) == *old(self) && r is Err,
            r matches Ok(k) ==> final(self).ctx_defs@[id.0 as int] == CacheSlot::Done(k)
                && k < final(self).defs_arena@.len()
                && final(self).defs_arena@[k as int]@
                    == ctx_rows(final(self).lib_names@, clause_idents(final(self).ast.ctx_items@[id.0 as int]@))
                && final(self).defs_arena@[k as int].wf()
                && ctx_fail_count(final(self).lib_names@, clause_idents(final(self).ast.ctx_items@[id.0 as int]@)) == 0,
            old(self).ctx_defs@[id.0 as int] is InProgress ==> r is Err
                && final(self).sess.diags@ == old(self).sess.diags@.push(final(self).sess.diags@.last())
                && is_error_diag(final(self).sess.diags@.last(), DiagKind::CircularDependency, Seq::empty(), Seq::empty()),
            // The computing path: success exactly when every library
            // clause name binds once and is known, and one diagnostic per
            // failing name, in source order.
            old(self).ctx_defs@[id.0 as int] is Unevaluated ==> {
                let descrs = ctx_fail_descrs(
                    old(self).lib_names@,
                    clause_idents(old(self).ast.ctx_items@[id.0 as int]@),
                );
                &&& (r is Ok <==> descrs.len() == 0)
                &&& (r is Err ==> final(self).ctx_defs@[id.0 as int] == CacheSlot::Failed)
                &&& final(self).sess.diags@.len() == old(self).sess.diags@.len() + descrs.len()
                &&& forall|k: int| 0 <= k < descrs.len()
                    ==> is_ctx_fail_diag(#[trigger] final(self).sess.diags@[old(self).sess.diags@.len() + k], descrs[k])
                &&& final(self).sess.trace@ == old(self).sess.trace@
            },
    {
        let i = id.0;
        match self.ctx_defs[i] {
            CacheSlot::Done(k) => {
                proof {
                    assert(self.slot_ctx_defs_ok(i as int));
                }
                Ok(k)
            }
            CacheSlot::Failed => Err(Failure),
            CacheSlot::InProgress => {
                let ghost pre = *self;
                proof {
                    if pre.defs_ready() {
                        assert(!(pre.ctx_defs@[i as int] is InProgress));
                    }
                }
                self.sess.emit(circular_diag());
                proof {
                    lemma_wf_preserved(pre, *self);
                }
                Err(Failure)
            }
            CacheSlot::Unevaluated => {
                let ghost pre = *self;
                self.ctx_defs[i] = CacheSlot::InProgress;
                proof {
                    lemma_wf_preserved(pre, *self);
                }
                let ghost s1 = *self;
                let ghost reg = self.lib_names@;
                let ghost gidents = clause_idents(self.ast.ctx_items@[i as int]@);

                // Flatten the names of all library clauses, in order.
                let items = &self.ast.ctx_items[i];
                let ni = items.len();
                let mut idents: Vec<Spanned<Name>> = Vec::new();
                for j in 0..ni
                    invariant
                        *self == s1,
                        ni == items@.len(),
                        items@ == self.ast.ctx_items@[i as int]@,
                        idents@ == clause_idents(items@.take(j as int)),
                {
                    proof {
                        assert(items@.take(j + 1).drop_last() =~= items@.take(j as int));
                        assert(items@.take(j + 1).last() == items@[j as int]);
                    }
                    match &items[j] {
                        CtxItem::LibClause(names) => {
                            let nv = names.value.len();
                            let ghost before = idents@;
                            for q in 0..nv
                                invariant
                                    *self == s1,
                                    nv == names.value@.len(),
                                    idents@ == before.add(names.value@.take(q as int)),
                            {
                                idents.push(names.value[q]);
                                proof {
                                    assert(idents@ =~= before.add(names.value@.take(q + 1)));
                                }
                            }
                            proof {
                                assert(names.value@.take(nv as int) =~= names.value@);
                            }
                        }
                        CtxItem::UseClause(_) => {
                            proof {
                                assert(idents@ =~= idents@.add(Seq::<Spanned<Name>>::empty()));
                            }
                        }
                    }
                }
                proof {
                    assert(items@.take(ni as int) =~= items@);
                    assert(idents@ == gidents);
                }

                // Bind each name, reporting duplicates and unknown names.
                let mut table = Defs::new();
                let ghost mid = *self;
                let ghost base = self.sess.diags@.len();
                let mut had_fails = false;
                let nq = idents.len();
                for q in 0..nq
                    invariant
                        *self == (ScoreContext { sess: self.sess, ..mid }),
                        self.sess.opts == mid.sess.opts,
                        self.sess.trace@ == mid.sess.trace@,
                        nq == idents@.len(),
                        idents@ == gidents,
                        reg == self.lib_names@,
                        table@ == ctx_rows(reg, gidents.take(q as int)),
                        table.wf(),
                        base == mid.sess.diags@.len(),
                        self.sess.diags@.len() == base + ctx_fail_descrs(reg, gidents.take(q as int)).len(),
                        seq_extends(mid.sess.diags@, self.sess.diags@),
                        forall|k: int| 0 <= k < ctx_fail_descrs(reg, gidents.take(q as int)).len()
                            ==> is_ctx_fail_diag(
                                #[trigger] self.sess.diags@[base + k],
                                ctx_fail_descrs(reg, gidents.take(q as int))[k],
                            ),
                        had_fails <==> ctx_fail_descrs(reg, gidents.take(q as int)).len() > 0,
                {
                    proof {
                        assert(gidents.take(q + 1).drop_last() =~= gidents.take(q as int));
                        assert(gidents.take(q + 1).last() == gidents[q as int]);
                    }
                    let ident = idents[q];
                    match self.lookup_lib(ident.value) {
                        Some(l) => {
                            if table.contains(ResolvableName::Ident(ident.value)) {
                                let mut spans: Vec<Span> = Vec::new();
                                spans.push(ident.span);
                                let d = Diagnostic {
                                    severity: Severity::Error,
                                    kind: DiagKind::AlreadyDeclared { name: ident.value },
                                    spans,
                                    note_spans: Vec::new(),
                                };
                                proof {
                                    assert(d.spans@ =~= seq![ident.span]);
                                    assert(d.note_spans@ =~= Seq::<Span>::empty());
                                }
                                self.sess.emit(d);
                                had_fails = true;
                            } else {
                                table.append(
                                    ResolvableName::Ident(ident.value),
                                    Spanned::new(Def::Lib(l), ident.span),
                                );
                            }
                        }
                        None => {
                            let mut spans: Vec<Span> = Vec::new();
                            spans.push(ident.span);
                            let d = Diagnostic {
                                severity: Severity::Error,
                                kind: DiagKind::UnknownLibrary { name: ident.value },
                                spans,
                                note_spans: Vec::new(),
                            };
                            proof {
                                assert(d.spans@ =~= seq![ident.span]);
                                assert(d.note_spans@ =~= Seq::<Span>::empty());
                            }
                            self.sess.emit(d);
                            had_fails = true;
                        }
                    }
                }
                proof {
                    assert(gidents.take(nq as int) =~= gidents);
                    lemma_wf_preserved(mid, *self);
                    if pre.defs_ready() {
                        assert(base == pre.sess.diags@.len());
                        assert forall|t: int| pre.sess.diags@.len() <= t < self.sess.diags@.len()
                            implies is_defs_diag(#[trigger] self.sess.diags@[t]) by {
                            assert(is_ctx_fail_diag(self.sess.diags@[base + (t - base)], ctx_fail_descrs(reg, gidents)[t - base]));
                        }
                    }
                }

                if had_fails {
                    self.ctx_defs[i] = CacheSlot::Failed;
                    proof {
                        lemma_wf_preserved(mid, *self);
                        assert(pre.evolves_to(s1));
                        lemma_evolves_step(pre, s1, *self);
                    }
                    Err(Failure)
                } else {
                    let k = self.defs_arena.allocate(table);
                    self.ctx_defs[i] = CacheSlot::Done(k);
                    proof {
                        assert(self.slot_ctx_defs_ok(i as int));
                        lemma_wf_preserved(mid, *self);
                        assert(pre.evolves_to(s1));
                        lemma_evolves_step(pre, s1, *self);
                    }
                    Ok(k)
                }
            }
        }
    }

    /// The definitions a package declaration makes: its declarations'
    /// names in source order, with one entry per literal for an
    /// enumeration type. Memoized per identifier. Enumeration literals
    /// are overloadable and accumulate; any other redeclaration of a
    /// bound name is a duplicate-definition error citing the previous
    /// declaration, and the query fails after every declaration was
    /// processed. When tracing is on, every declared definition is
    /// recorded in the session trace.
    #[verifier::rlimit(80)]
    pub fn pkg_defs(&mut self, id: PkgDeclRef) -> (r: Result<usize, Failure>)
        requires
            old(self).wf(),
            id.0 < old(self).ast.pkg_decls@.len(),
        ensures
            final(self).wf(),
            old(self).evolves_to(*final(self)),
            old(self).defs_ready() ==> final(self).defs_ready(),
            // With no query mid-flight, everything this call adds to the
            // sink belongs to the definitions layer.
            old(self).defs_ready() ==> forall|k: int|
                old(self).sess.diags@.len() <= k < final(self).sess.diags@.len()
                    ==> is_defs_diag(#[trigger] final(self).sess.diags@[k]),
            old(self).pkg_defs@[id.0 as int] matches CacheSlot::Done(k)
                ==> *final(self) == *old(self) && r == Result::<usize, Failure>::Ok(k),
            old(self).pkg_defs@[id.0 as int] is Failed ==> *final(self) == *old(self) && r is Err,
            r matches Ok(k) ==> final(self).pkg_defs@[id.0 as int] == CacheSlot::Done(k)
                && k < final(self).defs_arena@.len()
                && final(self).defs_arena@[k as int]@
                    == pkg_rows(pkg_pairs(final(self).ast, final(self).ast.pkg_decls@[id.0 as int]))
                && final(self).defs_arena@[k as int].wf()
                && pkg_fails(pkg_pairs(final(self).ast, final(self).ast.pkg_decls@[id.0 as int])).len() == 0,
            old(self).pkg_defs@[id.0 as int] is InProgress ==> r is Err
                && final(self).sess.diags@ == old(self).sess.diags@.push(final(self).sess.diags@.last())
                && is_error_diag(final(self).sess.diags@.last(), DiagKind::CircularDependency, Seq::empty(), Seq::empty()),
            // The computing path, undisturbed by earlier failures of the
            // package's HIR: success exactly when no non-overloadable
            // name is redeclared, one diagnostic per duplicate, in source
            // order, and the trace grows by one event per declared
            // definition when tracing is on.
            old(self).pkg_defs@[id.0 as int] is Unevaluated
                && !(old(self).pkg_hir@[id.0 as int] is Failed)
                && !(old(self).pkg_hir@[id.0 as int] is InProgress) ==> {
                let pairs = pkg_pairs(old(self).ast, old(self).ast.pkg_decls@[id.0 as int]);
                let fails = pkg_fails(pairs);
                &&& (r is Ok <==> fails.len() == 0)
                &&& (r is Err ==> final(self).pkg_defs@[id.0 as int] == CacheSlot::Failed)
                &&& final(self).sess.diags@.len() == old(self).sess.diags@.len() + fails.len()
                &&& forall|k: int| 0 <= k < fails.len()
                    ==> is_pkg_fail_diag(#[trigger] final(self).sess.diags@[old(self).sess.diags@.len() + k], fails[k])
                &&& final(self).sess.trace@ == if old(self).sess.opts.trace_scoreboard {
                    old(self).sess.trace@ + pkg_trace(pairs)
                } else {
                    old(self).sess.trace@
                }
            },
    {
        let i = id.0;
        match self.pkg_defs[i] {
            CacheSlot::Done(k) => {
                proof {
                    assert(self.slot_pkg_defs_ok(i as int));
                }
                Ok(k)
            }
            CacheSlot::Failed => Err(Failure),
            CacheSlot::InProgress => {
                let ghost pre = *self;
                proof {
                    if pre.defs_ready() {
                        assert(!(pre.pkg_defs@[i as int] is InProgress));
                    }
                }
                self.sess.emit(circular_diag());
                proof {
                    lemma_wf_preserved(pre, *self);
                }
                Err(Failure)
            }
            CacheSlot::Unevaluated => {
                let ghost pre = *self;
                self.pkg_defs[i] = CacheSlot::InProgress;
                proof {
                    lemma_wf_preserved(pre, *self);
                }
                let ghost s1 = *self;
                let h = match self.pkg_hir(id) {
                    Ok(h) => h,
                    Err(e) => {
                        proof {
                            if pre.defs_ready() {
                                assert(s1.slot_pkg_hir_ok(i as int));
                                assert(!(s1.pkg_hir@[i as int] is InProgress));
                            }
                        }
                        let ghost s2 = *self;
                        self.pkg_defs[i] = CacheSlot::Unevaluated;
                        proof {
                            lemma_wf_preserved(s2, *self);
                            assert(pre.evolves_to(s1));
                            lemma_evolves_trans(pre, s1, s2);
                            lemma_evolves_step(pre, s2, *self);
                        }
                        return Err(e);
                    }
                };
                let ghost s2 = *self;
                let ghost gpairs = pkg_pairs(self.ast, self.ast.pkg_decls@[i as int]);
                proof {
                    assert(self.slot_pkg_hir_ok(i as int));
                }

                // Gather the pairs every declaration contributes.
                let node = self.arenas.package.get(h);
                let nd = node.decls.len();
                let mut pairs: Vec<(ResolvableName, Spanned<Def>)> = Vec::new();
                for j in 0..nd
                    invariant
                        *self == s2,
                        nd == node.decls@.len(),
                        node.decls@ == self.ast.pkg_decls@[i as int].decls@,
                        self.ast.wf(),
                        i < self.ast.pkg_decls@.len(),
                        pairs@ == pkg_pairs_prefix(self.ast, node.decls@.take(j as int)),
                {
                    proof {
                        assert(node.decls@.take(j + 1).drop_last() =~= node.decls@.take(j as int));
                        assert(node.decls@.take(j + 1).last() == node.decls@[j as int]);
                        assert(self.ast.valid_decl_in_pkg(node.decls@[j as int]));
                    }
                    let ghost before = pairs@;
                    match node.decls[j] {
                        DeclInPkgRef::Pkg(d) => {
                            pairs.push(
                                (
                                    ResolvableName::Ident(self.ast.pkg_decls[d.0].name.value),
                                    Spanned::new(Def::Pkg(d), self.ast.pkg_decls[d.0].name.span),
                                ),
                            );
                            proof {
                                assert(pairs@ =~= before.add(decl_pairs(self.ast, node.decls@[j as int])));
                            }
                        }
                        DeclInPkgRef::PkgInst(d) => {
                            pairs.push(
                                (
                                    ResolvableName::Ident(self.ast.pkg_insts[d.0].name.value),
                                    Spanned::new(Def::PkgInst(d), self.ast.pkg_insts[d.0].name.span),
                                ),
                            );
                            proof {
                                assert(pairs@ =~= before.add(decl_pairs(self.ast, node.decls@[j as int])));
                            }
                        }
                        DeclInPkgRef::Subtype(d) => {
                            pairs.push(
                                (
                                    ResolvableName::Ident(self.ast.subtype_decls[d.0].name.value),
                                    Spanned::new(Def::Subtype(d), self.ast.subtype_decls[d.0].name.span),
                                ),
                            );
                            proof {
                                assert(pairs@ =~= before.add(decl_pairs(self.ast, node.decls@[j as int])));
                            }
                        }
                        DeclInPkgRef::Type(d) => {
                            let t = &self.ast.type_decls[d.0];
                            pairs.push(
                                (
                                    ResolvableName::Ident(t.name.value),
                                    Spanned::new(Def::Type(d), t.name.span),
                                ),
                            );
                            let ghost named = before.push(
                                (
                                    ResolvableName::Ident(t.name.value),
                                    Spanned { value: Def::Type(d), span: t.name.span },
                                ),
                            );
                            let ghost litp = enum_lit_pairs(d, t.data);
                            match &t.data {
                                Option::Some(TypeData::Enum(sp, lits)) => {
                                    proof {
                                        assert(t.data == Option::Some(TypeData::Enum(*sp, *lits)));
                                        lemma_enum_pairs_upto(d, lits@, lits@.len() as int);
                                        assert(litp == enum_pairs_upto(d, lits@, lits@.len() as int));
                                        assert(litp.len() == lits@.len());
                                    }
                                    let nl = lits.len();
                                    for q in 0..nl
                                        invariant
                                            nl == lits@.len(),
                                            lits@ == t.data->Some_0->Enum_1@,
                                            litp == enum_lit_pairs(d, t.data),
                                            litp.len() == nl,
                                            forall|k: int| 0 <= k < nl
                                                ==> #[trigger] litp[k] == enum_lit_pair(d, k, lits@[k]),
                                            pairs@ == named.add(litp.take(q as int)),
                                    {

                                        match lits[q] {
                                            EnumLit::Ident(n) => {
                                                pairs.push(
                                                    (
                                                        ResolvableName::Ident(n.value),
                                                        Spanned::new(Def::Enum(EnumRef(d, q)), n.span),
                                                    ),
                                                );
                                                proof {
                                                    assert(lits@[q as int] == EnumLit::Ident(n));
                                                    assert(pairs@.last() == enum_lit_pair(d, q as int, lits@[q as int]));
                                                }
                                            }
                                            EnumLit::Char(c) => {
                                                pairs.push(
                                                    (
                                                        ResolvableName::Bit(c.value),
                                                        Spanned::new(Def::Enum(EnumRef(d, q)), c.span),
                                                    ),
                                                );
                                                proof {
                                                    assert(lits@[q as int] == EnumLit::Char(c));
                                                    assert(pairs@.last() == enum_lit_pair(d, q as int, lits@[q as int]));
                                                }
                                            }
                                        }
                                        proof {
                                            assert(pairs@.last() == litp[q as int]);
                                            assert(pairs@ =~= named.add(litp.take(q + 1)));
                                        }
                                    }
                                    proof {
                                        assert(litp.take(nl as int) =~= litp);
                                        assert(pairs@ =~= before.add(decl_pairs(self.ast, node.decls@[j as int])));
                                    }
                                }
                                _ => {
                                    proof {
                                        assert(pairs@ =~= before.add(decl_pairs(self.ast, node.decls@[j as int])));
                                    }
                                }
                            }
                        }
                    }
                }
                proof {
                    assert(node.decls@.take(nd as int) =~= node.decls@);
                    assert(pairs@ == gpairs);
                }

                // Build the table: literals accumulate, everything else
                // must be fresh.
                let mut table = Defs::new();
                let ghost mid = *self;
                let ghost base = self.sess.diags@.len();
                let ghost tbase = self.sess.trace@;
                let mut had_fails = false;
                let np = pairs.len();
                for q in 0..np
                    invariant
                        *self == (ScoreContext { sess: self.sess, ..mid }),
                        self.sess.opts == mid.sess.opts,
                        np == pairs@.len(),
                        pairs@ == gpairs,
                        table@ == pkg_rows(gpairs.take(q as int)),
                        table.wf(),
                        base == mid.sess.diags@.len(),
                        tbase == mid.sess.trace@,
                        self.sess.diags@.len() == base + pkg_fails(gpairs.take(q as int)).len(),
                        seq_extends(mid.sess.diags@, self.sess.diags@),
                        forall|k: int| 0 <= k < pkg_fails(gpairs.take(q as int)).len()
                            ==> is_pkg_fail_diag(
                                #[trigger] self.sess.diags@[base + k],
                                pkg_fails(gpairs.take(q as int))[k],
                            ),
                        had_fails <==> pkg_fails(gpairs.take(q as int)).len() > 0,
                        self.sess.trace@ == if self.sess.opts.trace_scoreboard {
                            tbase + pkg_trace(gpairs.take(q as int))
                        } else {
                            tbase
                        },
                {
                    proof {
                        assert(gpairs.take(q + 1).drop_last() =~= gpairs.take(q as int));
                        assert(gpairs.take(q + 1).last() == gpairs[q as int]);
                        assert(pkg_trace(gpairs.take(q + 1)) =~= pkg_trace(gpairs.take(q as int)).push(
                            TraceEvent { name: gpairs[q as int].0, def: gpairs[q as int].1.value },
                        ));
                    }
                    let (name, def) = pairs[q];
                    self.sess.trace_decl(name, def.value);
                    if def.value.overloadable() {
                        table.append(name, def);
                    } else {
                        match table.insert_unique(name, def) {
                            Some(prev_span) => {
                                let mut spans: Vec<Span> = Vec::new();
                                spans.push(def.span);
                                let mut notes: Vec<Span> = Vec::new();
                                notes.push(prev_span);
                                let d = Diagnostic {
                                    severity: Severity::Error,
                                    kind: DiagKind::DuplicateDefinition { name },
                                    spans,
                                    note_spans: notes,
                                };
                                proof {
                                    assert(d.spans@ =~= seq![def.span]);
                                    assert(d.note_spans@ =~= seq![prev_span]);
                                }
                                self.sess.emit(d);
                                had_fails = true;
                            }
                            None => {}
                        }
                    }
                }
                proof {
                    assert(gpairs.take(np as int) =~= gpairs);
                    lemma_wf_preserved(mid, *self);
                    if pre.defs_ready() {
                        assert(s1.slot_pkg_hir_ok(i as int));
                        assert(!(s1.pkg_hir@[i as int] is InProgress));
                        assert(base == pre.sess.diags@.len());
                        assert forall|t: int| pre.sess.diags@.len() <= t < self.sess.diags@.len()
                            implies is_defs_diag(#[trigger] self.sess.diags@[t]) by {
                            assert(is_pkg_fail_diag(self.sess.diags@[base + (t - base)], pkg_fails(gpairs)[t - base]));
                        }
                    }
                }

                if had_fails {
                    self.pkg_defs[i] = CacheSlot::Failed;
                    proof {
                        lemma_wf_preserved(mid, *self);
                        assert(pre.evolves_to(s1));
                        lemma_evolves_trans(pre, s1, s2);
                        lemma_evolves_step(pre, s2, *self);
                    }
                    Err(Failure)
                } else {
                    let k = self.defs_arena.allocate(table);
                    self.pkg_defs[i] = CacheSlot::Done(k);
                    proof {
                        assert(self.slot_pkg_defs_ok(i as int));
                        lemma_wf_preserved(mid, *self);
                        assert(pre.evolves_to(s1));
                        lemma_evolves_trans(pre, s1, s2);
                        lemma_evolves_step(pre, s2, *self);
                    }
                    Ok(k)
                }
            }
        }
    }
}

} // verus!
