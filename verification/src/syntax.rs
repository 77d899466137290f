//! The syntax-tree fragments the scoreboard consumes.
//!
//! Lexing and parsing are external collaborators: a driver hands the
//! scoreboard one fully parsed, already validated syntax tree per session.
//! Nodes are held in per-kind tables and addressed by the same typed
//! identifiers the HIR uses, so that a query keyed by an identifier can
//! reach the syntax fragment it lowers. The tree is read-only for the
//! whole session.

use vstd::prelude::*;
use crate::common::{Name, ResolvableName, Span, Spanned};
use crate::hir::{IntfSignalMode, TypeData};
use crate::ids::{
    ArchRef, CfgRef, CtxItemsRef, CtxRef, DeclInPkgRef, EntityRef, LibRef, PkgBodyRef,
    PkgDeclRef, PkgInstRef, ScopeRef, SubtypeDeclRef, TypeDeclRef, TypeMarkRef,
};

verus! {

/// One part of a compound name after the leading identifier.
#[derive(Clone, Copy, PartialEq, Eq, Structural, Debug)]
pub enum NamePart {
    /// A selected name, e.g. the `.b` in `a.b`.
    Select(Spanned<ResolvableName>),
    /// A wildcard selection, `.all`, with its span.
    SelectAll(Span),
}

/// A compound (dotted) name as written in a use clause.
#[derive(Clone, PartialEq, Eq, Debug)]
#[verifier::ext_equal]
pub struct CompoundName {
    /// The span the whole name covers.
    pub span: Span,
    /// The leading name part.
    pub primary: Spanned<ResolvableName>,
    /// The remaining parts, in source order.
    pub parts: Vec<NamePart>,
}

/// A context item preceding a design unit.
#[derive(Clone, PartialEq, Eq, Debug)]
pub enum CtxItem {
    /// `library a, b;`
    LibClause(Spanned<Vec<Spanned<Name>>>),
    /// `use a.b.all, c.d;`
    UseClause(Spanned<Vec<CompoundName>>),
}

/// The design units a library contains, in source order, by kind.
#[derive(Clone, PartialEq, Eq, Debug)]
pub struct AstLib {
    pub entities: Vec<EntityRef>,
    pub cfgs: Vec<CfgRef>,
    pub pkg_decls: Vec<PkgDeclRef>,
    pub pkg_insts: Vec<PkgInstRef>,
    pub ctxs: Vec<CtxRef>,
    pub archs: Vec<ArchRef>,
    pub pkg_bodies: Vec<PkgBodyRef>,
}

/// A design unit of which this core reads only the name (configurations,
/// context declarations, package instantiations).
#[derive(Clone, Copy, PartialEq, Eq, Structural, Debug)]
pub struct AstUnitName {
    pub name: Spanned<Name>,
}

/// A subtype indication as parsed: a type mark, and nothing more in this
/// core slice (constraints are lowered elsewhere).
#[derive(Clone, Copy, PartialEq, Eq, Structural, Debug)]
pub struct AstSubtypeInd {
    pub span: Span,
    pub type_mark: Spanned<TypeMarkRef>,
}

/// An interface signal (port) as parsed.
#[derive(Clone, Copy, PartialEq, Eq, Structural, Debug)]
pub struct AstIntfSignal {
    pub name: Spanned<Name>,
    pub mode: IntfSignalMode,
    pub bus: bool,
    pub ty: AstSubtypeInd,
}

/// An entity declaration as parsed.
#[derive(Clone, PartialEq, Eq, Debug)]
pub struct AstEntity {
    pub name: Spanned<Name>,
    /// The library the entity was analyzed into.
    pub lib: LibRef,
    /// The context items preceding the entity.
    pub ctx_items: CtxItemsRef,
    /// The ports the entity declares, in source order.
    pub ports: Vec<AstIntfSignal>,
}

/// An architecture body as parsed.
#[derive(Clone, Copy, PartialEq, Eq, Structural, Debug)]
pub struct AstArch {
    pub name: Spanned<Name>,
    /// The entity the architecture implements.
    pub entity: EntityRef,
    /// The context items preceding the architecture.
    pub ctx_items: CtxItemsRef,
}

/// A package declaration as parsed: its declarations are other table
/// entries, referenced by identifier.
#[derive(Clone, PartialEq, Eq, Debug)]
pub struct AstPackage {
    /// The lexical parent scope.
    pub parent: ScopeRef,
    pub name: Spanned<Name>,
    pub decls: Vec<DeclInPkgRef>,
}

/// A type declaration as parsed.
#[derive(Clone, PartialEq, Eq, Debug)]
pub struct AstTypeDecl {
    /// The lexical parent scope.
    pub parent: ScopeRef,
    pub name: Spanned<Name>,
    pub data: Option<TypeData>,
}

/// A subtype declaration as parsed.
#[derive(Clone, Copy, PartialEq, Eq, Structural, Debug)]
pub struct AstSubtypeDecl {
    /// The lexical parent scope.
    pub parent: ScopeRef,
    pub name: Spanned<Name>,
    pub subty: AstSubtypeInd,
}

/// The whole syntax tree of one session: one table per node kind, indexed
/// by the matching identifier kind.
#[derive(Clone, PartialEq, Eq, Debug)]
pub struct SyntaxTree {
    pub libs: Vec<AstLib>,
    /// One entry per design unit: the context items preceding it.
    pub ctx_items: Vec<Vec<CtxItem>>,
    pub entities: Vec<AstEntity>,
    pub archs: Vec<AstArch>,
    pub cfgs: Vec<AstUnitName>,
    pub ctxs: Vec<AstUnitName>,
    pub pkg_insts: Vec<AstUnitName>,
    pub pkg_decls: Vec<AstPackage>,
    pub type_decls: Vec<AstTypeDecl>,
    pub subtype_decls: Vec<AstSubtypeDecl>,
}

impl SyntaxTree {
    /// Whether a scope-introducing identifier addresses an existing node.
    pub open spec fn valid_scope_ref(self, s: ScopeRef) -> bool {
        match s {
            ScopeRef::Lib(id) => id.0 < self.libs@.len(),
            ScopeRef::CtxItems(id) => id.0 < self.ctx_items@.len(),
            ScopeRef::Entity(id) => id.0 < self.entities@.len(),
            ScopeRef::Pkg(id) => id.0 < self.pkg_decls@.len(),
            ScopeRef::PkgInst(id) => id.0 < self.pkg_insts@.len(),
            ScopeRef::Arch(id) => id.0 < self.archs@.len(),
        }
    }

    /// Whether a declaration identifier inside a package addresses an
    /// existing node.
    pub open spec fn valid_decl_in_pkg(self, d: DeclInPkgRef) -> bool {
        match d {
            DeclInPkgRef::Pkg(id) => id.0 < self.pkg_decls@.len(),
            DeclInPkgRef::PkgInst(id) => id.0 < self.pkg_insts@.len(),
            DeclInPkgRef::Type(id) => id.0 < self.type_decls@.len(),
            DeclInPkgRef::Subtype(id) => id.0 < self.subtype_decls@.len(),
        }
    }

    /// Whether one library's unit lists only address existing nodes.
    pub open spec fn valid_lib(self, l: AstLib) -> bool {
        &&& forall|i: int| 0 <= i < l.entities@.len() ==> (#[trigger] l.entities@[i]).0 < self.entities@.len()
        &&& forall|i: int| 0 <= i < l.cfgs@.len() ==> (#[trigger] l.cfgs@[i]).0 < self.cfgs@.len()
        &&& forall|i: int| 0 <= i < l.pkg_decls@.len() ==> (#[trigger] l.pkg_decls@[i]).0 < self.pkg_decls@.len()
        &&& forall|i: int| 0 <= i < l.pkg_insts@.len() ==> (#[trigger] l.pkg_insts@[i]).0 < self.pkg_insts@.len()
        &&& forall|i: int| 0 <= i < l.ctxs@.len() ==> (#[trigger] l.ctxs@[i]).0 < self.ctxs@.len()
        &&& forall|i: int| 0 <= i < l.archs@.len() ==> (#[trigger] l.archs@[i]).0 < self.archs@.len()
    }

    /// Well-formedness of the whole tree: every identifier held by a node
    /// addresses an existing node of the matching kind. The parser and
    /// driver establish this; the scoreboard relies on it.
    pub open spec fn wf(self) -> bool {
        &&& forall|i: int| 0 <= i < self.libs@.len() ==> self.valid_lib(#[trigger] self.libs@[i])
        &&& forall|i: int| 0 <= i < self.entities@.len() ==> {
            let e = #[trigger] self.entities@[i];
            e.lib.0 < self.libs@.len() && e.ctx_items.0 < self.ctx_items@.len()
        }
        &&& forall|i: int| 0 <= i < self.archs@.len() ==> {
            let a = #[trigger] self.archs@[i];
            a.entity.0 < self.entities@.len() && a.ctx_items.0 < self.ctx_items@.len()
        }
        &&& forall|i: int| 0 <= i < self.pkg_decls@.len() ==> {
            let p = #[trigger] self.pkg_decls@[i];
            self.valid_scope_ref(p.parent) && forall|j: int|
                0 <= j < p.decls@.len() ==> self.valid_decl_in_pkg(#[trigger] p.decls@[j])
        }
        &&& forall|i: int| 0 <= i < self.type_decls@.len() ==>
            self.valid_scope_ref((#[trigger] self.type_decls@[i]).parent)
        &&& forall|i: int| 0 <= i < self.subtype_decls@.len() ==>
            self.valid_scope_ref((#[trigger] self.subtype_decls@[i]).parent)
    }
}

} // verus!
