use vhdl_score::arena::Arena;
use vhdl_score::common::{DiagKind, ResolvableName, Session, Span, Spanned};
use vhdl_score::ids::{CtxItemsRef, EntityRef, LibRef, PkgDeclRef, DeclInPkgRef, ScopeRef, TypeDeclRef};
use vhdl_score::hir::{EnumLit, TypeData};
use vhdl_score::score::ScoreContext;
use vhdl_score::syntax::{
    AstEntity, AstLib, AstPackage, AstTypeDecl, AstUnitName, CompoundName, CtxItem, NamePart,
    SyntaxTree,
};

fn sp(a: usize, b: usize) -> Span {
    Span::new(a, b)
}

fn empty_tree() -> SyntaxTree {
    SyntaxTree {
        libs: vec![],
        ctx_items: vec![],
        entities: vec![],
        archs: vec![],
        cfgs: vec![],
        ctxs: vec![],
        pkg_insts: vec![],
        pkg_decls: vec![],
        type_decls: vec![],
        subtype_decls: vec![],
    }
}

fn lib_with(entities: Vec<EntityRef>, pkg_decls: Vec<PkgDeclRef>) -> AstLib {
    AstLib {
        entities,
        cfgs: vec![],
        pkg_decls,
        pkg_insts: vec![],
        ctxs: vec![],
        archs: vec![],
        pkg_bodies: vec![],
    }
}

// Names used below: 1 = work, 2 = X, 3 = mypkg, 4 = foo, 5 = bar,
// 6 = color, 7 = A, 8 = B, 9 = shade, 10 = nosuch, 11 = pkg, 12 = extra.

fn entity(name: u32, at: usize, lib: LibRef, ctx: CtxItemsRef) -> AstEntity {
    AstEntity {
        name: Spanned::new(name, sp(at, at + 1)),
        lib,
        ctx_items: ctx,
        ports: vec![],
    }
}

/// Memoization: two calls to the same query return the same arena index,
/// and the second call computes nothing: no new arena node, no new
/// diagnostic, no new trace record.
#[test]
fn memoization_runs_once() {
    let mut tree = empty_tree();
    tree.libs.push(lib_with(vec![EntityRef(0)], vec![]));
    tree.ctx_items.push(vec![]);
    tree.entities.push(entity(2, 10, LibRef(0), CtxItemsRef(0)));
    let mut ctx = ScoreContext::new(Session::new(), tree, vec![(1, LibRef(0))]);

    let first = ctx.lib_defs(LibRef(0)).unwrap();
    let defs_nodes = ctx.defs_arena.len();
    let diags = ctx.sess.diags.len();
    let second = ctx.lib_defs(LibRef(0)).unwrap();
    assert_eq!(first, second);
    assert_eq!(ctx.defs_arena.len(), defs_nodes);
    assert_eq!(ctx.sess.diags.len(), diags);
    // The HIR query behaves the same way.
    let h1 = ctx.lib_hir(LibRef(0)).unwrap();
    let h2 = ctx.lib_hir(LibRef(0)).unwrap();
    assert_eq!(h1, h2);
}

/// Duplicate detection: a library containing two entities named `X`
/// yields a failed definitions query and exactly one diagnostic citing
/// both declaration spans. The failure is cached: asking again emits
/// nothing further.
#[test]
fn duplicate_definition_in_library() {
    let mut tree = empty_tree();
    tree.libs.push(lib_with(vec![EntityRef(0), EntityRef(1)], vec![]));
    tree.ctx_items.push(vec![]);
    tree.entities.push(entity(2, 10, LibRef(0), CtxItemsRef(0)));
    tree.entities.push(entity(2, 20, LibRef(0), CtxItemsRef(0)));
    let mut ctx = ScoreContext::new(Session::new(), tree, vec![(1, LibRef(0))]);

    assert!(ctx.lib_defs(LibRef(0)).is_err());
    assert_eq!(ctx.sess.diags.len(), 1);
    let d = &ctx.sess.diags[0];
    assert!(matches!(d.kind, DiagKind::DuplicateDefinition { name: ResolvableName::Ident(2) }));
    assert_eq!(d.spans, vec![sp(10, 11), sp(20, 21)]);

    assert!(ctx.lib_defs(LibRef(0)).is_err());
    assert_eq!(ctx.sess.diags.len(), 1);
}

fn enum_type(name: u32, at: usize, lits: Vec<EnumLit>) -> AstTypeDecl {
    AstTypeDecl {
        parent: ScopeRef::Pkg(PkgDeclRef(0)),
        name: Spanned::new(name, sp(at, at + 1)),
        data: Some(TypeData::Enum(sp(at, at + 9), lits)),
    }
}

/// Overload accumulation: a package declaring an enumeration with
/// literals `A, B`, then another enumeration declaring literal `A` again,
/// is accepted; `A` holds two definitions, and there is no duplicate
/// error.
#[test]
fn enum_literals_overload() {
    let mut tree = empty_tree();
    tree.libs.push(lib_with(vec![], vec![PkgDeclRef(0)]));
    tree.ctx_items.push(vec![]);
    tree.pkg_decls.push(AstPackage {
        parent: ScopeRef::Lib(LibRef(0)),
        name: Spanned::new(3, sp(1, 2)),
        decls: vec![DeclInPkgRef::Type(TypeDeclRef(0)), DeclInPkgRef::Type(TypeDeclRef(1))],
    });
    tree.type_decls.push(enum_type(
        6,
        30,
        vec![
            EnumLit::Ident(Spanned::new(7, sp(31, 32))),
            EnumLit::Ident(Spanned::new(8, sp(33, 34))),
        ],
    ));
    tree.type_decls.push(enum_type(9, 40, vec![EnumLit::Ident(Spanned::new(7, sp(41, 42)))]));
    let mut ctx = ScoreContext::new(Session::new(), tree, vec![(1, LibRef(0))]);

    let k = ctx.pkg_defs(PkgDeclRef(0)).unwrap();
    assert_eq!(ctx.sess.diags.len(), 0);
    let table = ctx.defs_record(k);
    let a_defs = table.lookup(ResolvableName::Ident(7)).unwrap();
    assert_eq!(a_defs.len(), 2);
    let b_defs = table.lookup(ResolvableName::Ident(8)).unwrap();
    assert_eq!(b_defs.len(), 1);
}

/// A package redeclaring a non-overloadable name fails with a duplicate
/// diagnostic that cites the new span and notes the previous one.
#[test]
fn package_duplicate_fails() {
    let mut tree = empty_tree();
    tree.libs.push(lib_with(vec![], vec![PkgDeclRef(0)]));
    tree.ctx_items.push(vec![]);
    tree.pkg_decls.push(AstPackage {
        parent: ScopeRef::Lib(LibRef(0)),
        name: Spanned::new(3, sp(1, 2)),
        decls: vec![DeclInPkgRef::Type(TypeDeclRef(0)), DeclInPkgRef::Type(TypeDeclRef(1))],
    });
    tree.type_decls.push(enum_type(6, 30, vec![]));
    tree.type_decls.push(enum_type(6, 40, vec![]));
    let mut ctx = ScoreContext::new(Session::new(), tree, vec![(1, LibRef(0))]);

    assert!(ctx.pkg_defs(PkgDeclRef(0)).is_err());
    assert_eq!(ctx.sess.diags.len(), 1);
    let d = &ctx.sess.diags[0];
    assert!(matches!(d.kind, DiagKind::DuplicateDefinition { name: ResolvableName::Ident(6) }));
    assert_eq!(d.spans, vec![sp(40, 41)]);
    assert_eq!(d.note_spans, vec![sp(30, 31)]);
}

fn pkg_tree() -> SyntaxTree {
    // library `work` (name 1) holding package `mypkg` (name 3) that
    // exports `foo` (4) and `bar` (5) as type declarations.
    let mut tree = empty_tree();
    tree.libs.push(lib_with(vec![], vec![PkgDeclRef(0)]));
    tree.pkg_decls.push(AstPackage {
        parent: ScopeRef::Lib(LibRef(0)),
        name: Spanned::new(3, sp(1, 2)),
        decls: vec![DeclInPkgRef::Type(TypeDeclRef(0)), DeclInPkgRef::Type(TypeDeclRef(1))],
    });
    tree.type_decls.push(AstTypeDecl {
        parent: ScopeRef::Pkg(PkgDeclRef(0)),
        name: Spanned::new(4, sp(30, 31)),
        data: None,
    });
    tree.type_decls.push(AstTypeDecl {
        parent: ScopeRef::Pkg(PkgDeclRef(0)),
        name: Spanned::new(5, sp(40, 41)),
        data: None,
    });
    tree
}

fn use_clause(primary: u32, pspan: Span, parts: Vec<NamePart>, span: Span) -> CtxItem {
    CtxItem::UseClause(Spanned::new(
        vec![CompoundName { span, primary: Spanned::new(ResolvableName::Ident(primary), pspan), parts }],
        span,
    ))
}

fn lib_clause(name: u32, at: usize) -> CtxItem {
    CtxItem::LibClause(Spanned::new(vec![Spanned::new(name, sp(at, at + 1))], sp(at, at + 1)))
}

/// Wildcard import: `use work.mypkg.all;` makes `mypkg`'s table visible
/// in the scope built from the context items, so `bar` resolves there.
#[test]
fn wildcard_import_brings_names() {
    let mut tree = pkg_tree();
    tree.ctx_items.push(vec![
        lib_clause(1, 50),
        use_clause(
            1,
            sp(60, 61),
            vec![
                NamePart::Select(Spanned::new(ResolvableName::Ident(3), sp(62, 63))),
                NamePart::SelectAll(sp(64, 67)),
            ],
            sp(60, 67),
        ),
    ]);
    let mut ctx = ScoreContext::new(Session::new(), tree, vec![(1, LibRef(0))]);

    let id = ctx.make_ctx_items_scope(CtxItemsRef(0), None).unwrap();
    assert_eq!(id, CtxItemsRef(0));
    assert_eq!(ctx.sess.diags.len(), 0);

    // The scope makes the package's definitions visible.
    let scope = match ctx.ctx_scope[0] {
        vhdl_score::score::CacheSlot::Done(k) => ctx.scope_record(k),
        _ => panic!("scope not cached"),
    };
    assert!(scope.parent.is_none());
    assert_eq!(scope.defs.len(), 2);
    assert!(matches!(scope.defs[1], ScopeRef::Pkg(PkgDeclRef(0))));

    // `bar` resolves through the imported table.
    let k = ctx.pkg_defs(PkgDeclRef(0)).unwrap();
    let bar = ctx.defs_record(k).lookup(ResolvableName::Ident(5));
    assert!(bar.is_some());
}

/// Invalid selector: `use work.mypkg.all.extra;` fails with an
/// invalid-name-suffix diagnostic whose span starts right after `all`.
#[test]
fn invalid_name_suffix_after_all() {
    let mut tree = pkg_tree();
    tree.ctx_items.push(vec![
        lib_clause(1, 50),
        use_clause(
            1,
            sp(60, 61),
            vec![
                NamePart::Select(Spanned::new(ResolvableName::Ident(3), sp(62, 63))),
                NamePart::SelectAll(sp(64, 67)),
                NamePart::Select(Spanned::new(ResolvableName::Ident(12), sp(68, 73))),
            ],
            sp(60, 73),
        ),
    ]);
    let mut ctx = ScoreContext::new(Session::new(), tree, vec![(1, LibRef(0))]);

    assert!(ctx.make_ctx_items_scope(CtxItemsRef(0), None).is_err());
    let suffix: Vec<_> = ctx
        .sess
        .diags
        .iter()
        .filter(|d| matches!(d.kind, DiagKind::InvalidNameSuffix))
        .collect();
    assert_eq!(suffix.len(), 1);
    assert_eq!(suffix[0].spans, vec![sp(67, 73)]);
}

/// Unknown library: `library nosuch; use nosuch.pkg.all;` fails with an
/// unresolved-library diagnostic and neither panics nor hangs.
#[test]
fn unknown_library_fails_cleanly() {
    let mut tree = pkg_tree();
    tree.ctx_items.push(vec![
        lib_clause(10, 50),
        use_clause(
            10,
            sp(60, 62),
            vec![
                NamePart::Select(Spanned::new(ResolvableName::Ident(11), sp(63, 66))),
                NamePart::SelectAll(sp(67, 70)),
            ],
            sp(60, 70),
        ),
    ]);
    let mut ctx = ScoreContext::new(Session::new(), tree, vec![(1, LibRef(0))]);

    assert!(ctx.make_ctx_items_scope(CtxItemsRef(0), None).is_err());
    assert!(ctx
        .sess
        .diags
        .iter()
        .any(|d| matches!(d.kind, DiagKind::UnknownLibrary { name: 10 })));
}

/// Arena stability: a node reached through an identifier is unchanged
/// after many unrelated queries and allocations.
#[test]
fn arena_nodes_stay_put() {
    let mut a: Arena<u64> = Arena::new();
    let i = a.allocate(7);
    for v in 0..100u64 {
        a.allocate(v);
    }
    assert_eq!(*a.get(i), 7);
    assert_eq!(a.len(), 101);

    // The same through the scoreboard: a definitions table stays intact
    // while other queries allocate.
    let mut tree = pkg_tree();
    tree.ctx_items.push(vec![]);
    tree.entities.push(entity(2, 10, LibRef(0), CtxItemsRef(0)));
    tree.libs[0].entities.push(EntityRef(0));
    let mut ctx = ScoreContext::new(Session::new(), tree, vec![(1, LibRef(0))]);
    let k = ctx.pkg_defs(PkgDeclRef(0)).unwrap();
    let before = ctx.defs_record(k).lookup(ResolvableName::Ident(4));
    ctx.lib_defs(LibRef(0)).unwrap();
    ctx.lib_hir(LibRef(0)).unwrap();
    ctx.entity_hir(EntityRef(0)).unwrap();
    let after = ctx.defs_record(k).lookup(ResolvableName::Ident(4));
    assert_eq!(before, after);
}

/// The session sink accumulates records and the trace stays empty unless
/// the option is set.
#[test]
fn session_defaults() {
    let s = Session::new();
    assert!(!s.opts.ignore_duplicate_defs);
    assert!(!s.opts.trace_scoreboard);
    assert!(s.diags.is_empty());
    assert!(s.trace.is_empty());
}

/// With tracing on, every declared definition is recorded.
#[test]
fn tracing_records_declarations() {
    let mut tree = empty_tree();
    tree.libs.push(lib_with(vec![], vec![PkgDeclRef(0)]));
    tree.ctx_items.push(vec![]);
    tree.pkg_decls.push(AstPackage {
        parent: ScopeRef::Lib(LibRef(0)),
        name: Spanned::new(3, sp(1, 2)),
        decls: vec![DeclInPkgRef::Type(TypeDeclRef(0))],
    });
    tree.type_decls.push(enum_type(6, 30, vec![EnumLit::Ident(Spanned::new(7, sp(31, 32)))]));
    let mut sess = Session::new();
    sess.opts.trace_scoreboard = true;
    let mut ctx = ScoreContext::new(sess, tree, vec![(1, LibRef(0))]);
    ctx.pkg_defs(PkgDeclRef(0)).unwrap();
    // The type's own name and one enumeration literal.
    assert_eq!(ctx.sess.trace.len(), 2);
}
