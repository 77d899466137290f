//! The high-level intermediate representation (HIR) of a VHDL design.
//!
//! HIR nodes are built lazily from syntax-tree fragments on first demand,
//! committed to the arena of their kind, and never mutated afterward. They
//! cross-reference each other exclusively through typed identifiers, never
//! through owning references, so forward and mutually recursive semantic
//! references stay expressible.

use vstd::prelude::*;
use crate::arena::Arena;
use crate::common::{Name, Span, Spanned};
use crate::ids::{
    ArchRef, CfgRef, ConcStmtRef, CtxItemsRef, CtxRef, Def, DeclInBlockRef, DeclInPkgRef,
    EntityRef, ExprRef, GenericRef, IntfSignalRef, LibRef, PkgBodyRef, PkgDeclRef, PkgInstRef,
    ScopeRef, SubtypeDeclRef, SubtypeIndRef, TypeMarkRef,
};

verus! {

/// The direction of a range.
#[derive(Clone, Copy, PartialEq, Eq, Structural, Debug)]
pub enum Dir {
    To,
    Downto,
}

/// A logical operator.
#[derive(Clone, Copy, PartialEq, Eq, Structural, Debug)]
pub enum LogicalOp {
    And,
    Or,
    Nand,
    Nor,
    Xor,
    Xnor,
}

/// A binary operator.
#[derive(Clone, Copy, PartialEq, Eq, Structural, Debug)]
pub enum Operator {
    Logical(LogicalOp),
    Eq,
    Neq,
    Lt,
    Leq,
    Gt,
    Geq,
    Add,
    Sub,
    Concat,
    Mul,
    Div,
    Mod,
    Rem,
    Pow,
}

/// A collection of arenas where HIR nodes may be allocated: one pool per
/// node kind, owning every node of that kind for the whole compilation.
pub struct Arenas {
    pub lib: Arena<Lib>,
    pub entity: Arena<Entity>,
    pub arch: Arena<Arch>,
    pub intf_sig: Arena<IntfSignal>,
    pub subtype_ind: Arena<SubtypeInd>,
    pub package: Arena<Package>,
    pub type_decl: Arena<TypeDecl>,
    pub subtype_decl: Arena<SubtypeDecl>,
    pub expr: Arena<Expr>,
    pub const_decl: Arena<ConstDecl>,
    pub signal_decl: Arena<SignalDecl>,
    pub variable_decl: Arena<VariableDecl>,
    pub file_decl: Arena<FileDecl>,
}

impl Arenas {
    /// Create a new set of arenas, all empty.
    pub fn new() -> (a: Arenas)
        ensures
            a.lib@.len() == 0,
            a.entity@.len() == 0,
            a.arch@.len() == 0,
            a.intf_sig@.len() == 0,
            a.subtype_ind@.len() == 0,
            a.package@.len() == 0,
            a.type_decl@.len() == 0,
            a.subtype_decl@.len() == 0,
            a.expr@.len() == 0,
            a.const_decl@.len() == 0,
            a.signal_decl@.len() == 0,
            a.variable_decl@.len() == 0,
            a.file_decl@.len() == 0,
    {
        Arenas {
            lib: Arena::new(),
            entity: Arena::new(),
            arch: Arena::new(),
            intf_sig: Arena::new(),
            subtype_ind: Arena::new(),
            package: Arena::new(),
            type_decl: Arena::new(),
            subtype_decl: Arena::new(),
            expr: Arena::new(),
            const_decl: Arena::new(),
            signal_decl: Arena::new(),
            variable_decl: Arena::new(),
            file_decl: Arena::new(),
        }
    }
}

/// A library: the ordered design units it contains, by kind.
#[derive(Clone, PartialEq, Eq, Debug)]
pub struct Lib {
    pub entities: Vec<EntityRef>,
    pub cfgs: Vec<CfgRef>,
    pub pkg_decls: Vec<PkgDeclRef>,
    pub pkg_insts: Vec<PkgInstRef>,
    pub ctxs: Vec<CtxRef>,
    pub archs: Vec<ArchRef>,
    pub pkg_bodies: Vec<PkgBodyRef>,
}

impl Lib {
    /// Create a library with no design units.
    pub fn new() -> (l: Lib)
        ensures
            l.entities@.len() == 0,
            l.cfgs@.len() == 0,
            l.pkg_decls@.len() == 0,
            l.pkg_insts@.len() == 0,
            l.ctxs@.len() == 0,
            l.archs@.len() == 0,
            l.pkg_bodies@.len() == 0,
    {
        Lib {
            entities: Vec::new(),
            cfgs: Vec::new(),
            pkg_decls: Vec::new(),
            pkg_insts: Vec::new(),
            ctxs: Vec::new(),
            archs: Vec::new(),
            pkg_bodies: Vec::new(),
        }
    }
}

/// An entity declaration.
#[derive(Clone, PartialEq, Eq, Debug)]
pub struct Entity {
    /// The context items associated with the entity.
    pub ctx_items: CtxItemsRef,
    /// The library in which the entity is defined.
    pub lib: LibRef,
    /// The entity name.
    pub name: Spanned<Name>,
    /// The list of generics that the entity declares.
    pub generics: Vec<GenericRef>,
    /// The list of ports that the entity declares.
    pub ports: Vec<IntfSignalRef>,
}

/// An architecture body.
#[derive(Clone, PartialEq, Eq, Debug)]
pub struct Arch {
    /// The context items associated with the architecture.
    pub ctx_items: CtxItemsRef,
    /// The entity of the architecture.
    pub entity: EntityRef,
    /// The architecture name.
    pub name: Spanned<Name>,
    /// The list of declarations in the architecture.
    pub decls: Vec<DeclInBlockRef>,
    /// The list of statements in the architecture.
    pub stmts: Vec<ConcStmtRef>,
}

/// An interface signal (a port of an entity).
#[derive(Clone, Copy, PartialEq, Eq, Structural, Debug)]
pub struct IntfSignal {
    /// The name of this signal.
    pub name: Spanned<Name>,
    /// The mode of this signal.
    pub mode: IntfSignalMode,
    /// The type of this signal.
    pub ty: SubtypeIndRef,
    /// Whether this signal was declared with the `bus` keyword.
    pub bus: bool,
    /// The expression determining the initial value of this signal.
    pub init: Option<ExprRef>,
}

/// The direction mode of an interface signal.
#[derive(Clone, Copy, PartialEq, Eq, Structural, Debug)]
pub enum IntfSignalMode {
    In,
    Out,
    Inout,
    Buffer,
    Linkage,
}

/// A subtype indication: a type mark with an optional constraint.
pub struct SubtypeInd {
    /// The location within the source code.
    pub span: Span,
    /// The type mark.
    pub type_mark: Spanned<TypeMarkRef>,
    /// The optional constraint.
    pub constraint: Constraint,
}

/// A constraint on a subtype indication.
pub enum Constraint {
    /// No constraint given.
    Unconstrained,
    Range(Span, ExprRef),
    Array(ArrayConstraint),
    Record(RecordConstraint),
}

/// A constraint on an element of a composite.
pub enum ElementConstraint {
    Array(ArrayConstraint),
    Record(RecordConstraint),
}

/// An array constraint.
pub struct ArrayConstraint {
    /// The span this constraint covers.
    pub span: Span,
    /// The index constraint. `None` corresponds to the `open` constraint.
    /// Each element refers to an expression that must evaluate to a
    /// constant range or a subtype indication.
    pub index: Option<Vec<ExprRef>>,
    /// The optional constraint for the array elements.
    pub elem: Option<Box<Spanned<ElementConstraint>>>,
}

/// A record constraint: constraints for individual elements, keyed by the
/// element's name, in source order.
pub struct RecordConstraint {
    /// The span this constraint covers.
    pub span: Span,
    /// Constraints for individual elements.
    pub elems: Vec<(Name, Box<ElementConstraint>)>,
}

/// A package declaration.
#[derive(Clone, PartialEq, Eq, Debug)]
pub struct Package {
    /// The parent scope.
    pub parent: ScopeRef,
    /// The package name.
    pub name: Spanned<Name>,
    /// The list of generics.
    pub generics: Vec<GenericRef>,
    /// The list of declarations in the package.
    pub decls: Vec<DeclInPkgRef>,
}

/// A type declaration.
#[derive(Clone, PartialEq, Eq, Debug)]
pub struct TypeDecl {
    /// The parent scope.
    pub parent: ScopeRef,
    /// The type name.
    pub name: Spanned<Name>,
    /// The type data. `None` for an incomplete type declaration.
    pub data: Option<TypeData>,
}

/// The data of a type declaration.
#[derive(Clone, PartialEq, Eq, Debug)]
pub enum TypeData {
    /// An integer or physical type with a range.
    Range(Span, Dir, ExprRef, ExprRef),
    /// An enumeration type with its literals.
    Enum(Span, Vec<EnumLit>),
}

/// One literal of an enumeration type.
#[derive(Clone, Copy, PartialEq, Eq, Structural, Debug)]
pub enum EnumLit {
    Ident(Spanned<Name>),
    Char(Spanned<char>),
}

/// A subtype declaration.
#[derive(Clone, Copy, PartialEq, Eq, Structural, Debug)]
pub struct SubtypeDecl {
    /// The parent scope.
    pub parent: ScopeRef,
    /// The subtype name.
    pub name: Spanned<Name>,
    /// The actual subtype.
    pub subty: SubtypeIndRef,
}

/// An expression. Sub-expressions are addressed by identifier, not
/// embedded, so expression trees are DAG-like and shareable.
#[derive(Clone, PartialEq, Eq, Debug)]
pub struct Expr {
    /// The parent scope.
    pub parent: ScopeRef,
    /// The range in the source file that this expression covers.
    pub span: Span,
    /// The expression data.
    pub data: ExprData,
}

/// The payload of an expression.
#[derive(Clone, PartialEq, Eq, Debug)]
pub enum ExprData {
    /// A resolved name: the definition and the definition's span.
    Name(Def, Span),
    /// A selection, e.g. `a.b`.
    Select(ExprRef, Spanned<crate::common::ResolvableName>),
    /// An attribute selection, e.g. `a'b`.
    Attr(ExprRef, Spanned<crate::common::ResolvableName>),
    /// An integer literal. Evaluation of wider constants is a separate
    /// value domain outside this core.
    IntegerLiteral(i64),
    /// A floating-point literal, kept as its source lexeme; evaluation is
    /// a separate value domain outside this core.
    FloatLiteral(String),
    /// A unary operator expression.
    Unary(UnaryOp, ExprRef),
    /// A binary operator expression.
    Binary(Operator, ExprRef, ExprRef),
    /// A range expression.
    Range(Dir, ExprRef, ExprRef),
}

/// A unary operator.
#[derive(Clone, Copy, PartialEq, Eq, Structural, Debug)]
pub enum UnaryOp {
    Not,
    Abs,
    Pos,
    Neg,
    Logical(LogicalOp),
}

/// A constant declaration.
#[derive(Clone, Copy, PartialEq, Eq, Structural, Debug)]
pub struct ConstDecl {
    /// The scope within which the constant is declared.
    pub parent: ScopeRef,
    /// The name of the constant.
    pub name: Spanned<Name>,
    /// The subtype of the constant.
    pub subty: SubtypeIndRef,
    /// The optional initial value for the constant.
    pub init: Option<ExprRef>,
}

/// A signal declaration.
#[derive(Clone, Copy, PartialEq, Eq, Structural, Debug)]
pub struct SignalDecl {
    /// The scope within which the signal is declared.
    pub parent: ScopeRef,
    /// The name of the signal.
    pub name: Spanned<Name>,
    /// The subtype of the signal.
    pub subty: SubtypeIndRef,
    /// The signal kind.
    pub kind: SignalKind,
    /// The optional initial value for the signal.
    pub init: Option<ExprRef>,
}

/// The kind of a signal declaration.
#[derive(Clone, Copy, PartialEq, Eq, Structural, Debug)]
pub enum SignalKind {
    Normal,
    Register,
    Bus,
}

/// A variable declaration.
#[derive(Clone, Copy, PartialEq, Eq, Structural, Debug)]
pub struct VariableDecl {
    /// The scope within which the variable is declared.
    pub parent: ScopeRef,
    /// Whether the variable was declared as shared or not.
    pub shared: bool,
    /// The name of the variable.
    pub name: Spanned<Name>,
    /// The subtype of the variable.
    pub subty: SubtypeIndRef,
    /// The optional initial value for the variable.
    pub init: Option<ExprRef>,
}

/// A file declaration.
#[derive(Clone, Copy, PartialEq, Eq, Debug)]
pub struct FileDecl {
    /// The scope within which the file is declared.
    pub parent: ScopeRef,
    /// The name of the file.
    pub name: Spanned<Name>,
    /// The subtype of the file.
    pub subty: SubtypeIndRef,
    /// Additional file opening information. The first expression evaluates
    /// to a string containing the file name. The second expression
    /// evaluates to a file open kind.
    pub open: Option<(ExprRef, Option<ExprRef>)>,
}

} // verus!
