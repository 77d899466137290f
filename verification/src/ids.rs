//! Typed identifiers: small, copyable handles that address arena-resident
//! nodes without carrying ownership or lifetime information. Each carries
//! the index into the arena (or syntax-tree table) of the matching kind.
//!
//! `ScopeRef` and `Def` are tagged unions over several identifier kinds,
//! letting one field hold "a library, or an entity, or a package, ..."
//! without inheritance; the query dispatcher pattern-matches on the tag.

use vstd::prelude::*;

verus! {

/// A library.
#[derive(Clone, Copy, PartialEq, Eq, Structural, Debug)]
pub struct LibRef(pub usize);

/// The context items (library and use clauses) preceding a design unit.
#[derive(Clone, Copy, PartialEq, Eq, Structural, Debug)]
pub struct CtxItemsRef(pub usize);

/// An entity declaration.
#[derive(Clone, Copy, PartialEq, Eq, Structural, Debug)]
pub struct EntityRef(pub usize);

/// An architecture body.
#[derive(Clone, Copy, PartialEq, Eq, Structural, Debug)]
pub struct ArchRef(pub usize);

/// A configuration declaration.
#[derive(Clone, Copy, PartialEq, Eq, Structural, Debug)]
pub struct CfgRef(pub usize);

/// A package declaration.
#[derive(Clone, Copy, PartialEq, Eq, Structural, Debug)]
pub struct PkgDeclRef(pub usize);

/// A package instantiation.
#[derive(Clone, Copy, PartialEq, Eq, Structural, Debug)]
pub struct PkgInstRef(pub usize);

/// A package body.
#[derive(Clone, Copy, PartialEq, Eq, Structural, Debug)]
pub struct PkgBodyRef(pub usize);

/// A context declaration.
#[derive(Clone, Copy, PartialEq, Eq, Structural, Debug)]
pub struct CtxRef(pub usize);

/// A type declaration.
#[derive(Clone, Copy, PartialEq, Eq, Structural, Debug)]
pub struct TypeDeclRef(pub usize);

/// A subtype declaration.
#[derive(Clone, Copy, PartialEq, Eq, Structural, Debug)]
pub struct SubtypeDeclRef(pub usize);

/// An interface signal (a port).
#[derive(Clone, Copy, PartialEq, Eq, Structural, Debug)]
pub struct IntfSignalRef(pub usize);

/// A subtype indication.
#[derive(Clone, Copy, PartialEq, Eq, Structural, Debug)]
pub struct SubtypeIndRef(pub usize);

/// An expression.
#[derive(Clone, Copy, PartialEq, Eq, Structural, Debug)]
pub struct ExprRef(pub usize);

/// A constant declaration.
#[derive(Clone, Copy, PartialEq, Eq, Structural, Debug)]
pub struct ConstDeclRef(pub usize);

/// A signal declaration.
#[derive(Clone, Copy, PartialEq, Eq, Structural, Debug)]
pub struct SignalDeclRef(pub usize);

/// A variable declaration.
#[derive(Clone, Copy, PartialEq, Eq, Structural, Debug)]
pub struct VariableDeclRef(pub usize);

/// A file declaration.
#[derive(Clone, Copy, PartialEq, Eq, Structural, Debug)]
pub struct FileDeclRef(pub usize);

/// A generic of an entity or package.
#[derive(Clone, Copy, PartialEq, Eq, Structural, Debug)]
pub struct GenericRef(pub usize);

/// A concurrent statement in an architecture body.
#[derive(Clone, Copy, PartialEq, Eq, Structural, Debug)]
pub struct ConcStmtRef(pub usize);

/// One literal of an enumeration type: the declaring type declaration and
/// the position of the literal within it.
#[derive(Clone, Copy, PartialEq, Eq, Structural, Debug)]
pub struct EnumRef(pub TypeDeclRef, pub usize);

/// A reference to a type or subtype declaration usable as a type mark.
#[derive(Clone, Copy, PartialEq, Eq, Structural, Debug)]
pub enum TypeMarkRef {
    Type(TypeDeclRef),
    Subtype(SubtypeDeclRef),
}

/// A declaration that may appear inside a package declaration.
#[derive(Clone, Copy, PartialEq, Eq, Structural, Debug)]
pub enum DeclInPkgRef {
    Pkg(PkgDeclRef),
    PkgInst(PkgInstRef),
    Type(TypeDeclRef),
    Subtype(SubtypeDeclRef),
}

/// A declaration that may appear inside a block (an architecture body).
#[derive(Clone, Copy, PartialEq, Eq, Structural, Debug)]
pub enum DeclInBlockRef {
    Const(ConstDeclRef),
    Signal(SignalDeclRef),
    Variable(VariableDeclRef),
    File(FileDeclRef),
}

/// A scope-introducing construct: one of the identifier kinds for which a
/// definitions table and a scope record can be requested.
#[derive(Clone, Copy, PartialEq, Eq, Structural, Debug)]
pub enum ScopeRef {
    Lib(LibRef),
    CtxItems(CtxItemsRef),
    Entity(EntityRef),
    Pkg(PkgDeclRef),
    PkgInst(PkgInstRef),
    Arch(ArchRef),
}

/// Something a name may denote.
#[derive(Clone, Copy, PartialEq, Eq, Structural, Debug)]
pub enum Def {
    Lib(LibRef),
    Cfg(CfgRef),
    Entity(EntityRef),
    Pkg(PkgDeclRef),
    PkgInst(PkgInstRef),
    Ctx(CtxRef),
    Type(TypeDeclRef),
    Subtype(SubtypeDeclRef),
    Enum(EnumRef),
}

impl Def {
    /// Whether several simultaneous bindings of this definition kind under
    /// one name are legal. Only enumeration literals are overloadable in
    /// this core; every other kind makes a second binding a duplicate.
    pub open spec fn is_overloadable(self) -> bool {
        self is Enum
    }

    /// Executable mirror of `is_overloadable`.
    pub fn overloadable(&self) -> (r: bool)
        ensures
            r == self.is_overloadable(),
    {
        match self {
            Def::Enum(_) => true,
            _ => false,
        }
    }
}

} // verus!
