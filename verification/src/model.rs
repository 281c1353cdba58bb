//! The parsed form of one package's metadata document: symbol records, the
//! type expressions they declare, and the tables that address them.

use std::collections::HashMap;
use vstd::prelude::*;

verus! {

/// An identifier of a symbol, unique only within the package that defines it.
#[derive(Clone, Copy, Debug, PartialEq, Eq, Structural)]
pub struct Id(pub u32);

/// The number of the identifier that stands for no symbol of its own: beside
/// a package name it denotes that package's root module, and alone it denotes
/// nothing.
pub const EMPTY: u32 = 0xffff_ffff;

/// A reference to a named symbol, as written in a type expression.
#[derive(Debug)]
pub struct PathRef {
    /// The name as written at the place of use.
    pub name: String,
    /// The symbol referred to.
    pub id: Id,
    /// The generic arguments given to it, if any.
    pub args: Option<Box<GenericArgs>>,
}

/// The generic arguments of a path.
#[derive(Debug)]
pub enum GenericArgs {
    /// `<'a, T, N, Item = U>`; each binding is held as its rendered text.
    AngleBracketed { args: Vec<GenericArg>, bindings: Vec<String> },
    /// `(A, B) -> C`, as on the function traits.
    Parenthesized { inputs: Vec<Type>, output: Option<Type> },
    /// `(..)`, which names the return type of a method.
    ReturnTypeNotation,
}

/// One generic argument.
#[derive(Debug)]
pub enum GenericArg {
    Lifetime(String),
    Type(Type),
    /// A constant argument, held as its rendered text.
    Const(String),
    Infer,
}

/// One bound of an `impl Trait` type.
#[derive(Debug)]
pub enum GenericBound {
    TraitBound(PathRef),
    Outlives(String),
    /// `use<'a, T>`, with the captured names.
    Use(Vec<String>),
}

/// The parameters and the result of a function.
#[derive(Debug)]
pub struct Signature {
    pub inputs: Vec<(String, Type)>,
    pub output: Option<Type>,
}

/// A declared type expression.
#[derive(Debug)]
pub enum Type {
    ResolvedPath(PathRef),
    DynTrait(Vec<PathRef>),
    Generic(String),
    Primitive(String),
    FunctionPointer(Box<Signature>),
    Tuple(Vec<Type>),
    Slice(Box<Type>),
    Array { type_: Box<Type>, len: String },
    Pat { type_: Box<Type>, pattern: String },
    ImplTrait(Vec<GenericBound>),
    Infer,
    RawPointer { mutable: bool, type_: Box<Type> },
    BorrowedRef { lifetime: Option<String>, mutable: bool, type_: Box<Type> },
    QualifiedPath { name: String, self_type: Box<Type>, trait_: Option<PathRef> },
}

/// The fields of a record type or of a variant.
#[derive(Debug)]
pub enum Fields {
    Unit,
    /// Positional fields; a field that the document leaves out is `None`.
    Tuple(Vec<Option<Id>>),
    Named(Vec<Id>),
}

/// Where a symbol is defined.
#[derive(Debug)]
pub struct Span {
    pub filename: String,
    /// The line on which the definition starts, counted from one.
    pub begin_line: usize,
}

/// What a symbol is, with what belongs to its kind.
#[derive(Debug)]
#[allow(inconsistent_fields)]
pub enum RecordKind {
    Module { is_crate: bool, items: Vec<Id> },
    ExternCrate { name: String },
    Use { source: String, glob: bool },
    Union { fields: Vec<Id>, impls: Vec<Id> },
    Struct { fields: Fields, impls: Vec<Id> },
    StructField(Type),
    Enum { variants: Vec<Id>, impls: Vec<Id> },
    Variant(Fields),
    Function(Signature),
    Trait { items: Vec<Id> },
    TraitAlias,
    Impl {
        trait_: Option<PathRef>,
        items: Vec<Id>,
        automatically_derived: bool,
        blanket: bool,
        synthetic: bool,
    },
    TypeAlias(Type),
    OpaqueTy,
    Constant(Type),
    Static(Type),
    ForeignType,
    Macro,
    ProcMacro,
    Primitive,
    AssocConst { type_: Type, default: Option<String> },
    AssocType { default: Option<Type> },
}

/// One symbol of a document.
#[derive(Debug)]
pub struct Record {
    pub id: Id,
    /// Zero for a symbol of the document's own package.
    pub crate_id: u32,
    pub name: Option<String>,
    pub docs: Option<String>,
    pub span: Option<Span>,
    pub inner: RecordKind,
}

/// What a document knows of an identifier that it mentions: the qualified
/// path, whose first segment names the owning package.
#[derive(Debug)]
pub struct Summary {
    pub id: Id,
    pub path: Vec<String>,
}

/// The parsed metadata document of one package.
#[derive(Debug)]
pub struct Document {
    /// The identifier of the package's root module.
    pub root: Id,
    /// The symbols that the package defines, by identifier.
    pub index: HashMap<u32, Record>,
    /// The identifiers that the document mentions, its own and foreign ones.
    pub paths: Vec<Summary>,
}

} // verus!
