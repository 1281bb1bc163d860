//! Items: the declarations stored in a crate's namespaces.

use crate::attributes::{Metadata, SymbolMetadata, TypeMetadata};
use crate::identities::{Ident, Identity};
use crate::types::{ConstExpr, LifetimeId, TypeId};
use crate::tokens::TokenTree;
use vstd::prelude::*;

verus! {

/// Something that carries item metadata.
pub trait HasMetadata {
    /// The metadata of this item.
    spec fn spec_metadata(&self) -> Metadata;

    /// The metadata of this item.
    fn metadata(&self) -> (r: &Metadata)
        ensures
            *r == self.spec_metadata(),
    ;
}

/// An item in the macro namespace.
pub enum MacroItem {
    Declarative(DeclarativeMacroItem),
    Procedural(ProceduralMacroItem),
    Derive(DeriveMacroItem),
    Attribute(AttributeMacroItem),
}

/// An item in the symbol namespace: a const, static, function, or const parameter.
pub enum SymbolItem {
    Const(ConstItem),
    Static(StaticItem),
    Function(FunctionItem),
    ConstParam(ConstParamItem),
}

/// An item in the type namespace. Includes generic parameters, which can be lifetimes.
pub enum TypeItem {
    Struct(StructItem),
    Enum(EnumItem),
    Trait(TraitItem),
    TypeParam(TypeParamItem),
    LifetimeParam(LifetimeParamItem),
}

/// A constant `const x: T = expr`, known at compile time.
pub struct ConstItem {
    pub metadata: Metadata,
    pub type_: Box<TypeId>,
    pub value: ConstExpr,
}

/// A static value `static x: T = expr`, stored at a location in memory.
pub struct StaticItem {
    pub metadata: Metadata,
    pub mut_: bool,
    pub type_: Box<TypeId>,
    pub value: String,
}

/// A module.
pub struct Module {
    pub metadata: Metadata,
}

/// A non-tuple struct, `struct Point { x: f32, y: f32 }`.
pub struct StructItem {
    pub metadata: Metadata,
    pub type_metadata: TypeMetadata,
    pub inherent_impl: InherentImpl,
    /// The fields of this struct.
    pub fields: Vec<StructField>,
    /// How this struct is defined.
    pub kind: StructKind,
    /// The identities of its generic parameters.
    pub generics: Vec<Identity>,
}

/// How a struct or variant is written.
#[derive(PartialEq, Eq, Debug, Clone, Copy, Structural)]
pub enum StructKind {
    Named,
    Tuple,
    Unit,
}

/// A field of a struct or variant.
pub struct StructField {
    pub metadata: Metadata,
    pub type_: TypeId,
}

/// An enum, `enum Planet { Earth, Mars, Jupiter }`.
pub struct EnumItem {
    pub metadata: Metadata,
    pub type_metadata: TypeMetadata,
    pub inherent_impl: InherentImpl,
    pub generic_params: GenericParams,
    /// The variants of this enum.
    pub variants: Vec<EnumVariant>,
}

/// A variant of an enum.
pub struct EnumVariant {
    pub metadata: Metadata,
    pub kind: StructKind,
    pub fields: Vec<StructField>,
}

/// A union.
pub struct UnionItem {
    pub metadata: Metadata,
    pub inherent_impl: InherentImpl,
}

/// A trait declaration.
pub struct TraitItem {
    pub metadata: Metadata,
    pub inherent_impl: InherentImpl,
}

/// A macro-by-example, `macro_rules!`.
pub struct DeclarativeMacroItem {
    /// Other metadata.
    pub metadata: Metadata,
    /// If this macro is `#[macro_export]`.
    pub macro_export: bool,
    /// The token trees of the full declaration, re-parsed every time the macro is invoked.
    pub tokens: Vec<TokenTree>,
}

/// A procedural macro (invoked via bang).
pub struct ProceduralMacroItem {
    pub metadata: Metadata,
}

/// A procedural attribute macro.
pub struct AttributeMacroItem {
    pub metadata: Metadata,
}

/// A (procedural) derive macro.
pub struct DeriveMacroItem {
    pub metadata: Metadata,
}

/// The inherent implementation of a type: all methods implemented directly on that type.
#[derive(Debug, Clone, Copy, Default)]
pub struct InherentImpl {}

/// A function signature.
pub struct Signature {
    pub generic_params: GenericParams,
    /// The arguments to this function, not including `self`.
    pub args: Vec<FunctionArg>,
    /// The return type of this function.
    pub ret: TypeId,
    /// If this function is `unsafe`.
    pub is_unsafe: bool,
    /// If this function is `async`.
    pub is_async: bool,
    /// If this function is `const`.
    pub is_const: bool,
    /// What ABI does this use?
    pub abi: Abi,
    /// The receiver. Always `Receiver::None` for non-method functions.
    pub receiver: Receiver,
    /// If this function is variadic.
    pub variadic: bool,
}

/// The ABI of a function.
#[derive(Debug, Clone, PartialEq, Eq)]
pub enum Abi {
    Rust,
    C,
    Other(String),
}

/// A standalone function.
pub struct FunctionItem {
    pub metadata: Metadata,
    pub symbol_metadata: SymbolMetadata,
    /// The signature of this function.
    pub signature: Signature,
}

/// An argument of a function.
pub struct FunctionArg {
    pub metadata: Metadata,
    /// The type of the argument.
    pub type_: TypeId,
}

/// The receiver of a method.
pub enum Receiver {
    /// Doesn't take an instance as an argument; always the case for non-method functions.
    NoSelf,
    /// Takes `self`.
    ConsumeSelf,
    /// Takes `&self`.
    RefSelf { lifetime: Option<LifetimeId>, mut_: bool },
    /// Takes some other form of self (e.g. `self: Pin<&mut Self>`).
    Other(TypeId),
}

/// A type parameter item, stored at its declaration site.
pub struct TypeParamItem {
    pub metadata: Metadata,
    pub type_constraints: Vec<TypeId>,
    pub lifetime_constraints: Vec<LifetimeId>,
    /// The default value of the type parameter, if present.
    pub default: Option<TypeId>,
}

/// A lifetime parameter item, stored at its declaration site.
pub struct LifetimeParamItem {
    pub metadata: Metadata,
    pub constraints: Vec<LifetimeId>,
}

/// A const parameter item, stored at its declaration site.
pub struct ConstParamItem {
    pub metadata: Metadata,
    pub type_: TypeId,
    pub default: Option<ConstExpr>,
}

/// Generics embedded at a use site.
pub struct GenericParams {
    /// Lifetime parameters to a type.
    pub lifetimes: Vec<LifetimeId>,
    /// Type arguments to a type.
    pub types: Vec<TypeId>,
    /// Type bindings (e.g. `Output=T`).
    pub type_bindings: Vec<(Ident, TypeId)>,
    /// Const generic bindings.
    pub consts: Vec<(Ident, ConstExpr)>,
}

impl GenericParams {
    /// No generic arguments.
    pub fn empty() -> (r: GenericParams)
        ensures
            r.lifetimes.len() == 0,
            r.types.len() == 0,
            r.type_bindings.len() == 0,
            r.consts.len() == 0,
    {
        GenericParams { lifetimes: Vec::new(), types: Vec::new(), type_bindings: Vec::new(), consts: Vec::new() }
    }

    /// Whether there are no generic arguments at all.
    pub fn is_empty(&self) -> (r: bool)
        ensures
            r == (self.lifetimes.len() == 0 && self.types.len() == 0 && self.type_bindings.len() == 0
                && self.consts.len() == 0),
    {
        self.lifetimes.len() == 0 && self.types.len() == 0 && self.type_bindings.len() == 0
            && self.consts.len() == 0
    }
}

impl HasMetadata for MacroItem {
    open spec fn spec_metadata(&self) -> Metadata {
        match self {
            MacroItem::Declarative(d) => d.metadata,
            MacroItem::Procedural(d) => d.metadata,
            MacroItem::Derive(d) => d.metadata,
            MacroItem::Attribute(d) => d.metadata,
        }
    }

    fn metadata(&self) -> (r: &Metadata) {
        match self {
            MacroItem::Declarative(d) => &d.metadata,
            MacroItem::Procedural(d) => &d.metadata,
            MacroItem::Derive(d) => &d.metadata,
            MacroItem::Attribute(d) => &d.metadata,
        }
    }
}

impl HasMetadata for SymbolItem {
    open spec fn spec_metadata(&self) -> Metadata {
        match self {
            SymbolItem::Const(d) => d.metadata,
            SymbolItem::Static(d) => d.metadata,
            SymbolItem::Function(d) => d.metadata,
            SymbolItem::ConstParam(d) => d.metadata,
        }
    }

    fn metadata(&self) -> (r: &Metadata) {
        match self {
            SymbolItem::Const(d) => &d.metadata,
            SymbolItem::Static(d) => &d.metadata,
            SymbolItem::Function(d) => &d.metadata,
            SymbolItem::ConstParam(d) => &d.metadata,
        }
    }
}

impl HasMetadata for TypeItem {
    open spec fn spec_metadata(&self) -> Metadata {
        match self {
            TypeItem::Struct(d) => d.metadata,
            TypeItem::Enum(d) => d.metadata,
            TypeItem::Trait(d) => d.metadata,
            TypeItem::TypeParam(d) => d.metadata,
            TypeItem::LifetimeParam(d) => d.metadata,
        }
    }

    fn metadata(&self) -> (r: &Metadata) {
        match self {
            TypeItem::Struct(d) => &d.metadata,
            TypeItem::Enum(d) => &d.metadata,
            TypeItem::Trait(d) => &d.metadata,
            TypeItem::TypeParam(d) => &d.metadata,
            TypeItem::LifetimeParam(d) => &d.metadata,
        }
    }
}

} // verus!
