//! Modules whose macros are not expanded yet.
//!
//! Macros cannot be expanded eagerly, since expansion relies on name resolution, which can only
//! be done once most modules have been lowered. Everything macro-related in a freshly parsed
//! module is kept here, in order, since order affects the resolution of macro names.

use crate::attributes::Span;
use crate::identities::Ident;
use crate::paths::AbsoluteCrate;
use crate::tokens::TokenTree;
use vstd::prelude::*;

verus! {

/// An item that needs macro expansion.
#[derive(Debug)]
pub enum UnexpandedItem {
    /// A macro invocation in item position (it may be `macro_rules!` itself).
    MacroInvocation(Span, Vec<TokenTree>),
    /// An item that holds a macro in type position.
    TypeMacro(Span, Vec<TokenTree>),
    /// An item with an attribute macro applied.
    AttributeMacro(Span, Vec<TokenTree>),
    /// An item with a derive macro applied; the item itself is already in the database.
    DeriveMacro(Span, Vec<TokenTree>),
    /// A submodule yet to be expanded.
    UnexpandedModule { span: Span, name: Ident, macro_use: bool },
    /// An import with `#[macro_use]`.
    MacroUse(Span, AbsoluteCrate),
}

impl UnexpandedItem {
    /// Where the item is.
    pub fn span(&self) -> (r: &Span)
        ensures
            r == match self {
                UnexpandedItem::MacroInvocation(span, _) => span,
                UnexpandedItem::TypeMacro(span, _) => span,
                UnexpandedItem::AttributeMacro(span, _) => span,
                UnexpandedItem::DeriveMacro(span, _) => span,
                UnexpandedItem::UnexpandedModule { span, .. } => span,
                UnexpandedItem::MacroUse(span, _) => span,
            },
    {
        match self {
            UnexpandedItem::MacroInvocation(span, _) => span,
            UnexpandedItem::TypeMacro(span, _) => span,
            UnexpandedItem::AttributeMacro(span, _) => span,
            UnexpandedItem::DeriveMacro(span, _) => span,
            UnexpandedItem::UnexpandedModule { span, .. } => span,
            UnexpandedItem::MacroUse(span, _) => span,
        }
    }
}

/// A module with its macros unexpanded, in order.
#[derive(Debug)]
pub struct UnexpandedModule {
    pub items: Vec<UnexpandedItem>,
    /// The file the module is read from.
    pub source_file: String,
}

impl UnexpandedModule {
    /// An empty module read from `source_file`.
    pub fn new(source_file: String) -> (r: UnexpandedModule)
        ensures
            r.items@ == Seq::<UnexpandedItem>::empty(),
            r.source_file == source_file,
    {
        UnexpandedModule { items: Vec::new(), source_file }
    }
}

/// A cursor over an unexpanded module: a position among its items, where items are inserted
/// and taken out.
pub struct UnexpandedCursor {
    pub(crate) module: UnexpandedModule,
    pub(crate) idx: usize,
}

impl UnexpandedCursor {
    /// The module under the cursor.
    pub closed spec fn module(&self) -> UnexpandedModule {
        self.module
    }

    /// The module under the cursor.
    pub fn module_ref(&self) -> (r: &UnexpandedModule)
        ensures
            *r == self.module(),
    {
        &self.module
    }

    /// Give the module back.
    pub fn into_module(self) -> (r: UnexpandedModule)
        ensures
            r == self.module(),
    {
        self.module
    }

    /// The cursor's position.
    pub closed spec fn position(&self) -> nat {
        self.idx as nat
    }

    /// The position is within the module's items, or just after them.
    pub closed spec fn wf(&self) -> bool {
        self.idx <= self.module.items.len()
    }

    /// A cursor at the end of a module.
    pub fn new(module: UnexpandedModule) -> (r: UnexpandedCursor)
        ensures
            r.wf(),
            r.module() == module,
            r.position() == module.items.len(),
    {
        let idx = module.items.len();
        UnexpandedCursor { module, idx }
    }

    /// Insert an item at the cursor, which moves past it.
    pub fn insert(&mut self, item: UnexpandedItem)
        requires
            old(self).wf(),
        ensures
            final(self).wf(),
            final(self).module().items@ == old(self).module().items@.insert(old(self).position() as int, item),
            final(self).module().source_file == old(self).module().source_file,
            final(self).position() == old(self).position() + 1,
    {
        self.module.items.insert(self.idx, item);
        let n = self.module.items.len();
        proof {
            assert(self.idx < n);
        }
        self.idx = self.idx + 1;
    }

    /// Go back to the front of the module.
    pub fn reset(&mut self)
        ensures
            final(self).wf(),
            final(self).module() == old(self).module(),
            final(self).position() == 0,
    {
        self.idx = 0;
    }

    /// Take out the item at the cursor, if there is one.
    pub fn pop(&mut self) -> (r: Option<UnexpandedItem>)
        requires
            old(self).wf(),
        ensures
            final(self).wf(),
            final(self).position() == old(self).position(),
            final(self).module().source_file == old(self).module().source_file,
            old(self).position() < old(self).module().items.len() ==> r == Some(
                old(self).module().items@[old(self).position() as int],
            ) && final(self).module().items@ == old(self).module().items@.remove(old(self).position() as int),
            old(self).position() >= old(self).module().items.len() ==> r is None && final(self).module().items@
                == old(self).module().items@,
    {
        if self.module.items.len() <= self.idx {
            None
        } else {
            Some(self.module.items.remove(self.idx))
        }
    }
}

} // verus!
