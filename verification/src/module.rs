//! The modules of a bundle and what the link stage records about them.

use crate::stmt_info::StmtInfoIdx;
use crate::symbols::{ModuleIdx, SymbolRef};
use vstd::hash_map::StringHashMap;
use vstd::prelude::*;

verus! {

/// What a module's source was.
#[derive(Clone, Copy, Debug, PartialEq, Eq, Structural)]
pub enum ModuleType {
    Js,
    Json,
    Text,
    Base64,
    Dataurl,
    Other,
}

/// How a module exposes its exports, once that is known.
#[derive(Clone, Copy, Debug, PartialEq, Eq, Structural)]
pub enum ExportsKind {
    Esm,
    CommonJs,
    /// Nothing in the source tells.
    Unknown,
}

/// How a module is wrapped in a function.
#[derive(Clone, Copy, Debug, PartialEq, Eq, Structural)]
pub enum WrapKind {
    /// Not at all.
    Unwrapped,
    Cjs,
    Esm,
}

/// A range of source text.
#[derive(Clone, Copy, Debug, PartialEq, Eq, Structural)]
pub struct Span {
    pub start: u32,
    pub end: u32,
}

/// A name that a module exports itself.
#[derive(Clone, Copy, Debug, PartialEq, Eq, Structural)]
pub struct LocalExport {
    pub span: Span,
    pub referenced: SymbolRef,
    pub came_from_commonjs: bool,
}

impl LocalExport {
    /// An export that no source text stands for.
    pub open spec fn of(referenced: SymbolRef) -> LocalExport {
        LocalExport { span: Span { start: 0, end: 0 }, referenced, came_from_commonjs: false }
    }

    /// An export that no source text stands for.
    pub fn synthesized(referenced: SymbolRef) -> (r: Self)
        ensures
            r == LocalExport::of(referenced),
            r.referenced == referenced,
            !r.came_from_commonjs,
            r.span == (Span { start: 0, end: 0 }),
    {
        LocalExport { span: Span { start: 0, end: 0 }, referenced, came_from_commonjs: false }
    }
}

/// A module of the bundle.
pub struct NormalModule {
    pub idx: ModuleIdx,
    pub module_type: ModuleType,
    pub exports_kind: ExportsKind,
    /// Whether the exports are synthesized from a single expression statement.
    pub has_lazy_export: bool,
    pub namespace_object_ref: SymbolRef,
    pub default_export_ref: SymbolRef,
    pub hmr_hot_ref: Option<SymbolRef>,
    pub named_exports: StringHashMap<LocalExport>,
    /// Whether the module uses `module`.
    pub uses_module_ref: bool,
}

/// The mathematical value of a [`NormalModule`].
pub struct NormalModuleView {
    pub idx: ModuleIdx,
    pub module_type: ModuleType,
    pub exports_kind: ExportsKind,
    pub has_lazy_export: bool,
    pub namespace_object_ref: SymbolRef,
    pub default_export_ref: SymbolRef,
    pub hmr_hot_ref: Option<SymbolRef>,
    pub named_exports: Map<Seq<char>, LocalExport>,
    pub uses_module_ref: bool,
}

impl View for NormalModule {
    type V = NormalModuleView;

    open spec fn view(&self) -> NormalModuleView {
        NormalModuleView {
            idx: self.idx,
            module_type: self.module_type,
            exports_kind: self.exports_kind,
            has_lazy_export: self.has_lazy_export,
            namespace_object_ref: self.namespace_object_ref,
            default_export_ref: self.default_export_ref,
            hmr_hot_ref: self.hmr_hot_ref,
            named_exports: self.named_exports@,
            uses_module_ref: self.uses_module_ref,
        }
    }
}

impl NormalModuleView {
    /// The module with one more export.
    pub open spec fn exporting(self, name: Seq<char>, symbol: SymbolRef) -> NormalModuleView {
        NormalModuleView {
            named_exports: self.named_exports.insert(name, LocalExport::of(symbol)),
            ..self
        }
    }
}

/// Something that can be imported.
pub enum Module {
    Normal(NormalModule),
    /// A module that is not part of the bundle.
    External,
}

/// The mathematical value of a [`Module`].
pub enum ModuleView {
    Normal(NormalModuleView),
    External,
}

impl View for Module {
    type V = ModuleView;

    open spec fn view(&self) -> ModuleView {
        match self {
            Module::Normal(module) => ModuleView::Normal(module@),
            Module::External => ModuleView::External,
        }
    }
}

/// How a module is linked.
#[derive(Clone, Copy, Debug, PartialEq, Eq, Structural)]
pub struct LinkingMetadata {
    pub wrapper_stmt_info: Option<StmtInfoIdx>,
    pub wrapper_ref: Option<SymbolRef>,
    pub wrap_kind: WrapKind,
}

} // verus!
