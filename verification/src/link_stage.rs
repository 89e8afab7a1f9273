//! The tables of the link stage.

use crate::ast::Program;
use crate::module::{LinkingMetadata, LocalExport, Module, ModuleView, NormalModule};
use crate::stmt_info::{StmtInfoView, StmtInfos, TaggedSymbolRef, FIRST_TOP_LEVEL_STMT_IDX};
use crate::symbols::{SymbolRef, SymbolRefDbForModule, SymbolsView};
use vstd::prelude::*;

verus! {

/// The tables of the link stage that lowering lazy exports touches, each indexed by module.
pub struct LinkStage<N> {
    pub modules: Vec<Module>,
    pub stmt_infos: Vec<StmtInfos>,
    pub ast_table: Vec<Option<Program<N>>>,
    pub symbols: Vec<SymbolRefDbForModule>,
    pub metas: Vec<LinkingMetadata>,
}

/// All that the link stage holds about one module.
pub struct SlotView<N> {
    pub module: ModuleView,
    pub stmts: Seq<StmtInfoView>,
    pub ast: Option<Program<N>>,
    pub symbols: SymbolsView,
    pub meta: LinkingMetadata,
}

impl<N> LinkStage<N> {
    /// Every table has one entry per module.
    pub open spec fn tables_aligned(self) -> bool {
        &&& self.stmt_infos@.len() == self.modules@.len()
        &&& self.ast_table@.len() == self.modules@.len()
        &&& self.symbols@.len() == self.modules@.len()
        &&& self.metas@.len() == self.modules@.len()
    }

    /// What is held about module `i`.
    pub open spec fn slot(self, i: int) -> SlotView<N> {
        SlotView {
            module: self.modules@[i]@,
            stmts: self.stmt_infos@[i]@,
            ast: self.ast_table@[i],
            symbols: self.symbols@[i]@,
            meta: self.metas@[i],
        }
    }

    /// What is held about module `j` is the very same as in `before`, with all that its symbol
    /// table holds.
    pub open spec fn untouched(self, before: LinkStage<N>, j: int) -> bool {
        &&& self.modules@[j] == before.modules@[j]
        &&& self.stmt_infos@[j] == before.stmt_infos@[j]
        &&& self.ast_table@[j] == before.ast_table@[j]
        &&& self.symbols@[j] == before.symbols@[j]
        &&& self.metas@[j] == before.metas@[j]
    }

    /// The tables are those of `before` but for what is held about module `i`.
    pub open spec fn same_but(self, before: LinkStage<N>, i: int) -> bool {
        &&& self.tables_aligned()
        &&& self.modules@.len() == before.modules@.len()
        &&& forall|j: int|
            #![trigger self.slot(j)]
            #![trigger self.untouched(before, j)]
            0 <= j < self.modules@.len() && j != i ==> self.untouched(before, j)
    }
}

/// The statements with one more symbol declared by the first one after the namespace statement.
pub open spec fn first_declaring(
    stmts: Seq<StmtInfoView>,
    symbol: SymbolRef,
) -> Seq<StmtInfoView> {
    stmts.update(
        FIRST_TOP_LEVEL_STMT_IDX as int,
        StmtInfoView {
            declared: stmts[FIRST_TOP_LEVEL_STMT_IDX as int].declared.push(
                TaggedSymbolRef::Normal(symbol),
            ),
            ..stmts[FIRST_TOP_LEVEL_STMT_IDX as int]
        },
    )
}

/// The statements with the first one after the namespace statement kept for its effect.
pub open spec fn first_evaluated(stmts: Seq<StmtInfoView>) -> Seq<StmtInfoView> {
    stmts.update(
        FIRST_TOP_LEVEL_STMT_IDX as int,
        StmtInfoView { eval_flags: true, ..stmts[FIRST_TOP_LEVEL_STMT_IDX as int] },
    )
}

/// Records the default export of a module whose only statement produces it.
pub fn update_module_default_export_info(
    module: &mut NormalModule,
    stmt_infos: &mut StmtInfos,
    default_symbol_ref: SymbolRef,
)
    requires
        old(stmt_infos)@.len() > FIRST_TOP_LEVEL_STMT_IDX,
    ensures
        final(module)@ == old(module)@.exporting("default"@, default_symbol_ref),
        final(stmt_infos)@ == first_declaring(old(stmt_infos)@, default_symbol_ref),
        final(module).named_exports@.contains_key("default"@),
        final(module).named_exports@["default"@].referenced == default_symbol_ref,
        final(stmt_infos)@[FIRST_TOP_LEVEL_STMT_IDX as int].declared
            == old(stmt_infos)@[FIRST_TOP_LEVEL_STMT_IDX as int].declared.push(
            TaggedSymbolRef::Normal(default_symbol_ref),
        ),
{
    module.named_exports.insert(
        "default".to_owned(),
        LocalExport::synthesized(default_symbol_ref),
    );
    stmt_infos.declare_symbol_for_stmt(
        FIRST_TOP_LEVEL_STMT_IDX,
        TaggedSymbolRef::normal(default_symbol_ref),
    );
}

} // verus!
