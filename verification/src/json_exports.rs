//! Bookkeeping for JSON modules that were split into one variable per key.

use crate::ast::{Program, Statement};
use crate::bindings::{binding_at, binding_entries, bindings_len, BindingView, JsonBindings};
use crate::link_stage::{LinkStage, SlotView};
use crate::module::{
    ExportsKind, LinkingMetadata, LocalExport, Module, ModuleView, NormalModule, NormalModuleView,
    WrapKind,
};
use crate::semantic_stats::{SemanticStats, MAX_BINDINGS};
use crate::stmt_info::{
    all_referenced, declaring, DeclaredSymbols, StmtInfo, StmtInfoView, StmtInfos,
    SymbolOrMemberExprRef, TaggedSymbolRef, FIRST_TOP_LEVEL_STMT_IDX,
};
use crate::symbols::{
    fits_identifier, scoping_root_binding, scoping_scopes, scoping_scopes_len, scoping_symbols,
    scoping_symbols_len, ModuleIdx, SymbolRef, SymbolRefDbForModule, SymbolsView,
};
use oxc::semantic::Scoping;
use vstd::prelude::*;

verus! {

/// The symbol that a variable of module `owner` is bound to, given the names that are bound at
/// the top level of the module.
pub open spec fn local_symbol(
    root: Map<Seq<char>, u32>,
    owner: ModuleIdx,
    local: Seq<char>,
) -> SymbolRef {
    SymbolRef { owner, symbol: root[local] }
}

/// The exports after the first `n` bindings were exported.
pub open spec fn exports_after(
    exports: Map<Seq<char>, LocalExport>,
    entries: Seq<BindingView>,
    root: Map<Seq<char>, u32>,
    owner: ModuleIdx,
    n: int,
) -> Map<Seq<char>, LocalExport>
    decreases n,
{
    if n <= 0 {
        exports
    } else {
        exports_after(exports, entries, root, owner, n - 1).insert(
            entries[n - 1].1.0,
            LocalExport::of(local_symbol(root, owner, entries[n - 1].0)),
        )
    }
}

/// Every variable of a binding table is bound in the first of the scopes.
pub open spec fn locals_bound(
    scopes: Seq<Map<Seq<char>, u32>>,
    entries: Seq<BindingView>,
) -> bool {
    &&& scopes.len() > 0
    &&& forall|i: int|
        0 <= i < entries.len() ==> fits_identifier((#[trigger] entries[i]).0)
            && scopes[0].contains_key(entries[i].0)
}

/// Semantic analysis found every variable of a binding table at the top level of the module, and
/// left room for the facade symbols.
pub open spec fn binds_all(scoping: Scoping, entries: Seq<BindingView>) -> bool {
    &&& locals_bound(scoping_scopes(scoping), entries)
    &&& scoping_symbols(scoping).len() + 3 <= u32::MAX
}

/// What a JSON module refers to as a whole: all that its removed statements referred to, then
/// the variables it was split into.
pub open spec fn json_symbols(
    stmts: Seq<StmtInfoView>,
    entries: Seq<BindingView>,
    root: Map<Seq<char>, u32>,
    owner: ModuleIdx,
) -> Seq<SymbolOrMemberExprRef> {
    all_referenced(stmts.skip(FIRST_TOP_LEVEL_STMT_IDX as int)) + Seq::new(
        entries.len(),
        |i: int| SymbolOrMemberExprRef::Symbol(local_symbol(root, owner, entries[i].0)),
    )
}

/// The statements of a JSON module that was split: the namespace object, one declaration per
/// variable, and the default export.
pub open spec fn json_stmts(
    symbols: Seq<SymbolOrMemberExprRef>,
    entries: Seq<BindingView>,
    root: Map<Seq<char>, u32>,
    namespace_object_ref: SymbolRef,
    default_export_ref: SymbolRef,
) -> Seq<StmtInfoView> {
    seq![declaring(namespace_object_ref, symbols)] + Seq::new(
        entries.len(),
        |i: int|
            declaring(
                local_symbol(root, namespace_object_ref.owner, entries[i].0),
                Seq::empty(),
            ),
    ) + seq![declaring(default_export_ref, symbols)]
}

/// The facade symbols of a module: names of its own that its source does not declare.
pub open spec fn facades_valid(module: NormalModuleView, symbols: SymbolsView) -> bool {
    &&& symbols.has(module.namespace_object_ref.symbol)
    &&& symbols.has(module.default_export_ref.symbol)
    &&& module.hmr_hot_ref is Some ==> symbols.has(module.hmr_hot_ref->0.symbol)
}

/// What the link stage holds about a JSON module after it was split into the variables of
/// `entries` and semantic analysis of the result gave `scoping`. The module's syntax tree is not
/// touched.
pub open spec fn json_recorded<N>(
    before: SlotView<N>,
    idx: ModuleIdx,
    entries: Seq<BindingView>,
    scoping: Scoping,
) -> SlotView<N> {
    let module = before.module->Normal_0;
    let found = SymbolsView::analyzed(scoping, idx);
    let with_namespace = found.with_facade(
        before.symbols.name_of(module.namespace_object_ref.symbol),
    );
    let with_default = with_namespace.with_facade(
        before.symbols.name_of(module.default_export_ref.symbol),
    );
    let root = scoping_scopes(scoping)[0];
    let symbols = json_symbols(before.stmts, entries, root, idx);
    SlotView {
        module: ModuleView::Normal(
            NormalModuleView {
                exports_kind: ExportsKind::Esm,
                namespace_object_ref: found.next_ref(),
                default_export_ref: with_namespace.next_ref(),
                hmr_hot_ref: match module.hmr_hot_ref {
                    Some(hot) => Some(with_default.next_ref()),
                    None => None,
                },
                named_exports: exports_after(
                    module.named_exports,
                    entries,
                    root,
                    idx,
                    entries.len() as int,
                ).insert("default"@, LocalExport::of(with_namespace.next_ref())),
                ..module
            },
        ),
        stmts: json_stmts(
            symbols,
            entries,
            root,
            found.next_ref(),
            with_namespace.next_ref(),
        ),
        ast: before.ast,
        symbols: match module.hmr_hot_ref {
            Some(hot) => with_default.with_facade(before.symbols.name_of(hot.symbol)),
            None => with_default,
        },
        meta: LinkingMetadata {
            wrapper_stmt_info: None,
            wrapper_ref: None,
            wrap_kind: WrapKind::Unwrapped,
        },
    }
}

/// Re-creates the facade symbols of a module in a new symbol table, by their names in the old
/// one.
fn recreate_facades(
    module: &mut NormalModule,
    original: &SymbolRefDbForModule,
    symbols: &mut SymbolRefDbForModule,
)
    requires
        facades_valid(old(module)@, original@),
        old(symbols)@.symbols.len() + 3 <= u32::MAX,
        old(symbols)@.root_scope < u32::MAX,
    ensures
        ({
            let with_namespace = old(symbols)@.with_facade(
                original@.name_of(old(module)@.namespace_object_ref.symbol),
            );
            let with_default = with_namespace.with_facade(
                original@.name_of(old(module)@.default_export_ref.symbol),
            );
            &&& final(symbols)@ == match old(module)@.hmr_hot_ref {
                Some(hot) => with_default.with_facade(original@.name_of(hot.symbol)),
                None => with_default,
            }
            &&& final(module)@ == (NormalModuleView {
                namespace_object_ref: old(symbols)@.next_ref(),
                default_export_ref: with_namespace.next_ref(),
                hmr_hot_ref: match old(module)@.hmr_hot_ref {
                    Some(hot) => Some(with_default.next_ref()),
                    None => None,
                },
                ..old(module)@
            })
        }),
{
    let name = original.symbol_name(module.namespace_object_ref.symbol);
    module.namespace_object_ref = symbols.create_facade_root_symbol_ref(name);
    let name = original.symbol_name(module.default_export_ref.symbol);
    module.default_export_ref = symbols.create_facade_root_symbol_ref(name);
    if let Some(hot_ref) = module.hmr_hot_ref {
        let name = original.symbol_name(hot_ref.symbol);
        module.hmr_hot_ref = Some(symbols.create_facade_root_symbol_ref(name));
    }
}

/// Declares one statement and one export per binding, and adds the symbols of the bindings to
/// `all_symbols`.
fn export_bindings(
    module: &mut NormalModule,
    stmt_infos: &mut StmtInfos,
    symbols: &SymbolRefDbForModule,
    bindings: &JsonBindings,
    all_symbols: &mut Vec<SymbolOrMemberExprRef>,
)
    requires
        locals_bound(symbols@.scopes, binding_entries(*bindings)),
    ensures
        final(module)@ == (NormalModuleView {
            named_exports: exports_after(
                old(module)@.named_exports,
                binding_entries(*bindings),
                symbols@.scopes[0],
                symbols.owner_idx,
                binding_entries(*bindings).len() as int,
            ),
            ..old(module)@
        }),
        final(stmt_infos)@ == old(stmt_infos)@ + Seq::new(
            binding_entries(*bindings).len(),
            |i: int|
                declaring(
                    local_symbol(
                        symbols@.scopes[0],
                        symbols.owner_idx,
                        binding_entries(*bindings)[i].0,
                    ),
                    Seq::empty(),
                ),
        ),
        final(all_symbols)@ == old(all_symbols)@ + Seq::new(
            binding_entries(*bindings).len(),
            |i: int|
                SymbolOrMemberExprRef::Symbol(
                    local_symbol(
                        symbols@.scopes[0],
                        symbols.owner_idx,
                        binding_entries(*bindings)[i].0,
                    ),
                ),
        ),
{
    let ghost entries = binding_entries(*bindings);
    let ghost symbol_at = |i: int|
        local_symbol(symbols@.scopes[0], symbols.owner_idx, entries[i].0);
    let ghost stmt_at = |i: int| declaring(symbol_at(i), Seq::empty());
    let ghost ref_at = |i: int| SymbolOrMemberExprRef::Symbol(symbol_at(i));
    let len: usize = bindings_len(bindings);
    let mut i: usize = 0;
    while i < len
        invariant
            i <= len == entries.len(),
            entries == binding_entries(*bindings),
            locals_bound(symbols@.scopes, entries),
            symbol_at == (|i: int|
                local_symbol(symbols@.scopes[0], symbols.owner_idx, entries[i].0)),
            stmt_at == (|i: int| declaring(symbol_at(i), Seq::empty())),
            ref_at == (|i: int| SymbolOrMemberExprRef::Symbol(symbol_at(i))),
            module@ == (NormalModuleView {
                named_exports: exports_after(
                    old(module)@.named_exports,
                    entries,
                    symbols@.scopes[0],
                    symbols.owner_idx,
                    i as int,
                ),
                ..old(module)@
            }),
            stmt_infos@ == old(stmt_infos)@ + Seq::new(i as nat, stmt_at),
            all_symbols@ == old(all_symbols)@ + Seq::new(i as nat, ref_at),
        decreases len - i,
    {
        if let Some((local, value)) = binding_at(bindings, i) {
            assert(entries[i as int].0 == local@);
            if let Some(symbol) = symbols.get_root_binding(local.as_str()) {
                let symbol_ref = SymbolRef { owner: symbols.owner_idx, symbol };
                all_symbols.push(SymbolOrMemberExprRef::Symbol(symbol_ref));
                let stmt_info = StmtInfo::default().with_declared_symbols(
                    DeclaredSymbols::one(TaggedSymbolRef::normal(symbol_ref)),
                );
                stmt_infos.add_stmt_info(stmt_info);
                module.named_exports.insert(value.0.clone(), LocalExport::synthesized(symbol_ref));
                proof {
                    assert(symbol_ref == symbol_at(i as int));
                    assert(Seq::new((i + 1) as nat, stmt_at) == Seq::new(i as nat, stmt_at).push(
                        stmt_at(i as int),
                    ));
                    assert(Seq::new((i + 1) as nat, ref_at) == Seq::new(i as nat, ref_at).push(
                        ref_at(i as int),
                    ));
                }
            }
        }
        i = i + 1;
    }
    assert(Seq::new(entries.len(), stmt_at) == Seq::new(
        entries.len(),
        |i: int|
            declaring(
                local_symbol(symbols@.scopes[0], symbols.owner_idx, entries[i].0),
                Seq::empty(),
            ),
    ));
    assert(Seq::new(entries.len(), ref_at) == Seq::new(
        entries.len(),
        |i: int|
            SymbolOrMemberExprRef::Symbol(
                local_symbol(symbols@.scopes[0], symbols.owner_idx, entries[i].0),
            ),
    ));
}

/// Bookkeeping for a JSON module that was split into one binding per key, once semantic analysis
/// of the rewritten module gave `scoping`: a new symbol table, a named export per binding, and the
/// statement infos that let tree shaking drop the keys nobody imported.
pub fn record_with_scoping<N>(
    link_stage: &mut LinkStage<N>,
    module_idx: ModuleIdx,
    bindings: &JsonBindings,
    scoping: Scoping,
)
    requires
        old(link_stage).tables_aligned(),
        module_idx < old(link_stage).modules@.len(),
        old(link_stage).modules@[module_idx as int] is Normal,
        old(link_stage).stmt_infos@[module_idx as int]@.len() > 0,
        facades_valid(
            old(link_stage).modules@[module_idx as int]->Normal_0@,
            old(link_stage).symbols@[module_idx as int]@,
        ),
        binds_all(scoping, binding_entries(*bindings)),
    ensures
        final(link_stage).same_but(*old(link_stage), module_idx as int),
        final(link_stage).slot(module_idx as int) == json_recorded(
            old(link_stage).slot(module_idx as int),
            module_idx,
            binding_entries(*bindings),
            scoping,
        ),
{
    let ghost before = link_stage.slot(module_idx as int);
    // update semantic data of module
    let mut symbols = SymbolRefDbForModule::new(scoping, module_idx);
    if let Module::Normal(module) = &mut link_stage.modules[module_idx] {
        // Re-create facade symbols in the new scoping. The rewritten module has fresh symbol ids,
        // so the old facade ids are invalid.
        recreate_facades(module, &link_stage.symbols[module_idx], &mut symbols);

        // update module stmts info
        // clear stmt info: the object literal became several declarations, so the old ones are
        // invalid. Keep the first, which is the namespace object.
        let stmt_infos = &mut link_stage.stmt_infos[module_idx];
        let mut all_symbols: Vec<SymbolOrMemberExprRef> = stmt_infos.drain_referenced(
            FIRST_TOP_LEVEL_STMT_IDX,
        );
        export_bindings(module, stmt_infos, &symbols, bindings, &mut all_symbols);

        // declare default export statement
        let stmt_info = StmtInfo::default().with_declared_symbols(
            DeclaredSymbols::one(TaggedSymbolRef::normal(module.default_export_ref)),
        ).with_referenced_symbols(all_symbols.clone());
        stmt_infos.add_stmt_info(stmt_info);
        module.named_exports.insert(
            "default".to_owned(),
            LocalExport::synthesized(module.default_export_ref),
        );

        // declare namespace object statement
        module.exports_kind = ExportsKind::Esm;
        stmt_infos.replace_namespace_stmt_info(
            StmtInfo::default().with_declared_symbols(
                DeclaredSymbols::one(TaggedSymbolRef::normal(module.namespace_object_ref)),
            ).with_referenced_symbols(all_symbols),
        );
    }
    // an ES JSON module does not need to be wrapped anyway.
    link_stage.metas[module_idx].wrapper_stmt_info = None;
    link_stage.metas[module_idx].wrapper_ref = None;
    link_stage.metas[module_idx].wrap_kind = WrapKind::Unwrapped;
    link_stage.symbols[module_idx] = symbols;
    proof {
        let after = link_stage.slot(module_idx as int);
        let expected = json_recorded(before, module_idx, binding_entries(*bindings), scoping);
        assert(after.module == expected.module);
        assert(after.stmts =~= expected.stmts);
        assert(after.symbols == expected.symbols);
        assert(after.meta == expected.meta);
    }
}

/// Whether semantic analysis found every variable of a binding table at the top level of the
/// module, and left room for the facade symbols.
pub fn finds_all_locals(scoping: &Scoping, bindings: &JsonBindings) -> (r: bool)
    ensures
        r == binds_all(*scoping, binding_entries(*bindings)),
{
    let symbols: usize = scoping_symbols_len(scoping);
    if symbols > 0xffff_fffc || scoping_scopes_len(scoping) == 0 {
        return false;
    }
    let len: usize = bindings_len(bindings);
    let mut i: usize = 0;
    while i < len
        invariant
            i <= len == binding_entries(*bindings).len(),
            scoping_symbols(*scoping).len() + 3 <= u32::MAX,
            scoping_scopes(*scoping).len() > 0,
            forall|j: int|
                0 <= j < i ==> fits_identifier((#[trigger] binding_entries(*bindings)[j]).0)
                    && scoping_scopes(*scoping)[0].contains_key(binding_entries(*bindings)[j].0),
        decreases len - i,
    {
        if let Some((local, _)) = binding_at(bindings, i) {
            let ghost entry = binding_entries(*bindings)[i as int];
            assert(entry.0 == local@);
            if local.as_str().as_bytes().len() > 0xffff_ffff {
                return false;
            }
            if scoping_root_binding(scoping, local.as_str()).is_none() {
                return false;
            }
        }
        i = i + 1;
    }
    true
}

/// Whether the symbol table knows the facade symbols of a module.
pub fn knows_facades(module: &NormalModule, symbols: &SymbolRefDbForModule) -> (r: bool)
    ensures
        r == facades_valid(module@, symbols@),
{
    let len: usize = symbols.symbols_len();
    let hot_known = match module.hmr_hot_ref {
        Some(hot) => is_symbol_of(hot, len),
        None => true,
    };
    is_symbol_of(module.namespace_object_ref, len) && is_symbol_of(module.default_export_ref, len)
        && hot_known
}

/// Whether a reference is to one of the first `len` symbols.
fn is_symbol_of(symbol_ref: SymbolRef, len: usize) -> (r: bool)
    ensures
        r == (symbol_ref.symbol < len && symbol_ref.symbol < u32::MAX),
{
    (symbol_ref.symbol as usize) < len && symbol_ref.symbol < 0xffff_ffff
}

/// Does what [`record_with_scoping`] does where the symbols that it needs are there, and nothing
/// otherwise. Returns whether they were.
pub fn try_record_with_scoping<N>(
    link_stage: &mut LinkStage<N>,
    module_idx: ModuleIdx,
    bindings: &JsonBindings,
    scoping: Scoping,
) -> (r: bool)
    requires
        old(link_stage).tables_aligned(),
        module_idx < old(link_stage).modules@.len(),
        old(link_stage).modules@[module_idx as int] is Normal,
        old(link_stage).stmt_infos@[module_idx as int].infos@.len() > 0,
    ensures
        r == (binds_all(scoping, binding_entries(*bindings)) && facades_valid(
            old(link_stage).modules@[module_idx as int]->Normal_0@,
            old(link_stage).symbols@[module_idx as int]@,
        )),
        !r ==> *final(link_stage) == *old(link_stage),
        r ==> final(link_stage).same_but(*old(link_stage), module_idx as int),
        r ==> final(link_stage).slot(module_idx as int) == json_recorded(
            old(link_stage).slot(module_idx as int),
            module_idx,
            binding_entries(*bindings),
            scoping,
        ),
{
    let known = match &link_stage.modules[module_idx] {
        Module::Normal(module) => knows_facades(module, &link_stage.symbols[module_idx]),
        Module::External => false,
    };
    if known && finds_all_locals(&scoping, bindings) {
        record_with_scoping(link_stage, module_idx, bindings, scoping);
        return true;
    }
    false
}

/// What is bound at the top level of the module are symbols that the symbol table has.
pub open spec fn binds_known(scoping: Scoping) -> bool {
    forall|name: Seq<char>| #[trigger]
        scoping_scopes(scoping)[0].contains_key(name) ==> scoping_scopes(scoping)[0][name]
            < scoping_symbols(scoping).len()
}

/// `scoping` is what `analyze` may find in a module with the given statements, told to expect
/// `bindings` variables.
pub open spec fn analyzed_by<N, G: Fn(&Program<N>, SemanticStats) -> Scoping>(
    analyze: G,
    body: Seq<Statement<N>>,
    bindings: nat,
    scoping: Scoping,
) -> bool {
    exists|p: &Program<N>, stats: SemanticStats| #[trigger]
        call_ensures(analyze, (p, stats), scoping) && p.body@ == body && stats.fit(bindings)
}

/// `analyze` can be called on a program that was split into the variables of `entries`, told to
/// expect as many, and finds each of them at the top level.
pub open spec fn analyzes<N, G: Fn(&Program<N>, SemanticStats) -> Scoping>(
    analyze: G,
    program: Program<N>,
    entries: Seq<BindingView>,
) -> bool {
    &&& forall|stats: SemanticStats|
        stats.fit(entries.len()) ==> #[trigger] call_requires(analyze, (&program, stats))
    &&& forall|scoping: Scoping| #[trigger]
        analyzed_by(analyze, program.body@, entries.len(), scoping) ==> binds_all(scoping, entries)
}

/// Bookkeeping for a JSON module that
/// [`lower_lazy_export`](crate::lowering::lower_lazy_export) split into one binding per key:
/// semantic data for the rewritten program, a named export per binding, and the statement infos
/// that let tree shaking drop the keys nobody imported.
pub fn record_json_object_exports<N, G: Fn(&Program<N>, SemanticStats) -> Scoping>(
    link_stage: &mut LinkStage<N>,
    module_idx: ModuleIdx,
    declaration_binding_names: &JsonBindings,
    analyze: &G,
)
    requires
        old(link_stage).tables_aligned(),
        module_idx < old(link_stage).modules@.len(),
        old(link_stage).modules@[module_idx as int] is Normal,
        old(link_stage).ast_table@[module_idx as int] is Some,
        old(link_stage).stmt_infos@[module_idx as int]@.len() > 0,
        facades_valid(
            old(link_stage).modules@[module_idx as int]->Normal_0@,
            old(link_stage).symbols@[module_idx as int]@,
        ),
        binding_entries(*declaration_binding_names).len() <= MAX_BINDINGS,
        analyzes(
            *analyze,
            old(link_stage).ast_table@[module_idx as int]->0,
            binding_entries(*declaration_binding_names),
        ),
    ensures
        final(link_stage).same_but(*old(link_stage), module_idx as int),
        exists|scoping: Scoping|
            {
                &&& #[trigger] analyzed_by(
                    *analyze,
                    old(link_stage).ast_table@[module_idx as int]->0.body@,
                    binding_entries(*declaration_binding_names).len(),
                    scoping,
                )
                &&& final(link_stage).slot(module_idx as int) == json_recorded(
                    old(link_stage).slot(module_idx as int),
                    module_idx,
                    binding_entries(*declaration_binding_names),
                    scoping,
                )
            },
{
    // recreate semantic data
    let stats = SemanticStats::for_bindings(bindings_len(declaration_binding_names));
    if let Some(program) = &link_stage.ast_table[module_idx] {
        let scoping = analyze(program, stats);
        assert(analyzed_by(
            *analyze,
            program.body@,
            binding_entries(*declaration_binding_names).len(),
            scoping,
        ));
        record_with_scoping(link_stage, module_idx, declaration_binding_names, scoping);
    }
}

} // verus!
