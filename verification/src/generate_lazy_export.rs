//! The step of the link stage that lowers lazy-export modules and records what they export.

use crate::ast::{ObjectPropertyKind, Program, Statement};
use crate::bindings::{binding_entries, lemma_slot_of, BindingView, JsonBindings};
use crate::json_exports::{
    analyzed_by, analyzes, facades_valid, json_recorded, record_json_object_exports,
};
use crate::link_stage::{
    first_declaring, first_evaluated, update_module_default_export_info, LinkStage, SlotView,
};
use crate::lowering::{
    all_named, bindings_after, lemma_split_names, lower_lazy_export, lowered_to, split_into,
    LoweredLazyExport,
};
use crate::module::{
    ExportsKind, Module, ModuleType, ModuleView, NormalModule, NormalModuleView,
};
use crate::semantic_stats::{SemanticStats, MAX_BINDINGS};
use crate::stmt_info::{StmtInfoView, StmtInfos, FIRST_TOP_LEVEL_STMT_IDX};
use crate::symbols::ModuleIdx;
use append_only_vec::AppendOnlyVec;
use oxc::semantic::Scoping;
use vstd::prelude::*;

verus! {

/// A lazy-export module that is still to be lowered.
#[derive(Clone, Copy, Debug, PartialEq, Eq, Structural)]
pub struct LazyModuleInfo {
    pub idx: ModuleIdx,
    pub exports_kind: ExportsKind,
    pub is_json: bool,
}

impl NormalModuleView {
    /// The module is linked as CommonJS.
    pub open spec fn is_commonjs(self) -> bool {
        self.exports_kind is CommonJs
    }

    /// The module's source was JSON.
    pub open spec fn is_json(self) -> bool {
        self.module_type is Json
    }

    /// Whether the module has one export or many is only known once it is lowered.
    pub open spec fn defers_exports(self) -> bool {
        self.is_json() && !self.is_commonjs()
    }

    /// What lowering the module needs to know.
    pub open spec fn lazy_info(self) -> LazyModuleInfo {
        LazyModuleInfo {
            idx: self.idx,
            exports_kind: self.exports_kind,
            is_json: self.is_json(),
        }
    }

    /// The module before it is lowered: with its default export, unless that is deferred, and
    /// using `module` if it is CommonJS.
    pub open spec fn prepared(self) -> NormalModuleView {
        let exporting = if self.defers_exports() {
            self
        } else {
            self.exporting("default"@, self.default_export_ref)
        };
        NormalModuleView {
            uses_module_ref: self.uses_module_ref || self.is_commonjs(),
            ..exporting
        }
    }

    /// The statements of the module before it is lowered.
    pub open spec fn prepared_stmts(self, stmts: Seq<StmtInfoView>) -> Seq<StmtInfoView> {
        if self.is_commonjs() {
            first_evaluated(first_declaring(stmts, self.default_export_ref))
        } else if self.is_json() {
            stmts
        } else {
            first_declaring(stmts, self.default_export_ref)
        }
    }
}

/// Records what is known about the exports of a lazy-export module before it is lowered.
pub fn prepare_lazy_module(module: &mut NormalModule, stmt_infos: &mut StmtInfos) -> (r:
    LazyModuleInfo)
    requires
        !old(module)@.defers_exports() ==> old(stmt_infos)@.len() > FIRST_TOP_LEVEL_STMT_IDX,
    ensures
        r == old(module)@.lazy_info(),
        final(module)@ == old(module)@.prepared(),
        final(stmt_infos)@ == old(module)@.prepared_stmts(old(stmt_infos)@),
{
    let default_symbol_ref = module.default_export_ref;
    let is_json = module.module_type == ModuleType::Json;
    if !is_json || module.exports_kind == ExportsKind::CommonJs {
        update_module_default_export_info(module, stmt_infos, default_symbol_ref);
    }
    let info = LazyModuleInfo { idx: module.idx, exports_kind: module.exports_kind, is_json };

    // generate `module.exports = expr`
    if module.exports_kind == ExportsKind::CommonJs {
        // since the wrap arguments are generated on demand, the use of `module` is recorded here.
        stmt_infos.set_eval_flags(FIRST_TOP_LEVEL_STMT_IDX, true);
        module.uses_module_ref = true;
    }
    info
}

impl<N> SlotView<N> {
    /// The module's exports are synthesized.
    pub open spec fn is_lazy(self) -> bool {
        self.module is Normal && self.module->Normal_0.has_lazy_export
    }

    /// The module is lazy JSON, its payload is an object literal, and it is not CommonJS.
    pub open spec fn splits(self) -> bool {
        &&& self.is_lazy()
        &&& self.module->Normal_0.defers_exports()
        &&& self.ast->0.holds_object()
    }

    /// A lazy-export module as the scanner leaves it at position `idx`: a single expression
    /// statement, an entry for it besides that of the namespace object, and, if it is to be split,
    /// keys that JSON can write and facade symbols that its symbol table knows.
    pub open spec fn is_ready(self, idx: int) -> bool {
        &&& self.module->Normal_0.idx == idx
        &&& self.ast is Some
        &&& self.ast->0.starts_with_expression()
        &&& if self.splits() {
            &&& all_named(self.ast->0.members())
            &&& self.ast->0.members().len() <= MAX_BINDINGS
            &&& self.stmts.len() > 0
            &&& facades_valid(self.module->Normal_0, self.symbols)
        } else {
            self.stmts.len() > FIRST_TOP_LEVEL_STMT_IDX
        }
    }

    /// What is held about the module after [`prepare_lazy_module`].
    pub open spec fn prepared(self) -> SlotView<N> {
        if self.is_lazy() {
            SlotView {
                module: ModuleView::Normal(self.module->Normal_0.prepared()),
                stmts: self.module->Normal_0.prepared_stmts(self.stmts),
                ..self
            }
        } else {
            self
        }
    }
}

/// `append_only_vec::AppendOnlyVec`, a vector that can only grow.
#[verifier::external_type_specification]
#[verifier::external_body]
#[verifier::reject_recursive_types(T)]
pub struct ExAppendOnlyVec<T>(AppendOnlyVec<T>);

/// The modules in a list of modules to lower, in the order in which they were added.
pub uninterp spec fn pending_modules(list: AppendOnlyVec<LazyModuleInfo>) -> Seq<LazyModuleInfo>;

/// A list of modules to lower can get this long: modules are counted in 32 bits, and the blocks
/// of the list must be addressable.
pub open spec fn can_be_pending(n: nat) -> bool {
    n <= u32::MAX && n <= usize::MAX / 32
}

/// `AppendOnlyVec::new`: an empty list.
#[verifier::external_body]
fn new_pending() -> (r: AppendOnlyVec<LazyModuleInfo>)
    ensures
        pending_modules(r) == Seq::<LazyModuleInfo>::empty(),
{
    AppendOnlyVec::new()
}

/// `AppendOnlyVec::push`: adds a module at the end. It panics when the list is too long for the
/// machine.
#[verifier::external_body]
fn push_pending(list: &mut AppendOnlyVec<LazyModuleInfo>, info: LazyModuleInfo)
    requires
        can_be_pending(pending_modules(*old(list)).len() + 1),
    ensures
        pending_modules(*final(list)) == pending_modules(*old(list)).push(info),
{
    list.push(info);
}

/// `AppendOnlyVec::into_vec`: the modules in the order in which they were added.
#[verifier::external_body]
fn pending_into_vec(list: AppendOnlyVec<LazyModuleInfo>) -> (r: Vec<LazyModuleInfo>)
    ensures
        r@ == pending_modules(list),
{
    list.into_vec()
}

/// The list names lazy-export modules of the link stage, each with its own description, and none
/// of them twice.
pub open spec fn lists_lazy<N>(infos: Seq<LazyModuleInfo>, link_stage: LinkStage<N>) -> bool {
    &&& forall|k: int|
        0 <= k < infos.len() ==> {
            let info = #[trigger] infos[k];
            &&& info.idx < link_stage.modules@.len()
            &&& link_stage.slot(info.idx as int).is_lazy()
            &&& info == link_stage.slot(info.idx as int).module->Normal_0.lazy_info()
        }
    &&& forall|k: int, l: int|
        0 <= k < l < infos.len() ==> (#[trigger] infos[k]).idx != (#[trigger] infos[l]).idx
}

/// The list names module `i`.
pub open spec fn lists(infos: Seq<LazyModuleInfo>, i: int) -> bool {
    exists|k: int| 0 <= k < infos.len() && (#[trigger] infos[k]).idx == i
}

impl<N> LinkStage<N> {
    /// Every lazy-export module is as the scanner leaves it.
    pub open spec fn is_ready(self) -> bool {
        &&& self.tables_aligned()
        &&& can_be_pending(self.modules@.len())
        &&& forall|i: int|
            0 <= i < self.modules@.len() && (#[trigger] self.slot(i)).is_lazy() ==> self.slot(
                i,
            ).is_ready(i)
    }

    /// Finds the lazy-export modules and records what is known about their exports before they
    /// are lowered.
    pub fn collect_lazy_modules(&mut self) -> (r: Vec<LazyModuleInfo>)
        requires
            old(self).is_ready(),
        ensures
            final(self).tables_aligned(),
            final(self).modules@.len() == old(self).modules@.len(),
            forall|i: int|
                0 <= i < final(self).modules@.len() ==> #[trigger] final(self).slot(i) == old(
                    self,
                ).slot(i).prepared() && (!old(self).slot(i).is_lazy() ==> final(self).untouched(
                    *old(self),
                    i,
                )),
            final(self).ast_table@ == old(self).ast_table@,
            final(self).symbols@ == old(self).symbols@,
            final(self).metas@ == old(self).metas@,
            lists_lazy(r@, *old(self)),
            forall|i: int|
                0 <= i < old(self).modules@.len() ==> (#[trigger] old(self).slot(i)).is_lazy()
                    == lists(r@, i),
    {
        let mut lazy_modules = new_pending();
        let len: usize = self.modules.len();
        let mut i: usize = 0;
        while i < len
            invariant
                i <= len == self.modules@.len() == old(self).modules@.len(),
                old(self).is_ready(),
                self.tables_aligned(),
                self.ast_table@ == old(self).ast_table@,
                self.symbols@ == old(self).symbols@,
                self.metas@ == old(self).metas@,
                forall|j: int|
                    0 <= j < i ==> #[trigger] self.slot(j) == old(self).slot(j).prepared() && (
                    !old(self).slot(j).is_lazy() ==> self.untouched(*old(self), j)),
                forall|j: int|
                    #![trigger self.slot(j)]
                    #![trigger self.untouched(*old(self), j)]
                    i <= j < len ==> self.untouched(*old(self), j),
                pending_modules(lazy_modules).len() <= i,
                lists_lazy(pending_modules(lazy_modules), *old(self)),
                forall|j: int|
                    0 <= j < i ==> (#[trigger] old(self).slot(j)).is_lazy() == lists(
                        pending_modules(lazy_modules),
                        j,
                    ),
                forall|k: int|
                    0 <= k < pending_modules(lazy_modules).len() ==> (
                    #[trigger] pending_modules(lazy_modules)[k]).idx < i,
            decreases len - i,
        {
            let ghost before = *self;
            let ghost listed = pending_modules(lazy_modules);
            assert(self.slot(i as int) == old(self).slot(i as int));
            if let Module::Normal(module) = &mut self.modules[i] {
                if module.has_lazy_export {
                    let info = prepare_lazy_module(module, &mut self.stmt_infos[i]);
                    push_pending(&mut lazy_modules, info);
                }
            }
            proof {
                let now = pending_modules(lazy_modules);
                assert forall|j: int| 0 <= j < len && j != i implies #[trigger] self.slot(j)
                    == before.slot(j) && self.untouched(before, j) by {}
                assert forall|j: int| i < j < len implies #[trigger] self.untouched(
                    *old(self),
                    j,
                ) by {
                    assert(before.untouched(*old(self), j));
                    assert(self.slot(j) == before.slot(j));
                }
                assert(self.slot(i as int) == old(self).slot(i as int).prepared());
                assert forall|j: int| 0 <= j < i + 1 implies (#[trigger] old(self).slot(
                    j,
                )).is_lazy() == lists(now, j) by {
                    if j < i {
                        if lists(listed, j) {
                            let k = choose|k: int|
                                0 <= k < listed.len() && (#[trigger] listed[k]).idx == j;
                            assert(now[k] == listed[k]);
                        }
                        if lists(now, j) {
                            let k = choose|k: int|
                                0 <= k < now.len() && (#[trigger] now[k]).idx == j;
                            assert(now[k] == listed[k]);
                        }
                    } else if old(self).slot(j).is_lazy() {
                        assert(now[listed.len() as int].idx == j);
                    }
                }
            }
            i = i + 1;
        }
        pending_into_vec(lazy_modules)
    }
}

/// What the link stage holds about a JSON module that was split into the variables of `entries`,
/// for something that `analyze` may find in its new syntax tree.
pub open spec fn recorded<N, G: Fn(&Program<N>, SemanticStats) -> Scoping>(
    analyze: G,
    before: SlotView<N>,
    after: SlotView<N>,
    entries: Seq<BindingView>,
) -> bool {
    exists|scoping: Scoping|
        {
            &&& #[trigger] analyzed_by(analyze, after.ast->0.body@, entries.len(), scoping)
            &&& after == json_recorded(
                SlotView { ast: after.ast, ..before },
                before.module->Normal_0.idx,
                entries,
                scoping,
            )
        }
}

/// What `analyze` found in a JSON module that was split.
pub proof fn lemma_recorded_scoping<N, G: Fn(&Program<N>, SemanticStats) -> Scoping>(
    analyze: G,
    before: SlotView<N>,
    after: SlotView<N>,
    entries: Seq<BindingView>,
) -> (scoping: Scoping)
    requires
        recorded(analyze, before, after, entries),
    ensures
        analyzed_by(analyze, after.ast->0.body@, entries.len(), scoping),
        after == json_recorded(
            (SlotView { ast: after.ast, ..before }),
            before.module->Normal_0.idx,
            entries,
            scoping,
        ),
{
    choose|scoping: Scoping|
        {
            &&& #[trigger] analyzed_by(analyze, after.ast->0.body@, entries.len(), scoping)
            &&& after == json_recorded(
                SlotView { ast: after.ast, ..before },
                before.module->Normal_0.idx,
                entries,
                scoping,
            )
        }
}

/// What the link stage holds about a prepared lazy-export module once it was lowered into
/// `outcome`, apart from its syntax tree.
pub open spec fn bookkept<N, G: Fn(&Program<N>, SemanticStats) -> Scoping>(
    analyze: G,
    before: SlotView<N>,
    after: SlotView<N>,
    outcome: LoweredLazyExport,
) -> bool {
    let module = before.module->Normal_0;
    match outcome {
        LoweredLazyExport::CommonJs => after == (SlotView { ast: after.ast, ..before }),
        LoweredLazyExport::EsmDefault => {
            let exporting = if module.is_json() {
                module.exporting("default"@, module.default_export_ref)
            } else {
                module
            };
            after == (SlotView {
                ast: after.ast,
                module: ModuleView::Normal(
                    NormalModuleView { exports_kind: ExportsKind::Esm, ..exporting },
                ),
                stmts: if module.is_json() {
                    first_declaring(before.stmts, module.default_export_ref)
                } else {
                    before.stmts
                },
                ..before
            })
        },
        LoweredLazyExport::EsmJsonObject(bindings) => recorded(
            analyze,
            before,
            after,
            binding_entries(bindings),
        ),
    }
}

/// The slot `after` is what lowering a prepared lazy-export module makes of `before`.
pub open spec fn slot_lowered<
    N,
    F: Fn(&str, &JsonBindings) -> String,
    G: Fn(&Program<N>, SemanticStats) -> Scoping,
>(legitimize: F, analyze: G, before: SlotView<N>, after: SlotView<N>) -> bool {
    exists|outcome: LoweredLazyExport|
        {
            &&& after.ast is Some
            &&& #[trigger] lowered_to(
                legitimize,
                before.ast->0,
                before.module->Normal_0.is_json(),
                before.module->Normal_0.is_commonjs(),
                after.ast->0,
                outcome,
            )
            &&& bookkept(analyze, before, after, outcome)
        }
}

/// The outcome that a prepared module was lowered into.
pub proof fn lemma_lowered_outcome<
    N,
    F: Fn(&str, &JsonBindings) -> String,
    G: Fn(&Program<N>, SemanticStats) -> Scoping,
>(legitimize: F, analyze: G, before: SlotView<N>, after: SlotView<N>) -> (outcome:
    LoweredLazyExport)
    requires
        slot_lowered(legitimize, analyze, before, after),
    ensures
        after.ast is Some,
        lowered_to(
            legitimize,
            before.ast->0,
            before.module->Normal_0.is_json(),
            before.module->Normal_0.is_commonjs(),
            after.ast->0,
            outcome,
        ),
        bookkept(analyze, before, after, outcome),
{
    choose|outcome: LoweredLazyExport|
        {
            &&& after.ast is Some
            &&& #[trigger] lowered_to(
                legitimize,
                before.ast->0,
                before.module->Normal_0.is_json(),
                before.module->Normal_0.is_commonjs(),
                after.ast->0,
                outcome,
            )
            &&& bookkept(analyze, before, after, outcome)
        }
}

/// No more bindings than members.
proof fn lemma_binding_count<N>(
    members: Seq<ObjectPropertyKind<N>>,
    names: Seq<Seq<char>>,
    n: int,
)
    requires
        n >= 0,
    ensures
        bindings_after(members, names, n).len() <= n,
    decreases n,
{
    if n > 0 {
        lemma_binding_count(members, names, n - 1);
        lemma_slot_of(bindings_after(members, names, n - 1), names[n - 1]);
    }
}

/// A binding table has no more entries than the object literal had members.
proof fn lemma_split_count<N, F: Fn(&str, &JsonBindings) -> String>(
    legitimize: F,
    members: Seq<ObjectPropertyKind<N>>,
    body: Seq<Statement<N>>,
    entries: Seq<BindingView>,
)
    requires
        split_into(legitimize, members, body, entries),
    ensures
        entries.len() <= members.len(),
{
    let names = lemma_split_names(legitimize, members, body, entries);
    lemma_binding_count(members, names, members.len() as int);
}

impl<N> SlotView<N> {
    /// If the module is to be split, `analyze` can be called on what it is split into and finds
    /// its variables there.
    pub open spec fn can_be_analyzed<
        F: Fn(&str, &JsonBindings) -> String,
        G: Fn(&Program<N>, SemanticStats) -> Scoping,
    >(self, legitimize: F, analyze: G) -> bool {
        self.splits() ==> forall|p: Program<N>, entries: Seq<BindingView>| #[trigger]
            split_into(legitimize, self.ast->0.members(), p.body@, entries) ==> analyzes(
                analyze,
                p,
                entries,
            )
    }
}

impl<N> LinkStage<N> {
    /// Lowers one prepared lazy-export module and records what it exports.
    pub fn lower_lazy_module<
        F: Fn(&str, &JsonBindings) -> String,
        G: Fn(&Program<N>, SemanticStats) -> Scoping,
    >(&mut self, info: LazyModuleInfo, legitimize: &F, analyze: &G)
        requires
            old(self).tables_aligned(),
            info.idx < old(self).modules@.len(),
            old(self).slot(info.idx as int).is_lazy(),
            old(self).slot(info.idx as int).is_ready(info.idx as int),
            info == old(self).slot(info.idx as int).module->Normal_0.lazy_info(),
            forall|k: &str, b: &JsonBindings| call_requires(*legitimize, (k, b)),
            old(self).slot(info.idx as int).can_be_analyzed(*legitimize, *analyze),
        ensures
            final(self).same_but(*old(self), info.idx as int),
            slot_lowered(
                *legitimize,
                *analyze,
                old(self).slot(info.idx as int),
                final(self).slot(info.idx as int),
            ),
            !old(self).slot(info.idx as int).splits() ==> final(self).symbols@[info.idx as int]
                == old(self).symbols@[info.idx as int],
    {
        let module_idx: usize = info.idx;
        let is_commonjs = info.exports_kind == ExportsKind::CommonJs;
        let ghost before = self.slot(module_idx as int);
        if let Some(program) = &mut self.ast_table[module_idx] {
            // Only the bookkeeping below is this stage's own.
            let outcome = lower_lazy_export(program, info.is_json, is_commonjs, legitimize);
            let ghost rewritten = *self;
            let ghost lowered = self.slot(module_idx as int);
            assert(lowered == (SlotView { ast: lowered.ast, ..before }));
            assert(lowered_to(
                *legitimize,
                before.ast->0,
                before.module->Normal_0.is_json(),
                before.module->Normal_0.is_commonjs(),
                lowered.ast->0,
                outcome,
            ));
            match &outcome {
                LoweredLazyExport::CommonJs => {
                    assert(bookkept(*analyze, before, lowered, outcome));
                    return;
                },
                LoweredLazyExport::EsmJsonObject(bindings) => {
                    proof {
                        lemma_split_count(
                            *legitimize,
                            before.ast->0.members(),
                            lowered.ast->0.body@,
                            binding_entries(*bindings),
                        );
                    }
                    record_json_object_exports(self, module_idx, bindings, analyze);
                    assert(bookkept(*analyze, before, self.slot(module_idx as int), outcome));
                    assert forall|j: int|
                        0 <= j < self.modules@.len() && j != module_idx implies
                    #[trigger] self.untouched(*old(self), j) by {
                        assert(self.untouched(rewritten, j));
                    }
                    return;
                },
                LoweredLazyExport::EsmDefault => {},
            }
            if let Module::Normal(module) = &mut self.modules[module_idx] {
                // A JSON payload that turned out not to be an object literal deferred this until
                // now; every other lazy-export module already recorded it.
                if info.is_json {
                    let default_export_ref = module.default_export_ref;
                    update_module_default_export_info(
                        module,
                        &mut self.stmt_infos[module_idx],
                        default_export_ref,
                    );
                }
                // Ensure exports_kind is set to Esm for all modules that generate ESM export
                // syntax.
                module.exports_kind = ExportsKind::Esm;
            }
            assert(bookkept(*analyze, before, self.slot(module_idx as int), outcome));
        }
    }
}

/// What the link stage holds about a lazy-export module once it was lowered into `outcome` and
/// its exports were recorded, apart from its syntax tree.
pub open spec fn linked<N, G: Fn(&Program<N>, SemanticStats) -> Scoping>(
    analyze: G,
    before: SlotView<N>,
    after: SlotView<N>,
    outcome: LoweredLazyExport,
) -> bool {
    let module = before.module->Normal_0;
    let exporting = module.exporting("default"@, module.default_export_ref);
    let declaring = first_declaring(before.stmts, module.default_export_ref);
    match outcome {
        LoweredLazyExport::CommonJs => after == (SlotView {
            ast: after.ast,
            module: ModuleView::Normal(NormalModuleView { uses_module_ref: true, ..exporting }),
            stmts: first_evaluated(declaring),
            ..before
        }),
        LoweredLazyExport::EsmDefault => after == (SlotView {
            ast: after.ast,
            module: ModuleView::Normal(
                NormalModuleView { exports_kind: ExportsKind::Esm, ..exporting },
            ),
            stmts: declaring,
            ..before
        }),
        LoweredLazyExport::EsmJsonObject(bindings) => recorded(
            analyze,
            before,
            after,
            binding_entries(bindings),
        ),
    }
}

/// The slot `after` is what [`LinkStage::generate_lazy_export`] makes of the slot `before`:
/// a lazy-export module is lowered and its exports are recorded, any other is left alone.
pub open spec fn slot_linked<
    N,
    F: Fn(&str, &JsonBindings) -> String,
    G: Fn(&Program<N>, SemanticStats) -> Scoping,
>(legitimize: F, analyze: G, before: SlotView<N>, after: SlotView<N>) -> bool {
    if before.is_lazy() {
        exists|outcome: LoweredLazyExport|
            {
                &&& after.ast is Some
                &&& #[trigger] lowered_to(
                    legitimize,
                    before.ast->0,
                    before.module->Normal_0.is_json(),
                    before.module->Normal_0.is_commonjs(),
                    after.ast->0,
                    outcome,
                )
                &&& linked(analyze, before, after, outcome)
            }
    } else {
        after == before
    }
}

/// The outcome that a lazy-export module was lowered into.
pub proof fn lemma_linked_outcome<
    N,
    F: Fn(&str, &JsonBindings) -> String,
    G: Fn(&Program<N>, SemanticStats) -> Scoping,
>(legitimize: F, analyze: G, before: SlotView<N>, after: SlotView<N>) -> (outcome:
    LoweredLazyExport)
    requires
        before.is_lazy(),
        slot_linked(legitimize, analyze, before, after),
    ensures
        after.ast is Some,
        lowered_to(
            legitimize,
            before.ast->0,
            before.module->Normal_0.is_json(),
            before.module->Normal_0.is_commonjs(),
            after.ast->0,
            outcome,
        ),
        linked(analyze, before, after, outcome),
{
    choose|outcome: LoweredLazyExport|
        {
            &&& after.ast is Some
            &&& #[trigger] lowered_to(
                legitimize,
                before.ast->0,
                before.module->Normal_0.is_json(),
                before.module->Normal_0.is_commonjs(),
                after.ast->0,
                outcome,
            )
            &&& linked(analyze, before, after, outcome)
        }
}

/// The link stage `after` is what [`LinkStage::generate_lazy_export`] makes of `before`. Modules
/// that are not lazy are untouched, and only a module that is split gets a new symbol table.
pub open spec fn stage_linked<
    N,
    F: Fn(&str, &JsonBindings) -> String,
    G: Fn(&Program<N>, SemanticStats) -> Scoping,
>(legitimize: F, analyze: G, before: LinkStage<N>, after: LinkStage<N>) -> bool {
    &&& after.tables_aligned()
    &&& after.modules@.len() == before.modules@.len()
    &&& forall|i: int|
        0 <= i < after.modules@.len() ==> {
            &&& slot_linked(legitimize, analyze, before.slot(i), #[trigger] after.slot(i))
            &&& !before.slot(i).is_lazy() ==> after.untouched(before, i)
            &&& !before.slot(i).splits() ==> after.symbols@[i] == before.symbols@[i]
        }
}

/// Preparing a module and then lowering it links it.
proof fn lemma_prepared_then_lowered<
    N,
    F: Fn(&str, &JsonBindings) -> String,
    G: Fn(&Program<N>, SemanticStats) -> Scoping,
>(legitimize: F, analyze: G, before: SlotView<N>, after: SlotView<N>)
    requires
        before.is_lazy(),
        slot_lowered(legitimize, analyze, before.prepared(), after),
    ensures
        slot_linked(legitimize, analyze, before, after),
{
    let prepared = before.prepared();
    let module = before.module->Normal_0;
    let outcome = lemma_lowered_outcome(legitimize, analyze, prepared, after);
    assert(lowered_to(
        legitimize,
        before.ast->0,
        module.is_json(),
        module.is_commonjs(),
        after.ast->0,
        outcome,
    ));
    if outcome is EsmJsonObject {
        assert(prepared.module->Normal_0 == module);
        assert(prepared == before);
    }
    assert(linked(analyze, before, after, outcome));
}

/// The link stage `after` is `before` with the modules of a list lowered and all others left
/// alone. Only a module that is split gets a new symbol table.
pub open spec fn modules_lowered<
    N,
    F: Fn(&str, &JsonBindings) -> String,
    G: Fn(&Program<N>, SemanticStats) -> Scoping,
>(
    legitimize: F,
    analyze: G,
    infos: Seq<LazyModuleInfo>,
    before: LinkStage<N>,
    after: LinkStage<N>,
) -> bool {
    &&& after.tables_aligned()
    &&& after.modules@.len() == before.modules@.len()
    &&& forall|i: int|
        0 <= i < after.modules@.len() ==> if lists(infos, i) {
            &&& slot_lowered(legitimize, analyze, before.slot(i), #[trigger] after.slot(i))
            &&& !before.slot(i).splits() ==> after.symbols@[i] == before.symbols@[i]
        } else {
            after.untouched(before, i)
        }
}

impl<N> LinkStage<N> {
    /// Lowers the prepared lazy-export modules of a list, in any order, and records what they
    /// export.
    pub fn lower_lazy_modules<
        F: Fn(&str, &JsonBindings) -> String,
        G: Fn(&Program<N>, SemanticStats) -> Scoping,
    >(&mut self, lazy_modules: Vec<LazyModuleInfo>, legitimize: &F, analyze: &G)
        requires
            old(self).tables_aligned(),
            lists_lazy(lazy_modules@, *old(self)),
            forall|i: int|
                0 <= i < old(self).modules@.len() && lists(lazy_modules@, i) ==> (
                #[trigger] old(self).slot(i)).is_ready(i) && old(self).slot(i).can_be_analyzed(
                    *legitimize,
                    *analyze,
                ),
            forall|k: &str, b: &JsonBindings| call_requires(*legitimize, (k, b)),
        ensures
            modules_lowered(*legitimize, *analyze, lazy_modules@, *old(self), *final(self)),
    {
        let ghost infos = lazy_modules@;
        let mut k: usize = 0;
        while k < lazy_modules.len()
            invariant
                k <= infos.len(),
                infos == lazy_modules@,
                lists_lazy(infos, *old(self)),
                forall|i: int|
                    0 <= i < old(self).modules@.len() && lists(infos, i) ==> (
                    #[trigger] old(self).slot(i)).is_ready(i) && old(self).slot(
                        i,
                    ).can_be_analyzed(*legitimize, *analyze),
                forall|k: &str, b: &JsonBindings| call_requires(*legitimize, (k, b)),
                modules_lowered(*legitimize, *analyze, infos.take(k as int), *old(self), *self),
            decreases infos.len() - k,
        {
            let ghost before = *self;
            let ghost done = infos.take(k as int);
            let info = lazy_modules[k];
            proof {
                assert(infos[k as int] == info);
                assert(lists(infos, info.idx as int));
                assert forall|l: int| 0 <= l < done.len() implies (#[trigger] done[l]).idx
                    != info.idx by {
                    assert(done[l] == infos[l]);
                }
                assert(self.slot(info.idx as int) == old(self).slot(info.idx as int));
            }
            self.lower_lazy_module(info, legitimize, analyze);
            proof {
                let now = infos.take(k + 1);
                assert forall|i: int| 0 <= i < self.modules@.len() implies if lists(now, i) {
                    &&& slot_lowered(
                        *legitimize,
                        *analyze,
                        old(self).slot(i),
                        #[trigger] self.slot(i),
                    )
                    &&& !old(self).slot(i).splits() ==> self.symbols@[i] == old(self).symbols@[i]
                } else {
                    self.untouched(*old(self), i)
                } by {
                    assert(now[k as int] == info);
                    if i != info.idx {
                        assert(self.untouched(before, i));
                        assert(self.slot(i) == before.slot(i));
                        if lists(now, i) {
                            let l = choose|l: int|
                                0 <= l < now.len() && (#[trigger] now[l]).idx == i;
                            assert(done[l] == now[l]);
                        }
                        if lists(done, i) {
                            let l = choose|l: int|
                                0 <= l < done.len() && (#[trigger] done[l]).idx == i;
                            assert(done[l] == now[l]);
                        }
                    }
                }
            }
            k = k + 1;
        }
        assert(infos.take(infos.len() as int) == infos);
    }

    /// Lowers every lazy-export module and records what it exports.
    ///
    /// `legitimize` answers the local name for a key of a JSON object, given the bindings made so
    /// far; `analyze` is the semantic analysis of a rewritten module, given what to expect.
    pub fn generate_lazy_export<
        F: Fn(&str, &JsonBindings) -> String,
        G: Fn(&Program<N>, SemanticStats) -> Scoping,
    >(&mut self, legitimize: &F, analyze: &G)
        requires
            old(self).is_ready(),
            forall|k: &str, b: &JsonBindings| call_requires(*legitimize, (k, b)),
            forall|i: int|
                0 <= i < old(self).modules@.len() ==> (#[trigger] old(self).slot(
                    i,
                )).can_be_analyzed(*legitimize, *analyze),
        ensures
            stage_linked(*legitimize, *analyze, *old(self), *final(self)),
    {
        let lazy_modules: Vec<LazyModuleInfo> = self.collect_lazy_modules();
        let ghost prepared = *self;
        let ghost infos = lazy_modules@;
        proof {
            assert forall|k: int| 0 <= k < infos.len() implies {
                let info = #[trigger] infos[k];
                &&& info.idx < prepared.modules@.len()
                &&& prepared.slot(info.idx as int).is_lazy()
                &&& info == prepared.slot(info.idx as int).module->Normal_0.lazy_info()
            } by {
                let i = infos[k].idx as int;
                assert(prepared.slot(i) == old(self).slot(i).prepared());
            }
            assert forall|i: int|
                0 <= i < prepared.modules@.len() && lists(infos, i) implies (
            #[trigger] prepared.slot(i)).is_ready(i) && prepared.slot(i).can_be_analyzed(
                *legitimize,
                *analyze,
            ) by {
                assert(prepared.slot(i) == old(self).slot(i).prepared());
                assert(old(self).slot(i).is_lazy());
            }
        }
        self.lower_lazy_modules(lazy_modules, legitimize, analyze);
        proof {
            assert forall|i: int| 0 <= i < self.modules@.len() implies {
                &&& slot_linked(
                    *legitimize,
                    *analyze,
                    old(self).slot(i),
                    #[trigger] self.slot(i),
                )
                &&& !old(self).slot(i).is_lazy() ==> self.untouched(*old(self), i)
                &&& !old(self).slot(i).splits() ==> self.symbols@[i] == old(self).symbols@[i]
            } by {
                assert(prepared.slot(i) == old(self).slot(i).prepared());
                if old(self).slot(i).is_lazy() {
                    lemma_prepared_then_lowered(
                        *legitimize,
                        *analyze,
                        old(self).slot(i),
                        self.slot(i),
                    );
                }
            }
        }
    }
}

} // verus!
