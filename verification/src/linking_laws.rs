//! What holds of every module after the link stage lowered its lazy exports.

use crate::ast::{ExportSpecifier, Expression, Program, Statement};
use crate::bindings::{binding_entries, BindingView, JsonBindings};
use crate::generate_lazy_export::{
    lemma_linked_outcome, lemma_lowered_outcome, lemma_recorded_scoping, linked, lists,
    lists_lazy, modules_lowered, slot_linked, slot_lowered, stage_linked, LazyModuleInfo,
};
use crate::json_exports::{
    analyzed_by, analyzes, binds_all, binds_known, exports_after, facades_valid, json_recorded,
    json_symbols, local_symbol,
};
use crate::link_stage::{LinkStage, SlotView};
use crate::lowering::{
    bindings_of, declares, lowered_to, split_body, split_into, values_of, LoweredLazyExport,
};
use crate::lowering_laws::{
    avoids_clashes, exported_names, is_function, key_names, law_bindings_cover_the_keys,
    law_lowering_agrees, law_object_is_split_by_its_members, law_payload_is_wrapped_whole,
    law_split_module_in_order,
};
use crate::module::{
    ExportsKind, LinkingMetadata, LocalExport, Module, NormalModuleView, Span, WrapKind,
};
use crate::semantic_stats::{
    law_expectations_of_an_analysis, lemma_fit_is_unique, SemanticStats,
};
use crate::stmt_info::{
    all_referenced, declared_symbols, StmtInfo, SymbolOrMemberExprRef, TaggedSymbolRef,
};
use crate::symbols::{scoping_scopes, scoping_symbols, ModuleIdx, SymbolRef, SymbolsView};
use oxc::semantic::Scoping;
use vstd::arithmetic::power2::pow2;
use vstd::prelude::*;
use vstd::utf8::encode_utf8;

verus! {

/// Every lazy-export module exports `default`, and it is the module's default export symbol, even
/// where a JSON object has a key `default`.
pub proof fn law_default_is_exported<
    N,
    F: Fn(&str, &JsonBindings) -> String,
    G: Fn(&Program<N>, SemanticStats) -> Scoping,
>(legitimize: F, analyze: G, before: SlotView<N>, after: SlotView<N>)
    requires
        before.is_lazy(),
        slot_linked(legitimize, analyze, before, after),
    ensures
        after.module is Normal,
        after.module->Normal_0.named_exports.contains_key("default"@),
        after.module->Normal_0.named_exports["default"@].referenced
            == after.module->Normal_0.default_export_ref,
        !after.module->Normal_0.named_exports["default"@].came_from_commonjs,
        after.module->Normal_0.named_exports["default"@].span == (Span { start: 0, end: 0 }),
{
}

/// A lazy-export module that is not CommonJS becomes an ES module, and a CommonJS one stays what
/// it is. Neither changes its place, its type or that its exports are lazy.
pub proof fn law_exports_kind_is_settled<
    N,
    F: Fn(&str, &JsonBindings) -> String,
    G: Fn(&Program<N>, SemanticStats) -> Scoping,
>(legitimize: F, analyze: G, before: SlotView<N>, after: SlotView<N>)
    requires
        before.is_lazy(),
        slot_linked(legitimize, analyze, before, after),
    ensures
        after.module is Normal,
        after.module->Normal_0.exports_kind == (if before.module->Normal_0.is_commonjs() {
            ExportsKind::CommonJs
        } else {
            ExportsKind::Esm
        }),
        after.module->Normal_0.idx == before.module->Normal_0.idx,
        after.module->Normal_0.module_type == before.module->Normal_0.module_type,
        after.is_lazy(),
{
}

/// A module whose exports are written in its source, or that is not part of the bundle, is left
/// alone, down to its symbol table; and only a module that is split gets a new symbol table.
pub proof fn law_other_modules_are_untouched<
    N,
    F: Fn(&str, &JsonBindings) -> String,
    G: Fn(&Program<N>, SemanticStats) -> Scoping,
>(legitimize: F, analyze: G, before: LinkStage<N>, after: LinkStage<N>, i: int)
    requires
        stage_linked(legitimize, analyze, before, after),
        0 <= i < before.modules@.len(),
    ensures
        !before.slot(i).is_lazy() ==> after.untouched(before, i) && after.slot(i) == before.slot(i),
        !before.slot(i).splits() ==> after.symbols@[i] == before.symbols@[i],
        before.modules@[i] matches Module::Normal(module) && (!module.has_lazy_export
            || module.exports_kind is CommonJs || !(module.module_type is Json))
            ==> after.symbols@[i] == before.symbols@[i],
        !(before.modules@[i] is Normal && before.modules@[i]->Normal_0.has_lazy_export) ==> {
            &&& after.modules@[i] == before.modules@[i]
            &&& after.stmt_infos@[i] == before.stmt_infos@[i]
            &&& after.ast_table@[i] == before.ast_table@[i]
            &&& after.symbols@[i] == before.symbols@[i]
            &&& after.metas@[i] == before.metas@[i]
        },
{
    assert(slot_linked(legitimize, analyze, before.slot(i), after.slot(i)));
}

/// Without a lazy-export module nothing changes.
pub proof fn law_nothing_changes_without_lazy_modules<
    N,
    F: Fn(&str, &JsonBindings) -> String,
    G: Fn(&Program<N>, SemanticStats) -> Scoping,
>(legitimize: F, analyze: G, before: LinkStage<N>, after: LinkStage<N>)
    requires
        before.tables_aligned(),
        stage_linked(legitimize, analyze, before, after),
        forall|i: int| 0 <= i < before.modules@.len() ==> !(#[trigger] before.slot(i)).is_lazy(),
    ensures
        after.modules@ == before.modules@,
        after.stmt_infos@ == before.stmt_infos@,
        after.ast_table@ == before.ast_table@,
        after.symbols@ == before.symbols@,
        after.metas@ == before.metas@,
{
    assert forall|i: int|
        #![trigger after.modules@[i]]
        #![trigger after.stmt_infos@[i]]
        #![trigger after.ast_table@[i]]
        #![trigger after.symbols@[i]]
        #![trigger after.metas@[i]]
        0 <= i < before.modules@.len() implies after.untouched(before, i) by {
        law_other_modules_are_untouched(legitimize, analyze, before, after, i);
    }
}

/// What `analyze` finds in a module depends on nothing but the module and what it is told to
/// expect.
pub open spec fn is_function_of_module<N, G: Fn(&Program<N>, SemanticStats) -> Scoping>(
    analyze: G,
) -> bool {
    forall|p: &Program<N>, q: &Program<N>, stats: SemanticStats, s: Scoping, t: Scoping|
        #![trigger call_ensures(analyze, (p, stats), s), call_ensures(analyze, (q, stats), t)]
        call_ensures(analyze, (p, stats), s) && call_ensures(analyze, (q, stats), t) && p@ == q@
            ==> scoping_symbols(s) == scoping_symbols(t) && scoping_scopes(s) == scoping_scopes(t)
}

/// The link stage holds the same about two modules, their syntax trees being copies of each other.
pub open spec fn same_slot<N>(x: SlotView<N>, y: SlotView<N>) -> bool {
    &&& x.module == y.module
    &&& x.stmts == y.stmts
    &&& x.ast is Some <==> y.ast is Some
    &&& x.ast is Some ==> x.ast->0@ == y.ast->0@
    &&& x.symbols == y.symbols
    &&& x.meta == y.meta
}

/// Copies of a module have the same symbols and scopes.
proof fn lemma_analyses_agree<N, G: Fn(&Program<N>, SemanticStats) -> Scoping>(
    analyze: G,
    p: Program<N>,
    q: Program<N>,
    bindings: nat,
    s: Scoping,
    t: Scoping,
)
    requires
        is_function_of_module(analyze),
        p@ == q@,
        analyzed_by(analyze, p.body@, bindings, s),
        analyzed_by(analyze, q.body@, bindings, t),
    ensures
        scoping_symbols(s) == scoping_symbols(t),
        scoping_scopes(s) == scoping_scopes(t),
{
    let (a, a_stats) = choose|a: &Program<N>, stats: SemanticStats| #[trigger]
        call_ensures(analyze, (a, stats), s) && a.body@ == p.body@ && stats.fit(bindings);
    let (b, b_stats) = choose|b: &Program<N>, stats: SemanticStats| #[trigger]
        call_ensures(analyze, (b, stats), t) && b.body@ == q.body@ && stats.fit(bindings);
    lemma_fit_is_unique(a_stats, b_stats, bindings);
    assert(a@ == p@);
    assert(b@ == q@);
}

/// A JSON module is recorded in one way only.
proof fn lemma_records_agree<N, G: Fn(&Program<N>, SemanticStats) -> Scoping>(
    analyze: G,
    x: SlotView<N>,
    y: SlotView<N>,
    idx: ModuleIdx,
    entries: Seq<BindingView>,
    s: Scoping,
    t: Scoping,
)
    requires
        is_function_of_module(analyze),
        same_slot(x, y),
        x.ast is Some,
        analyzed_by(analyze, x.ast->0.body@, entries.len(), s),
        analyzed_by(analyze, y.ast->0.body@, entries.len(), t),
    ensures
        same_slot(json_recorded(x, idx, entries, s), json_recorded(y, idx, entries, t)),
{
    lemma_analyses_agree(analyze, x.ast->0, y.ast->0, entries.len(), s, t);
}

/// The link stage rewrites a module exactly as lowering a copy of it alone does, told whether it
/// is JSON by its type and whether it is CommonJS by the exports kind that it had: the programs are
/// copies of each other, and what the link stage records goes by the same outcome. So both output
/// paths agree on what the module exports.
pub proof fn law_link_stage_lowers_like_anyone_else<
    N,
    F: Fn(&str, &JsonBindings) -> String,
    G: Fn(&Program<N>, SemanticStats) -> Scoping,
>(
    legitimize: F,
    analyze: G,
    before: SlotView<N>,
    after: SlotView<N>,
    copy: Program<N>,
    lowered: Program<N>,
    outcome: LoweredLazyExport,
)
    requires
        is_function(legitimize),
        before.is_lazy(),
        before.is_ready(before.module->Normal_0.idx as int),
        slot_linked(legitimize, analyze, before, after),
        copy@ == before.ast->0@,
        lowered_to(
            legitimize,
            copy,
            before.module->Normal_0.module_type is Json,
            before.module->Normal_0.exports_kind is CommonJs,
            lowered,
            outcome,
        ),
    ensures
        after.ast is Some,
        after.ast->0@ == lowered@,
        linked(analyze, before, after, outcome),
{
    let module = before.module->Normal_0;
    let linked_outcome = lemma_linked_outcome(legitimize, analyze, before, after);
    law_lowering_agrees(
        legitimize,
        before.ast->0,
        copy,
        module.is_json(),
        module.is_commonjs(),
        after.ast->0,
        linked_outcome,
        lowered,
        outcome,
    );
}

/// What the link stage makes of a module depends on nothing but what it held about that module:
/// where two link stages hold the same about module `i`, they do so again after their lazy exports
/// were lowered, whatever their other modules are. The local name of a key may only depend on the
/// key and the bindings made so far, and what semantic analysis finds only on the module.
pub proof fn law_outcome_depends_on_the_module_alone<
    N,
    F: Fn(&str, &JsonBindings) -> String,
    G: Fn(&Program<N>, SemanticStats) -> Scoping,
>(
    legitimize: F,
    analyze: G,
    before: LinkStage<N>,
    after: LinkStage<N>,
    other_before: LinkStage<N>,
    other_after: LinkStage<N>,
    i: int,
)
    requires
        is_function(legitimize),
        is_function_of_module(analyze),
        before.is_ready(),
        stage_linked(legitimize, analyze, before, after),
        stage_linked(legitimize, analyze, other_before, other_after),
        0 <= i < before.modules@.len(),
        i < other_before.modules@.len(),
        same_slot(before.slot(i), other_before.slot(i)),
    ensures
        same_slot(after.slot(i), other_after.slot(i)),
{
    let (x, x_after) = (before.slot(i), after.slot(i));
    let (y, y_after) = (other_before.slot(i), other_after.slot(i));
    let module = x.module->Normal_0;
    if x.is_lazy() {
        let p = lemma_linked_outcome(legitimize, analyze, x, x_after);
        let q = lemma_linked_outcome(legitimize, analyze, y, y_after);
        law_lowering_agrees(
            legitimize,
            x.ast->0,
            y.ast->0,
            module.is_json(),
            module.is_commonjs(),
            x_after.ast->0,
            p,
            y_after.ast->0,
            q,
        );
        if p is EsmJsonObject {
            let entries = binding_entries(p->EsmJsonObject_0);
            let lowered = SlotView { ast: x_after.ast, ..x };
            let other_lowered = SlotView { ast: y_after.ast, ..y };
            let s = lemma_recorded_scoping(analyze, x, x_after, entries);
            let t = lemma_recorded_scoping(analyze, y, y_after, entries);
            lemma_records_agree(analyze, lowered, other_lowered, module.idx, entries, s, t);
        }
    }
}

/// Lowering a prepared module has one result.
proof fn lemma_slots_lowered_agree<
    N,
    F: Fn(&str, &JsonBindings) -> String,
    G: Fn(&Program<N>, SemanticStats) -> Scoping,
>(legitimize: F, analyze: G, before: SlotView<N>, x: SlotView<N>, y: SlotView<N>)
    requires
        is_function(legitimize),
        is_function_of_module(analyze),
        before.is_lazy(),
        before.is_ready(before.module->Normal_0.idx as int),
        slot_lowered(legitimize, analyze, before, x),
        slot_lowered(legitimize, analyze, before, y),
    ensures
        same_slot(x, y),
{
    let module = before.module->Normal_0;
    let p = lemma_lowered_outcome(legitimize, analyze, before, x);
    let q = lemma_lowered_outcome(legitimize, analyze, before, y);
    law_lowering_agrees(
        legitimize,
        before.ast->0,
        before.ast->0,
        module.is_json(),
        module.is_commonjs(),
        x.ast->0,
        p,
        y.ast->0,
        q,
    );
    if p is EsmJsonObject {
        let entries = binding_entries(p->EsmJsonObject_0);
        let x_lowered = SlotView { ast: x.ast, ..before };
        let y_lowered = SlotView { ast: y.ast, ..before };
        let s = lemma_recorded_scoping(analyze, before, x, entries);
        let t = lemma_recorded_scoping(analyze, before, y, entries);
        lemma_records_agree(analyze, x_lowered, y_lowered, module.idx, entries, s, t);
    }
}

/// The order in which the modules of a list are lowered does not matter: the link stage holds the
/// same about every module afterwards. The local name of a key may only depend on the key and the
/// bindings made so far, and what semantic analysis finds only on the module.
pub proof fn law_order_of_lowering_does_not_matter<
    N,
    F: Fn(&str, &JsonBindings) -> String,
    G: Fn(&Program<N>, SemanticStats) -> Scoping,
>(
    legitimize: F,
    analyze: G,
    infos: Seq<LazyModuleInfo>,
    reordered: Seq<LazyModuleInfo>,
    before: LinkStage<N>,
    after: LinkStage<N>,
    other_after: LinkStage<N>,
)
    requires
        is_function(legitimize),
        is_function_of_module(analyze),
        infos.to_multiset() == reordered.to_multiset(),
        lists_lazy(infos, before),
        forall|i: int|
            0 <= i < before.modules@.len() && lists(infos, i) ==> (#[trigger] before.slot(
                i,
            )).is_ready(i),
        modules_lowered(legitimize, analyze, infos, before, after),
        modules_lowered(legitimize, analyze, reordered, before, other_after),
    ensures
        after.modules@.len() == other_after.modules@.len(),
        forall|i: int|
            0 <= i < after.modules@.len() ==> same_slot(
                #[trigger] after.slot(i),
                other_after.slot(i),
            ),
{
    assert forall|i: int| 0 <= i < after.modules@.len() implies same_slot(
        #[trigger] after.slot(i),
        other_after.slot(i),
    ) by {
        if lists(infos, i) {
            lemma_listed_in_any_order(infos, reordered, i);
            assert(before.slot(i).is_ready(i));
            assert(slot_lowered(legitimize, analyze, before.slot(i), after.slot(i)));
            assert(slot_lowered(legitimize, analyze, before.slot(i), other_after.slot(i)));
            lemma_slots_lowered_agree(
                legitimize,
                analyze,
                before.slot(i),
                after.slot(i),
                other_after.slot(i),
            );
        } else {
            if lists(reordered, i) {
                lemma_listed_in_any_order(reordered, infos, i);
            }
            assert(other_after.slot(i) == before.slot(i));
        }
    }
}

/// A list names the same modules in any order.
proof fn lemma_listed_in_any_order(
    infos: Seq<LazyModuleInfo>,
    reordered: Seq<LazyModuleInfo>,
    i: int,
)
    requires
        infos.to_multiset() == reordered.to_multiset(),
        lists(infos, i),
    ensures
        lists(reordered, i),
{
    broadcast use vstd::seq_lib::group_to_multiset_ensures;

    let k = choose|k: int| 0 <= k < infos.len() && (#[trigger] infos[k]).idx == i;
    assert(infos.contains(infos[k]));
    assert(reordered.to_multiset().count(infos[k]) > 0);
    assert(reordered.contains(infos[k]));
}

/// The exports hold what was there, unless an entry replaced it, and for each entry that no later
/// one replaces, its variable.
proof fn lemma_exports_after(
    exports: Map<Seq<char>, LocalExport>,
    entries: Seq<BindingView>,
    root: Map<Seq<char>, u32>,
    owner: ModuleIdx,
    n: int,
)
    requires
        0 <= n <= entries.len(),
    ensures
        ({
            let after = exports_after(exports, entries, root, owner, n);
            &&& forall|i: int|
                0 <= i < n ==> after.contains_key((#[trigger] entries[i]).1.0)
            &&& forall|i: int|
                0 <= i < n && (forall|j: int|
                    i < j < n ==> (#[trigger] entries[j]).1.0 != entries[i].1.0)
                    ==> after[(#[trigger] entries[i]).1.0] == LocalExport::of(
                    local_symbol(root, owner, entries[i].0),
                )
            &&& forall|name: Seq<char>|
                (forall|i: int| 0 <= i < n ==> (#[trigger] entries[i]).1.0 != name) ==> (
                #[trigger] after.contains_key(name) == exports.contains_key(name)) && (
                exports.contains_key(name) ==> after[name] == exports[name])
        }),
    decreases n,
{
    if n > 0 {
        lemma_exports_after(exports, entries, root, owner, n - 1);
        let before = exports_after(exports, entries, root, owner, n - 1);
        let after = exports_after(exports, entries, root, owner, n);
        assert forall|i: int| 0 <= i < n implies after.contains_key(
            (#[trigger] entries[i]).1.0,
        ) by {
            if i < n - 1 {
                assert(before.contains_key(entries[i].1.0));
            }
        }
        assert forall|i: int|
            0 <= i < n && (forall|j: int|
                i < j < n ==> (#[trigger] entries[j]).1.0 != entries[i].1.0) implies after[(
        #[trigger] entries[i]).1.0] == LocalExport::of(
            local_symbol(root, owner, entries[i].0),
        ) by {
            if i < n - 1 {
                assert(entries[n - 1].1.0 != entries[i].1.0);
            }
        }
        assert forall|name: Seq<char>|
            (forall|i: int| 0 <= i < n ==> (#[trigger] entries[i]).1.0 != name) implies (
        #[trigger] after.contains_key(name) == exports.contains_key(name)) && (
        exports.contains_key(name) ==> after[name] == exports[name]) by {
            assert(entries[n - 1].1.0 != name);
            assert(before.contains_key(name) == exports.contains_key(name));
        }
    }
}

/// A split JSON module exports every binding under its exported name, as the symbol that its
/// variable is bound to at the top level of the module. (The default export takes precedence over
/// a key `default`, and of several variables exported under one name the last one counts.)
/// Nothing else is added to its exports.
pub proof fn law_bindings_are_exported<N>(
    before: SlotView<N>,
    idx: ModuleIdx,
    entries: Seq<BindingView>,
    scoping: Scoping,
)
    ensures
        ({
            let after = json_recorded(before, idx, entries, scoping);
            let exports = after.module->Normal_0.named_exports;
            let old_exports = before.module->Normal_0.named_exports;
            &&& forall|i: int|
                0 <= i < entries.len() ==> exports.contains_key((#[trigger] entries[i]).1.0)
            &&& forall|i: int|
                0 <= i < entries.len() && entries[i].1.0 != "default"@ && (forall|j: int|
                    i < j < entries.len() ==> (#[trigger] entries[j]).1.0 != entries[i].1.0)
                    ==> {
                    let export = exports[(#[trigger] entries[i]).1.0];
                    &&& export.referenced == (SymbolRef {
                        owner: idx,
                        symbol: after.symbols.scopes[0][entries[i].0],
                    })
                    &&& !export.came_from_commonjs
                    &&& export.span == (Span { start: 0, end: 0 })
                }
            &&& forall|name: Seq<char>|
                name != "default"@ && (forall|i: int|
                    0 <= i < entries.len() ==> (#[trigger] entries[i]).1.0 != name) ==> (
                #[trigger] exports.contains_key(name) == old_exports.contains_key(name)) && (
                old_exports.contains_key(name) ==> exports[name] == old_exports[name])
        }),
{
    let root = scoping_scopes(scoping)[0];
    let old_exports = before.module->Normal_0.named_exports;
    let n = entries.len() as int;
    lemma_exports_after(old_exports, entries, root, idx, n);
    let bound = exports_after(old_exports, entries, root, idx, n);
    let after = json_recorded(before, idx, entries, scoping);
    let exports = after.module->Normal_0.named_exports;
    assert(after.symbols.scopes == scoping_scopes(scoping));
    assert forall|name: Seq<char>|
        name != "default"@ && (forall|i: int|
            0 <= i < entries.len() ==> (#[trigger] entries[i]).1.0 != name) implies (
    #[trigger] exports.contains_key(name) == old_exports.contains_key(name)) && (
    old_exports.contains_key(name) ==> exports[name] == old_exports[name]) by {
        assert(bound.contains_key(name) == old_exports.contains_key(name));
    }
}

/// A linked JSON module with an object literal exports `default` plus one name per key: every key
/// but the empty one, and nothing else that it did not export before. A local name that is taken
/// may only be answered for the key that it is bound to.
pub proof fn law_json_module_exports_default_and_every_key<
    N,
    F: Fn(&str, &JsonBindings) -> String,
    G: Fn(&Program<N>, SemanticStats) -> Scoping,
>(legitimize: F, analyze: G, before: SlotView<N>, after: SlotView<N>)
    requires
        before.splits(),
        avoids_clashes(legitimize),
        slot_linked(legitimize, analyze, before, after),
    ensures
        after.module->Normal_0.named_exports.dom()
            == before.module->Normal_0.named_exports.dom().union(
            key_names(before.ast->0.members()),
        ).insert("default"@),
{
    let members = before.ast->0.members();
    let exports = after.module->Normal_0.named_exports;
    let old_exports = before.module->Normal_0.named_exports;
    let module = before.module->Normal_0;
    let outcome = lemma_linked_outcome(legitimize, analyze, before, after);
    let entries = binding_entries(outcome->EsmJsonObject_0);
    let lowered = SlotView { ast: after.ast, ..before };
    let scoping = lemma_recorded_scoping(analyze, before, after, entries);
    law_bindings_cover_the_keys(legitimize, members, after.ast->0.body@, entries);
    law_bindings_are_exported(lowered, module.idx, entries, scoping);
    assert forall|name: Seq<char>|
        exports.dom().contains(name) == old_exports.dom().union(key_names(members)).insert(
            "default"@,
        ).contains(name) by {
        assert(exported_names(entries).contains(name) == key_names(members).contains(name));
        if exported_names(entries).contains(name) {
            let j = choose|j: int|
                0 <= j < entries.len() && (#[trigger] entries[j]).1.0 == name;
            assert(exports.contains_key(entries[j].1.0));
        } else if name != "default"@ {
            assert(exports.contains_key(name) == old_exports.contains_key(name));
        } else {
            assert(exports.contains_key(name));
        }
    }
}

/// The statement infos of a split JSON module go with its statements: after that of the namespace
/// object comes one for each declaration, which declares just the symbol of the variable, and then
/// one for the default export.
pub proof fn law_statement_infos_match_the_statements<N>(
    before: SlotView<N>,
    idx: ModuleIdx,
    names: Seq<Seq<char>>,
    body: Seq<Statement<N>>,
    scoping: Scoping,
)
    requires
        split_body(before.ast->0.members(), names, body),
    ensures
        ({
            let entries = bindings_of(before.ast->0.members(), names);
            let after = json_recorded(before, idx, entries, scoping);
            let n = body.len() - 2;
            &&& after.stmts.len() == body.len()
            &&& after.stmts[0].declared == seq![
                TaggedSymbolRef::Normal(after.module->Normal_0.namespace_object_ref),
            ]
            &&& forall|i: int|
                0 <= i < n ==> (#[trigger] body[i]) is VarDeclaration && after.stmts[i
                    + 1].declared == seq![
                    TaggedSymbolRef::Normal(
                        SymbolRef {
                            owner: idx,
                            symbol: after.symbols.scopes[0][body[i]->local@],
                        },
                    ),
                ]
            &&& body[n] is ExportDefault
            &&& after.stmts[n + 1].declared == seq![
                TaggedSymbolRef::Normal(after.module->Normal_0.default_export_ref),
            ]
        }),
{
    let members = before.ast->0.members();
    let entries = bindings_of(members, names);
    let after = json_recorded(before, idx, entries, scoping);
    let n = body.len() - 2;
    assert(after.symbols.scopes == scoping_scopes(scoping));
    assert forall|i: int| 0 <= i < n implies (#[trigger] body[i]) is VarDeclaration
        && after.stmts[i + 1].declared == seq![
        TaggedSymbolRef::Normal(
            SymbolRef { owner: idx, symbol: after.symbols.scopes[0][body[i]->local@] },
        ),
    ] by {
        assert(declares(body[i], entries[i].0, values_of(members, names)[i]));
    }
}

/// Keys that nobody imports can be dropped: the declaration of a variable refers to nothing and
/// has no effect of its own, and it is the namespace object and the default export that refer to
/// all of them.
pub proof fn law_unused_keys_can_be_dropped<N>(
    before: SlotView<N>,
    idx: ModuleIdx,
    entries: Seq<BindingView>,
    scoping: Scoping,
    i: int,
)
    requires
        0 <= i < entries.len(),
    ensures
        ({
            let after = json_recorded(before, idx, entries, scoping);
            let symbol = SymbolOrMemberExprRef::Symbol(
                SymbolRef { owner: idx, symbol: after.symbols.scopes[0][entries[i].0] },
            );
            &&& after.stmts.len() == entries.len() + 2
            &&& after.stmts[i + 1].referenced.len() == 0
            &&& !after.stmts[i + 1].eval_flags
            &&& after.stmts[0].referenced.contains(symbol)
            &&& after.stmts[entries.len() as int + 1].referenced.contains(symbol)
            &&& after.stmts[0].referenced == after.stmts[entries.len() as int + 1].referenced
        }),
{
    let after = json_recorded(before, idx, entries, scoping);
    let root = scoping_scopes(scoping)[0];
    let symbols = json_symbols(before.stmts, entries, root, idx);
    assert(after.symbols.scopes == scoping_scopes(scoping));
    assert(after.stmts[0].referenced == symbols);
    let k = symbols.len() - entries.len() + i;
    assert(symbols[k] == SymbolOrMemberExprRef::Symbol(local_symbol(root, idx, entries[i].0)));
}

/// A name that a binding exports is exported as the variable of some binding.
proof fn lemma_exported_as_a_variable(
    exports: Map<Seq<char>, LocalExport>,
    entries: Seq<BindingView>,
    root: Map<Seq<char>, u32>,
    owner: ModuleIdx,
    n: int,
    i: int,
) -> (j: int)
    requires
        0 <= i < n <= entries.len(),
    ensures
        0 <= j < n,
        exports_after(exports, entries, root, owner, n)[entries[i].1.0] == LocalExport::of(
            local_symbol(root, owner, entries[j].0),
        ),
    decreases n,
{
    if entries[i].1.0 == entries[n - 1].1.0 {
        n - 1
    } else {
        lemma_exported_as_a_variable(exports, entries, root, owner, n - 1, i)
    }
}

/// The facade symbols of a split JSON module keep their names, belong to the module and are
/// distinct symbols of its new symbol table, and none of them is the symbol of a variable. Adding
/// them binds no name in any scope. Every symbol that a statement of the module declares, and every
/// symbol that the module exports a key or `default` as, is one of its own in the new table.
pub proof fn law_facades_keep_their_names<N>(
    before: SlotView<N>,
    idx: ModuleIdx,
    entries: Seq<BindingView>,
    scoping: Scoping,
)
    requires
        facades_valid(before.module->Normal_0, before.symbols),
        binds_all(scoping, entries),
        binds_known(scoping),
    ensures
        ({
            let after = json_recorded(before, idx, entries, scoping);
            let old_module = before.module->Normal_0;
            let module = after.module->Normal_0;
            &&& facades_valid(module, after.symbols)
            &&& module.namespace_object_ref.owner == idx
            &&& module.default_export_ref.owner == idx
            &&& module.namespace_object_ref != module.default_export_ref
            &&& after.symbols.name_of(module.namespace_object_ref.symbol)
                == before.symbols.name_of(old_module.namespace_object_ref.symbol)
            &&& after.symbols.name_of(module.default_export_ref.symbol)
                == before.symbols.name_of(old_module.default_export_ref.symbol)
            &&& module.hmr_hot_ref is Some <==> old_module.hmr_hot_ref is Some
            &&& module.hmr_hot_ref is Some ==> {
                &&& module.hmr_hot_ref->0.owner == idx
                &&& module.hmr_hot_ref->0 != module.namespace_object_ref
                &&& module.hmr_hot_ref->0 != module.default_export_ref
                &&& after.symbols.name_of(module.hmr_hot_ref->0.symbol)
                    == before.symbols.name_of(old_module.hmr_hot_ref->0.symbol)
            }
            &&& after.symbols.scopes == SymbolsView::analyzed(scoping, idx).scopes
            &&& forall|i: int|
                0 <= i < entries.len() ==> {
                    let variable = after.symbols.scopes[0][(#[trigger] entries[i]).0];
                    &&& after.symbols.has(variable)
                    &&& variable != module.namespace_object_ref.symbol
                    &&& variable != module.default_export_ref.symbol
                    &&& module.hmr_hot_ref is Some ==> variable != module.hmr_hot_ref->0.symbol
                }
            &&& forall|i: int, j: int|
                0 <= i < after.stmts.len() && 0 <= j < after.stmts[i].declared.len() ==> {
                    let declared = #[trigger] after.stmts[i].declared[j];
                    &&& declared is Normal
                    &&& declared->Normal_0.owner == idx
                    &&& after.symbols.has(declared->Normal_0.symbol)
                }
            &&& forall|name: Seq<char>|
                name == "default"@ || #[trigger] exported_names(entries).contains(name) ==> {
                    let exported = module.named_exports[name].referenced;
                    &&& module.named_exports.contains_key(name)
                    &&& exported.owner == idx
                    &&& after.symbols.has(exported.symbol)
                }
        }),
{
    let after = json_recorded(before, idx, entries, scoping);
    let module = after.module->Normal_0;
    let old_exports = before.module->Normal_0.named_exports;
    let root = scoping_scopes(scoping)[0];
    let n = entries.len() as int;
    assert(after.symbols.scopes == scoping_scopes(scoping));
    assert forall|i: int| 0 <= i < entries.len() implies after.symbols.has(
        root[(#[trigger] entries[i]).0],
    ) && root[entries[i].0] < scoping_symbols(scoping).len() by {
        assert(root.contains_key(entries[i].0));
    }
    assert forall|i: int, j: int|
        0 <= i < after.stmts.len() && 0 <= j < after.stmts[i].declared.len() implies {
        let declared = #[trigger] after.stmts[i].declared[j];
        &&& declared is Normal
        &&& declared->Normal_0.owner == idx
        &&& after.symbols.has(declared->Normal_0.symbol)
    } by {
        if 0 < i <= n {
            assert(after.symbols.has(root[entries[i - 1].0]));
        }
    }
    lemma_exports_after(old_exports, entries, root, idx, n);
    assert forall|name: Seq<char>|
        name == "default"@ || #[trigger] exported_names(entries).contains(name) implies {
        let exported = module.named_exports[name].referenced;
        &&& module.named_exports.contains_key(name)
        &&& exported.owner == idx
        &&& after.symbols.has(exported.symbol)
    } by {
        if name != "default"@ {
            let i = choose|i: int| 0 <= i < entries.len() && (#[trigger] entries[i]).1.0 == name;
            let j = lemma_exported_as_a_variable(old_exports, entries, root, idx, n, i);
            assert(after.symbols.has(root[entries[j].0]));
        }
    }
}

/// What `analyze` finds bound at the top level of a module are symbols that it found.
pub open spec fn finds_known_symbols<N, G: Fn(&Program<N>, SemanticStats) -> Scoping>(
    analyze: G,
) -> bool {
    forall|p: &Program<N>, stats: SemanticStats, scoping: Scoping| #[trigger]
        call_ensures(analyze, (p, stats), scoping) ==> binds_known(scoping)
}

/// A linked JSON module with an object literal owns the symbols that it needs: its symbol table has
/// its facade symbols, every symbol that one of its statements declares, and every symbol that it
/// exports under a name that it did not export before.
pub proof fn law_linked_json_module_owns_its_symbols<
    N,
    F: Fn(&str, &JsonBindings) -> String,
    G: Fn(&Program<N>, SemanticStats) -> Scoping,
>(legitimize: F, analyze: G, before: SlotView<N>, after: SlotView<N>)
    requires
        finds_known_symbols(analyze),
        before.can_be_analyzed(legitimize, analyze),
        before.splits(),
        before.is_ready(before.module->Normal_0.idx as int),
        slot_linked(legitimize, analyze, before, after),
    ensures
        ({
            let idx = before.module->Normal_0.idx;
            let old_exports = before.module->Normal_0.named_exports;
            let exports = after.module->Normal_0.named_exports;
            &&& facades_valid(after.module->Normal_0, after.symbols)
            &&& forall|i: int, j: int|
                0 <= i < after.stmts.len() && 0 <= j < after.stmts[i].declared.len() ==> {
                    let declared = #[trigger] after.stmts[i].declared[j];
                    &&& declared is Normal
                    &&& declared->Normal_0.owner == idx
                    &&& after.symbols.has(declared->Normal_0.symbol)
                }
            &&& forall|name: Seq<char>| #[trigger]
                exports.contains_key(name) && !old_exports.contains_key(name) ==> {
                    &&& exports[name].referenced.owner == idx
                    &&& after.symbols.has(exports[name].referenced.symbol)
                }
        }),
{
    let module = before.module->Normal_0;
    let outcome = lemma_linked_outcome(legitimize, analyze, before, after);
    let entries = binding_entries(outcome->EsmJsonObject_0);
    let body = after.ast->0.body@;
    let lowered = SlotView { ast: after.ast, ..before };
    let scoping = lemma_recorded_scoping(analyze, before, after, entries);
    assert(analyzes(analyze, after.ast->0, entries));
    law_facades_keep_their_names(lowered, module.idx, entries, scoping);
    law_bindings_are_exported(lowered, module.idx, entries, scoping);
    let exports = after.module->Normal_0.named_exports;
    assert forall|name: Seq<char>| #[trigger]
        exports.contains_key(name) && !module.named_exports.contains_key(name) implies {
        &&& exports[name].referenced.owner == module.idx
        &&& after.symbols.has(exports[name].referenced.symbol)
    } by {
        assert(name == "default"@ || exported_names(entries).contains(name));
    }
}

/// A split JSON module is not wrapped.
pub proof fn law_split_json_is_not_wrapped<N>(
    before: SlotView<N>,
    idx: ModuleIdx,
    entries: Seq<BindingView>,
    scoping: Scoping,
)
    ensures
        json_recorded(before, idx, entries, scoping).meta == (LinkingMetadata {
            wrapper_stmt_info: None,
            wrapper_ref: None,
            wrap_kind: WrapKind::Unwrapped,
        }),
{
}

/// Every module of a link stage is linked, at its place.
pub proof fn law_every_module_is_linked<
    N,
    F: Fn(&str, &JsonBindings) -> String,
    G: Fn(&Program<N>, SemanticStats) -> Scoping,
>(legitimize: F, analyze: G, before: LinkStage<N>, after: LinkStage<N>, i: int)
    requires
        stage_linked(legitimize, analyze, before, after),
        0 <= i < before.modules@.len(),
    ensures
        after.modules@.len() == before.modules@.len(),
        after.stmt_infos@.len() == before.modules@.len(),
        after.ast_table@.len() == before.modules@.len(),
        after.symbols@.len() == before.modules@.len(),
        after.metas@.len() == before.modules@.len(),
        slot_linked(legitimize, analyze, before.slot(i), after.slot(i)),
{
    assert(slot_linked(legitimize, analyze, before.slot(i), after.slot(i)));
}

/// A list that lowering is given stands for its modules one by one: those that it names are lowered,
/// and all others are left alone in every table.
pub proof fn law_listed_modules_are_lowered<
    N,
    F: Fn(&str, &JsonBindings) -> String,
    G: Fn(&Program<N>, SemanticStats) -> Scoping,
>(
    legitimize: F,
    analyze: G,
    infos: Seq<LazyModuleInfo>,
    before: LinkStage<N>,
    after: LinkStage<N>,
    i: int,
)
    requires
        modules_lowered(legitimize, analyze, infos, before, after),
        0 <= i < before.modules@.len(),
    ensures
        after.modules@.len() == before.modules@.len(),
        (exists|k: int| 0 <= k < infos.len() && (#[trigger] infos[k]).idx == i) ==> slot_lowered(
            legitimize,
            analyze,
            before.slot(i),
            after.slot(i),
        ),
        (forall|k: int| 0 <= k < infos.len() ==> (#[trigger] infos[k]).idx != i) ==> {
            &&& after.modules@[i] == before.modules@[i]
            &&& after.stmt_infos@[i] == before.stmt_infos@[i]
            &&& after.ast_table@[i] == before.ast_table@[i]
            &&& after.symbols@[i] == before.symbols@[i]
            &&& after.metas@[i] == before.metas@[i]
        },
{
    let slot = after.slot(i);
}

/// Recording the exports of one module leaves all others alone, in every table.
pub proof fn law_one_module_changes<N>(before: LinkStage<N>, after: LinkStage<N>, i: int, j: int)
    requires
        after.same_but(before, i),
        0 <= j < before.modules@.len(),
        j != i,
    ensures
        after.modules@.len() == before.modules@.len(),
        after.modules@[j] == before.modules@[j],
        after.stmt_infos@[j] == before.stmt_infos@[j],
        after.ast_table@[j] == before.ast_table@[j],
        after.symbols@[j] == before.symbols@[j],
        after.metas@[j] == before.metas@[j],
{
    assert(after.untouched(before, j));
}

/// A list of lazy-export modules describes each of them by its place, its exports kind and whether
/// it is JSON, and names none twice. It names a module if one of its descriptions has its place.
pub proof fn law_lists_describe_lazy_modules<N>(
    infos: Seq<LazyModuleInfo>,
    stage: LinkStage<N>,
    k: int,
    i: int,
)
    requires
        lists_lazy(infos, stage),
        0 <= k < infos.len(),
    ensures
        infos[k].idx < stage.modules@.len(),
        stage.modules@[infos[k].idx as int] is Normal,
        ({
            let module = stage.modules@[infos[k].idx as int]->Normal_0;
            &&& module.has_lazy_export
            &&& module.idx == infos[k].idx
            &&& infos[k].exports_kind == module.exports_kind
            &&& infos[k].is_json == (module.module_type is Json)
        }),
        forall|l: int| 0 <= l < infos.len() && l != k ==> (#[trigger] infos[l]).idx != infos[k].idx,
        lists(infos, i) <==> exists|l: int| 0 <= l < infos.len() && (#[trigger] infos[l]).idx == i,
        stage.slot(i).is_lazy() <==> stage.modules@[i] is Normal
            && stage.modules@[i]->Normal_0.has_lazy_export,
{
    assert(infos[k] == infos[k]);
}

/// Preparing a lazy-export module records its default export, its declaration by the first
/// statement after the namespace statement, and, if it is CommonJS, that this statement is kept for
/// its effect and that the module uses `module`. A JSON module that is not CommonJS is left for
/// later. Nothing else changes.
pub proof fn law_prepared_modules<N>(slot: SlotView<N>)
    requires
        slot.module is Normal,
        slot.module->Normal_0.has_lazy_export,
        slot.stmts.len() > 1,
    ensures
        ({
            let prepared = slot.prepared();
            let old_module = slot.module->Normal_0;
            let module = prepared.module->Normal_0;
            let is_commonjs = old_module.exports_kind is CommonJs;
            let defers = old_module.module_type is Json && !is_commonjs;
            &&& prepared.module is Normal
            &&& prepared.ast == slot.ast
            &&& prepared.symbols == slot.symbols
            &&& prepared.meta == slot.meta
            &&& defers ==> prepared == slot
            &&& module.idx == old_module.idx
            &&& module.module_type == old_module.module_type
            &&& module.exports_kind == old_module.exports_kind
            &&& module.has_lazy_export
            &&& module.namespace_object_ref == old_module.namespace_object_ref
            &&& module.default_export_ref == old_module.default_export_ref
            &&& module.hmr_hot_ref == old_module.hmr_hot_ref
            &&& module.uses_module_ref == (old_module.uses_module_ref || is_commonjs)
            &&& !defers ==> {
                &&& module.named_exports.dom() == old_module.named_exports.dom().insert("default"@)
                &&& module.named_exports["default"@].referenced == old_module.default_export_ref
                &&& !module.named_exports["default"@].came_from_commonjs
                &&& forall|name: Seq<char>|
                    name != "default"@ ==> #[trigger] module.named_exports[name]
                        == old_module.named_exports[name]
                &&& prepared.stmts.len() == slot.stmts.len()
                &&& prepared.stmts[1].declared == slot.stmts[1].declared.push(
                    TaggedSymbolRef::Normal(old_module.default_export_ref),
                )
                &&& prepared.stmts[1].referenced == slot.stmts[1].referenced
                &&& prepared.stmts[1].eval_flags == (slot.stmts[1].eval_flags || is_commonjs)
                &&& forall|j: int|
                    0 <= j < slot.stmts.len() && j != 1 ==> #[trigger] prepared.stmts[j]
                        == slot.stmts[j]
            }
            &&& old_module.lazy_info().idx == old_module.idx
            &&& old_module.lazy_info().exports_kind == old_module.exports_kind
            &&& old_module.lazy_info().is_json == (old_module.module_type is Json)
        }),
{
    let module = slot.prepared().module->Normal_0;
    assert(!(slot.module->Normal_0.defers_exports()) ==> module.named_exports.dom()
        =~= slot.module->Normal_0.named_exports.dom().insert("default"@));
}

/// Lowering a prepared module that is CommonJS or not JSON rewrites its syntax tree and settles its
/// exports kind; all else was recorded before. A JSON module that is not CommonJS was left alone
/// until then, and lowering it does all that linking it does.
pub proof fn law_lowering_a_prepared_module<
    N,
    F: Fn(&str, &JsonBindings) -> String,
    G: Fn(&Program<N>, SemanticStats) -> Scoping,
>(
    legitimize: F,
    analyze: G,
    before: SlotView<N>,
    after: SlotView<N>,
    payload: Expression<N>,
)
    requires
        slot_lowered(legitimize, analyze, before, after),
        before.module is Normal,
        before.module->Normal_0.has_lazy_export,
        before.ast is Some,
        before.ast->0.body@.len() > 0,
        before.ast->0.body@[0] == Statement::ExpressionStatement(payload),
    ensures
        ({
            let old_module = before.module->Normal_0;
            let module = after.module->Normal_0;
            let is_commonjs = old_module.exports_kind is CommonJs;
            &&& old_module.module_type is Json && !is_commonjs ==> slot_linked(
                legitimize,
                analyze,
                before,
                after,
            )
            &&& is_commonjs || !(old_module.module_type is Json) ==> {
                &&& after.module is Normal
                &&& after.ast is Some
                &&& after.ast->0.body@.len() == before.ast->0.body@.len()
                &&& after.ast->0.body@[0] == (if is_commonjs {
                    Statement::ModuleExports(payload)
                } else {
                    Statement::ExportDefault(payload)
                })
                &&& forall|j: int|
                    1 <= j < before.ast->0.body@.len() ==> #[trigger] after.ast->0.body@[j]
                        == before.ast->0.body@[j]
                &&& after.stmts == before.stmts
                &&& after.symbols == before.symbols
                &&& after.meta == before.meta
                &&& module.exports_kind == (if is_commonjs {
                    ExportsKind::CommonJs
                } else {
                    ExportsKind::Esm
                })
                &&& module.named_exports == old_module.named_exports
                &&& module.idx == old_module.idx
                &&& module.module_type == old_module.module_type
                &&& module.has_lazy_export == old_module.has_lazy_export
                &&& module.namespace_object_ref == old_module.namespace_object_ref
                &&& module.default_export_ref == old_module.default_export_ref
                &&& module.hmr_hot_ref == old_module.hmr_hot_ref
                &&& module.uses_module_ref == old_module.uses_module_ref
            }
        }),
{
    let module = before.module->Normal_0;
    let outcome = lemma_lowered_outcome(legitimize, analyze, before, after);
    law_payload_is_wrapped_whole(
        legitimize,
        before.ast->0,
        module.is_json(),
        module.is_commonjs(),
        after.ast->0,
        outcome,
        payload,
    );
    if module.is_json() && !module.is_commonjs() {
        assert(linked(analyze, before, after, outcome));
    }
}

/// What semantic analysis has to find of the variables of a binding table: a top level at which each
/// of them is bound under a name short enough for an identifier, and room for three more symbols.
/// The facade symbols of a module are those that it refers to by id.
pub proof fn law_symbols_that_recording_needs(
    scoping: Scoping,
    entries: Seq<BindingView>,
    module: NormalModuleView,
    symbols: SymbolsView,
)
    ensures
        binds_all(scoping, entries) <==> {
            &&& scoping_scopes(scoping).len() > 0
            &&& scoping_symbols(scoping).len() + 3 <= u32::MAX
            &&& forall|k: int|
                0 <= k < entries.len() ==> encode_utf8((#[trigger] entries[k]).0).len() <= u32::MAX
                    && scoping_scopes(scoping)[0].contains_key(entries[k].0)
        },
        facades_valid(module, symbols) <==> {
            &&& module.namespace_object_ref.symbol < symbols.symbols.len()
            &&& module.namespace_object_ref.symbol < u32::MAX
            &&& module.default_export_ref.symbol < symbols.symbols.len()
            &&& module.default_export_ref.symbol < u32::MAX
            &&& module.hmr_hot_ref matches Some(hot) ==> hot.symbol < symbols.symbols.len()
                && hot.symbol < u32::MAX
        },
{
}

/// A lazy-export module at its place, with a syntax tree that starts with an expression statement
/// and a statement info for it, is ready. If it is JSON with an object literal, and not CommonJS,
/// the members must have static keys, there must not be more of them than references can be
/// expected for, and its facade symbols must be in its symbol table; the namespace statement will do
/// then.
pub proof fn law_ready_modules<N>(slot: SlotView<N>, idx: int, payload: Expression<N>)
    requires
        slot.module is Normal,
        slot.module->Normal_0.has_lazy_export,
        slot.module->Normal_0.idx == idx,
        slot.ast is Some,
        slot.ast->0.body@.len() > 0,
        slot.ast->0.body@[0] == Statement::ExpressionStatement(payload),
        ({
            let module = slot.module->Normal_0;
            if module.module_type is Json && !(module.exports_kind is CommonJs)
                && payload.stripped() is ObjectExpression {
                let members = payload.stripped()->ObjectExpression_0@;
                &&& members.len() <= 0x7fff_ffff
                &&& forall|j: int|
                    0 <= j < members.len() ==> (#[trigger] members[j]) is ObjectProperty
                        && members[j]->ObjectProperty_0.key.name() is Some
                &&& slot.stmts.len() > 0
                &&& facades_valid(module, slot.symbols)
            } else {
                slot.stmts.len() > 1
            }
        }),
    ensures
        slot.is_ready(idx),
{
}

/// A module is split if and only if its exports are lazy, it is JSON, it is not CommonJS, and its
/// payload is an object literal in any number of parentheses.
pub proof fn law_modules_that_split<N>(slot: SlotView<N>, payload: Expression<N>)
    requires
        slot.ast is Some,
        slot.ast->0.body@.len() > 0,
        slot.ast->0.body@[0] == Statement::ExpressionStatement(payload),
    ensures
        slot.splits() <==> {
            &&& slot.module is Normal
            &&& slot.module->Normal_0.has_lazy_export
            &&& slot.module->Normal_0.module_type is Json
            &&& !(slot.module->Normal_0.exports_kind is CommonJs)
            &&& payload.stripped() is ObjectExpression
        },
{
}

/// An analysis will do for every module that accepts any program and finds each top-level variable
/// of it, under a name short enough for an identifier, and leaves room for three more symbols.
pub proof fn law_analysis_that_finds_variables_will_do<
    N,
    F: Fn(&str, &JsonBindings) -> String,
    G: Fn(&Program<N>, SemanticStats) -> Scoping,
>(legitimize: F, analyze: G, slot: SlotView<N>)
    requires
        forall|p: &Program<N>, stats: SemanticStats| call_requires(analyze, (p, stats)),
        forall|p: &Program<N>, stats: SemanticStats, scoping: Scoping| #[trigger]
            call_ensures(analyze, (p, stats), scoping) ==> {
                &&& scoping_scopes(scoping).len() > 0
                &&& scoping_symbols(scoping).len() + 3 <= u32::MAX
                &&& forall|j: int|
                    0 <= j < p.body@.len() && (#[trigger] p.body@[j]) is VarDeclaration
                        ==> encode_utf8(p.body@[j]->local@).len() <= u32::MAX
                        && scoping_scopes(scoping)[0].contains_key(p.body@[j]->local@)
            },
    ensures
        slot.can_be_analyzed(legitimize, analyze),
{
    if slot.splits() {
        assert forall|p: Program<N>, entries: Seq<BindingView>| #[trigger]
            split_into(legitimize, slot.ast->0.members(), p.body@, entries) implies analyzes(
            analyze,
            p,
            entries,
        ) by {
            law_split_module_in_order(legitimize, slot.ast->0.members(), p.body@, entries);
            assert forall|scoping: Scoping| #[trigger]
                analyzed_by(analyze, p.body@, entries.len(), scoping) implies binds_all(
                scoping,
                entries,
            ) by {
                let (q, stats) = choose|q: &Program<N>, stats: SemanticStats| #[trigger]
                    call_ensures(analyze, (q, stats), scoping) && q.body@ == p.body@
                        && stats.fit(entries.len());
                assert forall|k: int| 0 <= k < entries.len() implies encode_utf8(
                    (#[trigger] entries[k]).0,
                ).len() <= u32::MAX && scoping_scopes(scoping)[0].contains_key(entries[k].0) by {
                    assert(q.body@[k] is VarDeclaration);
                }
            }
        }
    }
}

/// What a slot shows of a module are the entries of the tables, field by field.
pub proof fn law_slots_show_the_tables<N>(stage: LinkStage<N>, i: int)
    ensures
        ({
            let slot = stage.slot(i);
            &&& slot.ast == stage.ast_table@[i]
            &&& slot.meta == stage.metas@[i]
            &&& slot.symbols.owner == stage.symbols@[i].owner_idx
            &&& slot.symbols.root_scope == stage.symbols@[i].root_scope_id
            &&& slot.symbols.symbols == scoping_symbols(stage.symbols@[i].scoping)
            &&& slot.symbols.scopes == scoping_scopes(stage.symbols@[i].scoping)
            &&& slot.stmts.len() == stage.stmt_infos@[i].infos@.len()
            &&& forall|j: int|
                0 <= j < slot.stmts.len() ==> {
                    let info = stage.stmt_infos@[i].infos@[j];
                    &&& (#[trigger] slot.stmts[j]).declared == declared_symbols(
                        info.declared_symbols,
                    )
                    &&& slot.stmts[j].referenced == info.referenced_symbols@
                    &&& slot.stmts[j].eval_flags == info.eval_flags
                }
            &&& slot.module is Normal <==> stage.modules@[i] is Normal
            &&& stage.modules@[i] matches Module::Normal(module) ==> {
                let view = slot.module->Normal_0;
                &&& view.idx == module.idx
                &&& view.module_type == module.module_type
                &&& view.exports_kind == module.exports_kind
                &&& view.has_lazy_export == module.has_lazy_export
                &&& view.namespace_object_ref == module.namespace_object_ref
                &&& view.default_export_ref == module.default_export_ref
                &&& view.hmr_hot_ref == module.hmr_hot_ref
                &&& view.named_exports == module.named_exports@
                &&& view.uses_module_ref == module.uses_module_ref
            }
        }),
{
}

/// A lazy-export module that is not split, because it is CommonJS, not JSON, or has no object
/// literal, exports `default` as its default export symbol and nothing else that it did not export
/// before. Its first statement after the namespace statement declares that symbol on top of what it
/// declared, and no other statement info changes. A CommonJS module stays one, that statement is
/// kept for its effect, and the module uses `module`; any other becomes an ES module. Its syntax
/// tree is the payload, assigned to `module.exports` or exported as `default`. All else is kept.
pub proof fn law_unsplit_module_exports_its_value<
    N,
    F: Fn(&str, &JsonBindings) -> String,
    G: Fn(&Program<N>, SemanticStats) -> Scoping,
>(
    legitimize: F,
    analyze: G,
    before: LinkStage<N>,
    after: LinkStage<N>,
    i: int,
    payload: Expression<N>,
)
    requires
        slot_linked(legitimize, analyze, before.slot(i), after.slot(i)),
        before.modules@[i] is Normal,
        before.modules@[i]->Normal_0.has_lazy_export,
        before.ast_table@[i] is Some,
        before.ast_table@[i]->0.body@.len() > 0,
        before.ast_table@[i]->0.body@[0] == Statement::ExpressionStatement(payload),
        before.modules@[i]->Normal_0.exports_kind is CommonJs
            || !(before.modules@[i]->Normal_0.module_type is Json) || !(payload.stripped()
            is ObjectExpression),
        before.stmt_infos@[i].infos@.len() > 1,
    ensures
        after.modules@[i] is Normal,
        ({
            let old_module = before.modules@[i]->Normal_0;
            let module = after.modules@[i]->Normal_0;
            let is_commonjs = old_module.exports_kind is CommonJs;
            &&& module.named_exports@.contains_key("default"@)
            &&& module.named_exports@["default"@].referenced == old_module.default_export_ref
            &&& !module.named_exports@["default"@].came_from_commonjs
            &&& module.named_exports@["default"@].span == (Span { start: 0, end: 0 })
            &&& forall|name: Seq<char>|
                name != "default"@ ==> {
                    &&& #[trigger] module.named_exports@.contains_key(name)
                        == old_module.named_exports@.contains_key(name)
                    &&& old_module.named_exports@.contains_key(name) ==> module.named_exports@[name]
                        == old_module.named_exports@[name]
                }
            &&& module.default_export_ref == old_module.default_export_ref
            &&& module.namespace_object_ref == old_module.namespace_object_ref
            &&& module.hmr_hot_ref == old_module.hmr_hot_ref
            &&& module.idx == old_module.idx
            &&& module.module_type == old_module.module_type
            &&& module.has_lazy_export
            &&& is_commonjs ==> module.exports_kind is CommonJs && module.uses_module_ref
            &&& !is_commonjs ==> module.exports_kind is Esm && module.uses_module_ref
                == old_module.uses_module_ref
        }),
        ({
            let old_infos = before.stmt_infos@[i].infos@;
            let infos = after.stmt_infos@[i].infos@;
            &&& infos.len() == old_infos.len()
            &&& declared_symbols(infos[1].declared_symbols) == declared_symbols(
                old_infos[1].declared_symbols,
            ).push(TaggedSymbolRef::Normal(before.modules@[i]->Normal_0.default_export_ref))
            &&& infos[1].referenced_symbols@ == old_infos[1].referenced_symbols@
            &&& infos[1].eval_flags == (old_infos[1].eval_flags
                || before.modules@[i]->Normal_0.exports_kind is CommonJs)
            &&& forall|j: int|
                0 <= j < infos.len() && j != 1 ==> {
                    &&& declared_symbols((#[trigger] infos[j]).declared_symbols)
                        == declared_symbols(old_infos[j].declared_symbols)
                    &&& infos[j].referenced_symbols@ == old_infos[j].referenced_symbols@
                    &&& infos[j].eval_flags == old_infos[j].eval_flags
                }
        }),
        after.ast_table@[i] is Some,
        ({
            let body = after.ast_table@[i]->0.body@;
            let old_body = before.ast_table@[i]->0.body@;
            &&& body.len() == old_body.len()
            &&& before.modules@[i]->Normal_0.exports_kind is CommonJs ==> body[0]
                == Statement::ModuleExports(payload)
            &&& !(before.modules@[i]->Normal_0.exports_kind is CommonJs) ==> body[0]
                == Statement::ExportDefault(payload)
            &&& forall|j: int| 1 <= j < body.len() ==> #[trigger] body[j] == old_body[j]
        }),
        after.symbols@[i].owner_idx == before.symbols@[i].owner_idx,
        after.symbols@[i].root_scope_id == before.symbols@[i].root_scope_id,
        scoping_symbols(after.symbols@[i].scoping) == scoping_symbols(before.symbols@[i].scoping),
        scoping_scopes(after.symbols@[i].scoping) == scoping_scopes(before.symbols@[i].scoping),
        after.metas@[i] == before.metas@[i],
{
    let (x, y) = (before.slot(i), after.slot(i));
    let module = x.module->Normal_0;
    law_slots_show_the_tables(before, i);
    law_slots_show_the_tables(after, i);
    let outcome = lemma_linked_outcome(legitimize, analyze, x, y);
    law_payload_is_wrapped_whole(
        legitimize,
        x.ast->0,
        module.is_json(),
        module.is_commonjs(),
        y.ast->0,
        outcome,
        payload,
    );
    let old_infos = before.stmt_infos@[i].infos@;
    let infos = after.stmt_infos@[i].infos@;
    assert(y.stmts.len() == x.stmts.len());
    assert(x.stmts[1].declared == declared_symbols(old_infos[1].declared_symbols));
    assert(y.stmts[1].declared == declared_symbols(infos[1].declared_symbols));
    assert forall|j: int| 0 <= j < infos.len() && j != 1 implies {
        &&& declared_symbols((#[trigger] infos[j]).declared_symbols) == declared_symbols(
            old_infos[j].declared_symbols,
        )
        &&& infos[j].referenced_symbols@ == old_infos[j].referenced_symbols@
        &&& infos[j].eval_flags == old_infos[j].eval_flags
    } by {
        assert(y.stmts[j] == x.stmts[j]);
    }
}

/// All that statements refer to is what each of them refers to, one after the other.
proof fn lemma_all_referenced(infos: Seq<StmtInfo>)
    ensures
        all_referenced(infos.map_values(|info: StmtInfo| info@)) == infos.map_values(
            |info: StmtInfo| info.referenced_symbols@,
        ).flatten(),
    decreases infos.len(),
{
    let views = infos.map_values(|info: StmtInfo| info@);
    let refs = infos.map_values(|info: StmtInfo| info.referenced_symbols@);
    refs.lemma_flatten_and_flatten_alt_are_equivalent();
    if infos.len() > 0 {
        let rest = infos.drop_last();
        lemma_all_referenced(rest);
        let rest_refs = rest.map_values(|info: StmtInfo| info.referenced_symbols@);
        rest_refs.lemma_flatten_and_flatten_alt_are_equivalent();
        assert(views.drop_last() =~= rest.map_values(|info: StmtInfo| info@));
        assert(refs.drop_last() =~= rest_refs);
        assert(views.last().referenced == refs.last());
    }
}

/// The binding table of a split module and what was found in it, with what they have to do with its
/// slot.
proof fn lemma_split_slot<
    N,
    F: Fn(&str, &JsonBindings) -> String,
    G: Fn(&Program<N>, SemanticStats) -> Scoping,
>(
    legitimize: F,
    analyze: G,
    before: LinkStage<N>,
    after: LinkStage<N>,
    i: int,
    payload: Expression<N>,
) -> (r: (Seq<BindingView>, Scoping))
    requires
        slot_linked(legitimize, analyze, before.slot(i), after.slot(i)),
        before.modules@[i] is Normal,
        before.modules@[i]->Normal_0.has_lazy_export,
        before.modules@[i]->Normal_0.idx == i,
        before.modules@[i]->Normal_0.module_type is Json,
        !(before.modules@[i]->Normal_0.exports_kind is CommonJs),
        before.ast_table@[i] is Some,
        before.ast_table@[i]->0.body@.len() > 0,
        before.ast_table@[i]->0.body@[0] == Statement::ExpressionStatement(payload),
        payload.stripped() is ObjectExpression,
    ensures
        after.ast_table@[i] is Some,
        split_into(
            legitimize,
            payload.stripped()->ObjectExpression_0@,
            after.ast_table@[i]->0.body@,
            r.0,
        ),
        analyzed_by(analyze, after.ast_table@[i]->0.body@, r.0.len(), r.1),
        after.slot(i) == json_recorded(
            (SlotView { ast: after.ast_table@[i], ..before.slot(i) }),
            i as usize,
            r.0,
            r.1,
        ),
        ({
            let body = after.ast_table@[i]->0.body@;
            &&& body.len() == r.0.len() + 2
            &&& body.last() is ExportNamed
            &&& body.last()->specifiers@.len() == r.0.len()
            &&& forall|k: int|
                #![trigger r.0[k]]
                #![trigger body.last()->specifiers@[k]]
                0 <= k < r.0.len() ==> {
                    &&& body.last()->specifiers@[k].local@ == r.0[k].0
                    &&& body.last()->specifiers@[k].exported@ == r.0[k].1.0
                }
        }),
{
    let (x, y) = (before.slot(i), after.slot(i));
    law_slots_show_the_tables(before, i);
    law_slots_show_the_tables(after, i);
    let outcome = lemma_linked_outcome(legitimize, analyze, x, y);
    law_object_is_split_by_its_members(legitimize, x.ast->0, y.ast->0, outcome, payload);
    let members = payload.stripped()->ObjectExpression_0@;
    let entries = binding_entries(outcome->EsmJsonObject_0);
    law_split_module_in_order(legitimize, members, y.ast->0.body@, entries);
    let scoping = lemma_recorded_scoping(analyze, x, y, entries);
    (entries, scoping)
}

/// A lazy JSON module with an object literal that is not CommonJS is split by the members of that
/// literal and analyzed: the semantic analysis is run on its new syntax tree, told to expect a
/// single scope, a symbol for each exported variable, two references to each, and as many nodes
/// rounded up to a power of two. Its new symbol table is what was found, with the namespace object, the default
/// export and the hot reference, if it has one, added at the end under their old names.
pub proof fn law_split_module_is_analyzed<
    N,
    F: Fn(&str, &JsonBindings) -> String,
    G: Fn(&Program<N>, SemanticStats) -> Scoping,
>(
    legitimize: F,
    analyze: G,
    before: LinkStage<N>,
    after: LinkStage<N>,
    i: int,
    payload: Expression<N>,
) -> (found: (Program<N>, SemanticStats, Scoping))
    requires
        slot_linked(legitimize, analyze, before.slot(i), after.slot(i)),
        before.modules@[i] is Normal,
        before.modules@[i]->Normal_0.has_lazy_export,
        before.modules@[i]->Normal_0.idx == i,
        before.modules@[i]->Normal_0.module_type is Json,
        !(before.modules@[i]->Normal_0.exports_kind is CommonJs),
        before.ast_table@[i] is Some,
        before.ast_table@[i]->0.body@.len() > 0,
        before.ast_table@[i]->0.body@[0] == Statement::ExpressionStatement(payload),
        payload.stripped() is ObjectExpression,
    ensures
        after.ast_table@[i] is Some,
        exists|entries: Seq<BindingView>| #[trigger]
            split_into(
                legitimize,
                payload.stripped()->ObjectExpression_0@,
                after.ast_table@[i]->0.body@,
                entries,
            ),
        ({
            let n = after.ast_table@[i]->0.body@.last()->specifiers@.len();
            &&& call_ensures(analyze, (&found.0, found.1), found.2)
            &&& found.0.body@ == after.ast_table@[i]->0.body@
            &&& found.1.scopes == 1
            &&& found.1.symbols == n
            &&& found.1.references == n + n
            &&& found.1.nodes >= n
            &&& exists|e: nat| found.1.nodes == #[trigger] pow2(e)
            &&& forall|e: nat| #[trigger] pow2(e) >= n ==> found.1.nodes <= pow2(e)
        }),
        ({
            let old_module = before.modules@[i]->Normal_0;
            let module = after.modules@[i]->Normal_0;
            let old_names = scoping_symbols(before.symbols@[i].scoping);
            let symbols = scoping_symbols(after.symbols@[i].scoping);
            let len = scoping_symbols(found.2).len() as int;
            &&& after.symbols@[i].owner_idx == i
            &&& after.symbols@[i].root_scope_id == 0
            &&& scoping_scopes(after.symbols@[i].scoping) == scoping_scopes(found.2)
            &&& symbols.len() == len + 2 + (if old_module.hmr_hot_ref is Some {
                1int
            } else {
                0int
            })
            &&& symbols.take(len) == scoping_symbols(found.2)
            &&& symbols[len] == (old_names[old_module.namespace_object_ref.symbol as int].0, 0u32)
            &&& symbols[len + 1] == (old_names[old_module.default_export_ref.symbol as int].0, 0u32)
            &&& module.namespace_object_ref.owner == i
            &&& module.namespace_object_ref.symbol == len as u32
            &&& module.default_export_ref.owner == i
            &&& module.default_export_ref.symbol == (len + 1) as u32
            &&& module.hmr_hot_ref is Some <==> old_module.hmr_hot_ref is Some
            &&& module.hmr_hot_ref is Some ==> {
                &&& symbols[len + 2] == (
                    old_names[old_module.hmr_hot_ref->0.symbol as int].0,
                    0u32,
                )
                &&& module.hmr_hot_ref->0.owner == i
                &&& module.hmr_hot_ref->0.symbol == (len + 2) as u32
            }
        }),
{
    let (entries, scoping) = lemma_split_slot(legitimize, analyze, before, after, i, payload);
    law_slots_show_the_tables(before, i);
    law_slots_show_the_tables(after, i);
    let y = after.slot(i);
    let body = after.ast_table@[i]->0.body@;
    assert(y.symbols.symbols.take(scoping_symbols(scoping).len() as int) =~= scoping_symbols(
        scoping,
    ));
    let (p, stats) = choose|p: &Program<N>, stats: SemanticStats| #[trigger]
        call_ensures(analyze, (p, stats), scoping) && p.body@ == body && stats.fit(
            entries.len(),
        );
    law_expectations_of_an_analysis(stats, entries.len());
    (*p, stats, scoping)
}

/// A split module is an ES module that is not wrapped. Its place, its type, that its exports are
/// lazy, and whether it uses `module` are kept.
pub proof fn law_split_module_is_esm_and_not_wrapped<
    N,
    F: Fn(&str, &JsonBindings) -> String,
    G: Fn(&Program<N>, SemanticStats) -> Scoping,
>(
    legitimize: F,
    analyze: G,
    before: LinkStage<N>,
    after: LinkStage<N>,
    i: int,
    payload: Expression<N>,
)
    requires
        slot_linked(legitimize, analyze, before.slot(i), after.slot(i)),
        before.modules@[i] is Normal,
        before.modules@[i]->Normal_0.has_lazy_export,
        before.modules@[i]->Normal_0.idx == i,
        before.modules@[i]->Normal_0.module_type is Json,
        !(before.modules@[i]->Normal_0.exports_kind is CommonJs),
        before.ast_table@[i] is Some,
        before.ast_table@[i]->0.body@.len() > 0,
        before.ast_table@[i]->0.body@[0] == Statement::ExpressionStatement(payload),
        payload.stripped() is ObjectExpression,
    ensures
        after.modules@[i] is Normal,
        ({
            let old_module = before.modules@[i]->Normal_0;
            let module = after.modules@[i]->Normal_0;
            &&& module.exports_kind is Esm
            &&& module.idx == old_module.idx
            &&& module.module_type is Json
            &&& module.has_lazy_export
            &&& module.uses_module_ref == old_module.uses_module_ref
        }),
        after.metas@[i].wrapper_stmt_info is None,
        after.metas@[i].wrapper_ref is None,
        after.metas@[i].wrap_kind is Unwrapped,
{
    let (entries, scoping) = lemma_split_slot(legitimize, analyze, before, after, i, payload);
    law_slots_show_the_tables(before, i);
    law_slots_show_the_tables(after, i);
}

/// What a split module exports, told by an export list that says what its binding table says.
proof fn lemma_list_is_exported<N>(
    before: SlotView<N>,
    idx: ModuleIdx,
    entries: Seq<BindingView>,
    scoping: Scoping,
    specifiers: Seq<ExportSpecifier>,
)
    requires
        specifiers.len() == entries.len(),
        forall|k: int|
            #![trigger entries[k]]
            #![trigger specifiers[k]]
            0 <= k < entries.len() ==> specifiers[k].local@ == entries[k].0
                && specifiers[k].exported@ == entries[k].1.0,
    ensures
        ({
            let old_exports = before.module->Normal_0.named_exports;
            let after = json_recorded(before, idx, entries, scoping);
            let exports = after.module->Normal_0.named_exports;
            let root = after.symbols.scopes[0];
            &&& exports.contains_key("default"@)
            &&& exports["default"@].referenced == after.module->Normal_0.default_export_ref
            &&& !exports["default"@].came_from_commonjs
            &&& exports["default"@].span == (Span { start: 0, end: 0 })
            &&& forall|k: int|
                0 <= k < specifiers.len() && specifiers[k].exported@ != "default"@ && (forall|
                    l: int,
                |
                    k < l < specifiers.len() ==> (#[trigger] specifiers[l]).exported@
                        != specifiers[k].exported@) ==> {
                    let export = exports[(#[trigger] specifiers[k]).exported@];
                    &&& exports.contains_key(specifiers[k].exported@)
                    &&& export.referenced.owner == idx
                    &&& export.referenced.symbol == root[specifiers[k].local@]
                    &&& !export.came_from_commonjs
                    &&& export.span == (Span { start: 0, end: 0 })
                }
            &&& forall|name: Seq<char>|
                name != "default"@ && (forall|k: int|
                    0 <= k < specifiers.len() ==> (#[trigger] specifiers[k]).exported@ != name)
                    ==> {
                    &&& #[trigger] exports.contains_key(name) == old_exports.contains_key(name)
                    &&& old_exports.contains_key(name) ==> exports[name] == old_exports[name]
                }
        }),
{
    law_bindings_are_exported(before, idx, entries, scoping);
    let old_exports = before.module->Normal_0.named_exports;
    let after = json_recorded(before, idx, entries, scoping);
    let exports = after.module->Normal_0.named_exports;
    let root = after.symbols.scopes[0];
    assert(exports["default"@] == LocalExport::of(after.module->Normal_0.default_export_ref));
    assert forall|k: int|
        0 <= k < specifiers.len() && specifiers[k].exported@ != "default"@ && (forall|l: int|
            k < l < specifiers.len() ==> (#[trigger] specifiers[l]).exported@
                != specifiers[k].exported@) implies {
        let export = exports[(#[trigger] specifiers[k]).exported@];
        &&& exports.contains_key(specifiers[k].exported@)
        &&& export.referenced.owner == idx
        &&& export.referenced.symbol == root[specifiers[k].local@]
        &&& !export.came_from_commonjs
        &&& export.span == (Span { start: 0, end: 0 })
    } by {
        assert(entries[k].1.0 == specifiers[k].exported@);
        assert forall|l: int| k < l < entries.len() implies (#[trigger] entries[l]).1.0
            != entries[k].1.0 by {
            assert(specifiers[l].exported@ == entries[l].1.0);
        }
    }
    assert forall|name: Seq<char>|
        name != "default"@ && (forall|k: int|
            0 <= k < specifiers.len() ==> (#[trigger] specifiers[k]).exported@ != name) implies {
        &&& #[trigger] exports.contains_key(name) == old_exports.contains_key(name)
        &&& old_exports.contains_key(name) ==> exports[name] == old_exports[name]
    } by {
        assert forall|k: int| 0 <= k < entries.len() implies (#[trigger] entries[k]).1.0
            != name by {
            assert(specifiers[k].exported@ == entries[k].1.0);
        }
    }
}

/// Each variable in the export list of a split module is exported, under the name in the list, as
/// the symbol that it is bound to at the top level, unless a later one or the default export takes
/// the name. `default` is the default export symbol, and what the list does not name stays as it
/// was.
pub proof fn law_split_module_exports_its_list<
    N,
    F: Fn(&str, &JsonBindings) -> String,
    G: Fn(&Program<N>, SemanticStats) -> Scoping,
>(
    legitimize: F,
    analyze: G,
    before: LinkStage<N>,
    after: LinkStage<N>,
    i: int,
    payload: Expression<N>,
)
    requires
        slot_linked(legitimize, analyze, before.slot(i), after.slot(i)),
        before.modules@[i] is Normal,
        before.modules@[i]->Normal_0.has_lazy_export,
        before.modules@[i]->Normal_0.idx == i,
        before.modules@[i]->Normal_0.module_type is Json,
        !(before.modules@[i]->Normal_0.exports_kind is CommonJs),
        before.ast_table@[i] is Some,
        before.ast_table@[i]->0.body@.len() > 0,
        before.ast_table@[i]->0.body@[0] == Statement::ExpressionStatement(payload),
        payload.stripped() is ObjectExpression,
    ensures
        ({
            let old_exports = before.modules@[i]->Normal_0.named_exports@;
            let exports = after.modules@[i]->Normal_0.named_exports@;
            let specifiers = after.ast_table@[i]->0.body@.last()->specifiers@;
            let root = scoping_scopes(after.symbols@[i].scoping)[0];
            &&& exports.contains_key("default"@)
            &&& exports["default"@].referenced == after.modules@[i]->Normal_0.default_export_ref
            &&& !exports["default"@].came_from_commonjs
            &&& exports["default"@].span == (Span { start: 0, end: 0 })
            &&& forall|k: int|
                0 <= k < specifiers.len() && specifiers[k].exported@ != "default"@ && (forall|
                    l: int,
                |
                    k < l < specifiers.len() ==> (#[trigger] specifiers[l]).exported@
                        != specifiers[k].exported@) ==> {
                    let export = exports[(#[trigger] specifiers[k]).exported@];
                    &&& exports.contains_key(specifiers[k].exported@)
                    &&& export.referenced.owner == i
                    &&& export.referenced.symbol == root[specifiers[k].local@]
                    &&& !export.came_from_commonjs
                    &&& export.span == (Span { start: 0, end: 0 })
                }
            &&& forall|name: Seq<char>|
                name != "default"@ && (forall|k: int|
                    0 <= k < specifiers.len() ==> (#[trigger] specifiers[k]).exported@ != name)
                    ==> {
                    &&& #[trigger] exports.contains_key(name) == old_exports.contains_key(name)
                    &&& old_exports.contains_key(name) ==> exports[name] == old_exports[name]
                }
        }),
{
    let (entries, scoping) = lemma_split_slot(legitimize, analyze, before, after, i, payload);
    law_slots_show_the_tables(before, i);
    law_slots_show_the_tables(after, i);
    let specifiers = after.ast_table@[i]->0.body@.last()->specifiers@;
    let lowered = SlotView { ast: after.ast_table@[i], ..before.slot(i) };
    lemma_list_is_exported(lowered, i as usize, entries, scoping, specifiers);
    let module = json_recorded(lowered, i as usize, entries, scoping).module->Normal_0;
    assert(after.slot(i).module->Normal_0 == module);
    assert(after.modules@[i]->Normal_0.named_exports@ == module.named_exports);
}

/// The statement infos of a split module are one for the namespace object, one for each variable of
/// the export list, in order, and one for the default export. Each declares just its symbol, and
/// none has an effect of its own, so that every one of them can be dropped. Those of the variables
/// refer to nothing; the first and the last refer to all that the removed statements referred to,
/// and then to all the variables.
pub proof fn law_split_module_can_be_shaken<
    N,
    F: Fn(&str, &JsonBindings) -> String,
    G: Fn(&Program<N>, SemanticStats) -> Scoping,
>(
    legitimize: F,
    analyze: G,
    before: LinkStage<N>,
    after: LinkStage<N>,
    i: int,
    payload: Expression<N>,
)
    requires
        slot_linked(legitimize, analyze, before.slot(i), after.slot(i)),
        before.modules@[i] is Normal,
        before.modules@[i]->Normal_0.has_lazy_export,
        before.modules@[i]->Normal_0.idx == i,
        before.modules@[i]->Normal_0.module_type is Json,
        !(before.modules@[i]->Normal_0.exports_kind is CommonJs),
        before.ast_table@[i] is Some,
        before.ast_table@[i]->0.body@.len() > 0,
        before.ast_table@[i]->0.body@[0] == Statement::ExpressionStatement(payload),
        payload.stripped() is ObjectExpression,
        before.stmt_infos@[i].infos@.len() > 0,
    ensures
        ({
            let old_infos = before.stmt_infos@[i].infos@;
            let infos = after.stmt_infos@[i].infos@;
            let module = after.modules@[i]->Normal_0;
            let specifiers = after.ast_table@[i]->0.body@.last()->specifiers@;
            let n = specifiers.len() as int;
            let root = scoping_scopes(after.symbols@[i].scoping)[0];
            let all = old_infos.skip(1).map_values(
                |info: StmtInfo| info.referenced_symbols@,
            ).flatten() + Seq::new(
                specifiers.len(),
                |k: int|
                    SymbolOrMemberExprRef::Symbol(
                        SymbolRef { owner: i as usize, symbol: root[specifiers[k].local@] },
                    ),
            );
            &&& infos.len() == n + 2
            &&& forall|j: int| 0 <= j < infos.len() ==> !(#[trigger] infos[j]).eval_flags
            &&& declared_symbols(infos[0].declared_symbols) == seq![
                TaggedSymbolRef::Normal(module.namespace_object_ref),
            ]
            &&& declared_symbols(infos[n + 1].declared_symbols) == seq![
                TaggedSymbolRef::Normal(module.default_export_ref),
            ]
            &&& infos[0].referenced_symbols@ == all
            &&& infos[n + 1].referenced_symbols@ == all
            &&& forall|j: int|
                1 <= j <= n ==> {
                    &&& (#[trigger] infos[j]).referenced_symbols@.len() == 0
                    &&& declared_symbols(infos[j].declared_symbols) == seq![
                        TaggedSymbolRef::Normal(
                            SymbolRef {
                                owner: i as usize,
                                symbol: root[specifiers[j - 1].local@],
                            },
                        ),
                    ]
                }
        }),
{
    let (entries, scoping) = lemma_split_slot(legitimize, analyze, before, after, i, payload);
    law_slots_show_the_tables(before, i);
    law_slots_show_the_tables(after, i);
    let (x, y) = (before.slot(i), after.slot(i));
    let specifiers = after.ast_table@[i]->0.body@.last()->specifiers@;
    let n = entries.len() as int;
    let root = scoping_scopes(scoping)[0];
    let old_infos = before.stmt_infos@[i].infos@;
    let infos = after.stmt_infos@[i].infos@;
    lemma_all_referenced(old_infos.skip(1));
    assert(x.stmts.skip(1) =~= old_infos.skip(1).map_values(|info: StmtInfo| info@));
    let variables = Seq::new(
        specifiers.len(),
        |k: int|
            SymbolOrMemberExprRef::Symbol(
                SymbolRef { owner: i as usize, symbol: root[specifiers[k].local@] },
            ),
    );
    let all = old_infos.skip(1).map_values(
        |info: StmtInfo| info.referenced_symbols@,
    ).flatten() + variables;
    let symbols = json_symbols(x.stmts, entries, root, i as usize);
    assert(symbols =~= all) by {
        assert forall|k: int| 0 <= k < n implies #[trigger] variables[k]
            == SymbolOrMemberExprRef::Symbol(local_symbol(root, i as usize, entries[k].0)) by {
            assert(specifiers[k].local@ == entries[k].0);
        }
    }
    assert(y.stmts[0].referenced == symbols);
    assert(y.stmts[n + 1].referenced == symbols);
    assert forall|j: int| 0 <= j < infos.len() implies !(#[trigger] infos[j]).eval_flags by {
        assert(y.stmts[j].eval_flags == infos[j].eval_flags);
    }
    assert forall|j: int| 1 <= j <= n implies {
        &&& (#[trigger] infos[j]).referenced_symbols@.len() == 0
        &&& declared_symbols(infos[j].declared_symbols) == seq![
            TaggedSymbolRef::Normal(
                SymbolRef { owner: i as usize, symbol: root[specifiers[j - 1].local@] },
            ),
        ]
    } by {
        assert(y.stmts[j].declared == declared_symbols(infos[j].declared_symbols));
        assert(specifiers[j - 1].local@ == entries[j - 1].0);
    }
}

} // verus!
