use lazy_export::ast::{
    Expression, ObjectProperty, ObjectPropertyKind, Program, PropertyKey, Statement,
};
use lazy_export::bindings::{is_legal_identifier, JsonBindings};
use lazy_export::generate_lazy_export::{prepare_lazy_module, LazyModuleInfo};
use lazy_export::json_exports::{
    finds_all_locals, knows_facades, record_json_object_exports, record_with_scoping,
    try_record_with_scoping,
};
use lazy_export::link_stage::{update_module_default_export_info, LinkStage};
use lazy_export::lowering::lower_lazy_export;
use lazy_export::module::{
    ExportsKind, LinkingMetadata, LocalExport, Module, ModuleType, NormalModule, Span, WrapKind,
};
use lazy_export::semantic_stats::SemanticStats;
use lazy_export::stmt_info::{
    StmtInfo, StmtInfos, SymbolOrMemberExprRef, TaggedSymbolRef, FIRST_TOP_LEVEL_STMT_IDX,
};
use lazy_export::symbols::{SymbolRef, SymbolRefDbForModule};
use oxc::semantic::Scoping;
use oxc::span::SPAN;
use oxc::syntax::node::NodeId;
use oxc::syntax::scope::ScopeFlags;
use oxc::syntax::symbol::SymbolFlags;
use std::cell::RefCell;
use vstd::hash_map::StringHashMap;

type Node = u32;

/// A symbol table whose root scope binds the given names, after `skip` symbols that it does not.
fn scoping_of(skip: usize, names: &[&str]) -> Scoping {
    let mut scoping = Scoping::default();
    let root = scoping.add_scope(None, NodeId::DUMMY, ScopeFlags::Top);
    for _ in 0..skip {
        scoping.create_symbol(SPAN, "hidden".into(), SymbolFlags::None, root, NodeId::DUMMY);
    }
    for name in names {
        let id = scoping.create_symbol(
            SPAN,
            (*name).into(),
            SymbolFlags::FunctionScopedVariable,
            root,
            NodeId::DUMMY,
        );
        scoping.add_binding(root, (*name).into(), id);
    }
    scoping
}

fn analyze(program: &Program<Node>, _stats: SemanticStats) -> Scoping {
    let mut names: Vec<&str> = Vec::new();
    for stmt in &program.body {
        if let Statement::VarDeclaration { local, .. } = stmt {
            names.push(local.as_str());
        }
    }
    scoping_of(5, &names)
}

fn keep(key: &str, _bindings: &JsonBindings) -> String {
    key.to_string()
}

fn sym(owner: usize, symbol: u32) -> SymbolRef {
    SymbolRef { owner, symbol }
}

fn export_of(referenced: SymbolRef) -> LocalExport {
    LocalExport { span: Span { start: 0, end: 0 }, referenced, came_from_commonjs: false }
}

fn normal(idx: usize, module_type: ModuleType, exports_kind: ExportsKind) -> NormalModule {
    NormalModule {
        idx,
        module_type,
        exports_kind,
        has_lazy_export: true,
        namespace_object_ref: sym(idx, 0),
        default_export_ref: sym(idx, 1),
        hmr_hot_ref: None,
        named_exports: StringHashMap::new(),
        uses_module_ref: false,
    }
}

fn two_stmts() -> StmtInfos {
    let mut infos = StmtInfos { infos: Vec::new() };
    infos.add_stmt_info(StmtInfo::default());
    infos.add_stmt_info(StmtInfo::default());
    infos
}

fn meta() -> LinkingMetadata {
    LinkingMetadata {
        wrapper_stmt_info: Some(4),
        wrapper_ref: Some(sym(9, 9)),
        wrap_kind: WrapKind::Esm,
    }
}

fn member(key: &str, value: Node) -> ObjectPropertyKind<Node> {
    ObjectPropertyKind::ObjectProperty(ObjectProperty {
        key: PropertyKey::StringLiteral(key.to_string()),
        value: Expression::Other(value),
        shorthand: false,
        computed: false,
    })
}

fn object(keys: &[&str]) -> Program<Node> {
    let members = keys.iter().zip(0u32..).map(|(key, value)| member(key, value)).collect();
    Program { body: vec![Statement::ExpressionStatement(Expression::ObjectExpression(members))] }
}

fn payload(value: Node) -> Program<Node> {
    Program { body: vec![Statement::ExpressionStatement(Expression::Other(value))] }
}

fn push(stage: &mut LinkStage<Node>, module: Module, ast: Option<Program<Node>>) {
    let idx = stage.modules.len();
    stage.modules.push(module);
    stage.stmt_infos.push(two_stmts());
    stage.ast_table.push(ast);
    let names = scoping_of(0, &["json_ns", "json_default", "json_hot"]);
    stage.symbols.push(SymbolRefDbForModule::new(names, idx));
    stage.metas.push(meta());
}

fn empty_stage() -> LinkStage<Node> {
    LinkStage {
        modules: Vec::new(),
        stmt_infos: Vec::new(),
        ast_table: Vec::new(),
        symbols: Vec::new(),
        metas: Vec::new(),
    }
}

fn stage_of(module: NormalModule, ast: Program<Node>) -> LinkStage<Node> {
    let mut stage = empty_stage();
    push(&mut stage, Module::Normal(module), Some(ast));
    stage
}

fn normal_at(stage: &LinkStage<Node>, idx: usize) -> &NormalModule {
    match &stage.modules[idx] {
        Module::Normal(module) => module,
        Module::External => panic!("an external module"),
    }
}

fn declared(stage: &LinkStage<Node>, idx: usize, stmt: usize) -> Vec<TaggedSymbolRef> {
    stage.stmt_infos[idx].infos[stmt].declared_symbols.as_slice().to_vec()
}

#[test]
fn commonjs_module_gets_module_exports() {
    let mut stage =
        stage_of(normal(0, ModuleType::Json, ExportsKind::CommonJs), object(&["a"]));
    stage.generate_lazy_export(&keep, &analyze);
    let module = normal_at(&stage, 0);
    assert_eq!(module.exports_kind, ExportsKind::CommonJs);
    assert!(module.uses_module_ref);
    assert_eq!(module.named_exports.get("default"), Some(&export_of(sym(0, 1))));
    assert_eq!(module.named_exports.len(), 1);
    assert_eq!(declared(&stage, 0, 1), vec![TaggedSymbolRef::Normal(sym(0, 1))]);
    assert!(stage.stmt_infos[0].infos[1].eval_flags);
    assert!(!stage.stmt_infos[0].infos[0].eval_flags);
    let ast = stage.ast_table[0].as_ref().unwrap();
    assert!(matches!(ast.body[0], Statement::ModuleExports(Expression::ObjectExpression(_))));
    assert_eq!(stage.metas[0], meta());
}

#[test]
fn text_module_gets_a_default_export() {
    let mut stage = stage_of(normal(0, ModuleType::Text, ExportsKind::Unknown), payload(3));
    stage.generate_lazy_export(&keep, &analyze);
    let module = normal_at(&stage, 0);
    assert_eq!(module.exports_kind, ExportsKind::Esm);
    assert!(!module.uses_module_ref);
    assert_eq!(module.named_exports.get("default"), Some(&export_of(sym(0, 1))));
    assert_eq!(declared(&stage, 0, 1), vec![TaggedSymbolRef::Normal(sym(0, 1))]);
    assert!(!stage.stmt_infos[0].infos[1].eval_flags);
    assert_eq!(
        stage.ast_table[0].as_ref().unwrap().body,
        vec![Statement::ExportDefault(Expression::Other(3))]
    );
    assert_eq!(stage.metas[0], meta());
}

#[test]
fn json_without_object_records_its_default_export_once() {
    let mut stage = stage_of(normal(0, ModuleType::Json, ExportsKind::Unknown), payload(4));
    stage.generate_lazy_export(&keep, &analyze);
    let module = normal_at(&stage, 0);
    assert_eq!(module.exports_kind, ExportsKind::Esm);
    assert_eq!(module.named_exports.get("default"), Some(&export_of(sym(0, 1))));
    assert_eq!(declared(&stage, 0, 1), vec![TaggedSymbolRef::Normal(sym(0, 1))]);
    assert_eq!(stage.symbols[0].symbols_len(), 3);
}

#[test]
fn json_object_exports_every_key() {
    let mut module = normal(0, ModuleType::Json, ExportsKind::Unknown);
    module.hmr_hot_ref = Some(sym(0, 2));
    let mut stage = stage_of(module, object(&["a", "b"]));
    stage.stmt_infos[0].infos[1].referenced_symbols =
        vec![SymbolOrMemberExprRef::MemberExpr(7), SymbolOrMemberExprRef::Symbol(sym(3, 3))];
    stage.generate_lazy_export(&keep, &analyze);

    // Five hidden symbols, then `a` and `b`, then the facades.
    let module = normal_at(&stage, 0);
    assert_eq!(module.namespace_object_ref, sym(0, 7));
    assert_eq!(module.default_export_ref, sym(0, 8));
    assert_eq!(module.hmr_hot_ref, Some(sym(0, 9)));
    assert_eq!(module.exports_kind, ExportsKind::Esm);
    assert_eq!(module.named_exports.len(), 3);
    assert_eq!(module.named_exports.get("a"), Some(&export_of(sym(0, 5))));
    assert_eq!(module.named_exports.get("b"), Some(&export_of(sym(0, 6))));
    assert_eq!(module.named_exports.get("default"), Some(&export_of(sym(0, 8))));

    let symbols = &stage.symbols[0];
    assert_eq!(symbols.symbols_len(), 10);
    assert_eq!(symbols.symbol_name(7), "json_ns");
    assert_eq!(symbols.symbol_name(8), "json_default");
    assert_eq!(symbols.symbol_name(9), "json_hot");
    assert_eq!(symbols.get_root_binding("a"), Some(5));
    assert_eq!(symbols.get_root_binding("json_ns"), None);

    let all = vec![
        SymbolOrMemberExprRef::MemberExpr(7),
        SymbolOrMemberExprRef::Symbol(sym(3, 3)),
        SymbolOrMemberExprRef::Symbol(sym(0, 5)),
        SymbolOrMemberExprRef::Symbol(sym(0, 6)),
    ];
    let infos = &stage.stmt_infos[0].infos;
    assert_eq!(infos.len(), 4);
    assert_eq!(declared(&stage, 0, 0), vec![TaggedSymbolRef::Normal(sym(0, 7))]);
    assert_eq!(declared(&stage, 0, 1), vec![TaggedSymbolRef::Normal(sym(0, 5))]);
    assert_eq!(declared(&stage, 0, 2), vec![TaggedSymbolRef::Normal(sym(0, 6))]);
    assert_eq!(declared(&stage, 0, 3), vec![TaggedSymbolRef::Normal(sym(0, 8))]);
    assert_eq!(infos[0].referenced_symbols, all);
    assert!(infos[1].referenced_symbols.is_empty());
    assert!(infos[2].referenced_symbols.is_empty());
    assert_eq!(infos[3].referenced_symbols, all);
    for info in infos {
        assert!(!info.eval_flags);
    }
    assert_eq!(
        stage.metas[0],
        LinkingMetadata {
            wrapper_stmt_info: None,
            wrapper_ref: None,
            wrap_kind: WrapKind::Unwrapped
        }
    );
    assert_eq!(stage.ast_table[0].as_ref().unwrap().body.len(), 4);
}

#[test]
fn default_export_wins_over_a_key_called_default() {
    let mut stage =
        stage_of(normal(0, ModuleType::Json, ExportsKind::Unknown), object(&["default", "a"]));
    let legitimize = |key: &str, _: &JsonBindings| -> String { format!("_{key}") };
    stage.generate_lazy_export(&legitimize, &analyze);
    let module = normal_at(&stage, 0);
    assert_eq!(
        module.named_exports.get("default"),
        Some(&export_of(module.default_export_ref))
    );
    assert_eq!(module.default_export_ref, sym(0, 8));
    assert_eq!(module.named_exports.get("a"), Some(&export_of(sym(0, 6))));
    assert_eq!(module.named_exports.len(), 2);
}

#[test]
fn analysis_is_told_what_to_expect() {
    let seen: RefCell<Vec<(usize, SemanticStats)>> = RefCell::new(Vec::new());
    let analyze = |program: &Program<Node>, stats: SemanticStats| -> Scoping {
        seen.borrow_mut().push((program.body.len(), stats));
        analyze(program, stats)
    };
    let mut stage = stage_of(
        normal(0, ModuleType::Json, ExportsKind::Unknown),
        object(&["a", "b", "c", "d", "e"]),
    );
    stage.generate_lazy_export(&keep, &analyze);
    assert_eq!(
        seen.into_inner(),
        vec![(7, SemanticStats { nodes: 8, scopes: 1, symbols: 5, references: 10 })]
    );
}

#[test]
fn stats_round_nodes_up_to_a_power_of_two() {
    let stats = |n| SemanticStats::for_bindings(n);
    assert_eq!(stats(0), SemanticStats { nodes: 1, scopes: 1, symbols: 0, references: 0 });
    assert_eq!(stats(1), SemanticStats { nodes: 1, scopes: 1, symbols: 1, references: 2 });
    assert_eq!(stats(3), SemanticStats { nodes: 4, scopes: 1, symbols: 3, references: 6 });
    assert_eq!(stats(4), SemanticStats { nodes: 4, scopes: 1, symbols: 4, references: 8 });
    assert_eq!(
        stats(0x7fff_ffff),
        SemanticStats {
            nodes: 0x8000_0000,
            scopes: 1,
            symbols: 0x7fff_ffff,
            references: 0xffff_fffe
        }
    );
}

#[test]
fn other_modules_are_left_alone() {
    let mut stage = empty_stage();
    push(&mut stage, Module::External, None);
    let mut written = normal(1, ModuleType::Js, ExportsKind::Unknown);
    written.has_lazy_export = false;
    push(&mut stage, Module::Normal(written), Some(payload(1)));
    push(
        &mut stage,
        Module::Normal(normal(2, ModuleType::Base64, ExportsKind::Unknown)),
        Some(payload(2)),
    );
    stage.generate_lazy_export(&keep, &analyze);
    assert!(matches!(stage.modules[0], Module::External));
    assert!(stage.ast_table[0].is_none());
    let written = normal_at(&stage, 1);
    assert_eq!(written.exports_kind, ExportsKind::Unknown);
    assert!(written.named_exports.is_empty());
    assert_eq!(stage.ast_table[1], Some(payload(1)));
    assert!(declared(&stage, 1, 1).is_empty());
    assert_eq!(normal_at(&stage, 2).exports_kind, ExportsKind::Esm);
}

#[test]
fn symbol_tables_are_kept_unless_a_module_is_split() {
    let spans = |stage: &LinkStage<Node>, idx: usize| -> Vec<(u32, SymbolFlags)> {
        let scoping = &stage.symbols[idx].scoping;
        scoping
            .symbol_ids()
            .map(|id| (scoping.symbol_span(id).start, scoping.symbol_flags(id)))
            .collect()
    };
    let mut stage = mixed_stage();
    let mut written = normal(3, ModuleType::Js, ExportsKind::Unknown);
    written.has_lazy_export = false;
    push(&mut stage, Module::Normal(written), Some(payload(1)));
    let before: Vec<Vec<(u32, SymbolFlags)>> = (0..4).map(|idx| spans(&stage, idx)).collect();
    stage.generate_lazy_export(&keep, &analyze);
    for idx in 1..4 {
        assert_eq!(spans(&stage, idx), before[idx]);
        assert_eq!(stage.symbols[idx].get_root_binding("json_ns"), Some(0));
    }
    assert_eq!(stage.symbols[0].get_root_binding("json_ns"), None);
}

#[test]
fn nothing_changes_without_lazy_modules() {
    let mut stage = empty_stage();
    push(&mut stage, Module::External, None);
    let mut written = normal(1, ModuleType::Json, ExportsKind::Unknown);
    written.has_lazy_export = false;
    push(&mut stage, Module::Normal(written), Some(object(&["a"])));
    stage.generate_lazy_export(&keep, &analyze);
    assert!(stage.ast_table[0].is_none());
    assert_eq!(stage.ast_table[1], Some(object(&["a"])));
    assert!(normal_at(&stage, 1).named_exports.is_empty());
    for idx in 0..2 {
        assert_eq!(stage.metas[idx], meta());
        assert_eq!(stage.symbols[idx].symbols_len(), 3);
        assert_eq!(stage.stmt_infos[idx].infos.len(), 2);
        assert!(declared(&stage, idx, FIRST_TOP_LEVEL_STMT_IDX).is_empty());
    }
}

fn mixed_stage() -> LinkStage<Node> {
    let mut stage = empty_stage();
    let kinds = [
        (ModuleType::Json, ExportsKind::Unknown, object(&["a"])),
        (ModuleType::Json, ExportsKind::CommonJs, object(&["a"])),
        (ModuleType::Dataurl, ExportsKind::Esm, payload(1)),
    ];
    for (idx, (module_type, exports_kind, ast)) in kinds.into_iter().enumerate() {
        let module = normal(idx, module_type, exports_kind);
        push(&mut stage, Module::Normal(module), Some(ast));
    }
    stage
}

#[test]
fn lazy_modules_are_collected_with_what_lowering_needs() {
    let mut stage = mixed_stage();
    push(&mut stage, Module::External, None);
    let infos = stage.collect_lazy_modules();
    assert_eq!(
        infos,
        vec![
            LazyModuleInfo { idx: 0, exports_kind: ExportsKind::Unknown, is_json: true },
            LazyModuleInfo { idx: 1, exports_kind: ExportsKind::CommonJs, is_json: true },
            LazyModuleInfo { idx: 2, exports_kind: ExportsKind::Esm, is_json: false },
        ]
    );
    // A JSON module that is not CommonJS defers its exports.
    assert!(normal_at(&stage, 0).named_exports.is_empty());
    assert!(normal_at(&stage, 1).named_exports.contains_key("default"));
    assert!(normal_at(&stage, 2).named_exports.contains_key("default"));
}

#[test]
fn order_of_lowering_does_not_matter() {
    let mut forward = mixed_stage();
    let infos = forward.collect_lazy_modules();
    forward.lower_lazy_modules(infos, &keep, &analyze);

    let mut backward = mixed_stage();
    let mut infos = backward.collect_lazy_modules();
    infos.reverse();
    backward.lower_lazy_modules(infos, &keep, &analyze);

    for idx in 0..3 {
        assert_eq!(forward.ast_table[idx], backward.ast_table[idx]);
        assert_eq!(forward.metas[idx], backward.metas[idx]);
        let (one, other) = (normal_at(&forward, idx), normal_at(&backward, idx));
        assert_eq!(one.exports_kind, other.exports_kind);
        assert_eq!(one.default_export_ref, other.default_export_ref);
        assert_eq!(one.named_exports.get("default"), other.named_exports.get("default"));
        assert_eq!(one.named_exports.get("a"), other.named_exports.get("a"));
        assert_eq!(forward.stmt_infos[idx].infos.len(), backward.stmt_infos[idx].infos.len());
    }
}

#[test]
fn one_module_of_a_stage_can_be_lowered_alone() {
    let mut stage = mixed_stage();
    let infos = stage.collect_lazy_modules();
    stage.lower_lazy_module(infos[2], &keep, &analyze);
    assert_eq!(
        stage.ast_table[2].as_ref().unwrap().body,
        vec![Statement::ExportDefault(Expression::Other(1))]
    );
    assert_eq!(stage.ast_table[0], Some(object(&["a"])));
}

#[test]
fn preparing_records_the_default_export_unless_it_is_deferred() {
    let mut module = normal(0, ModuleType::Json, ExportsKind::Esm);
    let mut infos = two_stmts();
    let info = prepare_lazy_module(&mut module, &mut infos);
    assert_eq!(info, LazyModuleInfo { idx: 0, exports_kind: ExportsKind::Esm, is_json: true });
    assert!(module.named_exports.is_empty());
    assert!(infos.infos[1].declared_symbols.as_slice().is_empty());

    let mut module = normal(0, ModuleType::Text, ExportsKind::CommonJs);
    let info = prepare_lazy_module(&mut module, &mut infos);
    assert!(!info.is_json);
    assert!(module.named_exports.contains_key("default"));
    assert!(module.uses_module_ref);
    assert!(infos.infos[1].eval_flags);
}

#[test]
fn default_export_is_declared_by_the_first_statement() {
    let mut module = normal(0, ModuleType::Text, ExportsKind::Unknown);
    let mut infos = two_stmts();
    infos.declare_symbol_for_stmt(FIRST_TOP_LEVEL_STMT_IDX, TaggedSymbolRef::Linked(sym(1, 1)));
    update_module_default_export_info(&mut module, &mut infos, sym(0, 6));
    assert_eq!(
        infos.infos[1].declared_symbols.as_slice(),
        &[TaggedSymbolRef::Linked(sym(1, 1)), TaggedSymbolRef::Normal(sym(0, 6))]
    );
    assert!(infos.infos[0].declared_symbols.as_slice().is_empty());
    assert_eq!(module.named_exports.get("default"), Some(&export_of(sym(0, 6))));
}

fn bindings(names: &[(&str, &str)]) -> JsonBindings {
    let mut bindings = JsonBindings::default();
    for (local, exported) in names {
        let is_legal = is_legal_identifier(exported);
        bindings.insert(local.to_string(), (exported.to_string(), is_legal));
    }
    bindings
}

#[test]
fn recording_takes_symbols_from_the_analysis() {
    let mut stage =
        stage_of(normal(0, ModuleType::Json, ExportsKind::Unknown), object(&["a", "b"]));
    let names = bindings(&[("x", "a"), ("y", "a")]);
    record_with_scoping(&mut stage, 0, &names, scoping_of(0, &["y", "x"]));
    // Both are exported under one name, and the last one counts.
    let module = normal_at(&stage, 0);
    assert_eq!(module.named_exports.get("a"), Some(&export_of(sym(0, 0))));
    assert_eq!(declared(&stage, 0, 1), vec![TaggedSymbolRef::Normal(sym(0, 1))]);
    assert_eq!(declared(&stage, 0, 2), vec![TaggedSymbolRef::Normal(sym(0, 0))]);
    assert_eq!(stage.ast_table[0], Some(object(&["a", "b"])));
}

#[test]
fn recording_analyzes_the_rewritten_module() {
    let mut stage = stage_of(
        normal(0, ModuleType::Json, ExportsKind::Unknown),
        Program {
            body: vec![Statement::VarDeclaration {
                local: "a".to_string(),
                init: Expression::Other(1),
            }],
        },
    );
    record_json_object_exports(&mut stage, 0, &bindings(&[("a", "a")]), &analyze);
    assert_eq!(normal_at(&stage, 0).named_exports.get("a"), Some(&export_of(sym(0, 5))));
}

#[test]
fn recording_is_refused_where_a_symbol_is_missing() {
    let fresh = || stage_of(normal(0, ModuleType::Json, ExportsKind::Unknown), object(&["a"]));
    let names = bindings(&[("a", "a")]);

    let mut stage = fresh();
    assert!(!try_record_with_scoping(&mut stage, 0, &names, scoping_of(0, &["b"])));
    assert!(normal_at(&stage, 0).named_exports.is_empty());
    assert_eq!(stage.metas[0], meta());

    // A table without a root scope.
    assert!(!try_record_with_scoping(&mut stage, 0, &names, Scoping::default()));

    let mut stage = fresh();
    stage.symbols[0] = SymbolRefDbForModule::new(scoping_of(0, &["only"]), 0);
    assert!(!try_record_with_scoping(&mut stage, 0, &names, scoping_of(0, &["a"])));

    let mut stage = fresh();
    assert!(try_record_with_scoping(&mut stage, 0, &names, scoping_of(0, &["a"])));
    assert_eq!(normal_at(&stage, 0).named_exports.get("a"), Some(&export_of(sym(0, 0))));
}

#[test]
fn missing_locals_and_facades_are_found_out() {
    let names = bindings(&[("a", "a"), ("b", "b")]);
    assert!(finds_all_locals(&scoping_of(2, &["b", "a"]), &names));
    assert!(!finds_all_locals(&scoping_of(2, &["b"]), &names));
    assert!(!finds_all_locals(&Scoping::default(), &bindings(&[])));

    let mut module = normal(0, ModuleType::Json, ExportsKind::Unknown);
    let symbols = SymbolRefDbForModule::new(scoping_of(2, &[]), 0);
    assert!(knows_facades(&module, &symbols));
    module.hmr_hot_ref = Some(sym(0, 2));
    assert!(!knows_facades(&module, &symbols));
}

#[test]
fn facade_symbols_are_new_and_unbound() {
    let mut symbols = SymbolRefDbForModule::new(scoping_of(1, &["a"]), 4);
    assert_eq!(symbols.root_scope_id, 0);
    assert_eq!(symbols.owner_idx, 4);
    assert_eq!(symbols.symbols_len(), 2);
    let facade = symbols.create_facade_root_symbol_ref("ns");
    assert_eq!(facade, sym(4, 2));
    assert_eq!(symbols.symbols_len(), 3);
    assert_eq!(symbols.symbol_name(2), "ns");
    assert_eq!(symbols.symbol_name(1), "a");
    assert_eq!(symbols.get_root_binding("ns"), None);
    assert_eq!(symbols.get_root_binding("a"), Some(1));
}

#[test]
fn facade_symbols_belong_to_the_root_scope() {
    let mut symbols = SymbolRefDbForModule::new(scoping_of(0, &[]), 0);
    let facade = symbols.create_facade_root_symbol_ref("ns");
    let id = symbols.scoping.symbol_ids().nth(facade.symbol as usize).unwrap();
    assert_eq!(symbols.scoping.symbol_scope_id(id), symbols.scoping.root_scope_id());
}

#[test]
fn statement_infos_are_edited_in_place() {
    let mut infos = StmtInfos { infos: Vec::new() };
    assert_eq!(infos.add_stmt_info(StmtInfo::default()), 0);
    assert_eq!(
        infos.add_stmt_info(
            StmtInfo::default()
                .with_referenced_symbols(vec![SymbolOrMemberExprRef::MemberExpr(1)])
        ),
        1
    );
    assert_eq!(
        infos.add_stmt_info(StmtInfo::default().with_referenced_symbols(vec![
            SymbolOrMemberExprRef::Symbol(sym(0, 1)),
            SymbolOrMemberExprRef::MemberExpr(2)
        ])),
        2
    );
    infos.set_eval_flags(2, true);
    assert!(infos.infos[2].eval_flags);
    infos.replace_namespace_stmt_info(
        StmtInfo::default().with_referenced_symbols(vec![SymbolOrMemberExprRef::MemberExpr(9)]),
    );
    assert_eq!(infos.infos[0].referenced_symbols, vec![SymbolOrMemberExprRef::MemberExpr(9)]);
    assert_eq!(
        infos.drain_referenced(1),
        vec![
            SymbolOrMemberExprRef::MemberExpr(1),
            SymbolOrMemberExprRef::Symbol(sym(0, 1)),
            SymbolOrMemberExprRef::MemberExpr(2)
        ]
    );
    assert_eq!(infos.infos.len(), 1);
}

#[test]
fn link_stage_lowers_like_lowering_alone() {
    for module_type in [ModuleType::Json, ModuleType::Text] {
        for exports_kind in [ExportsKind::Unknown, ExportsKind::CommonJs] {
            let mut stage = stage_of(normal(0, module_type, exports_kind), object(&["a", "b c"]));
            stage.generate_lazy_export(&keep, &analyze);

            let mut copy = object(&["a", "b c"]);
            let is_json = module_type == ModuleType::Json;
            let is_commonjs = exports_kind == ExportsKind::CommonJs;
            lower_lazy_export(&mut copy, is_json, is_commonjs, &keep);
            assert_eq!(stage.ast_table[0], Some(copy));
        }
    }
}

#[test]
fn outcome_of_a_module_does_not_depend_on_the_others() {
    let mut alone = stage_of(normal(0, ModuleType::Json, ExportsKind::Unknown), object(&["a"]));
    alone.generate_lazy_export(&keep, &analyze);
    let mut among_others = mixed_stage();
    among_others.generate_lazy_export(&keep, &analyze);

    assert_eq!(alone.ast_table[0], among_others.ast_table[0]);
    assert_eq!(alone.metas[0], among_others.metas[0]);
    let (one, other) = (normal_at(&alone, 0), normal_at(&among_others, 0));
    assert_eq!(one.exports_kind, other.exports_kind);
    assert_eq!(one.namespace_object_ref, other.namespace_object_ref);
    assert_eq!(one.default_export_ref, other.default_export_ref);
    assert_eq!(one.named_exports.len(), other.named_exports.len());
    for name in ["a", "default"] {
        assert_eq!(one.named_exports.get(name), other.named_exports.get(name));
    }
    assert_eq!(alone.symbols[0].symbols_len(), among_others.symbols[0].symbols_len());
    let (infos, others) = (&alone.stmt_infos[0].infos, &among_others.stmt_infos[0].infos);
    assert_eq!(infos.len(), others.len());
    for i in 0..infos.len() {
        assert_eq!(declared(&alone, 0, i), declared(&among_others, 0, i));
        assert_eq!(infos[i].referenced_symbols, others[i].referenced_symbols);
    }
}

#[test]
fn declared_and_exported_symbols_are_in_the_new_table() {
    let mut module = normal(0, ModuleType::Json, ExportsKind::Unknown);
    module.hmr_hot_ref = Some(sym(0, 2));
    let mut stage = stage_of(module, object(&["a", "b", "default"]));
    let legitimize = |key: &str, _: &JsonBindings| -> String { format!("_{key}") };
    stage.generate_lazy_export(&legitimize, &analyze);

    let module = normal_at(&stage, 0);
    let facades =
        [module.namespace_object_ref, module.default_export_ref, module.hmr_hot_ref.unwrap()];
    let len = stage.symbols[0].symbols_len();
    for local in ["_a", "_b", "_default"] {
        let symbol = stage.symbols[0].get_root_binding(local).unwrap();
        assert!((symbol as usize) < len);
        assert!(!facades.contains(&sym(0, symbol)));
    }
    for i in 0..stage.stmt_infos[0].infos.len() {
        for symbol in declared(&stage, 0, i) {
            let TaggedSymbolRef::Normal(symbol) = symbol else { panic!("a linked symbol") };
            assert_eq!(symbol.owner, 0);
            assert!((symbol.symbol as usize) < len);
        }
    }
    for name in ["a", "b", "default"] {
        let exported = module.named_exports.get(name).unwrap().referenced;
        assert_eq!(exported.owner, 0);
        assert!((exported.symbol as usize) < len);
    }
}
