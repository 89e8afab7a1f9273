use lazy_export::ast::{
    into_without_parentheses, ExportSpecifier, Expression, ObjectProperty, ObjectPropertyKind,
    Program, PropertyKey, Statement,
};
use lazy_export::bindings::{is_legal_identifier, JsonBindings};
use lazy_export::lowering::{
    bind_property, lower_lazy_export, replace_first_expr_stmt, split_json_object_module,
    LazyExportWrap, LoweredLazyExport,
};
use std::cell::RefCell;

type Node = u32;

fn literal(key: &str, value: Node) -> ObjectPropertyKind<Node> {
    ObjectPropertyKind::ObjectProperty(ObjectProperty {
        key: PropertyKey::StringLiteral(key.to_string()),
        value: Expression::Other(value),
        shorthand: false,
        computed: false,
    })
}

fn shorthand(name: &str) -> ObjectPropertyKind<Node> {
    ObjectPropertyKind::ObjectProperty(ObjectProperty {
        key: PropertyKey::StaticIdentifier(name.to_string()),
        value: Expression::Identifier(name.to_string()),
        shorthand: true,
        computed: false,
    })
}

fn quoted(key: &str, local: &str, computed: bool) -> ObjectPropertyKind<Node> {
    ObjectPropertyKind::ObjectProperty(ObjectProperty {
        key: PropertyKey::StringLiteral(key.to_string()),
        value: Expression::Identifier(local.to_string()),
        shorthand: false,
        computed,
    })
}

fn var(local: &str, init: Node) -> Statement<Node> {
    Statement::VarDeclaration { local: local.to_string(), init: Expression::Other(init) }
}

fn specifier(local: &str, exported: &str, is_identifier: bool) -> ExportSpecifier {
    ExportSpecifier {
        local: local.to_string(),
        exported: exported.to_string(),
        exported_is_identifier: is_identifier,
    }
}

fn module(expr: Expression<Node>) -> Program<Node> {
    Program { body: vec![Statement::ExpressionStatement(expr)] }
}

fn object(members: Vec<ObjectPropertyKind<Node>>) -> Expression<Node> {
    Expression::ObjectExpression(members)
}

fn parenthesized(expr: Expression<Node>) -> Expression<Node> {
    Expression::ParenthesizedExpression(Box::new(expr))
}

/// Makes an identifier of a key, and appends `$` until no other key has it.
fn legitimize(key: &str, bindings: &JsonBindings) -> String {
    let mut name: String =
        key.chars().map(|c| if c.is_ascii_alphanumeric() || c == '_' { c } else { '_' }).collect();
    while let Some((exported, _)) = bindings.get(&name) {
        if exported == key {
            break;
        }
        name.push('$');
    }
    name
}

fn lower(program: &mut Program<Node>, is_json: bool, is_commonjs: bool) -> LoweredLazyExport {
    lower_lazy_export(program, is_json, is_commonjs, &legitimize)
}

fn entries(outcome: &LoweredLazyExport) -> Vec<(String, String, bool)> {
    match outcome {
        LoweredLazyExport::EsmJsonObject(bindings) => bindings
            .iter()
            .map(|(local, (exported, legal))| (local.clone(), exported.clone(), *legal))
            .collect(),
        _ => panic!("the module was not split"),
    }
}

#[test]
fn object_is_split_into_one_variable_per_key() {
    let mut program = module(parenthesized(object(vec![literal("a", 1), literal("b", 2)])));
    let outcome = lower(&mut program, true, false);
    assert_eq!(
        entries(&outcome),
        vec![("a".to_string(), "a".to_string(), true), ("b".to_string(), "b".to_string(), true)]
    );
    assert_eq!(
        program.body,
        vec![
            var("a", 1),
            var("b", 2),
            Statement::ExportDefault(object(vec![shorthand("a"), shorthand("b")])),
            Statement::ExportNamed {
                specifiers: vec![specifier("a", "a", true), specifier("b", "b", true)]
            },
        ]
    );
}

#[test]
fn empty_object_exports_only_default() {
    let mut program = module(object(vec![]));
    let outcome = lower(&mut program, true, false);
    assert!(entries(&outcome).is_empty());
    assert_eq!(
        program.body,
        vec![
            Statement::ExportDefault(object(vec![])),
            Statement::ExportNamed { specifiers: vec![] },
        ]
    );
}

#[test]
fn any_number_of_parentheses_is_stripped() {
    let nested = parenthesized(parenthesized(parenthesized(Expression::Other(7))));
    assert_eq!(nested.without_parentheses(), &Expression::Other(7));
    assert_eq!(into_without_parentheses(nested), Expression::Other(7));
    assert_eq!(into_without_parentheses(Expression::Other(8)), Expression::Other(8));

    let mut deep = Expression::Other(9);
    for _ in 0..100_000 {
        deep = parenthesized(deep);
    }
    assert_eq!(deep.without_parentheses(), &Expression::Other(9));
    assert_eq!(into_without_parentheses(deep), Expression::Other(9));

    let mut program =
        module(parenthesized(parenthesized(object(vec![literal("a", 1)]))));
    assert_eq!(entries(&lower(&mut program, true, false)).len(), 1);
}

#[test]
fn json_without_object_is_a_default_export() {
    let mut program = module(parenthesized(Expression::Other(3)));
    assert!(matches!(lower(&mut program, true, false), LoweredLazyExport::EsmDefault));
    // The expression is kept as it is, parentheses included.
    assert_eq!(
        program.body,
        vec![Statement::ExportDefault(parenthesized(Expression::Other(3)))]
    );
}

#[test]
fn text_is_a_default_export_even_if_it_is_an_object() {
    let mut program = module(object(vec![literal("a", 1)]));
    assert!(matches!(lower(&mut program, false, false), LoweredLazyExport::EsmDefault));
    assert_eq!(
        program.body,
        vec![Statement::ExportDefault(object(vec![literal("a", 1)]))]
    );
}

#[test]
fn commonjs_assigns_module_exports_whatever_the_payload() {
    for is_json in [true, false] {
        let mut program = module(object(vec![literal("a", 1)]));
        assert!(matches!(lower(&mut program, is_json, true), LoweredLazyExport::CommonJs));
        assert_eq!(
            program.body,
            vec![Statement::ModuleExports(object(vec![literal("a", 1)]))]
        );
    }
}

#[test]
fn empty_key_keeps_its_value_in_place() {
    let mut program = module(object(vec![literal("", 1), literal("b", 2)]));
    let outcome = lower(&mut program, true, false);
    assert_eq!(entries(&outcome), vec![("b".to_string(), "b".to_string(), true)]);
    assert_eq!(
        program.body,
        vec![
            var("b", 2),
            Statement::ExportDefault(object(vec![literal("", 1), shorthand("b")])),
            Statement::ExportNamed { specifiers: vec![specifier("b", "b", true)] },
        ]
    );
}

#[test]
fn repeated_key_keeps_its_place_and_takes_the_last_value() {
    let mut program =
        module(object(vec![literal("a", 1), literal("b", 2), literal("a", 3)]));
    let outcome = lower(&mut program, true, false);
    assert_eq!(entries(&outcome).len(), 2);
    assert_eq!(
        program.body,
        vec![
            var("a", 3),
            var("b", 2),
            Statement::ExportDefault(object(vec![
                shorthand("a"),
                shorthand("b"),
                shorthand("a")
            ])),
            Statement::ExportNamed {
                specifiers: vec![specifier("a", "a", true), specifier("b", "b", true)]
            },
        ]
    );
}

#[test]
fn proto_key_becomes_computed() {
    let mut program = module(object(vec![literal("__proto__", 1)]));
    let outcome = lower(&mut program, true, false);
    assert_eq!(
        entries(&outcome),
        vec![("__proto__".to_string(), "__proto__".to_string(), true)]
    );
    assert_eq!(
        program.body,
        vec![
            var("__proto__", 1),
            Statement::ExportDefault(object(vec![quoted("__proto__", "__proto__", true)])),
            Statement::ExportNamed { specifiers: vec![specifier("__proto__", "__proto__", true)] },
        ]
    );
}

#[test]
fn key_that_is_no_identifier_is_exported_by_its_own_name() {
    let mut program = module(object(vec![literal("a-b", 1), literal("a_b", 2)]));
    let outcome = lower(&mut program, true, false);
    assert_eq!(
        entries(&outcome),
        vec![
            ("a_b".to_string(), "a-b".to_string(), false),
            ("a_b$".to_string(), "a_b".to_string(), true),
        ]
    );
    assert_eq!(
        program.body,
        vec![
            var("a_b", 1),
            var("a_b$", 2),
            Statement::ExportDefault(object(vec![
                quoted("a-b", "a_b", false),
                quoted("a_b", "a_b$", false),
            ])),
            Statement::ExportNamed {
                specifiers: vec![specifier("a_b", "a-b", false), specifier("a_b$", "a_b", true)]
            },
        ]
    );
}

#[test]
fn clashing_local_names_share_one_variable() {
    let mut program = module(object(vec![literal("a", 1), literal("b", 2)]));
    let always_x = |_: &str, _: &JsonBindings| -> String { "x".to_string() };
    let outcome = lower_lazy_export(&mut program, true, false, &always_x);
    assert_eq!(entries(&outcome), vec![("x".to_string(), "b".to_string(), true)]);
    assert_eq!(program.body[0], var("x", 2));
    assert_eq!(program.body.len(), 3);
}

#[test]
fn names_are_asked_for_in_order_with_the_bindings_so_far() {
    let calls: RefCell<Vec<(String, Vec<String>)>> = RefCell::new(Vec::new());
    let record = |key: &str, bindings: &JsonBindings| -> String {
        calls.borrow_mut().push((key.to_string(), bindings.keys().cloned().collect()));
        format!("_{key}")
    };
    let mut program = module(object(vec![literal("a", 1), literal("", 2), literal("c", 3)]));
    lower_lazy_export(&mut program, true, false, &record);
    assert_eq!(
        calls.into_inner(),
        vec![
            ("a".to_string(), vec![]),
            ("c".to_string(), vec!["_a".to_string()]),
        ]
    );
}

#[test]
fn splitting_anything_but_an_object_leaves_the_program_untouched() {
    let mut program = module(parenthesized(Expression::Other(5)));
    assert!(split_json_object_module(&mut program, &legitimize).is_none());
    assert_eq!(program, module(parenthesized(Expression::Other(5))));
}

#[test]
fn splitting_replaces_the_whole_body() {
    let mut program = module(object(vec![literal("a", 1)]));
    program.body.push(Statement::Other(99));
    let bindings = split_json_object_module(&mut program, &legitimize).unwrap();
    assert_eq!(bindings.len(), 1);
    assert_eq!(program.body.len(), 3);
    assert!(!program.body.contains(&Statement::Other(99)));
}

#[test]
fn wrapping_keeps_later_statements() {
    let mut program = module(Expression::Other(1));
    program.body.push(Statement::Other(2));
    program.body.push(Statement::Other(3));
    replace_first_expr_stmt(&mut program, LazyExportWrap::CjsExport);
    assert_eq!(
        program.body,
        vec![
            Statement::ModuleExports(Expression::Other(1)),
            Statement::Other(2),
            Statement::Other(3)
        ]
    );

    let mut program = module(Expression::Other(1));
    program.body.push(Statement::Other(2));
    replace_first_expr_stmt(&mut program, LazyExportWrap::EsmDefault);
    assert_eq!(
        program.body,
        vec![Statement::ExportDefault(Expression::Other(1)), Statement::Other(2)]
    );
}

#[test]
fn binding_one_property_moves_its_value() {
    let mut bindings = JsonBindings::default();
    bindings.insert("x".to_string(), ("old".to_string(), false));
    let mut values: Vec<Expression<Node>> = vec![Expression::Other(0)];
    let mut property = ObjectProperty {
        key: PropertyKey::StringLiteral("y".to_string()),
        value: Expression::Other(1),
        shorthand: false,
        computed: false,
    };
    let (key, local) = ("y".to_string(), "y".to_string());
    bind_property(&mut property, key, true, local, &mut bindings, &mut values);
    assert_eq!(ObjectPropertyKind::ObjectProperty(property), shorthand("y"));
    assert_eq!(values, vec![Expression::Other(0), Expression::Other(1)]);
    assert_eq!(bindings.get_index(1).unwrap(), (&"y".to_string(), &("y".to_string(), true)));

    let mut property = ObjectProperty {
        key: PropertyKey::StringLiteral("new".to_string()),
        value: Expression::Other(2),
        shorthand: false,
        computed: false,
    };
    let (key, local) = ("new".to_string(), "x".to_string());
    bind_property(&mut property, key, false, local, &mut bindings, &mut values);
    assert_eq!(ObjectPropertyKind::ObjectProperty(property), quoted("new", "x", false));
    assert_eq!(values, vec![Expression::Other(2), Expression::Other(1)]);
    assert_eq!(bindings.get_index(0).unwrap(), (&"x".to_string(), &("new".to_string(), false)));
    assert_eq!(bindings.len(), 2);

    // Legality is the key's own, and does not decide about shorthand.
    let mut property = ObjectProperty {
        key: PropertyKey::StringLiteral("k".to_string()),
        value: Expression::Other(3),
        shorthand: false,
        computed: false,
    };
    let (key, local) = ("k".to_string(), "_k".to_string());
    bind_property(&mut property, key, true, local, &mut bindings, &mut values);
    assert_eq!(ObjectPropertyKind::ObjectProperty(property), quoted("k", "_k", false));
    assert_eq!(bindings.get_index(2).unwrap(), (&"_k".to_string(), &("k".to_string(), true)));
}

#[test]
fn keys_know_their_static_names() {
    let key: PropertyKey<Node> = PropertyKey::StaticIdentifier("a".to_string());
    assert_eq!(key.static_name(), Some("a"));
    let key: PropertyKey<Node> = PropertyKey::StringLiteral("b c".to_string());
    assert_eq!(key.static_name(), Some("b c"));
    let key: PropertyKey<Node> = PropertyKey::Other { node: 1, static_name: Some("3".to_string()) };
    assert_eq!(key.static_name(), Some("3"));
    let key: PropertyKey<Node> = PropertyKey::Other { node: 1, static_name: None };
    assert_eq!(key.static_name(), None);
}

#[test]
fn key_of_another_kind_is_split_by_its_static_name() {
    let mut program = module(object(vec![ObjectPropertyKind::ObjectProperty(ObjectProperty {
        key: PropertyKey::Other { node: 1, static_name: Some("k".to_string()) },
        value: Expression::Other(2),
        shorthand: false,
        computed: false,
    })]));
    lower(&mut program, true, false);
    assert_eq!(program.body[0], var("k", 2));
    assert_eq!(program.body[1], Statement::ExportDefault(object(vec![shorthand("k")])));
}

#[test]
fn default_export_has_the_values_of_the_payload() {
    let keys = ["a", "b-c", "", "a", "__proto__", "b_c"];
    let members = keys.iter().zip(0u32..).map(|(key, value)| literal(key, value)).collect();
    let mut program = module(object(members));
    lower(&mut program, true, false);

    let lookup = |local: &str| -> Node {
        for stmt in &program.body {
            if let Statement::VarDeclaration { local: name, init: Expression::Other(value) } = stmt
            {
                if name == local {
                    return *value;
                }
            }
        }
        panic!("{local} is not declared")
    };
    let n = program.body.len() - 2;
    let Statement::ExportDefault(Expression::ObjectExpression(after)) = &program.body[n] else {
        panic!("no default export")
    };
    let mut values: Vec<(String, Node)> = Vec::new();
    for member in after {
        let ObjectPropertyKind::ObjectProperty(property) = member else { panic!("a spread") };
        let key = property.key.static_name().unwrap().to_string();
        let value = match &property.value {
            Expression::Identifier(local) => lookup(local),
            Expression::Other(value) => *value,
            _ => panic!("neither a variable nor a value"),
        };
        values.retain(|(other, _)| *other != key);
        values.push((key, value));
    }
    values.sort();
    assert_eq!(
        values,
        vec![
            ("".to_string(), 2),
            ("__proto__".to_string(), 4),
            ("a".to_string(), 3),
            ("b-c".to_string(), 1),
            ("b_c".to_string(), 5),
        ]
    );
}

#[test]
fn every_variable_is_declared_and_exported_once() {
    let mut program = module(object(vec![
        literal("a", 1),
        literal("a", 2),
        literal("b", 3),
        literal("b", 4),
    ]));
    lower(&mut program, true, false);
    let n = program.body.len() - 2;
    assert_eq!(n, 2);
    let Statement::ExportNamed { specifiers } = &program.body[n + 1] else {
        panic!("no export list")
    };
    for i in 0..n {
        let Statement::VarDeclaration { local, .. } = &program.body[i] else {
            panic!("no declaration")
        };
        assert_eq!(local, &specifiers[i].local);
    }
    assert_ne!(specifiers[0].local, specifiers[1].local);
    assert_ne!(specifiers[0].exported, specifiers[1].exported);
}

#[test]
fn legal_identifiers_are_told_apart() {
    for name in ["a", "a_b", "$", "_", "a1", "\u{e9}", "of", "__proto__", "undefined"] {
        assert!(is_legal_identifier(name), "{name}");
    }
    for name in ["", "1a", "a-b", "a b", "a.b", "abcdefgh ijkl", "abcdefghijk@", "\u{e9} a"] {
        assert!(!is_legal_identifier(name), "{name}");
    }
    // Every ASCII character, alone and after another.
    for c in '\0'..='\x7f' {
        let starts = c.is_ascii_alphabetic() || c == '$' || c == '_';
        assert_eq!(is_legal_identifier(&c.to_string()), starts, "{c:?}");
        let continues = starts || c.is_ascii_digit();
        assert_eq!(is_legal_identifier(&format!("x{c}")), continues, "{c:?}");
    }
    let reserved = "let static implements interface package private protected public await break \
        case catch class const continue debugger default delete do else enum export extends false \
        finally for function if import in instanceof new null return super switch this throw true \
        try typeof var void while with yield";
    for name in reserved.split(' ') {
        assert!(!is_legal_identifier(name), "{name}");
        assert!(is_legal_identifier(&format!("{name}_")), "{name}_");
    }
}

#[test]
fn flag_is_the_legality_of_the_exported_name() {
    let renaming = |key: &str, bindings: &JsonBindings| -> String {
        format!("_{}", legitimize(key, bindings))
    };
    let keys = ["a", "default", "a-b", "true", "c"];
    let members = keys.iter().zip(0u32..).map(|(key, value)| literal(key, value)).collect();
    let mut program = module(object(members));
    let outcome = lower_lazy_export(&mut program, true, false, &renaming);
    let expected = [
        ("_a", "a", true),
        ("_default", "default", false),
        ("_a_b", "a-b", false),
        ("_true", "true", false),
        ("_c", "c", true),
    ];
    let entries = entries(&outcome);
    let Some(Statement::ExportNamed { specifiers }) = program.body.last() else {
        panic!("no export list")
    };
    assert_eq!(entries.len(), expected.len());
    assert_eq!(specifiers.len(), expected.len());
    for (i, (local, exported, legal)) in expected.into_iter().enumerate() {
        assert_eq!(entries[i], (local.to_string(), exported.to_string(), legal));
        assert_eq!(specifiers[i], specifier(local, exported, legal));
    }
}

fn sample() -> Expression<Node> {
    let keys = ["a", "b-c", "", "a", "__proto__", "b_c", "default"];
    object(keys.iter().zip(0u32..).map(|(key, value)| literal(key, value)).collect())
}

#[test]
fn lowering_copies_of_a_module_agrees() {
    for is_json in [true, false] {
        for is_commonjs in [true, false] {
            let mut one = module(parenthesized(sample()));
            let mut other = module(parenthesized(sample()));
            let first = lower(&mut one, is_json, is_commonjs);
            let second = lower(&mut other, is_json, is_commonjs);
            assert_eq!(one, other);
            assert_eq!(std::mem::discriminant(&first), std::mem::discriminant(&second));
            if is_json && !is_commonjs {
                assert_eq!(entries(&first), entries(&second));
            }
        }
    }
}

#[test]
fn parentheses_round_an_object_make_no_difference() {
    let mut bare = module(sample());
    let expected = entries(&lower(&mut bare, true, false));
    for n in 1..4 {
        let mut payload = sample();
        for _ in 0..n {
            payload = parenthesized(payload);
        }
        let mut wrapped = module(payload);
        assert_eq!(entries(&lower(&mut wrapped, true, false)), expected);
        assert_eq!(wrapped, bare);
    }
}
