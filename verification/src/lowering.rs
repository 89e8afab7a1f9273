//! Lowering for modules whose exports are synthesized rather than written: JSON, text,
//! base64 and dataurl. Such a module arrives as a single expression statement; this turns it
//! into real export syntax.
//!
//! Both the link stage and the development module wrapper lower through
//! [`lower_lazy_export`], so "a JSON module exports `default` plus one name per key" is a
//! single statement instead of two.

use crate::ast::{
    into_without_parentheses, ExportSpecifier, Expression, ObjectProperty, ObjectPropertyKind,
    Program, PropertyKey, Statement,
};
use crate::bindings::{
    binding_at, binding_entries, bindings_len, insert_binding, inserted, is_legal_identifier,
    legal_identifier, lemma_slot_of, new_bindings, put_at, slot_of, BindingView, JsonBindings,
};
use vstd::prelude::*;

verus! {

/// What a lazy-export module was lowered into. Callers that keep their own bookkeeping
/// (the link stage does) branch on this instead of re-deciding the shape themselves.
pub enum LoweredLazyExport {
    /// `module.exports = <value>`
    CommonJs,
    /// `export default <value>`
    EsmDefault,
    /// `var <key> = <value>; … export default { <key>, … }; export { <key>, … }`
    EsmJsonObject(JsonBindings),
}

/// The mathematical value of a [`LoweredLazyExport`].
pub enum LoweredView {
    CommonJs,
    EsmDefault,
    EsmJsonObject(Seq<BindingView>),
}

impl View for LoweredLazyExport {
    type V = LoweredView;

    open spec fn view(&self) -> LoweredView {
        match self {
            LoweredLazyExport::CommonJs => LoweredView::CommonJs,
            LoweredLazyExport::EsmDefault => LoweredView::EsmDefault,
            LoweredLazyExport::EsmJsonObject(bindings) => LoweredView::EsmJsonObject(
                binding_entries(*bindings),
            ),
        }
    }
}

/// The statement that [`replace_first_expr_stmt`] wraps an expression in.
#[derive(Clone, Copy, Debug, PartialEq, Eq, Structural)]
pub enum LazyExportWrap {
    CjsExport,
    EsmDefault,
}

/// The key whose property sets the prototype unless it is computed.
pub open spec fn proto_key() -> Seq<char> {
    "__proto__"@
}

impl<N> Program<N> {
    /// The module starts with an expression statement.
    pub open spec fn starts_with_expression(self) -> bool {
        self.body@.len() > 0 && self.body@[0] is ExpressionStatement
    }

    /// The expression of the first statement.
    pub open spec fn payload(self) -> Expression<N> {
        self.body@[0]->ExpressionStatement_0
    }

    /// The payload is an object literal, in any number of parentheses.
    pub open spec fn holds_object(self) -> bool {
        self.payload().stripped() is ObjectExpression
    }

    /// The members of the object literal that is the payload.
    pub open spec fn members(self) -> Seq<ObjectPropertyKind<N>> {
        self.payload().stripped()->ObjectExpression_0@
    }
}

/// Every member is `<key>: <value>` with a static key, as in any object literal that JSON
/// can write.
pub open spec fn all_named<N>(members: Seq<ObjectPropertyKind<N>>) -> bool {
    forall|i: int| 0 <= i < members.len() ==> (#[trigger] members[i]).is_named()
}

/// The statement that the module's expression is wrapped in.
pub open spec fn wrapped<N>(kind: LazyExportWrap, expr: Expression<N>) -> Statement<N> {
    match kind {
        LazyExportWrap::CjsExport => Statement::ModuleExports(expr),
        LazyExportWrap::EsmDefault => Statement::ExportDefault(expr),
    }
}

/// The bindings after the first `n` members of an object literal were given the local names
/// `names`. A member with an empty key is given none.
pub open spec fn bindings_after<N>(
    members: Seq<ObjectPropertyKind<N>>,
    names: Seq<Seq<char>>,
    n: int,
) -> Seq<BindingView>
    decreases n,
{
    if n <= 0 {
        Seq::empty()
    } else {
        let before = bindings_after(members, names, n - 1);
        let key = members[n - 1].key_name();
        if key.len() == 0 {
            before
        } else {
            inserted(before, (names[n - 1], (key, legal_identifier(key))))
        }
    }
}

/// The initial values of the variables that [`bindings_after`] declares, in the same order.
pub open spec fn values_after<N>(
    members: Seq<ObjectPropertyKind<N>>,
    names: Seq<Seq<char>>,
    n: int,
) -> Seq<Expression<N>>
    decreases n,
{
    if n <= 0 {
        Seq::empty()
    } else {
        let before = values_after(members, names, n - 1);
        if members[n - 1].key_name().len() == 0 {
            before
        } else {
            put_at(
                before,
                slot_of(bindings_after(members, names, n - 1), names[n - 1]),
                members[n - 1]->ObjectProperty_0.value,
            )
        }
    }
}

/// The bindings of a whole object literal.
pub open spec fn bindings_of<N>(
    members: Seq<ObjectPropertyKind<N>>,
    names: Seq<Seq<char>>,
) -> Seq<BindingView> {
    bindings_after(members, names, members.len() as int)
}

/// The initial values of the bindings of a whole object literal.
pub open spec fn values_of<N>(
    members: Seq<ObjectPropertyKind<N>>,
    names: Seq<Seq<char>>,
) -> Seq<Expression<N>> {
    values_after(members, names, members.len() as int)
}

/// `name` is a local name that `legitimize` may answer for `key` when the bindings `prior`
/// are already taken.
pub open spec fn offered<F: Fn(&str, &JsonBindings) -> String>(
    legitimize: F,
    key: Seq<char>,
    prior: Seq<BindingView>,
    name: Seq<char>,
) -> bool {
    exists|k: &str, b: &JsonBindings, r: String| #[trigger]
        call_ensures(legitimize, (k, b), r) && k@ == key && binding_entries(*b) == prior && r@
            == name
}

/// The local names of the first `n` members are those that `legitimize` answers for their keys,
/// asked in order, each time with the bindings made so far.
pub open spec fn named_by<N, F: Fn(&str, &JsonBindings) -> String>(
    legitimize: F,
    members: Seq<ObjectPropertyKind<N>>,
    names: Seq<Seq<char>>,
    n: int,
) -> bool {
    &&& names.len() == n
    &&& forall|i: int|
        0 <= i < n && members[i].key_name().len() > 0 ==> offered(
            legitimize,
            members[i].key_name(),
            bindings_after(members, names, i),
            #[trigger] names[i],
        )
}

/// The member `after` is `before` with its value moved to the variable `local`.
///
/// `key` is written shorthand where it is itself the variable's name. `__proto__` becomes a
/// computed key, since `__proto__: <value>` would set the prototype.
pub open spec fn rebound<N>(
    before: ObjectProperty<N>,
    after: ObjectProperty<N>,
    key: Seq<char>,
    local: Seq<char>,
) -> bool {
    &&& after.value is Identifier
    &&& after.value->Identifier_0@ == local
    &&& if key == proto_key() {
        &&& after.computed
        &&& after.shorthand == before.shorthand
        &&& after.key == before.key
    } else if local == key {
        &&& after.shorthand
        &&& after.computed == before.computed
        &&& after.key is StaticIdentifier
        &&& after.key->StaticIdentifier_0@ == local
    } else {
        &&& after.shorthand == before.shorthand
        &&& after.computed == before.computed
        &&& after.key == before.key
    }
}

/// What splitting makes of one member: nothing if its key is empty, else see [`rebound`].
pub open spec fn member_split<N>(
    before: ObjectPropertyKind<N>,
    after: ObjectPropertyKind<N>,
    local: Seq<char>,
) -> bool {
    if before.key_name().len() == 0 {
        after == before
    } else {
        &&& after is ObjectProperty
        &&& rebound(
            before->ObjectProperty_0,
            after->ObjectProperty_0,
            before.key_name(),
            local,
        )
    }
}

/// The object literal `after` is `before` with every named value moved to its variable.
pub open spec fn members_split<N>(
    before: Seq<ObjectPropertyKind<N>>,
    after: Seq<ObjectPropertyKind<N>>,
    names: Seq<Seq<char>>,
) -> bool {
    &&& after.len() == before.len()
    &&& forall|i: int|
        0 <= i < before.len() ==> member_split(before[i], #[trigger] after[i], names[i])
}

/// The statement declares the variable `local` with the initial value `init`.
pub open spec fn declares<N>(stmt: Statement<N>, local: Seq<char>, init: Expression<N>) -> bool {
    stmt is VarDeclaration && stmt->local@ == local && stmt->init == init
}

/// The export list has one specifier per binding, in order.
pub open spec fn exports_all(specifiers: Seq<ExportSpecifier>, bindings: Seq<BindingView>) -> bool {
    &&& specifiers.len() == bindings.len()
    &&& forall|i: int|
        0 <= i < bindings.len() ==> {
            let s = #[trigger] specifiers[i];
            bindings[i] == (s.local@, (s.exported@, s.exported_is_identifier))
        }
}

/// `body` is what an object literal with the given members is split into when they get the
/// local names `names`: one declaration per binding, then the default export of the literal,
/// then the export list.
pub open spec fn split_body<N>(
    members: Seq<ObjectPropertyKind<N>>,
    names: Seq<Seq<char>>,
    body: Seq<Statement<N>>,
) -> bool {
    let bindings = bindings_of(members, names);
    let values = values_of(members, names);
    let n = bindings.len() as int;
    &&& body.len() == n + 2
    &&& forall|i: int| 0 <= i < n ==> declares(#[trigger] body[i], bindings[i].0, values[i])
    &&& body[n] is ExportDefault
    &&& body[n]->ExportDefault_0 is ObjectExpression
    &&& members_split(members, body[n]->ExportDefault_0->ObjectExpression_0@, names)
    &&& body[n + 1] is ExportNamed
    &&& exports_all(body[n + 1]->specifiers@, bindings)
}

/// As many values as bindings.
pub proof fn lemma_same_length<N>(
    members: Seq<ObjectPropertyKind<N>>,
    names: Seq<Seq<char>>,
    n: int,
)
    ensures
        bindings_after(members, names, n).len() == values_after(members, names, n).len(),
    decreases n,
{
    if n > 0 {
        lemma_same_length(members, names, n - 1);
        lemma_slot_of(bindings_after(members, names, n - 1), names[n - 1]);
    }
}

/// Names of later members do not matter to the bindings and values of earlier ones.
proof fn lemma_prefix<N>(
    members: Seq<ObjectPropertyKind<N>>,
    names: Seq<Seq<char>>,
    more: Seq<Seq<char>>,
    n: int,
)
    requires
        n <= names.len() <= more.len(),
        forall|i: int| 0 <= i < n ==> #[trigger] names[i] == more[i],
    ensures
        bindings_after(members, names, n) == bindings_after(members, more, n),
        values_after(members, names, n) == values_after(members, more, n),
    decreases n,
{
    if n > 0 {
        lemma_prefix(members, names, more, n - 1);
        assert(names[n - 1] == more[n - 1]);
    }
}

/// Moves the value of one member of an object literal to the variable `local`, and records
/// the binding and its value. `is_legal_ident` tells whether the key is a legal identifier.
pub fn bind_property<N>(
    property: &mut ObjectProperty<N>,
    key: String,
    is_legal_ident: bool,
    local: String,
    bindings: &mut JsonBindings,
    values: &mut Vec<Expression<N>>,
)
    requires
        binding_entries(*old(bindings)).len() == old(values)@.len(),
    ensures
        rebound(*old(property), *final(property), key@, local@),
        binding_entries(*final(bindings)) == inserted(
            binding_entries(*old(bindings)),
            (local@, (key@, is_legal_ident)),
        ),
        final(values)@ == put_at(
            old(values)@,
            slot_of(binding_entries(*old(bindings)), local@),
            old(property).value,
        ),
        binding_entries(*final(bindings)).len() == final(values)@.len(),
{
    let is_shorthand = local == key;
    let is_proto = key == "__proto__".to_owned();
    proof {
        lemma_slot_of(binding_entries(*bindings), local@);
    }
    let slot: usize = insert_binding(bindings, local.clone(), key, is_legal_ident);

    let mut value = Expression::Identifier(local.clone());
    std::mem::swap(&mut value, &mut property.value);
    if is_proto {
        property.computed = true;
    } else if is_shorthand {
        property.shorthand = true;
        property.key = PropertyKey::StaticIdentifier(local);
    }
    if slot < values.len() {
        values.set(slot, value);
    } else {
        values.push(value);
    }
}

/// `body` and `entries` are what an object literal with the given members is split into and
/// the bindings that this makes, for some local names that `legitimize` answers.
pub open spec fn split_into<N, F: Fn(&str, &JsonBindings) -> String>(
    legitimize: F,
    members: Seq<ObjectPropertyKind<N>>,
    body: Seq<Statement<N>>,
    entries: Seq<BindingView>,
) -> bool {
    exists|names: Seq<Seq<char>>|
        {
            &&& #[trigger] named_by(legitimize, members, names, members.len() as int)
            &&& split_body(members, names, body)
            &&& entries == bindings_of(members, names)
        }
}

/// The local names of the members of an object literal that was split.
pub proof fn lemma_split_names<N, F: Fn(&str, &JsonBindings) -> String>(
    legitimize: F,
    members: Seq<ObjectPropertyKind<N>>,
    body: Seq<Statement<N>>,
    entries: Seq<BindingView>,
) -> (names: Seq<Seq<char>>)
    requires
        split_into(legitimize, members, body, entries),
    ensures
        named_by(legitimize, members, names, members.len() as int),
        split_body(members, names, body),
        entries == bindings_of(members, names),
{
    choose|names: Seq<Seq<char>>|
        {
            &&& #[trigger] named_by(legitimize, members, names, members.len() as int)
            &&& split_body(members, names, body)
            &&& entries == bindings_of(members, names)
        }
}

/// Moves the named values of an object literal to variables, one after the other, under the
/// local names that `legitimize` answers.
fn bind_members<N, F: Fn(&str, &JsonBindings) -> String>(
    members: &mut Vec<ObjectPropertyKind<N>>,
    legitimize: &F,
) -> (r: (JsonBindings, Vec<Expression<N>>, Ghost<Seq<Seq<char>>>))
    requires
        all_named(old(members)@),
        forall|k: &str, b: &JsonBindings| call_requires(*legitimize, (k, b)),
    ensures
        named_by(*legitimize, old(members)@, r.2@, old(members)@.len() as int),
        members_split(old(members)@, final(members)@, r.2@),
        binding_entries(r.0) == bindings_of(old(members)@, r.2@),
        r.1@ == values_of(old(members)@, r.2@),
{
    let ghost before = members@;
    let ghost mut names: Seq<Seq<char>> = Seq::empty();
    let mut bindings = new_bindings();
    let mut values: Vec<Expression<N>> = Vec::new();
    let len: usize = members.len();
    let mut i: usize = 0;
    while i < len
        invariant
            i <= len == members@.len() == before.len(),
            all_named(before),
            forall|k: &str, b: &JsonBindings| call_requires(*legitimize, (k, b)),
            named_by(*legitimize, before, names, i as int),
            forall|j: int| 0 <= j < i ==> member_split(before[j], #[trigger] members@[j], names[j]),
            forall|j: int| i <= j < len ==> #[trigger] members@[j] == before[j],
            binding_entries(bindings) == bindings_after(before, names, i as int),
            values@ == values_after(before, names, i as int),
        decreases len - i,
    {
        assert(before[i as int].is_named());
        proof {
            lemma_same_length(before, names, i as int);
        }
        let ghost entries = binding_entries(bindings);
        let ghost mut name: Seq<char> = Seq::empty();
        match &mut members[i] {
            ObjectPropertyKind::ObjectProperty(property) => {
                let key: String = match property.key.static_name() {
                    Some(key) => key.to_owned(),
                    // Ruled out by `all_named`, as is a spread below.
                    None => String::new(),
                };
                if !key.as_str().is_empty() {
                    let local: String = legitimize(key.as_str(), &bindings);
                    proof {
                        name = local@;
                    }
                    let is_legal_ident = is_legal_identifier(key.as_str());
                    bind_property(
                        property,
                        key,
                        is_legal_ident,
                        local,
                        &mut bindings,
                        &mut values,
                    );
                }
            },
            ObjectPropertyKind::SpreadProperty(_) => {},
        }
        proof {
            let extended = names.push(name);
            lemma_prefix(before, names, extended, i as int);
            assert forall|j: int| 0 <= j < i + 1 && before[j].key_name().len() > 0 implies offered(
                *legitimize,
                before[j].key_name(),
                bindings_after(before, extended, j),
                #[trigger] extended[j],
            ) by {
                if j < i {
                    lemma_prefix(before, names, extended, j);
                    assert(extended[j] == names[j]);
                }
            }
            names = extended;
        }
        i = i + 1;
    }
    (bindings, values, Ghost(names))
}

/// The export list of a binding table.
fn export_specifiers(bindings: &JsonBindings) -> (r: Vec<ExportSpecifier>)
    ensures
        exports_all(r@, binding_entries(*bindings)),
{
    let mut specifiers: Vec<ExportSpecifier> = Vec::new();
    let len: usize = bindings_len(bindings);
    let mut i: usize = 0;
    while i < len
        invariant
            i <= len == binding_entries(*bindings).len(),
            exports_all(specifiers@, binding_entries(*bindings).take(i as int)),
        decreases len - i,
    {
        if let Some((local, value)) = binding_at(bindings, i) {
            specifiers.push(
                ExportSpecifier {
                    local: local.clone(),
                    exported: value.0.clone(),
                    exported_is_identifier: value.1,
                },
            );
        }
        i = i + 1;
    }
    assert(binding_entries(*bindings).take(len as int) == binding_entries(*bindings));
    specifiers
}

/// The declarations of the variables of a binding table, with their initial values.
fn declarations<N>(bindings: &JsonBindings, values: Vec<Expression<N>>) -> (r: Vec<Statement<N>>)
    requires
        values@.len() == binding_entries(*bindings).len(),
    ensures
        r@.len() == values@.len(),
        forall|i: int|
            0 <= i < values@.len() ==> declares(
                #[trigger] r@[i],
                binding_entries(*bindings)[i].0,
                values@[i],
            ),
{
    let mut stmts: Vec<Statement<N>> = Vec::new();
    let ghost all = values@;
    for init in it: values.into_iter()
        invariant
            it.seq() == all,
            all.len() == binding_entries(*bindings).len(),
            stmts@.len() == it.index(),
            forall|i: int|
                0 <= i < it.index() ==> declares(
                    #[trigger] stmts@[i],
                    binding_entries(*bindings)[i].0,
                    all[i],
                ),
    {
        if let Some((local, _)) = binding_at(bindings, stmts.len()) {
            stmts.push(Statement::VarDeclaration { local: local.clone(), init });
        }
    }
    stmts
}

/// Rewrite `({ "a": 1, "b": 2 })` into `var a = 1; var b = 2; export default { a, b };
/// export { a, b };`, returning the bindings it declared.
///
/// `legitimize` answers the local name for a key, given the bindings made so far.
///
/// Returns `None`, leaving the program untouched, when the payload is not an object literal.
pub fn split_json_object_module<N, F: Fn(&str, &JsonBindings) -> String>(
    program: &mut Program<N>,
    legitimize: &F,
) -> (r: Option<JsonBindings>)
    requires
        old(program).starts_with_expression(),
        old(program).holds_object() ==> all_named(old(program).members()),
        forall|k: &str, b: &JsonBindings| call_requires(*legitimize, (k, b)),
    ensures
        r is Some <==> old(program).holds_object(),
        r is None ==> *final(program) == *old(program),
        r is Some ==> split_into(
            *legitimize,
            old(program).members(),
            final(program).body@,
            binding_entries(r->0),
        ),
{
    if let Statement::ExpressionStatement(expr) = &program.body[0] {
        match expr.without_parentheses() {
            Expression::ObjectExpression(_) => {},
            _ => {
                return None;
            },
        }
    }
    // Take the single-statement body by value; this leaves `program.body` empty.
    let mut body: Vec<Statement<N>> = Vec::new();
    std::mem::swap(&mut body, &mut program.body);
    if let Statement::ExpressionStatement(expr) = body.swap_remove(0) {
        if let Expression::ObjectExpression(mut members) = into_without_parentheses(expr) {
            let ghost before = members@;
            // convert {"a": "b", "c": "d"} to
            // {"a": a, "c": c}
            // and collect related info
            let (bindings, values, names) = bind_members(&mut members, legitimize);
            proof {
                lemma_same_length(before, names@, before.len() as int);
            }
            // declaration
            let mut stmts: Vec<Statement<N>> = declarations(&bindings, values);
            // export default json module
            stmts.push(Statement::ExportDefault(Expression::ObjectExpression(members)));
            // export all declaration
            stmts.push(Statement::ExportNamed { specifiers: export_specifiers(&bindings) });
            program.body = stmts;
            assert(split_body(before, names@, program.body@));
            return Some(bindings);
        }
    }
    None
}

/// Takes the expression of the first statement (which must be an expression statement)
/// and replaces the statement with either `module.exports = expr` or `export default expr`.
pub fn replace_first_expr_stmt<N>(program: &mut Program<N>, kind: LazyExportWrap)
    requires
        old(program).starts_with_expression(),
    ensures
        final(program).body@ == old(program).body@.update(
            0,
            wrapped(kind, old(program).payload()),
        ),
        final(program).body@[0] == (match kind {
            LazyExportWrap::CjsExport => Statement::ModuleExports(
                old(program).body@[0]->ExpressionStatement_0,
            ),
            LazyExportWrap::EsmDefault => Statement::ExportDefault(
                old(program).body@[0]->ExpressionStatement_0,
            ),
        }),
{
    let mut stmt = Statement::ExportNamed { specifiers: Vec::new() };
    std::mem::swap(&mut stmt, &mut program.body[0]);
    if let Statement::ExpressionStatement(expr) = stmt {
        program.body[0] = match kind {
            LazyExportWrap::CjsExport => Statement::ModuleExports(expr),
            LazyExportWrap::EsmDefault => Statement::ExportDefault(expr),
        };
    }
}

/// The program `after` and the answer `outcome` are what lowering makes of `before`.
pub open spec fn lowered_to<N, F: Fn(&str, &JsonBindings) -> String>(
    legitimize: F,
    before: Program<N>,
    is_json: bool,
    is_commonjs: bool,
    after: Program<N>,
    outcome: LoweredLazyExport,
) -> bool {
    if is_commonjs {
        &&& outcome is CommonJs
        &&& after.body@ == before.body@.update(
            0,
            wrapped(LazyExportWrap::CjsExport, before.payload()),
        )
    } else if is_json && before.holds_object() {
        &&& outcome is EsmJsonObject
        &&& split_into(
            legitimize,
            before.members(),
            after.body@,
            binding_entries(outcome->EsmJsonObject_0),
        )
    } else {
        &&& outcome is EsmDefault
        &&& after.body@ == before.body@.update(
            0,
            wrapped(LazyExportWrap::EsmDefault, before.payload()),
        )
    }
}

/// Lower the single expression statement that makes up a lazy-export module.
///
/// `is_commonjs` is the module's *resolved* exports kind. Only the link stage knows it;
/// callers that run before linking pass `false` and get the ESM shape, which is what an
/// `import` of the module needs.
///
/// `legitimize` answers the local name for a key of a JSON object, given the bindings made so
/// far.
pub fn lower_lazy_export<N, F: Fn(&str, &JsonBindings) -> String>(
    program: &mut Program<N>,
    is_json: bool,
    is_commonjs: bool,
    legitimize: &F,
) -> (r: LoweredLazyExport)
    requires
        old(program).starts_with_expression(),
        is_json && !is_commonjs && old(program).holds_object() ==> all_named(
            old(program).members(),
        ),
        forall|k: &str, b: &JsonBindings| call_requires(*legitimize, (k, b)),
    ensures
        lowered_to(*legitimize, *old(program), is_json, is_commonjs, *final(program), r),
{
    if is_commonjs {
        replace_first_expr_stmt(program, LazyExportWrap::CjsExport);
        return LoweredLazyExport::CommonJs;
    }
    // A JSON object literal becomes one binding per key, so an importer can name them and
    // unused ones can be dropped. Any other JSON payload (an array, a bare string) has no
    // keys to split, and falls through to the plain default export.
    if is_json {
        if let Some(bindings) = split_json_object_module(program, legitimize) {
            return LoweredLazyExport::EsmJsonObject(bindings);
        }
    }
    replace_first_expr_stmt(program, LazyExportWrap::EsmDefault);
    LoweredLazyExport::EsmDefault
}

} // verus!
