//! What holds of every lowered module, whatever local names its keys are given.

use crate::ast::{
    ExportSpecifier, Expression, ObjectPropertyKind, Program, PropertyKey, Statement,
};
use crate::bindings::{
    binding_entries, legal_identifier, lemma_slot_of, slot_of, unicode_identifier_name,
    BindingView, JsonBindings,
};
use crate::lowering::{
    all_named, bindings_after, bindings_of, declares, lemma_same_length, lemma_split_names,
    lowered_to, member_split, named_by, offered, proto_key, split_body, split_into, values_after,
    values_of, LoweredLazyExport,
};
use vstd::prelude::*;
use vstd::utf8::is_ascii_chars;

verus! {

/// The member has a key that can be exported under.
pub open spec fn has_key<N>(member: ObjectPropertyKind<N>) -> bool {
    member.key_name().len() > 0
}

/// The keys of the members that have one.
pub open spec fn key_names<N>(members: Seq<ObjectPropertyKind<N>>) -> Set<Seq<char>> {
    Set::new(
        |key: Seq<char>|
            exists|i: int|
                0 <= i < members.len() && has_key(#[trigger] members[i]) && members[i].key_name()
                    == key,
    )
}

/// The names that a binding table exports.
pub open spec fn exported_names(entries: Seq<BindingView>) -> Set<Seq<char>> {
    Set::new(
        |name: Seq<char>|
            exists|j: int| 0 <= j < entries.len() && (#[trigger] entries[j]).1.0 == name,
    )
}

/// The names that an export list exports.
pub open spec fn listed_names(specifiers: Seq<ExportSpecifier>) -> Set<Seq<char>> {
    Set::new(
        |name: Seq<char>|
            exists|j: int|
                0 <= j < specifiers.len() && (#[trigger] specifiers[j]).exported@ == name,
    )
}

/// No local name is given to two different keys.
pub open spec fn clash_free<N>(
    members: Seq<ObjectPropertyKind<N>>,
    names: Seq<Seq<char>>,
) -> bool {
    forall|i: int, j: int|
        0 <= i < members.len() && 0 <= j < members.len() && has_key(members[i]) && has_key(
            members[j],
        ) && #[trigger] names[i] == #[trigger] names[j] ==> members[i].key_name()
            == members[j].key_name()
}

/// A local name that is already taken is only ever answered for the key that it is bound to.
pub open spec fn avoids_clashes<F: Fn(&str, &JsonBindings) -> String>(legitimize: F) -> bool {
    forall|k: &str, b: &JsonBindings, r: String, i: int|
        #![trigger call_ensures(legitimize, (k, b), r), binding_entries(*b)[i]]
        call_ensures(legitimize, (k, b), r) && 0 <= i < binding_entries(*b).len()
            && binding_entries(*b)[i].0 == r@ ==> binding_entries(*b)[i].1.0 == k@
}

/// A key that occurs more than once is given the same local name each time.
pub open spec fn consistent<N>(
    members: Seq<ObjectPropertyKind<N>>,
    names: Seq<Seq<char>>,
) -> bool {
    forall|i: int, j: int|
        0 <= i < members.len() && 0 <= j < members.len() && has_key(members[i]) && has_key(
            members[j],
        ) && members[i].key_name() == members[j].key_name() ==> #[trigger] names[i]
            == #[trigger] names[j]
}

/// Member `i` is the last of the first `n` that is given the local name `local`.
pub open spec fn last_named<N>(
    members: Seq<ObjectPropertyKind<N>>,
    names: Seq<Seq<char>>,
    n: int,
    local: Seq<char>,
    i: int,
) -> bool {
    &&& 0 <= i < n
    &&& has_key(members[i])
    &&& names[i] == local
    &&& forall|j: int| i < j < n && has_key(members[j]) ==> #[trigger] names[j] != local
}

/// The binding and the value are those of the last member with the binding's local name.
pub open spec fn is_of_last<N>(
    members: Seq<ObjectPropertyKind<N>>,
    names: Seq<Seq<char>>,
    n: int,
    binding: BindingView,
    value: Expression<N>,
) -> bool {
    exists|i: int|
        {
            &&& #[trigger] last_named(members, names, n, binding.0, i)
            &&& binding.1 == (members[i].key_name(), legal_identifier(members[i].key_name()))
            &&& value == members[i]->ObjectProperty_0.value
        }
}

/// The last member with the binding's local name, which the binding and the value are of.
proof fn lemma_last_member<N>(
    members: Seq<ObjectPropertyKind<N>>,
    names: Seq<Seq<char>>,
    n: int,
    binding: BindingView,
    value: Expression<N>,
) -> (i: int)
    requires
        is_of_last(members, names, n, binding, value),
    ensures
        last_named(members, names, n, binding.0, i),
        binding.1 == (members[i].key_name(), legal_identifier(members[i].key_name())),
        value == members[i]->ObjectProperty_0.value,
{
    choose|i: int|
        {
            &&& #[trigger] last_named(members, names, n, binding.0, i)
            &&& binding.1 == (members[i].key_name(), legal_identifier(members[i].key_name()))
            &&& value == members[i]->ObjectProperty_0.value
        }
}

/// The local names of a binding table are pairwise distinct, every member with a key has one, and
/// each binding and value comes from the last member with its local name.
proof fn lemma_bindings<N>(members: Seq<ObjectPropertyKind<N>>, names: Seq<Seq<char>>, n: int)
    requires
        0 <= n <= members.len(),
    ensures
        ({
            let bindings = bindings_after(members, names, n);
            let values = values_after(members, names, n);
            &&& bindings.len() == values.len()
            &&& forall|i: int, j: int|
                0 <= i < j < bindings.len() ==> (#[trigger] bindings[i]).0 != (
                #[trigger] bindings[j]).0
            &&& forall|i: int|
                0 <= i < n && has_key(members[i]) ==> slot_of(bindings, #[trigger] names[i])
                    < bindings.len()
            &&& forall|j: int|
                0 <= j < bindings.len() ==> is_of_last(
                    members,
                    names,
                    n,
                    #[trigger] bindings[j],
                    values[j],
                )
        }),
    decreases n,
{
    if n > 0 {
        lemma_bindings(members, names, n - 1);
        let before = bindings_after(members, names, n - 1);
        let values_before = values_after(members, names, n - 1);
        let bindings = bindings_after(members, names, n);
        let values = values_after(members, names, n);
        if has_key(members[n - 1]) {
            let slot = slot_of(before, names[n - 1]);
            lemma_slot_of(before, names[n - 1]);
            assert(bindings[slot].0 == names[n - 1]);
            assert forall|i: int| 0 <= i < n && has_key(members[i]) implies slot_of(
                bindings,
                #[trigger] names[i],
            ) < bindings.len() by {
                lemma_slot_of(bindings, names[i]);
                if i < n - 1 {
                    let old_slot = slot_of(before, names[i]);
                    lemma_slot_of(before, names[i]);
                    assert(bindings[old_slot].0 == before[old_slot].0);
                }
            }
            assert forall|j: int| 0 <= j < bindings.len() implies is_of_last(
                members,
                names,
                n,
                #[trigger] bindings[j],
                values[j],
            ) by {
                if j == slot {
                    assert(last_named(members, names, n, bindings[j].0, n - 1));
                } else {
                    assert(bindings[j] == before[j]);
                    assert(bindings[j].0 != names[n - 1]);
                    let i = lemma_last_member(members, names, n - 1, before[j], values_before[j]);
                    assert(last_named(members, names, n, bindings[j].0, i));
                }
            }
        } else {
            assert forall|j: int| 0 <= j < bindings.len() implies is_of_last(
                members,
                names,
                n,
                #[trigger] bindings[j],
                values[j],
            ) by {
                let i = lemma_last_member(members, names, n - 1, before[j], values_before[j]);
                assert(last_named(members, names, n, bindings[j].0, i));
            }
        }
    }
}

/// A taken local name that is answered is bound to the key that it is answered for.
proof fn lemma_taken_name_is_of_the_key<F: Fn(&str, &JsonBindings) -> String>(
    legitimize: F,
    key: Seq<char>,
    prior: Seq<BindingView>,
    name: Seq<char>,
    slot: int,
)
    requires
        avoids_clashes(legitimize),
        offered(legitimize, key, prior, name),
        0 <= slot < prior.len(),
        prior[slot].0 == name,
    ensures
        prior[slot].1.0 == key,
{
    let (k, b, r) = choose|k: &str, b: &JsonBindings, r: String| #[trigger]
        call_ensures(legitimize, (k, b), r) && k@ == key && binding_entries(*b) == prior && r@
            == name;
    assert(binding_entries(*b)[slot].0 == r@);
}

/// A member with a key whose local name was given before has the key of that earlier member, if
/// the names before it do not clash.
proof fn lemma_last_name_does_not_clash<N, F: Fn(&str, &JsonBindings) -> String>(
    legitimize: F,
    members: Seq<ObjectPropertyKind<N>>,
    names: Seq<Seq<char>>,
    last: int,
    i: int,
)
    requires
        avoids_clashes(legitimize),
        named_by(legitimize, members, names, members.len() as int),
        0 <= i < last < members.len(),
        has_key(members[i]),
        has_key(members[last]),
        names[i] == names[last],
        forall|k: int|
            0 <= k < last && has_key(members[k]) && #[trigger] names[k] == names[i]
                ==> members[k].key_name() == members[i].key_name(),
    ensures
        members[i].key_name() == members[last].key_name(),
{
    let key = members[last].key_name();
    let prior = bindings_after(members, names, last);
    let values = values_after(members, names, last);
    lemma_bindings(members, names, last);
    let slot = slot_of(prior, names[i]);
    lemma_slot_of(prior, names[i]);
    assert(offered(legitimize, key, prior, names[last]));
    lemma_taken_name_is_of_the_key(legitimize, key, prior, names[last], slot);
    assert(is_of_last(members, names, last, prior[slot], values[slot]));
    let k = lemma_last_member(members, names, last, prior[slot], values[slot]);
    assert(names[k] == names[i]);
}

/// Names that avoid clashes one at a time do not clash at all.
proof fn lemma_names_do_not_clash<N, F: Fn(&str, &JsonBindings) -> String>(
    legitimize: F,
    members: Seq<ObjectPropertyKind<N>>,
    names: Seq<Seq<char>>,
    n: int,
)
    requires
        avoids_clashes(legitimize),
        named_by(legitimize, members, names, members.len() as int),
        0 <= n <= members.len(),
    ensures
        forall|i: int, j: int|
            0 <= i < n && 0 <= j < n && has_key(members[i]) && has_key(members[j])
                && #[trigger] names[i] == #[trigger] names[j] ==> members[i].key_name()
                == members[j].key_name(),
    decreases n,
{
    if n > 0 {
        lemma_names_do_not_clash(legitimize, members, names, n - 1);
        let last = n - 1;
        if has_key(members[last]) {
            assert forall|i: int|
                0 <= i < last && has_key(members[i]) && #[trigger] names[i]
                    == names[last] implies members[i].key_name() == members[last].key_name() by {
                lemma_last_name_does_not_clash(legitimize, members, names, last, i);
            }
        }
    }
}

/// If a local name that is taken is only ever answered for the key that it is bound to, then no
/// local name is given to two different keys.
pub proof fn law_names_do_not_clash<N, F: Fn(&str, &JsonBindings) -> String>(
    legitimize: F,
    members: Seq<ObjectPropertyKind<N>>,
    names: Seq<Seq<char>>,
)
    requires
        avoids_clashes(legitimize),
        named_by(legitimize, members, names, members.len() as int),
    ensures
        clash_free(members, names),
{
    lemma_names_do_not_clash(legitimize, members, names, members.len() as int);
}

/// The bindings of a split module export every key but the empty one, and nothing else, as long
/// as a local name that is taken is only ever answered for the key that it is bound to.
pub proof fn law_bindings_cover_the_keys<N, F: Fn(&str, &JsonBindings) -> String>(
    legitimize: F,
    members: Seq<ObjectPropertyKind<N>>,
    body: Seq<Statement<N>>,
    entries: Seq<BindingView>,
)
    requires
        avoids_clashes(legitimize),
        split_into(legitimize, members, body, entries),
    ensures
        exported_names(entries) == key_names(members),
{
    let names = lemma_split_names(legitimize, members, body, entries);
    law_names_do_not_clash(legitimize, members, names);
    lemma_exported_names(members, names);
}

/// The bindings export every key but the empty one, and nothing else.
proof fn lemma_exported_names<N>(members: Seq<ObjectPropertyKind<N>>, names: Seq<Seq<char>>)
    requires
        clash_free(members, names),
    ensures
        exported_names(bindings_of(members, names)) == key_names(members),
{
    let len = members.len() as int;
    lemma_bindings(members, names, len);
    let bindings = bindings_of(members, names);
    let values = values_of(members, names);
    assert forall|name: Seq<char>|
        exported_names(bindings).contains(name) == key_names(members).contains(name) by {
        if key_names(members).contains(name) {
            let i = choose|i: int|
                0 <= i < members.len() && has_key(#[trigger] members[i]) && members[i].key_name()
                    == name;
            let j = slot_of(bindings, names[i]);
            lemma_slot_of(bindings, names[i]);
            assert(is_of_last(members, names, len, bindings[j], values[j]));
            assert(bindings[j].1.0 == name);
        }
        if exported_names(bindings).contains(name) {
            let j = choose|j: int|
                0 <= j < bindings.len() && (#[trigger] bindings[j]).1.0 == name;
            assert(is_of_last(members, names, len, bindings[j], values[j]));
            let i = lemma_last_member(members, names, len, bindings[j], values[j]);
            assert(has_key(members[i]));
        }
    }
}

/// Of a split module, every variable is declared exactly once, and the export list names each of
/// them exactly once, in the order of the declarations.
pub proof fn law_variables_declared_and_exported_once<N>(
    members: Seq<ObjectPropertyKind<N>>,
    names: Seq<Seq<char>>,
    body: Seq<Statement<N>>,
)
    requires
        split_body(members, names, body),
    ensures
        ({
            let n = body.len() - 2;
            let specifiers = body[n + 1]->specifiers@;
            &&& specifiers.len() == n
            &&& forall|i: int|
                0 <= i < n ==> (#[trigger] body[i]) is VarDeclaration && body[i]->local@
                    == specifiers[i].local@
            &&& forall|i: int, j: int|
                0 <= i < j < n ==> (#[trigger] body[i])->local@ != (#[trigger] body[j])->local@
        }),
{
    lemma_bindings(members, names, members.len() as int);
    let bindings = bindings_of(members, names);
    let n = body.len() - 2;
    assert forall|i: int| 0 <= i < n implies (#[trigger] body[i]) is VarDeclaration
        && body[i]->local@ == body[n + 1]->specifiers@[i].local@ by {
        assert(declares(body[i], bindings[i].0, values_of(members, names)[i]));
    }
    assert forall|i: int, j: int| 0 <= i < j < n implies (#[trigger] body[i])->local@ != (
    #[trigger] body[j])->local@ by {
        assert(bindings[i].0 != bindings[j].0);
    }
}

/// A JSON module exports `default` plus one name per key: as long as no two different keys get
/// the same local name, every key but the empty one is in the export list, and nothing else is.
pub proof fn law_default_plus_one_export_per_key<N>(
    members: Seq<ObjectPropertyKind<N>>,
    names: Seq<Seq<char>>,
    body: Seq<Statement<N>>,
)
    requires
        split_body(members, names, body),
        clash_free(members, names),
    ensures
        body[body.len() - 2] is ExportDefault,
        listed_names(body[body.len() - 1]->specifiers@) == key_names(members),
{
    lemma_exported_names(members, names);
    let bindings = bindings_of(members, names);
    let specifiers = body[body.len() - 1]->specifiers@;
    assert forall|name: Seq<char>|
        listed_names(specifiers).contains(name) == exported_names(bindings).contains(name) by {
        if listed_names(specifiers).contains(name) {
            let j = choose|j: int|
                0 <= j < specifiers.len() && (#[trigger] specifiers[j]).exported@ == name;
            assert(bindings[j].1.0 == name);
        }
        if exported_names(bindings).contains(name) {
            let j = choose|j: int|
                0 <= j < bindings.len() && (#[trigger] bindings[j]).1.0 == name;
            assert(specifiers[j].exported@ == name);
        }
    }
}

/// No name is exported twice, as long as a key that is repeated gets the same local name again.
pub proof fn law_exported_names_distinct<N>(
    members: Seq<ObjectPropertyKind<N>>,
    names: Seq<Seq<char>>,
    body: Seq<Statement<N>>,
)
    requires
        split_body(members, names, body),
        consistent(members, names),
    ensures
        ({
            let specifiers = body[body.len() - 1]->specifiers@;
            forall|i: int, j: int|
                0 <= i < j < specifiers.len() ==> (#[trigger] specifiers[i]).exported@ != (
                #[trigger] specifiers[j]).exported@
        }),
{
    let len = members.len() as int;
    lemma_bindings(members, names, len);
    let bindings = bindings_of(members, names);
    let values = values_of(members, names);
    let specifiers = body[body.len() - 1]->specifiers@;
    assert forall|i: int, j: int| 0 <= i < j < specifiers.len() implies (
    #[trigger] specifiers[i]).exported@ != (#[trigger] specifiers[j]).exported@ by {
        assert(is_of_last(members, names, len, bindings[i], values[i]));
        assert(is_of_last(members, names, len, bindings[j], values[j]));
        let k = lemma_last_member(members, names, len, bindings[i], values[i]);
        let l = lemma_last_member(members, names, len, bindings[j], values[j]);
        assert(names[k] != names[l]);
    }
}

/// Every binding of a split module exports a key of the object literal that is not empty, under
/// that key unchanged, and its flag tells whether the key is a legal identifier, whatever the name
/// of the variable. The export list says the same.
pub proof fn law_flags_tell_legality<N, F: Fn(&str, &JsonBindings) -> String>(
    legitimize: F,
    members: Seq<ObjectPropertyKind<N>>,
    body: Seq<Statement<N>>,
    entries: Seq<BindingView>,
)
    requires
        split_into(legitimize, members, body, entries),
    ensures
        forall|i: int|
            0 <= i < entries.len() ==> key_names(members).contains((#[trigger] entries[i]).1.0)
                && entries[i].1.1 == legal_identifier(entries[i].1.0),
        ({
            let specifiers = body[body.len() - 1]->specifiers@;
            forall|i: int|
                0 <= i < specifiers.len() ==> key_names(members).contains(
                    (#[trigger] specifiers[i]).exported@,
                ) && specifiers[i].exported_is_identifier == legal_identifier(
                    specifiers[i].exported@,
                )
        }),
{
    let names = lemma_split_names(legitimize, members, body, entries);
    let len = members.len() as int;
    lemma_bindings(members, names, len);
    let values = values_of(members, names);
    let specifiers = body[body.len() - 1]->specifiers@;
    assert forall|i: int| 0 <= i < entries.len() implies key_names(members).contains(
        (#[trigger] entries[i]).1.0,
    ) && entries[i].1.1 == legal_identifier(entries[i].1.0) by {
        assert(is_of_last(members, names, len, entries[i], values[i]));
        let k = lemma_last_member(members, names, len, entries[i], values[i]);
        assert(has_key(members[k]));
    }
    assert forall|i: int| 0 <= i < specifiers.len() implies key_names(members).contains(
        (#[trigger] specifiers[i]).exported@,
    ) && specifiers[i].exported_is_identifier == legal_identifier(specifiers[i].exported@) by {
        assert(entries[i].1.1 == legal_identifier(entries[i].1.0));
    }
}

/// The default export is still the payload: its members have the keys of the payload's members,
/// and a member that decides the value of its key, because no later one has the same key, refers
/// to a variable whose initial value is the member's old value. (A member with an empty key keeps
/// its value in place.) No two different keys may get the same local name.
pub proof fn law_default_export_keeps_keys_and_values<N>(
    members: Seq<ObjectPropertyKind<N>>,
    names: Seq<Seq<char>>,
    body: Seq<Statement<N>>,
    i: int,
)
    requires
        all_named(members),
        split_body(members, names, body),
        clash_free(members, names),
        0 <= i < members.len(),
        forall|j: int|
            i < j < members.len() ==> (#[trigger] members[j]).key_name() != members[i].key_name(),
    ensures
        ({
            let n = body.len() - 2;
            let after = body[n]->ExportDefault_0->ObjectExpression_0@;
            &&& after.len() == members.len()
            &&& after[i].is_named()
            &&& after[i].key_name() == members[i].key_name()
            &&& !has_key(members[i]) ==> after[i] == members[i]
            &&& has_key(members[i]) ==> {
                &&& after[i]->ObjectProperty_0.value is Identifier
                &&& exists|j: int|
                    0 <= j < n && declares(
                        #[trigger] body[j],
                        after[i]->ObjectProperty_0.value->Identifier_0@,
                        members[i]->ObjectProperty_0.value,
                    )
            }
        }),
{
    let len = members.len() as int;
    lemma_bindings(members, names, len);
    let bindings = bindings_of(members, names);
    let values = values_of(members, names);
    let n = body.len() - 2;
    let after = body[n]->ExportDefault_0->ObjectExpression_0@;
    assert(members[i].is_named());
    assert(member_split(members[i], after[i], names[i]));
    if has_key(members[i]) {
        let j = slot_of(bindings, names[i]);
        lemma_slot_of(bindings, names[i]);
        assert(is_of_last(members, names, len, bindings[j], values[j]));
        let k = lemma_last_member(members, names, len, bindings[j], values[j]);
        assert(names[k] == names[i]);
        assert(k == i);
        assert(declares(body[j], names[i], members[i]->ObjectProperty_0.value));
    }
}

/// The keys of the default export are those of the payload, in the same order.
pub proof fn law_default_export_keeps_key_order<N>(
    members: Seq<ObjectPropertyKind<N>>,
    names: Seq<Seq<char>>,
    body: Seq<Statement<N>>,
)
    requires
        all_named(members),
        split_body(members, names, body),
    ensures
        ({
            let after = body[body.len() - 2]->ExportDefault_0->ObjectExpression_0@;
            &&& after.len() == members.len()
            &&& all_named(after)
            &&& forall|i: int|
                0 <= i < members.len() ==> (#[trigger] after[i]).key_name()
                    == members[i].key_name()
        }),
{
    let after = body[body.len() - 2]->ExportDefault_0->ObjectExpression_0@;
    assert forall|i: int| 0 <= i < members.len() implies (#[trigger] after[i]).is_named()
        && after[i].key_name() == members[i].key_name() by {
        assert(members[i].is_named());
        assert(member_split(members[i], after[i], names[i]));
    }
}

/// A `__proto__` key never sets the prototype of the default export: its member is computed. And
/// a member that became shorthand has the name of the variable it refers to as its key.
pub proof fn law_proto_is_computed_and_shorthand_is_sound<N>(
    members: Seq<ObjectPropertyKind<N>>,
    names: Seq<Seq<char>>,
    body: Seq<Statement<N>>,
    i: int,
)
    requires
        all_named(members),
        split_body(members, names, body),
        0 <= i < members.len(),
    ensures
        ({
            let before = members[i]->ObjectProperty_0;
            let after = body[body.len()
                - 2]->ExportDefault_0->ObjectExpression_0@[i]->ObjectProperty_0;
            &&& members[i].key_name() == proto_key() ==> after.computed && after.shorthand
                == before.shorthand
            &&& after.shorthand && !before.shorthand ==> {
                &&& after.value is Identifier
                &&& after.key.name() == Some(after.value->Identifier_0@)
                &&& members[i].key_name() == after.value->Identifier_0@
            }
        }),
{
    reveal_strlit("__proto__");
    let after = body[body.len() - 2]->ExportDefault_0->ObjectExpression_0@;
    assert(members[i].is_named());
    assert(member_split(members[i], after[i], names[i]));
}

/// Keys that are not empty and get distinct local names become one variable each, in order, with
/// the value of the key.
pub proof fn law_distinct_names_split_in_order<N>(
    members: Seq<ObjectPropertyKind<N>>,
    names: Seq<Seq<char>>,
    n: int,
)
    requires
        0 <= n <= members.len(),
        forall|i: int| 0 <= i < n ==> has_key(#[trigger] members[i]),
        forall|i: int, j: int| 0 <= i < j < n ==> #[trigger] names[i] != #[trigger] names[j],
    ensures
        bindings_after(members, names, n).len() == n,
        values_after(members, names, n).len() == n,
        forall|i: int|
            0 <= i < n ==> #[trigger] bindings_after(members, names, n)[i] == (
                names[i],
                (members[i].key_name(), legal_identifier(members[i].key_name())),
            ),
        forall|i: int|
            0 <= i < n ==> #[trigger] values_after(members, names, n)[i]
                == members[i]->ObjectProperty_0.value,
    decreases n,
{
    if n > 0 {
        law_distinct_names_split_in_order(members, names, n - 1);
        let before = bindings_after(members, names, n - 1);
        lemma_slot_of(before, names[n - 1]);
        assert(has_key(members[n - 1]));
        if slot_of(before, names[n - 1]) < before.len() {
            let slot = slot_of(before, names[n - 1]);
            assert(before[slot].0 == names[slot]);
        }
    }
}

/// The shape that a module is lowered into: CommonJS if and only if it is linked as CommonJS,
/// split if and only if it is JSON with an object literal and not CommonJS, and else a plain
/// default export.
pub proof fn law_shape_of_the_outcome<N, F: Fn(&str, &JsonBindings) -> String>(
    legitimize: F,
    before: Program<N>,
    is_json: bool,
    is_commonjs: bool,
    after: Program<N>,
    outcome: LoweredLazyExport,
)
    requires
        lowered_to(legitimize, before, is_json, is_commonjs, after, outcome),
    ensures
        outcome is CommonJs <==> is_commonjs,
        outcome is EsmJsonObject <==> !is_commonjs && is_json && before.holds_object(),
        outcome is EsmDefault <==> !is_commonjs && !(is_json && before.holds_object()),
{
}

/// Where there is no object literal to split, or the module is CommonJS, JSON is lowered like
/// anything else.
pub proof fn law_json_without_object_is_nothing_special<N, F: Fn(&str, &JsonBindings) -> String>(
    legitimize: F,
    before: Program<N>,
    is_commonjs: bool,
    after: Program<N>,
    outcome: LoweredLazyExport,
)
    requires
        is_commonjs || !before.holds_object(),
    ensures
        lowered_to(legitimize, before, true, is_commonjs, after, outcome) == lowered_to(
            legitimize,
            before,
            false,
            is_commonjs,
            after,
            outcome,
        ),
{
}

/// The local name that `legitimize` answers depends on nothing but the key and the bindings made so
/// far.
pub open spec fn is_function<F: Fn(&str, &JsonBindings) -> String>(legitimize: F) -> bool {
    forall|k: &str, b: &JsonBindings, r: String, l: &str, c: &JsonBindings, s: String|
        #![trigger call_ensures(legitimize, (k, b), r), call_ensures(legitimize, (l, c), s)]
        call_ensures(legitimize, (k, b), r) && call_ensures(legitimize, (l, c), s) && k@ == l@
            && binding_entries(*b) == binding_entries(*c) ==> r@ == s@
}

/// Two object literals have the same members, up to the identity of strings.
pub open spec fn same_members<N>(
    members: Seq<ObjectPropertyKind<N>>,
    copy: Seq<ObjectPropertyKind<N>>,
) -> bool {
    &&& members.len() == copy.len()
    &&& forall|i: int| 0 <= i < members.len() ==> (#[trigger] members[i])@ == copy[i]@
}

/// Copies of an object literal have the same members.
proof fn lemma_copied_members<N>(object: Expression<N>, copy: Expression<N>)
    requires
        object@ == copy@,
        object is ObjectExpression,
    ensures
        copy is ObjectExpression,
        same_members(object->ObjectExpression_0@, copy->ObjectExpression_0@),
{
    let members = object->ObjectExpression_0@;
    let copied = copy->ObjectExpression_0@;
    let view = object@->ObjectExpression_0;
    assert(view == copy@->ObjectExpression_0);
    assert(view.len() == members.len());
    assert(view.len() == copied.len());
    assert forall|i: int| 0 <= i < members.len() implies (#[trigger] members[i])@ == copied[i]@ by {
        assert(view[i] == members[i]@);
        assert(view[i] == copied[i]@);
    }
}

/// Object literals with the same members are copies of each other.
proof fn lemma_object_of_copied_members<N>(object: Expression<N>, copy: Expression<N>)
    requires
        object is ObjectExpression,
        copy is ObjectExpression,
        same_members(object->ObjectExpression_0@, copy->ObjectExpression_0@),
    ensures
        object@ == copy@,
{
    assert(object@->ObjectExpression_0 =~= copy@->ObjectExpression_0);
}

/// Copies of an expression are copies of each other inside their parentheses too.
proof fn lemma_copied_inside_parentheses<N>(expr: Expression<N>, copy: Expression<N>)
    requires
        expr@ == copy@,
    ensures
        expr.stripped()@ == copy.stripped()@,
    decreases expr,
{
    match (expr, copy) {
        (
            Expression::ParenthesizedExpression(inner),
            Expression::ParenthesizedExpression(copied),
        ) => {
            assert(expr@->ParenthesizedExpression_0 == copy@->ParenthesizedExpression_0);
            lemma_copied_inside_parentheses(*inner, *copied);
        },
        _ => {},
    }
}

/// The same members are given the same local names, and so the same bindings and values.
proof fn lemma_names_agree<N, F: Fn(&str, &JsonBindings) -> String>(
    legitimize: F,
    members: Seq<ObjectPropertyKind<N>>,
    copy: Seq<ObjectPropertyKind<N>>,
    names: Seq<Seq<char>>,
    others: Seq<Seq<char>>,
    n: int,
)
    requires
        is_function(legitimize),
        all_named(members),
        same_members(members, copy),
        named_by(legitimize, members, names, members.len() as int),
        named_by(legitimize, copy, others, members.len() as int),
        0 <= n <= members.len(),
    ensures
        bindings_after(members, names, n) == bindings_after(copy, others, n),
        values_after(members, names, n).len() == values_after(copy, others, n).len(),
        forall|i: int|
            0 <= i < values_after(members, names, n).len() ==> (#[trigger] values_after(
                members,
                names,
                n,
            )[i])@ == values_after(copy, others, n)[i]@,
        forall|i: int| 0 <= i < n && has_key(members[i]) ==> #[trigger] names[i] == others[i],
    decreases n,
{
    if n > 0 {
        lemma_names_agree(legitimize, members, copy, names, others, n - 1);
        let last = n - 1;
        let member = members[last];
        assert(member.is_named() && member@ == copy[last]@);
        assert(copy[last].is_named() && copy[last].key_name() == member.key_name());
        if has_key(member) {
            let key = member.key_name();
            let prior = bindings_after(members, names, last);
            assert(offered(legitimize, key, prior, names[last]));
            assert(offered(legitimize, key, prior, others[last]));
            assert(names[last] == others[last]);
            lemma_slot_of(prior, names[last]);
            let value = member->ObjectProperty_0.value;
            assert(value@ == copy[last]->ObjectProperty_0.value@);
            let values = values_after(members, names, n);
            let copied = values_after(copy, others, n);
            assert forall|i: int| 0 <= i < values.len() implies (#[trigger] values[i])@
                == copied[i]@ by {
                if i < values_after(members, names, last).len() {
                    assert(values_after(members, names, last)[i]@ == values_after(
                        copy,
                        others,
                        last,
                    )[i]@);
                }
            }
        }
    }
}

/// The same members are split into the same statements and bindings.
proof fn lemma_splits_agree<N, F: Fn(&str, &JsonBindings) -> String>(
    legitimize: F,
    members: Seq<ObjectPropertyKind<N>>,
    copy: Seq<ObjectPropertyKind<N>>,
    p: Program<N>,
    q: Program<N>,
    entries: Seq<BindingView>,
    others: Seq<BindingView>,
)
    requires
        is_function(legitimize),
        all_named(members),
        same_members(members, copy),
        split_into(legitimize, members, p.body@, entries),
        split_into(legitimize, copy, q.body@, others),
    ensures
        entries == others,
        p@ == q@,
{
    let len = members.len() as int;
    let p_names = lemma_split_names(legitimize, members, p.body@, entries);
    let q_names = lemma_split_names(legitimize, copy, q.body@, others);
    lemma_names_agree(legitimize, members, copy, p_names, q_names, len);
    let values = values_of(members, p_names);
    let copied = values_of(copy, q_names);
    let n = entries.len() as int;
    lemma_same_length(members, p_names, len);

    let p_object = p.body@[n]->ExportDefault_0;
    let q_object = q.body@[n]->ExportDefault_0;
    let p_members = p_object->ObjectExpression_0@;
    let q_members = q_object->ObjectExpression_0@;
    assert forall|i: int| 0 <= i < len implies (#[trigger] p_members[i])@ == q_members[i]@ by {
        assert(members[i].is_named() && members[i]@ == copy[i]@);
        assert(copy[i].key_name() == members[i].key_name());
        assert(member_split(members[i], p_members[i], p_names[i]));
        assert(member_split(copy[i], q_members[i], q_names[i]));
        if has_key(members[i]) {
            assert(p_names[i] == q_names[i]);
        }
    }
    lemma_object_of_copied_members(p_object, q_object);

    let p_list = p.body@[n + 1]->specifiers@;
    let q_list = q.body@[n + 1]->specifiers@;
    assert(p_list.map_values(|s: ExportSpecifier| s@) =~= q_list.map_values(
        |s: ExportSpecifier| s@,
    )) by {
        assert forall|i: int| 0 <= i < n implies (#[trigger] p_list[i])@ == q_list[i]@ by {
            assert(entries[i] == (
                q_list[i].local@,
                (q_list[i].exported@, q_list[i].exported_is_identifier),
            ));
        }
    }

    assert forall|i: int| 0 <= i < p.body@.len() implies (#[trigger] p.body@[i])@
        == q.body@[i]@ by {
        if i < n {
            assert(declares(p.body@[i], entries[i].0, values[i]));
            assert(declares(q.body@[i], entries[i].0, copied[i]));
        }
    }
    assert(p@ =~= q@);
}

/// Lowering a module twice gives the same result: copies of a program, lowered with the same flags,
/// become copies of one program again, with the same outcome and the same bindings in the same
/// order. So the two output paths that lower a module each on their own cannot disagree. The local
/// name of a key may only depend on the key and the bindings made so far.
pub proof fn law_lowering_agrees<N, F: Fn(&str, &JsonBindings) -> String>(
    legitimize: F,
    before: Program<N>,
    copy: Program<N>,
    is_json: bool,
    is_commonjs: bool,
    p: Program<N>,
    p_outcome: LoweredLazyExport,
    q: Program<N>,
    q_outcome: LoweredLazyExport,
)
    requires
        is_function(legitimize),
        before@ == copy@,
        before.starts_with_expression(),
        is_json && !is_commonjs && before.holds_object() ==> all_named(before.members()),
        lowered_to(legitimize, before, is_json, is_commonjs, p, p_outcome),
        lowered_to(legitimize, copy, is_json, is_commonjs, q, q_outcome),
    ensures
        p@ == q@,
        p_outcome@ == q_outcome@,
{
    assert(before@.len() == before.body@.len());
    assert(copy@.len() == copy.body@.len());
    assert(before@[0] == before.body@[0]@);
    assert(copy@[0] == copy.body@[0]@);
    assert(copy.starts_with_expression());
    assert(before.payload()@ == copy.payload()@);
    lemma_copied_inside_parentheses(before.payload(), copy.payload());
    if !is_commonjs && is_json && before.holds_object() {
        lemma_copied_members(before.payload().stripped(), copy.payload().stripped());
        lemma_splits_agree(
            legitimize,
            before.members(),
            copy.members(),
            p,
            q,
            binding_entries(p_outcome->EsmJsonObject_0),
            binding_entries(q_outcome->EsmJsonObject_0),
        );
    } else {
        assert(!is_commonjs && is_json ==> !copy.holds_object());
        assert forall|i: int| 0 <= i < p.body@.len() implies (#[trigger] p.body@[i])@
            == q.body@[i]@ by {
            assert(before@[i] == before.body@[i]@);
            assert(copy@[i] == copy.body@[i]@);
        }
        assert(p@ =~= q@);
    }
}

/// An expression in `n` pairs of parentheses.
pub open spec fn parenthesized<N>(expr: Expression<N>, n: nat) -> Expression<N>
    decreases n,
{
    if n == 0 {
        expr
    } else {
        Expression::ParenthesizedExpression(Box::new(parenthesized(expr, (n - 1) as nat)))
    }
}

/// Parentheses round an expression are stripped with its own.
proof fn lemma_parentheses_are_stripped<N>(expr: Expression<N>, n: nat)
    ensures
        parenthesized(expr, n).stripped() == expr.stripped(),
    decreases n,
{
    if n > 0 {
        lemma_parentheses_are_stripped(expr, (n - 1) as nat);
    }
}

/// Parentheses round a JSON object make no difference: with any number of them the module is split
/// into the same statements and bindings. They do not survive either: the default export is the
/// bare object literal.
pub proof fn law_parentheses_make_no_difference<N, F: Fn(&str, &JsonBindings) -> String>(
    legitimize: F,
    bare: Program<N>,
    wrapped: Program<N>,
    n: nat,
    p: Program<N>,
    p_outcome: LoweredLazyExport,
    q: Program<N>,
    q_outcome: LoweredLazyExport,
)
    requires
        is_function(legitimize),
        bare.starts_with_expression(),
        bare.holds_object(),
        all_named(bare.members()),
        wrapped.starts_with_expression(),
        wrapped.payload()@ == parenthesized(bare.payload(), n)@,
        lowered_to(legitimize, bare, true, false, p, p_outcome),
        lowered_to(legitimize, wrapped, true, false, q, q_outcome),
    ensures
        p@ == q@,
        p_outcome@ == q_outcome@,
        p_outcome is EsmJsonObject,
        q.body@[q.body@.len() - 2] is ExportDefault,
        q.body@[q.body@.len() - 2]->ExportDefault_0 is ObjectExpression,
{
    lemma_parentheses_are_stripped(bare.payload(), n);
    lemma_copied_inside_parentheses(parenthesized(bare.payload(), n), wrapped.payload());
    lemma_copied_members(bare.payload().stripped(), wrapped.payload().stripped());
    lemma_splits_agree(
        legitimize,
        bare.members(),
        wrapped.members(),
        p,
        q,
        binding_entries(p_outcome->EsmJsonObject_0),
        binding_entries(q_outcome->EsmJsonObject_0),
    );
}

/// A module that is linked as CommonJS becomes `module.exports = <payload>`, whatever the payload,
/// and one that is neither CommonJS nor split becomes `export default <payload>`. The payload is
/// kept as it is, parentheses included, and so is every other statement. What is not JSON is never
/// split.
pub proof fn law_payload_is_wrapped_whole<N, F: Fn(&str, &JsonBindings) -> String>(
    legitimize: F,
    before: Program<N>,
    is_json: bool,
    is_commonjs: bool,
    after: Program<N>,
    outcome: LoweredLazyExport,
    payload: Expression<N>,
)
    requires
        before.body@.len() > 0,
        before.body@[0] == Statement::ExpressionStatement(payload),
        lowered_to(legitimize, before, is_json, is_commonjs, after, outcome),
    ensures
        is_commonjs ==> {
            &&& outcome is CommonJs
            &&& after.body@.len() == before.body@.len()
            &&& after.body@[0] == Statement::ModuleExports(payload)
        },
        !is_commonjs && (!is_json || !(payload.stripped() is ObjectExpression)) ==> {
            &&& outcome is EsmDefault
            &&& after.body@.len() == before.body@.len()
            &&& after.body@[0] == Statement::ExportDefault(payload)
        },
        !is_commonjs && is_json && payload.stripped() is ObjectExpression ==> outcome
            is EsmJsonObject,
        is_commonjs || !is_json || !(payload.stripped() is ObjectExpression) ==> forall|i: int|
            1 <= i < before.body@.len() ==> #[trigger] after.body@[i] == before.body@[i],
{
}

/// A JSON module whose payload is an object literal, in any number of parentheses, is split by the
/// members of that literal, unless it is CommonJS. No other payload holds an object.
pub proof fn law_object_is_split_by_its_members<N, F: Fn(&str, &JsonBindings) -> String>(
    legitimize: F,
    before: Program<N>,
    after: Program<N>,
    outcome: LoweredLazyExport,
    payload: Expression<N>,
)
    requires
        before.body@.len() > 0,
        before.body@[0] == Statement::ExpressionStatement(payload),
        lowered_to(legitimize, before, true, false, after, outcome),
    ensures
        before.starts_with_expression(),
        before.payload() == payload,
        before.holds_object() <==> payload.stripped() is ObjectExpression,
        payload.stripped() matches Expression::ObjectExpression(members) ==> {
            &&& before.members() == members@
            &&& outcome is EsmJsonObject
            &&& split_into(
                legitimize,
                members@,
                after.body@,
                binding_entries(outcome->EsmJsonObject_0),
            )
        },
{
}

/// Stripping takes off every pair of parentheses round an expression and nothing else.
pub proof fn law_stripping_takes_off_parentheses_only<N>(expr: Expression<N>) -> (n: nat)
    ensures
        !(expr.stripped() is ParenthesizedExpression),
        expr == parenthesized(expr.stripped(), n),
        expr is ParenthesizedExpression <==> n > 0,
    decreases expr,
{
    match expr {
        Expression::ParenthesizedExpression(inner) => {
            let n = law_stripping_takes_off_parentheses_only(*inner);
            assert(((n + 1) as nat - 1) as nat == n);
            (n + 1) as nat
        },
        _ => 0,
    }
}

/// The name of a key is the identifier or the string that it is written as; any other key has the
/// static name that the host gives it. A member is named if it is no spread and its key is.
pub proof fn law_keys_are_named_as_written<N>(key: PropertyKey<N>, member: ObjectPropertyKind<N>)
    ensures
        key matches PropertyKey::StaticIdentifier(s) ==> key.name() == Some(s@),
        key matches PropertyKey::StringLiteral(s) ==> key.name() == Some(s@),
        key matches PropertyKey::Other { node, static_name } ==> {
            &&& key.name() is Some <==> static_name is Some
            &&& key.name() is Some ==> key.name()->0 == static_name->0@
        },
        member is SpreadProperty ==> !member.is_named(),
        member matches ObjectPropertyKind::ObjectProperty(property) ==> {
            &&& member.is_named() <==> property.key.name() is Some
            &&& member.is_named() ==> property.key.name() == Some(member.key_name())
        },
{
}

/// No character comes before the first.
proof fn lemma_char_is_not_negative(c: char)
    ensures
        '\0' <= c,
{
}

/// All members of an object literal are named if none is a spread and every key has a name.
pub proof fn law_named_members<N>(members: Seq<ObjectPropertyKind<N>>)
    ensures
        all_named(members) <==> forall|i: int|
            0 <= i < members.len() ==> (#[trigger] members[i]) is ObjectProperty
                && members[i]->ObjectProperty_0.key.name() is Some,
{
    if all_named(members) {
        assert forall|i: int| 0 <= i < members.len() implies (#[trigger] members[i])
            is ObjectProperty && members[i]->ObjectProperty_0.key.name() is Some by {
            assert(members[i].is_named());
        }
    }
}

/// A legal identifier of ASCII characters is made of letters, digits, `$` and `_`, does not start
/// with a digit, and is none of the reserved words; and any such name is one. Of the other names,
/// those are legal that the tables of Unicode allow.
pub proof fn law_legal_identifiers(name: Seq<char>)
    ensures
        legal_identifier(name) ==> {
            &&& name != "let"@ && name != "static"@ && name != "implements"@
            &&& name != "interface"@ && name != "package"@ && name != "private"@
            &&& name != "protected"@ && name != "public"@ && name != "await"@
            &&& name != "break"@ && name != "case"@ && name != "catch"@ && name != "class"@
            &&& name != "const"@ && name != "continue"@ && name != "debugger"@
            &&& name != "default"@ && name != "delete"@ && name != "do"@ && name != "else"@
            &&& name != "enum"@ && name != "export"@ && name != "extends"@ && name != "false"@
            &&& name != "finally"@ && name != "for"@ && name != "function"@ && name != "if"@
            &&& name != "import"@ && name != "in"@ && name != "instanceof"@ && name != "new"@
            &&& name != "null"@ && name != "return"@ && name != "super"@ && name != "switch"@
            &&& name != "this"@ && name != "throw"@ && name != "true"@ && name != "try"@
            &&& name != "typeof"@ && name != "var"@ && name != "void"@ && name != "while"@
            &&& name != "with"@ && name != "yield"@
        },
        legal_identifier(name) && (forall|i: int|
            0 <= i < name.len() ==> '\u{7f}' >= #[trigger] name[i]) ==> {
            &&& name.len() > 0
            &&& !('0' <= name[0] <= '9')
            &&& forall|i: int|
                0 <= i < name.len() ==> 'a' <= #[trigger] name[i] <= 'z' || 'A' <= name[i] <= 'Z'
                    || '0' <= name[i] <= '9' || name[i] == '$' || name[i] == '_'
        },
        (exists|i: int| 0 <= i < name.len() && '\u{80}' <= #[trigger] name[i])
            && legal_identifier(name) ==> unicode_identifier_name(name),
        !legal_identifier(name) && ((exists|i: int|
            0 <= i < name.len() && '\u{80}' <= #[trigger] name[i]) && unicode_identifier_name(name)
            || name.len() > 0 && !('0' <= name[0] <= '9') && (forall|i: int|
            0 <= i < name.len() ==> 'a' <= #[trigger] name[i] <= 'z' || 'A' <= name[i] <= 'Z'
                || '0' <= name[i] <= '9' || name[i] == '$' || name[i] == '_')) ==> {
            ||| name == "let"@ || name == "static"@ || name == "implements"@
            ||| name == "interface"@ || name == "package"@ || name == "private"@
            ||| name == "protected"@ || name == "public"@ || name == "await"@
            ||| name == "break"@ || name == "case"@ || name == "catch"@ || name == "class"@
            ||| name == "const"@ || name == "continue"@ || name == "debugger"@
            ||| name == "default"@ || name == "delete"@ || name == "do"@ || name == "else"@
            ||| name == "enum"@ || name == "export"@ || name == "extends"@ || name == "false"@
            ||| name == "finally"@ || name == "for"@ || name == "function"@ || name == "if"@
            ||| name == "import"@ || name == "in"@ || name == "instanceof"@ || name == "new"@
            ||| name == "null"@ || name == "return"@ || name == "super"@ || name == "switch"@
            ||| name == "this"@ || name == "throw"@ || name == "true"@ || name == "try"@
            ||| name == "typeof"@ || name == "var"@ || name == "void"@ || name == "while"@
            ||| name == "with"@ || name == "yield"@
        },
{
    let is_ascii = forall|i: int| 0 <= i < name.len() ==> ('\u{7f}' >= #[trigger] name[i]);
    if is_ascii {
        assert forall|i: int| 0 <= i < name.len() implies '\0' <= #[trigger] name[i]
            <= '\u{7f}' by {
            lemma_char_is_not_negative(name[i]);
        }
        assert(is_ascii_chars(name));
    }
}

/// The local names of the members of an object literal that was split, apart from the calls that
/// they were answered in.
proof fn lemma_split_locals<N, F: Fn(&str, &JsonBindings) -> String>(
    legitimize: F,
    members: Seq<ObjectPropertyKind<N>>,
    body: Seq<Statement<N>>,
    entries: Seq<BindingView>,
) -> (names: Seq<Seq<char>>)
    requires
        split_into(legitimize, members, body, entries),
    ensures
        names.len() == members.len(),
        split_body(members, names, body),
        entries == bindings_of(members, names),
{
    lemma_split_names(legitimize, members, body, entries)
}

/// A split module consists of one declaration for each entry of the binding table, the default
/// export of an object literal with as many members as the payload, and an export list that says
/// what the table says, all in the order of the table. No two declarations share a name, and the
/// flag of an export is the legality of the exported name.
pub proof fn law_split_module_in_order<N, F: Fn(&str, &JsonBindings) -> String>(
    legitimize: F,
    members: Seq<ObjectPropertyKind<N>>,
    body: Seq<Statement<N>>,
    entries: Seq<BindingView>,
)
    requires
        split_into(legitimize, members, body, entries),
    ensures
        ({
            let n = entries.len() as int;
            let specifiers = body[n + 1]->specifiers@;
            &&& body.len() == n + 2
            &&& body[n] is ExportDefault
            &&& body[n]->ExportDefault_0 is ObjectExpression
            &&& body[n]->ExportDefault_0->ObjectExpression_0@.len() == members.len()
            &&& body[n + 1] is ExportNamed
            &&& specifiers.len() == n
            &&& forall|k: int|
                #![trigger body[k]]
                #![trigger entries[k]]
                #![trigger specifiers[k]]
                0 <= k < n ==> {
                    &&& body[k] is VarDeclaration
                    &&& body[k]->local@ == entries[k].0
                    &&& specifiers[k].local@ == entries[k].0
                    &&& specifiers[k].exported@ == entries[k].1.0
                    &&& specifiers[k].exported_is_identifier == entries[k].1.1
                    &&& entries[k].1.1 == legal_identifier(entries[k].1.0)
                }
            &&& forall|k: int, l: int|
                0 <= k < l < n ==> (#[trigger] entries[k]).0 != (#[trigger] entries[l]).0
        }),
{
    let names = lemma_split_locals(legitimize, members, body, entries);
    let values = values_of(members, names);
    let n = entries.len() as int;
    let specifiers = body[n + 1]->specifiers@;
    lemma_bindings(members, names, members.len() as int);
    law_flags_tell_legality(legitimize, members, body, entries);
    assert forall|k: int|
        #![trigger body[k]]
        #![trigger entries[k]]
        #![trigger specifiers[k]]
        0 <= k < n implies {
        &&& body[k] is VarDeclaration
        &&& body[k]->local@ == entries[k].0
        &&& specifiers[k].local@ == entries[k].0
        &&& specifiers[k].exported@ == entries[k].1.0
        &&& specifiers[k].exported_is_identifier == entries[k].1.1
        &&& entries[k].1.1 == legal_identifier(entries[k].1.0)
    } by {
        assert(declares(body[k], entries[k].0, values[k]));
        let s = specifiers[k];
        assert(entries[k] == (s.local@, (s.exported@, s.exported_is_identifier)));
    }
}

/// Every specifier `local as exported` of a split module exports the variable that the default
/// export's member with the key `exported` refers to, and that variable is declared with the value
/// that the member had in the payload. Of several members that refer to the variable it is the last
/// one.
pub proof fn law_export_goes_with_its_member<N, F: Fn(&str, &JsonBindings) -> String>(
    legitimize: F,
    members: Seq<ObjectPropertyKind<N>>,
    body: Seq<Statement<N>>,
    entries: Seq<BindingView>,
    k: int,
) -> (i: int)
    requires
        split_into(legitimize, members, body, entries),
        0 <= k < body[body.len() - 1]->specifiers@.len(),
    ensures
        ({
            let after = body[body.len() - 2]->ExportDefault_0->ObjectExpression_0@;
            let specifier = body[body.len() - 1]->specifiers@[k];
            &&& 0 <= i < members.len()
            &&& members[i].key_name().len() > 0
            &&& specifier.exported@ == members[i].key_name()
            &&& after[i]->ObjectProperty_0.value is Identifier
            &&& after[i]->ObjectProperty_0.value->Identifier_0@ == specifier.local@
            &&& body[k] is VarDeclaration
            &&& body[k]->local@ == specifier.local@
            &&& body[k]->init == members[i]->ObjectProperty_0.value
            &&& forall|j: int|
                i < j < members.len() && members[j].key_name().len() > 0 ==> (
                #[trigger] after[j])->ObjectProperty_0.value->Identifier_0@ != specifier.local@
        }),
{
    let names = lemma_split_locals(legitimize, members, body, entries);
    let len = members.len() as int;
    let values = values_of(members, names);
    let after = body[body.len() - 2]->ExportDefault_0->ObjectExpression_0@;
    law_split_module_in_order(legitimize, members, body, entries);
    lemma_members_refer_to_names(members, names, body);
    lemma_bindings(members, names, len);
    assert(is_of_last(members, names, len, entries[k], values[k]));
    let i = lemma_last_member(members, names, len, entries[k], values[k]);
    assert(declares(body[k], entries[k].0, values[k]));
    assert(member_split(members[i], after[i], names[i]));
    assert forall|j: int| i < j < len && members[j].key_name().len() > 0 implies (
    #[trigger] after[j])->ObjectProperty_0.value->Identifier_0@ != entries[k].0 by {
        assert(has_key(members[j]));
        assert(names[j] != entries[k].0);
    }
    i
}

/// Every member of a split module that has a key refers to a variable that is exported, and under
/// that very key as long as a local name that is taken is only ever answered for the key that it is
/// bound to.
pub proof fn law_member_is_exported<N, F: Fn(&str, &JsonBindings) -> String>(
    legitimize: F,
    members: Seq<ObjectPropertyKind<N>>,
    body: Seq<Statement<N>>,
    entries: Seq<BindingView>,
    i: int,
) -> (k: int)
    requires
        split_into(legitimize, members, body, entries),
        0 <= i < members.len(),
        members[i].key_name().len() > 0,
    ensures
        ({
            let after = body[body.len() - 2]->ExportDefault_0->ObjectExpression_0@;
            let specifiers = body[body.len() - 1]->specifiers@;
            &&& 0 <= k < specifiers.len()
            &&& specifiers[k].local@ == after[i]->ObjectProperty_0.value->Identifier_0@
            &&& avoids_clashes(legitimize) ==> specifiers[k].exported@ == members[i].key_name()
        }),
{
    let names = lemma_split_names(legitimize, members, body, entries);
    let len = members.len() as int;
    let values = values_of(members, names);
    let after = body[body.len() - 2]->ExportDefault_0->ObjectExpression_0@;
    law_split_module_in_order(legitimize, members, body, entries);
    assert(member_split(members[i], after[i], names[i]));
    lemma_bindings(members, names, len);
    assert(has_key(members[i]));
    let k = slot_of(entries, names[i]);
    lemma_slot_of(entries, names[i]);
    if avoids_clashes(legitimize) {
        law_names_do_not_clash(legitimize, members, names);
        assert(is_of_last(members, names, len, entries[k], values[k]));
        let j = lemma_last_member(members, names, len, entries[k], values[k]);
        assert(names[j] == names[i]);
    }
    k
}

/// Entries keep the order in which their local names were first given.
proof fn lemma_order_of_first_use<N>(
    members: Seq<ObjectPropertyKind<N>>,
    names: Seq<Seq<char>>,
    n: int,
    k: int,
    l: int,
) -> (i: int)
    requires
        0 <= n <= members.len(),
        0 <= k < l < bindings_after(members, names, n).len(),
    ensures
        0 <= i < n,
        has_key(members[i]),
        names[i] == bindings_after(members, names, n)[k].0,
        forall|j: int|
            0 <= j <= i && has_key(members[j]) ==> #[trigger] names[j] != bindings_after(
                members,
                names,
                n,
            )[l].0,
    decreases n,
{
    let before = bindings_after(members, names, n - 1);
    lemma_slot_of(before, names[n - 1]);
    if has_key(members[n - 1]) && l == before.len() {
        lemma_bindings(members, names, n - 1);
        let values = values_after(members, names, n - 1);
        assert(is_of_last(members, names, n - 1, before[k], values[k]));
        let i = lemma_last_member(members, names, n - 1, before[k], values[k]);
        assert forall|j: int| 0 <= j <= i && has_key(members[j]) implies #[trigger] names[j]
            != names[n - 1] by {
            lemma_slot_of(before, names[j]);
        }
        i
    } else {
        assert(bindings_after(members, names, n)[k].0 == before[k].0);
        assert(bindings_after(members, names, n)[l].0 == before[l].0);
        lemma_order_of_first_use(members, names, n - 1, k, l)
    }
}

/// The variables of a split module are declared in the order in which the members of the default
/// export first refer to them.
pub proof fn law_variables_in_order_of_first_use<N, F: Fn(&str, &JsonBindings) -> String>(
    legitimize: F,
    members: Seq<ObjectPropertyKind<N>>,
    body: Seq<Statement<N>>,
    entries: Seq<BindingView>,
    k: int,
    l: int,
) -> (i: int)
    requires
        split_into(legitimize, members, body, entries),
        0 <= k < l < body.len() - 2,
    ensures
        ({
            let after = body[body.len() - 2]->ExportDefault_0->ObjectExpression_0@;
            &&& 0 <= i < members.len()
            &&& members[i].key_name().len() > 0
            &&& after[i]->ObjectProperty_0.value->Identifier_0@ == body[k]->local@
            &&& forall|j: int|
                0 <= j <= i && members[j].key_name().len() > 0 ==> (
                #[trigger] after[j])->ObjectProperty_0.value->Identifier_0@ != body[l]->local@
        }),
{
    let names = lemma_split_locals(legitimize, members, body, entries);
    let len = members.len() as int;
    let after = body[body.len() - 2]->ExportDefault_0->ObjectExpression_0@;
    law_split_module_in_order(legitimize, members, body, entries);
    let i = lemma_order_of_first_use(members, names, len, k, l);
    assert(body[k]->local@ == entries[k].0 && body[l]->local@ == entries[l].0);
    assert(member_split(members[i], after[i], names[i]));
    assert forall|j: int| 0 <= j <= i && members[j].key_name().len() > 0 implies (
    #[trigger] after[j])->ObjectProperty_0.value->Identifier_0@ != body[l]->local@ by {
        assert(member_split(members[j], after[j], names[j]));
        assert(has_key(members[j]));
    }
    i
}

/// What becomes of each member of the payload in the default export. A member with an empty key
/// stays as it is. Any other refers to its variable instead of holding its value. A `__proto__` key
/// becomes computed. A key that is the variable's name becomes shorthand, written as an identifier.
/// All else about the member is kept.
pub proof fn law_members_of_the_default_export<N, F: Fn(&str, &JsonBindings) -> String>(
    legitimize: F,
    members: Seq<ObjectPropertyKind<N>>,
    body: Seq<Statement<N>>,
    entries: Seq<BindingView>,
    i: int,
)
    requires
        split_into(legitimize, members, body, entries),
        0 <= i < members.len(),
    ensures
        ({
            let after = body[body.len() - 2]->ExportDefault_0->ObjectExpression_0@;
            let key = members[i].key_name();
            let old_property = members[i]->ObjectProperty_0;
            let property = after[i]->ObjectProperty_0;
            &&& key.len() == 0 ==> after[i] == members[i]
            &&& key.len() > 0 ==> after[i] is ObjectProperty && property.value is Identifier
            &&& key.len() > 0 && key == "__proto__"@ ==> {
                &&& property.computed
                &&& property.shorthand == old_property.shorthand
                &&& property.key == old_property.key
            }
            &&& key.len() > 0 && key != "__proto__"@ ==> property.computed == old_property.computed
            &&& key.len() > 0 && key != "__proto__"@ && property.value->Identifier_0@ == key ==> {
                &&& property.shorthand
                &&& property.key is StaticIdentifier
                &&& property.key->StaticIdentifier_0@ == key
            }
            &&& key.len() > 0 && key != "__proto__"@ && property.value->Identifier_0@ != key ==> {
                &&& property.shorthand == old_property.shorthand
                &&& property.key == old_property.key
            }
        }),
{
    let names = lemma_split_locals(legitimize, members, body, entries);
    let after = body[body.len() - 2]->ExportDefault_0->ObjectExpression_0@;
    assert(member_split(members[i], after[i], names[i]));
}

/// Entries keep their place and local name when more members follow.
proof fn lemma_locals_are_kept<N>(
    members: Seq<ObjectPropertyKind<N>>,
    names: Seq<Seq<char>>,
    n: int,
    m: int,
)
    requires
        0 <= n <= m <= members.len(),
    ensures
        bindings_after(members, names, n).len() <= bindings_after(members, names, m).len(),
        forall|t: int|
            0 <= t < bindings_after(members, names, n).len() ==> (#[trigger] bindings_after(
                members,
                names,
                n,
            )[t]).0 == bindings_after(members, names, m)[t].0,
    decreases m - n,
{
    if n < m {
        lemma_locals_are_kept(members, names, n, m - 1);
        lemma_slot_of(bindings_after(members, names, m - 1), names[m - 1]);
    }
}

/// The call that the local name of a member was answered in, and the local names of all members.
proof fn lemma_offer<'a, N, F: Fn(&str, &JsonBindings) -> String>(
    legitimize: F,
    members: Seq<ObjectPropertyKind<N>>,
    body: Seq<Statement<N>>,
    entries: Seq<BindingView>,
    i: int,
) -> (r: (Seq<Seq<char>>, (&'a str, &'a JsonBindings, String)))
    requires
        split_into(legitimize, members, body, entries),
        0 <= i < members.len(),
        members[i].key_name().len() > 0,
    ensures
        entries == bindings_of(members, r.0),
        ({
            let after = body[body.len() - 2]->ExportDefault_0->ObjectExpression_0@;
            &&& after.len() == members.len()
            &&& forall|j: int|
                0 <= j < members.len() && members[j].key_name().len() > 0 ==> (
                #[trigger] after[j])->ObjectProperty_0.value->Identifier_0@ == r.0[j]
        }),
        call_ensures(legitimize, (r.1.0, r.1.1), r.1.2),
        r.1.0@ == members[i].key_name(),
        binding_entries(*r.1.1) == bindings_after(members, r.0, i),
        r.1.2@ == r.0[i],
{
    let names = lemma_split_names(legitimize, members, body, entries);
    lemma_members_refer_to_names(members, names, body);
    let key = members[i].key_name();
    let prior = bindings_after(members, names, i);
    assert(offered(legitimize, key, prior, names[i]));
    let (k, b, r) = choose|k: &'a str, b: &'a JsonBindings, r: String| #[trigger]
        call_ensures(legitimize, (k, b), r) && k@ == key && binding_entries(*b) == prior && r@
            == names[i];
    (names, (k, b, r))
}

/// A member with a key refers to the variable with its local name.
proof fn lemma_members_refer_to_names<N>(
    members: Seq<ObjectPropertyKind<N>>,
    names: Seq<Seq<char>>,
    body: Seq<Statement<N>>,
)
    requires
        split_body(members, names, body),
    ensures
        ({
            let after = body[body.len() - 2]->ExportDefault_0->ObjectExpression_0@;
            &&& after.len() == members.len()
            &&& forall|j: int|
                0 <= j < members.len() && members[j].key_name().len() > 0 ==> (
                #[trigger] after[j])->ObjectProperty_0.value->Identifier_0@ == names[j]
        }),
{
    let after = body[body.len() - 2]->ExportDefault_0->ObjectExpression_0@;
    assert forall|j: int| 0 <= j < members.len() && members[j].key_name().len() > 0 implies (
    #[trigger] after[j])->ObjectProperty_0.value->Identifier_0@ == names[j] by {
        assert(member_split(members[j], after[j], names[j]));
    }
}

/// The members that the entries of the table of the first `n` members are of: for each entry the
/// last one that refers to its variable.
proof fn lemma_prior_table<N>(
    members: Seq<ObjectPropertyKind<N>>,
    names: Seq<Seq<char>>,
    n: int,
) -> (last: Seq<int>)
    requires
        0 <= n <= members.len(),
    ensures
        ({
            let prior = bindings_after(members, names, n);
            &&& last.len() == prior.len()
            &&& forall|t: int|
                0 <= t < prior.len() ==> {
                    &&& 0 <= #[trigger] last[t] < n
                    &&& members[last[t]].key_name().len() > 0
                    &&& members[last[t]].key_name() == prior[t].1.0
                    &&& names[last[t]] == prior[t].0
                    &&& prior[t].1.1 == legal_identifier(prior[t].1.0)
                }
            &&& forall|t: int, l: int|
                0 <= t < prior.len() && last[t] < l < n && members[l].key_name().len() > 0
                    ==> #[trigger] names[l] != (#[trigger] prior[t]).0
        }),
{
    let prior = bindings_after(members, names, n);
    let values = values_after(members, names, n);
    let last = Seq::new(
        prior.len(),
        |t: int| choose|j: int| last_named(members, names, n, prior[t].0, j),
    );
    lemma_bindings(members, names, n);
    assert forall|t: int| 0 <= t < prior.len() implies last_named(
        members,
        names,
        n,
        prior[t].0,
        #[trigger] last[t],
    ) && prior[t].1 == (
        members[last[t]].key_name(),
        legal_identifier(members[last[t]].key_name()),
    ) by {
        assert(is_of_last(members, names, n, prior[t], values[t]));
        let j = lemma_last_member(members, names, n, prior[t], values[t]);
        assert(last_named(members, names, n, prior[t].0, last[t]));
        assert(last[t] == j);
    }
    assert forall|t: int, l: int|
        0 <= t < prior.len() && last[t] < l < n
            && members[l].key_name().len() > 0 implies #[trigger] names[l] != (
    #[trigger] prior[t]).0 by {
        assert(last_named(members, names, n, prior[t].0, last[t]));
        assert(has_key(members[l]));
    }
    last
}

/// An entry that is added after the first `n` members is for none of their variables.
proof fn lemma_later_entries_are_new<N>(
    members: Seq<ObjectPropertyKind<N>>,
    names: Seq<Seq<char>>,
    n: int,
    j: int,
    t: int,
)
    requires
        0 <= j < n <= members.len(),
        has_key(members[j]),
        bindings_after(members, names, n).len() <= t < bindings_of(members, names).len(),
    ensures
        bindings_of(members, names)[t].0 != names[j],
{
    let len = members.len() as int;
    let prior = bindings_after(members, names, n);
    lemma_bindings(members, names, n);
    lemma_bindings(members, names, len);
    lemma_locals_are_kept(members, names, n, len);
    let slot = slot_of(prior, names[j]);
    lemma_slot_of(prior, names[j]);
    assert(prior[slot].0 == bindings_of(members, names)[slot].0);
}

/// The variable that a member refers to has a name that `legitimize` answered for the member's key
/// when it was asked with the variables of the members before it: its table lists them in the order
/// of their declarations, each with the key of the last of those members that refers to it (the
/// second result tells which) and with the legality of that key, and lists all of them: what is
/// declared further on is none of theirs.
pub proof fn law_names_are_asked_for_in_order<'a, N, F: Fn(&str, &JsonBindings) -> String>(
    legitimize: F,
    members: Seq<ObjectPropertyKind<N>>,
    body: Seq<Statement<N>>,
    entries: Seq<BindingView>,
    i: int,
) -> (r: ((&'a str, &'a JsonBindings, String), Seq<int>))
    requires
        split_into(legitimize, members, body, entries),
        0 <= i < members.len(),
        members[i].key_name().len() > 0,
    ensures
        ({
            let after = body[body.len() - 2]->ExportDefault_0->ObjectExpression_0@;
            let call = r.0;
            let last = r.1;
            let prior = binding_entries(*call.1);
            &&& call_ensures(legitimize, (call.0, call.1), call.2)
            &&& call.0@ == members[i].key_name()
            &&& call.2@ == after[i]->ObjectProperty_0.value->Identifier_0@
            &&& last.len() == prior.len() <= entries.len()
            &&& forall|t: int| 0 <= t < prior.len() ==> (#[trigger] prior[t]).0 == entries[t].0
            &&& forall|t: int|
                0 <= t < prior.len() ==> {
                    &&& 0 <= #[trigger] last[t] < i
                    &&& members[last[t]].key_name().len() > 0
                    &&& members[last[t]].key_name() == prior[t].1.0
                    &&& after[last[t]]->ObjectProperty_0.value->Identifier_0@ == prior[t].0
                    &&& prior[t].1.1 == legal_identifier(prior[t].1.0)
                }
            &&& forall|t: int, l: int|
                0 <= t < prior.len() && last[t] < l < i && members[l].key_name().len() > 0 ==> (
                #[trigger] after[l])->ObjectProperty_0.value->Identifier_0@ != (
                #[trigger] prior[t]).0
            &&& forall|j: int, t: int|
                0 <= j < i && members[j].key_name().len() > 0 && prior.len() <= t < entries.len()
                    ==> (#[trigger] entries[t]).0 != (
                #[trigger] after[j])->ObjectProperty_0.value->Identifier_0@
        }),
{
    let (names, call) = lemma_offer(legitimize, members, body, entries, i);
    let after = body[body.len() - 2]->ExportDefault_0->ObjectExpression_0@;
    let prior = bindings_after(members, names, i);
    let last = lemma_prior_table(members, names, i);
    assert(prior.len() <= entries.len() && forall|t: int|
        0 <= t < prior.len() ==> (#[trigger] prior[t]).0 == entries[t].0) by {
        lemma_locals_are_kept(members, names, i, members.len() as int);
    }
    assert(after[i]->ObjectProperty_0.value->Identifier_0@ == names[i]);
    assert forall|t: int| 0 <= t < prior.len() implies after[
        #[trigger] last[t]
    ]->ObjectProperty_0.value->Identifier_0@ == prior[t].0 by {
        assert(names[last[t]] == prior[t].0);
    }
    assert forall|t: int, l: int|
        0 <= t < prior.len() && last[t] < l < i && members[l].key_name().len() > 0 implies (
    #[trigger] after[l])->ObjectProperty_0.value->Identifier_0@ != (#[trigger] prior[t]).0 by {
        assert(0 <= last[t]);
        assert(names[l] != prior[t].0);
    }
    assert forall|j: int, t: int|
        0 <= j < i && members[j].key_name().len() > 0 && prior.len() <= t
            < entries.len() implies (#[trigger] entries[t]).0 != (
    #[trigger] after[j])->ObjectProperty_0.value->Identifier_0@ by {
        assert(has_key(members[j]));
        lemma_later_entries_are_new(members, names, i, j, t);
    }
    (call, last)
}

} // verus!
