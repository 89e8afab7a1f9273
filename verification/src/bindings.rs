//! The insertion-ordered table of the variables a JSON module declares.

use indexmap::IndexMap;
use oxc::syntax::identifier::is_identifier_name;
use oxc::syntax::keyword::is_reserved_keyword;
use rustc_hash::FxBuildHasher;
use vstd::prelude::*;
use vstd::utf8::is_ascii_chars;

verus! {

/// `indexmap::IndexMap`, a hash map that keeps its entries in insertion order.
#[verifier::external_type_specification]
#[verifier::external_body]
#[verifier::reject_recursive_types(K)]
#[verifier::reject_recursive_types(V)]
#[verifier::reject_recursive_types(S)]
pub struct ExIndexMap<K, V, S>(IndexMap<K, V, S>);

/// `rustc_hash::FxBuildHasher`, the hasher that the binding table uses.
#[verifier::external_type_specification]
#[verifier::external_body]
pub struct ExFxBuildHasher(FxBuildHasher);

/// Local binding name -> (exported name, whether the exported name is a legal identifier).
pub type JsonBindings = IndexMap<String, (String, bool), FxBuildHasher>;

/// One entry of a [`JsonBindings`]: local name, and exported name with its legality.
pub type BindingView = (Seq<char>, (Seq<char>, bool));

/// The entries of a binding table, in order.
pub uninterp spec fn binding_entries(bindings: JsonBindings) -> Seq<BindingView>;

/// A character that an identifier of ASCII characters may start with.
pub open spec fn starts_identifier(c: char) -> bool {
    'a' <= c <= 'z' || 'A' <= c <= 'Z' || c == '$' || c == '_'
}

/// A character that an identifier of ASCII characters may go on with.
pub open spec fn continues_identifier(c: char) -> bool {
    starts_identifier(c) || '0' <= c <= '9'
}

/// Whether ASCII characters make up an identifier name of JavaScript.
pub open spec fn ascii_identifier_name(name: Seq<char>) -> bool {
    &&& name.len() > 0
    &&& starts_identifier(name[0])
    &&& forall|i: int| 0 <= i < name.len() ==> continues_identifier(#[trigger] name[i])
}

/// Whether a name with characters outside ASCII is an identifier name of JavaScript, which goes by
/// tables of Unicode.
pub uninterp spec fn unicode_identifier_name(name: Seq<char>) -> bool;

/// Whether a name is an identifier name of JavaScript, going by its characters alone.
pub open spec fn identifier_name(name: Seq<char>) -> bool {
    if is_ascii_chars(name) {
        ascii_identifier_name(name)
    } else {
        unicode_identifier_name(name)
    }
}

/// Whether a name is a reserved word of JavaScript: one in use, one kept for the future, or one
/// that is no identifier in some contexts.
pub open spec fn reserved_word(name: Seq<char>) -> bool {
    ||| name == "let"@ || name == "static"@
    ||| name == "implements"@ || name == "interface"@ || name == "package"@
    ||| name == "private"@ || name == "protected"@ || name == "public"@
    ||| name == "await"@ || name == "break"@ || name == "case"@ || name == "catch"@
    ||| name == "class"@ || name == "const"@ || name == "continue"@ || name == "debugger"@
    ||| name == "default"@ || name == "delete"@ || name == "do"@ || name == "else"@
    ||| name == "enum"@ || name == "export"@ || name == "extends"@ || name == "false"@
    ||| name == "finally"@ || name == "for"@ || name == "function"@ || name == "if"@
    ||| name == "import"@ || name == "in"@ || name == "instanceof"@ || name == "new"@
    ||| name == "null"@ || name == "return"@ || name == "super"@ || name == "switch"@
    ||| name == "this"@ || name == "throw"@ || name == "true"@ || name == "try"@
    ||| name == "typeof"@ || name == "var"@ || name == "void"@ || name == "while"@
    ||| name == "with"@ || name == "yield"@
}

/// A legal identifier: an identifier name that is not reserved.
pub open spec fn legal_identifier(name: Seq<char>) -> bool {
    identifier_name(name) && !reserved_word(name)
}

/// `is_identifier_name` of `oxc`: whether the characters of a name make up an identifier. ASCII
/// names consist of letters, digits, `$` and `_` and do not start with a digit; of any other name
/// the answer depends on nothing but the name.
#[verifier::external_body]
fn has_identifier_chars(name: &str) -> (r: bool)
    ensures
        r == (if is_ascii_chars(name@) {
            ascii_identifier_name(name@)
        } else {
            unicode_identifier_name(name@)
        }),
{
    is_identifier_name(name)
}

/// `is_reserved_keyword` of `oxc`: whether a name is in its table of reserved words.
#[verifier::external_body]
fn is_reserved(name: &str) -> (r: bool)
    ensures
        r == reserved_word(name@),
{
    is_reserved_keyword(name)
}

/// Whether a name is a legal identifier.
pub fn is_legal_identifier(name: &str) -> (r: bool)
    ensures
        r == legal_identifier(name@),
{
    has_identifier_chars(name) && !is_reserved(name)
}

/// The position of the first entry for `local`, or the number of entries if there is none.
pub open spec fn slot_of(entries: Seq<BindingView>, local: Seq<char>) -> int
    decreases entries.len(),
{
    if entries.len() == 0 || entries[0].0 == local {
        0
    } else {
        1 + slot_of(entries.drop_first(), local)
    }
}

/// `items` with `item` at position `slot`: replacing what is there, or appended.
pub open spec fn put_at<T>(items: Seq<T>, slot: int, item: T) -> Seq<T> {
    if slot < items.len() {
        items.update(slot, item)
    } else {
        items.push(item)
    }
}

/// The entries after `entry` was inserted: an entry for the same local name is replaced in its
/// place, a new one goes last.
pub open spec fn inserted(entries: Seq<BindingView>, entry: BindingView) -> Seq<BindingView> {
    put_at(entries, slot_of(entries, entry.0), entry)
}

/// `IndexMap::default`: a table without entries.
#[verifier::external_body]
pub(crate) fn new_bindings() -> (r: JsonBindings)
    ensures
        binding_entries(r) == Seq::<BindingView>::empty(),
{
    IndexMap::default()
}

/// `IndexMap::insert_full`: an entry whose key is already there keeps its place and gets the new
/// value, any other is appended; the position of the entry is returned.
#[verifier::external_body]
pub(crate) fn insert_binding(
    bindings: &mut JsonBindings,
    local: String,
    exported: String,
    is_legal: bool,
) -> (slot: usize)
    ensures
        slot == slot_of(binding_entries(*old(bindings)), local@),
        binding_entries(*final(bindings)) == inserted(
            binding_entries(*old(bindings)),
            (local@, (exported@, is_legal)),
        ),
{
    bindings.insert_full(local, (exported, is_legal)).0
}

/// `IndexMap::len`: the number of entries.
#[verifier::external_body]
pub(crate) fn bindings_len(bindings: &JsonBindings) -> (r: usize)
    ensures
        r == binding_entries(*bindings).len(),
{
    bindings.len()
}

/// `IndexMap::get_index`: the entry at a position, if there is one.
#[verifier::external_body]
pub(crate) fn binding_at(bindings: &JsonBindings, index: usize) -> (r: Option<
    (&String, &(String, bool)),
>)
    ensures
        match r {
            Some((local, value)) => index < binding_entries(*bindings).len() && binding_entries(
                *bindings,
            )[index as int] == (local@, (value.0@, value.1)),
            None => index >= binding_entries(*bindings).len(),
        },
{
    bindings.get_index(index)
}

/// The position found is in range and holds `local`, or nothing holds it.
pub proof fn lemma_slot_of(entries: Seq<BindingView>, local: Seq<char>)
    ensures
        0 <= slot_of(entries, local) <= entries.len(),
        slot_of(entries, local) < entries.len() ==> entries[slot_of(entries, local)].0 == local,
        forall|i: int| 0 <= i < slot_of(entries, local) ==> #[trigger] entries[i].0 != local,
    decreases entries.len(),
{
    if entries.len() > 0 && entries[0].0 != local {
        let rest = entries.drop_first();
        lemma_slot_of(rest, local);
        assert forall|i: int| 0 <= i < slot_of(entries, local) implies #[trigger] entries[i].0
            != local by {
            if i > 0 {
                assert(rest[i - 1] == entries[i]);
            }
        }
    }
}

} // verus!
