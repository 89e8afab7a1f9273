//! References to symbols, and the symbol table of one module.

use oxc::semantic::Scoping;
use oxc::span::SPAN;
use oxc::syntax::node::NodeId;
use oxc::syntax::scope::ScopeId;
use oxc::syntax::symbol::{SymbolFlags, SymbolId};
use vstd::prelude::*;
use vstd::utf8::encode_utf8;

verus! {

/// `oxc::semantic::Scoping`, the symbols and scopes that semantic analysis finds in a module.
#[verifier::external_type_specification]
#[verifier::external_body]
pub struct ExScoping(Scoping);

/// The symbols of a `Scoping`, each with its name and the scope that it belongs to; a symbol's id
/// is its position.
pub uninterp spec fn scoping_symbols(scoping: Scoping) -> Seq<(Seq<char>, u32)>;

/// The names bound in each scope of a `Scoping`, with the ids of their symbols; the root scope
/// comes first.
pub uninterp spec fn scoping_scopes(scoping: Scoping) -> Seq<Map<Seq<char>, u32>>;

/// A name short enough to be an identifier: its UTF-8 length is kept in 32 bits.
pub open spec fn fits_identifier(name: Seq<char>) -> bool {
    encode_utf8(name).len() <= u32::MAX
}

/// `Scoping::root_scope_id`: the root scope is always the first.
#[verifier::external_body]
pub(crate) fn scoping_root_scope_id(scoping: &Scoping) -> (r: u32)
    ensures
        r == 0,
{
    scoping.root_scope_id().index() as u32
}

/// `Scoping::symbols_len`: the number of symbols.
#[verifier::external_body]
pub(crate) fn scoping_symbols_len(scoping: &Scoping) -> (r: usize)
    ensures
        r == scoping_symbols(*scoping).len(),
{
    scoping.symbols_len()
}

/// `Scoping::scopes_len`: the number of scopes.
#[verifier::external_body]
pub(crate) fn scoping_scopes_len(scoping: &Scoping) -> (r: usize)
    ensures
        r == scoping_scopes(*scoping).len(),
{
    scoping.scopes_len()
}

/// `Scoping::symbol_name`: the name of a symbol. It panics on an id that the table does not
/// have.
#[verifier::external_body]
pub(crate) fn scoping_symbol_name(scoping: &Scoping, symbol: u32) -> (r: &str)
    requires
        symbol < scoping_symbols(*scoping).len(),
        symbol < u32::MAX,
    ensures
        r@ == scoping_symbols(*scoping)[symbol as int].0,
        fits_identifier(r@),
{
    scoping.symbol_name(SymbolId::from_usize(symbol as usize))
}

/// `Scoping::get_root_binding`: the symbol that a name is bound to in the root scope, if it is
/// bound there. It panics on a table without a scope, and cuts off a name that is too long for
/// an identifier.
#[verifier::external_body]
pub(crate) fn scoping_root_binding(scoping: &Scoping, name: &str) -> (r: Option<u32>)
    requires
        scoping_scopes(*scoping).len() > 0,
        fits_identifier(name@),
    ensures
        match r {
            Some(symbol) => scoping_scopes(*scoping)[0].contains_key(name@) && scoping_scopes(
                *scoping,
            )[0][name@] == symbol,
            None => !scoping_scopes(*scoping)[0].contains_key(name@),
        },
{
    match scoping.get_root_binding(name.into()) {
        Some(symbol) => Some(symbol.index() as u32),
        None => None,
    }
}

/// `Scoping::create_symbol`: appends a symbol that belongs to `scope`, without binding its name
/// there, and returns its id. It panics when the ids run out, and cuts off a name that is too
/// long for an identifier.
#[verifier::external_body]
pub(crate) fn scoping_create_symbol(scoping: &mut Scoping, name: &str, scope: u32) -> (r: u32)
    requires
        scoping_symbols(*old(scoping)).len() < u32::MAX,
        fits_identifier(name@),
        scope < u32::MAX,
    ensures
        r == scoping_symbols(*old(scoping)).len(),
        scoping_symbols(*final(scoping)) == scoping_symbols(*old(scoping)).push((name@, scope)),
        scoping_scopes(*final(scoping)) == scoping_scopes(*old(scoping)),
{
    let scope = ScopeId::from_usize(scope as usize);
    scoping.create_symbol(SPAN, name.into(), SymbolFlags::None, scope, NodeId::DUMMY).index() as u32
}

/// Index of a module in the tables of the link stage.
pub type ModuleIdx = usize;

/// A symbol of a module.
#[derive(Clone, Copy, Debug, PartialEq, Eq, Structural)]
pub struct SymbolRef {
    pub owner: ModuleIdx,
    pub symbol: u32,
}

/// The symbols of one module.
pub struct SymbolRefDbForModule {
    pub scoping: Scoping,
    pub owner_idx: ModuleIdx,
    pub root_scope_id: u32,
}

/// What a [`SymbolRefDbForModule`] holds: its owner, the names and scopes of its symbols by id,
/// and the names bound in its scopes.
pub struct SymbolsView {
    pub owner: ModuleIdx,
    pub root_scope: u32,
    pub symbols: Seq<(Seq<char>, u32)>,
    pub scopes: Seq<Map<Seq<char>, u32>>,
}

impl View for SymbolRefDbForModule {
    type V = SymbolsView;

    open spec fn view(&self) -> SymbolsView {
        SymbolsView {
            owner: self.owner_idx,
            root_scope: self.root_scope_id,
            symbols: scoping_symbols(self.scoping),
            scopes: scoping_scopes(self.scoping),
        }
    }
}

impl SymbolsView {
    /// The symbol table has a symbol with this id.
    pub open spec fn has(self, symbol: u32) -> bool {
        symbol < self.symbols.len() && symbol < u32::MAX
    }

    /// The name of a symbol.
    pub open spec fn name_of(self, symbol: u32) -> Seq<char> {
        self.symbols[symbol as int].0
    }

    /// What semantic analysis found in module `owner`.
    pub open spec fn analyzed(scoping: Scoping, owner: ModuleIdx) -> SymbolsView {
        SymbolsView {
            owner,
            root_scope: 0,
            symbols: scoping_symbols(scoping),
            scopes: scoping_scopes(scoping),
        }
    }

    /// The table after a symbol called `name` was added to the root scope, but not bound there.
    pub open spec fn with_facade(self, name: Seq<char>) -> SymbolsView {
        SymbolsView {
            symbols: self.symbols.push((name, self.root_scope)),
            ..self
        }
    }

    /// The reference to the symbol that is added next.
    pub open spec fn next_ref(self) -> SymbolRef {
        SymbolRef { owner: self.owner, symbol: self.symbols.len() as u32 }
    }
}

impl SymbolRefDbForModule {
    /// The symbol table of module `owner_idx`, from what semantic analysis found in it.
    pub fn new(scoping: Scoping, owner_idx: ModuleIdx) -> (r: Self)
        ensures
            r@ == SymbolsView::analyzed(scoping, owner_idx),
    {
        let root_scope_id: u32 = scoping_root_scope_id(&scoping);
        SymbolRefDbForModule { scoping, owner_idx, root_scope_id }
    }

    /// The number of symbols.
    pub fn symbols_len(&self) -> (r: usize)
        ensures
            r == self@.symbols.len(),
    {
        scoping_symbols_len(&self.scoping)
    }

    /// The name of a symbol.
    pub fn symbol_name(&self, symbol: u32) -> (r: &str)
        requires
            self@.has(symbol),
        ensures
            r@ == self@.name_of(symbol),
            fits_identifier(r@),
    {
        scoping_symbol_name(&self.scoping, symbol)
    }

    /// The symbol that `name` is bound to at the top level of the module.
    pub fn get_root_binding(&self, name: &str) -> (r: Option<u32>)
        requires
            self@.scopes.len() > 0,
            fits_identifier(name@),
        ensures
            match r {
                Some(symbol) => self@.scopes[0].contains_key(name@) && self@.scopes[0][name@]
                    == symbol,
                None => !self@.scopes[0].contains_key(name@),
            },
    {
        scoping_root_binding(&self.scoping, name)
    }

    /// Adds a symbol called `name` that stands for something the module does not declare.
    pub fn create_facade_root_symbol_ref(&mut self, name: &str) -> (r: SymbolRef)
        requires
            old(self)@.symbols.len() < u32::MAX,
            old(self)@.root_scope < u32::MAX,
            fits_identifier(name@),
        ensures
            r == old(self)@.next_ref(),
            final(self)@ == old(self)@.with_facade(name@),
    {
        let symbol: u32 = scoping_create_symbol(&mut self.scoping, name, self.root_scope_id);
        SymbolRef { owner: self.owner_idx, symbol }
    }
}

} // verus!
