//! What the link stage knows about each top-level statement of a module.

use crate::symbols::SymbolRef;
use smallvec::SmallVec;
use vstd::prelude::*;

verus! {

/// Index of a statement in a [`StmtInfos`].
pub type StmtInfoIdx = usize;

/// Index of the statement that stands for the module's namespace object.
pub const NAMESPACE_STMT_IDX: StmtInfoIdx = 0;

/// Index of the first statement after the namespace statement (index 0).
pub const FIRST_TOP_LEVEL_STMT_IDX: StmtInfoIdx = 1;

/// A symbol that a statement declares.
#[derive(Clone, Copy, Debug, PartialEq, Eq, Structural)]
pub enum TaggedSymbolRef {
    /// The statement itself declares the symbol.
    Normal(SymbolRef),
    /// The symbol is declared elsewhere and linked to the statement.
    Linked(SymbolRef),
}

impl TaggedSymbolRef {
    /// A symbol that the statement itself declares.
    pub fn normal(symbol: SymbolRef) -> (r: Self)
        ensures
            r == TaggedSymbolRef::Normal(symbol),
    {
        TaggedSymbolRef::Normal(symbol)
    }
}

/// Something that a statement refers to.
#[derive(Clone, Copy, Debug, PartialEq, Eq, Structural)]
pub enum SymbolOrMemberExprRef {
    Symbol(SymbolRef),
    /// A member expression, by its position among those of the module.
    MemberExpr(usize),
}

/// The symbols that a statement declares; most statements declare one.
#[verifier::external_body]
pub struct DeclaredSymbols {
    symbols: SmallVec<[TaggedSymbolRef; 1]>,
}

/// The symbols in a [`DeclaredSymbols`], in order.
pub uninterp spec fn declared_symbols(symbols: DeclaredSymbols) -> Seq<TaggedSymbolRef>;

impl View for DeclaredSymbols {
    type V = Seq<TaggedSymbolRef>;

    open spec fn view(&self) -> Seq<TaggedSymbolRef> {
        declared_symbols(*self)
    }
}

impl DeclaredSymbols {
    /// `SmallVec::new`: no symbols.
    #[verifier::external_body]
    pub(crate) fn none() -> (r: Self)
        ensures
            declared_symbols(r) == Seq::<TaggedSymbolRef>::empty(),
    {
        DeclaredSymbols { symbols: SmallVec::new() }
    }

    /// `SmallVec::from_buf`: the given symbol alone.
    #[verifier::external_body]
    pub(crate) fn one(symbol: TaggedSymbolRef) -> (r: Self)
        ensures
            declared_symbols(r) == seq![symbol],
    {
        DeclaredSymbols { symbols: SmallVec::from_buf([symbol]) }
    }

    /// `SmallVec::push`: the symbol is added at the end.
    #[verifier::external_body]
    pub(crate) fn push_symbol(&mut self, symbol: TaggedSymbolRef)
        ensures
            declared_symbols(*final(self)) == declared_symbols(*old(self)).push(symbol),
    {
        self.symbols.push(symbol);
    }

    /// `SmallVec::as_slice`: the symbols in order.
    #[verifier::external_body]
    pub(crate) fn symbol_slice(&self) -> (r: &[TaggedSymbolRef])
        ensures
            r@ == declared_symbols(*self),
    {
        self.symbols.as_slice()
    }

    /// The symbols in order.
    pub fn as_slice(&self) -> (r: &[TaggedSymbolRef])
        ensures
            r@ == self@,
    {
        self.symbol_slice()
    }
}

/// What is known about one statement.
pub struct StmtInfo {
    pub declared_symbols: DeclaredSymbols,
    pub referenced_symbols: Vec<SymbolOrMemberExprRef>,
    /// Whether evaluating the statement has an effect of its own, so that it is kept.
    pub eval_flags: bool,
}

/// The mathematical value of a [`StmtInfo`].
pub struct StmtInfoView {
    pub declared: Seq<TaggedSymbolRef>,
    pub referenced: Seq<SymbolOrMemberExprRef>,
    pub eval_flags: bool,
}

impl View for StmtInfo {
    type V = StmtInfoView;

    open spec fn view(&self) -> StmtInfoView {
        StmtInfoView {
            declared: self.declared_symbols@,
            referenced: self.referenced_symbols@,
            eval_flags: self.eval_flags,
        }
    }
}

/// A statement without effect that declares one symbol and refers to the given ones.
pub open spec fn declaring(
    symbol: SymbolRef,
    referenced: Seq<SymbolOrMemberExprRef>,
) -> StmtInfoView {
    StmtInfoView {
        declared: seq![TaggedSymbolRef::Normal(symbol)],
        referenced,
        eval_flags: false,
    }
}

impl Default for StmtInfo {
    /// A statement that declares nothing, refers to nothing and has no effect.
    fn default() -> (r: Self)
        ensures
            r@ == (StmtInfoView {
                declared: Seq::empty(),
                referenced: Seq::empty(),
                eval_flags: false,
            }),
    {
        StmtInfo {
            declared_symbols: DeclaredSymbols::none(),
            referenced_symbols: Vec::new(),
            eval_flags: false,
        }
    }
}

impl StmtInfo {
    /// The statement with the given declarations in place of its own.
    pub fn with_declared_symbols(self, declared_symbols: DeclaredSymbols) -> (r: Self)
        ensures
            r@ == (StmtInfoView { declared: declared_symbols@, ..self@ }),
    {
        StmtInfo {
            declared_symbols,
            referenced_symbols: self.referenced_symbols,
            eval_flags: self.eval_flags,
        }
    }

    /// The statement with the given references in place of its own.
    pub fn with_referenced_symbols(self, referenced_symbols: Vec<SymbolOrMemberExprRef>) -> (r:
        Self)
        ensures
            r@ == (StmtInfoView { referenced: referenced_symbols@, ..self@ }),
    {
        StmtInfo {
            declared_symbols: self.declared_symbols,
            referenced_symbols,
            eval_flags: self.eval_flags,
        }
    }
}

/// The statements of a module; the first one stands for its namespace object.
pub struct StmtInfos {
    pub infos: Vec<StmtInfo>,
}

impl View for StmtInfos {
    type V = Seq<StmtInfoView>;

    open spec fn view(&self) -> Seq<StmtInfoView> {
        self.infos@.map_values(|info: StmtInfo| info@)
    }
}

/// All that a range of statements refers to, in order.
pub open spec fn all_referenced(infos: Seq<StmtInfoView>) -> Seq<SymbolOrMemberExprRef>
    decreases infos.len(),
{
    if infos.len() == 0 {
        Seq::empty()
    } else {
        all_referenced(infos.drop_last()) + infos.last().referenced
    }
}

impl StmtInfos {
    /// Adds a statement at the end.
    pub fn add_stmt_info(&mut self, info: StmtInfo) -> (r: StmtInfoIdx)
        ensures
            r == old(self)@.len(),
            final(self)@ == old(self)@.push(info@),
    {
        let idx: usize = self.infos.len();
        self.infos.push(info);
        idx
    }

    /// Replaces the statement that stands for the namespace object.
    pub fn replace_namespace_stmt_info(&mut self, info: StmtInfo)
        requires
            old(self)@.len() > 0,
        ensures
            final(self)@ == old(self)@.update(NAMESPACE_STMT_IDX as int, info@),
    {
        self.infos[NAMESPACE_STMT_IDX] = info;
    }

    /// Adds a symbol to those that a statement declares.
    pub fn declare_symbol_for_stmt(&mut self, idx: StmtInfoIdx, symbol: TaggedSymbolRef)
        requires
            idx < old(self)@.len(),
        ensures
            final(self)@ == old(self)@.update(
                idx as int,
                StmtInfoView {
                    declared: old(self)@[idx as int].declared.push(symbol),
                    ..old(self)@[idx as int]
                },
            ),
    {
        self.infos[idx].declared_symbols.push_symbol(symbol);
    }

    /// Sets whether evaluating a statement has an effect of its own.
    pub fn set_eval_flags(&mut self, idx: StmtInfoIdx, eval_flags: bool)
        requires
            idx < old(self)@.len(),
        ensures
            final(self)@ == old(self)@.update(
                idx as int,
                StmtInfoView { eval_flags, ..old(self)@[idx as int] },
            ),
    {
        self.infos[idx].eval_flags = eval_flags;
    }

    /// Removes all statements from `start` on and returns what they refer to, in order.
    pub fn drain_referenced(&mut self, start: StmtInfoIdx) -> (r: Vec<SymbolOrMemberExprRef>)
        requires
            start <= old(self)@.len(),
        ensures
            final(self)@ == old(self)@.take(start as int),
            r@ == all_referenced(old(self)@.skip(start as int)),
    {
        let drained: Vec<StmtInfo> = self.infos.split_off(start);
        let ghost views = old(self)@.skip(start as int);
        let mut referenced: Vec<SymbolOrMemberExprRef> = Vec::new();
        let mut i: usize = 0;
        while i < drained.len()
            invariant
                i <= drained@.len() == views.len(),
                forall|j: int| 0 <= j < views.len() ==> views[j] == (#[trigger] drained@[j])@,
                referenced@ == all_referenced(views.take(i as int)),
            decreases drained@.len() - i,
        {
            let mut more: Vec<SymbolOrMemberExprRef> = drained[i].referenced_symbols.clone();
            proof {
                assert(views.take(i + 1).drop_last() == views.take(i as int));
                assert(more@ == drained@[i as int]@.referenced);
            }
            referenced.append(&mut more);
            i = i + 1;
        }
        assert(views.take(i as int) == views);
        referenced
    }
}

} // verus!
