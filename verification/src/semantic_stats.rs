//! Size hints for the semantic analysis of a split JSON module.

use vstd::arithmetic::power2::{
    lemma_pow2_pos, lemma_pow2_strictly_increases, lemma_pow2_unfold, pow2,
};
use vstd::prelude::*;

verus! {

/// `n` is a power of two.
pub open spec fn is_power_of_two(n: int) -> bool {
    exists|k: nat| n == #[trigger] pow2(k)
}

/// `usize::next_power_of_two`: the smallest power of two that is not below `n`. It overflows
/// when there is none.
pub assume_specification[ usize::next_power_of_two ](n: usize) -> (r: usize)
    requires
        n <= usize::MAX / 2 + 1,
    ensures
        is_power_of_two(r as int),
        n <= r,
        r > 1 ==> r / 2 < n,
;

/// How much a semantic analysis is expected to find.
#[derive(Clone, Copy, Debug, PartialEq, Eq, Structural)]
pub struct SemanticStats {
    pub nodes: u32,
    pub scopes: u32,
    pub symbols: u32,
    pub references: u32,
}

/// The most bindings for which the expected number of references can be told.
pub const MAX_BINDINGS: usize = 0x7fff_ffff;

impl SemanticStats {
    /// What is expected of a JSON module that was split into `bindings` variables: a node for
    /// each, rounded up to a power of two, a single scope, a symbol for each, and two references
    /// to each.
    pub open spec fn fit(self, bindings: nat) -> bool {
        &&& is_power_of_two(self.nodes as int)
        &&& bindings <= self.nodes
        &&& self.nodes > 1 ==> self.nodes / 2 < bindings
        &&& self.scopes == 1
        &&& self.symbols == bindings
        &&& self.references == 2 * bindings
    }

    /// What is expected of a JSON module that was split into `bindings` variables.
    pub fn for_bindings(bindings: usize) -> (r: Self)
        requires
            bindings <= MAX_BINDINGS,
        ensures
            r.fit(bindings as nat),
    {
        let nodes: usize = bindings.next_power_of_two();
        SemanticStats {
            nodes: nodes as u32,
            scopes: 1,
            symbols: bindings as u32,
            references: bindings as u32 * 2u32,
        }
    }
}

/// There is one expectation only for a number of variables.
pub proof fn lemma_fit_is_unique(a: SemanticStats, b: SemanticStats, bindings: nat)
    requires
        a.fit(bindings),
        b.fit(bindings),
    ensures
        a == b,
{
    if a.nodes < b.nodes {
        lemma_next_power_is_not_larger(a.nodes as int, b.nodes as int);
    } else if b.nodes < a.nodes {
        lemma_next_power_is_not_larger(b.nodes as int, a.nodes as int);
    }
}

/// What is expected of `bindings` variables: a single scope, a symbol for each, two references to
/// each, and nodes to the number of the smallest power of two that is not below theirs.
pub proof fn law_expectations_of_an_analysis(stats: SemanticStats, bindings: nat)
    requires
        stats.fit(bindings),
    ensures
        stats.scopes == 1,
        stats.symbols == bindings,
        stats.references == bindings + bindings,
        stats.nodes >= bindings,
        exists|e: nat| stats.nodes == #[trigger] pow2(e),
        forall|e: nat| #[trigger] pow2(e) >= bindings ==> stats.nodes <= pow2(e),
{
    assert forall|e: nat| #[trigger] pow2(e) >= bindings implies stats.nodes <= pow2(e) by {
        if stats.nodes > pow2(e) {
            lemma_next_power_is_not_larger(pow2(e) as int, stats.nodes as int);
        }
    }
}

/// Half of a power of two is not below any smaller one.
proof fn lemma_next_power_is_not_larger(p: int, q: int)
    requires
        is_power_of_two(p),
        is_power_of_two(q),
        p < q,
    ensures
        1 <= p <= q / 2,
{
    let k = choose|k: nat| p == #[trigger] pow2(k);
    let l = choose|l: nat| q == #[trigger] pow2(l);
    lemma_pow2_pos(k);
    if l < k {
        lemma_pow2_strictly_increases(l, k);
    }
    lemma_pow2_unfold(l);
    if k < l - 1 {
        lemma_pow2_strictly_increases(k, (l - 1) as nat);
    }
}

} // verus!
