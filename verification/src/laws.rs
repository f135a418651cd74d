//! Laws of the distance evaluators, stated over the same spec functions
//! the evaluators' contracts use.

use vstd::prelude::*;
use crate::tile::Hai;
use crate::decomp::{chiitoitsu_shanten, kokushimusou_shanten, toitsu_has_dup, Hourakei};
use crate::shanten::{pair_kinds, pair_kinds_upto, lone_kinds, lone_kinds_upto, yaochuu_present,
    yaochuu_dup, kokushi_valid_count, calculate_ok, min_entry_ok};
use crate::decomp::Decomposer;

verus! {

/// Kind counters never go negative.
pub proof fn lemma_counts_nonneg(s: Seq<Hai>, k: int)
    requires
        k >= 0,
    ensures
        pair_kinds_upto(s, k) >= 0,
        lone_kinds_upto(s, k) >= 0,
    decreases k,
{
    if k > 0 {
        lemma_counts_nonneg(s, k - 1);
    }
}

/// A hand holding seven distinct pairs is complete for the seven-pairs
/// pattern: the evaluator's distance formula yields the completed-hand
/// value.
pub proof fn lemma_seven_pairs_complete(s: Seq<Hai>)
    requires
        pair_kinds(s) == 7,
    ensures
        chiitoitsu_shanten(pair_kinds(s), lone_kinds(s)) == -1,
{
    lemma_counts_nonneg(s, 34);
}

/// A hand holding every one of the thirteen terminal and honor kinds
/// plus a duplicate of one of them is complete for the thirteen-orphans
/// pattern: the evaluator's distance formula yields the completed-hand
/// value.
pub proof fn lemma_thirteen_orphans_complete(s: Seq<Hai>)
    requires
        yaochuu_present(s) == 13,
        yaochuu_dup(s),
    ensures
        kokushimusou_shanten(kokushi_valid_count(s)) == -1,
{
}

/// A closed fourteen-tile hand holding seven distinct pairs has overall
/// distance exactly the completed-hand value, whatever the standard
/// search finds for the same tiles.
pub proof fn lemma_seven_pairs_minimal(menzen: Seq<Hai>, n: int, mins: Seq<Decomposer>)
    requires
        calculate_ok(menzen, 0, n, mins),
        menzen.len() == 14,
        pair_kinds(menzen) == 7,
    ensures
        n == -1,
{
    lemma_seven_pairs_complete(menzen);
}

/// A closed fourteen-tile hand holding the thirteen distinct terminal and
/// honor kinds plus one duplicate has overall distance exactly the
/// completed-hand value.
pub proof fn lemma_thirteen_orphans_minimal(menzen: Seq<Hai>, n: int, mins: Seq<Decomposer>)
    requires
        calculate_ok(menzen, 0, n, mins),
        menzen.len() == 14,
        yaochuu_present(menzen) == 13,
        yaochuu_dup(menzen),
    ensures
        n == -1,
{
    lemma_thirteen_orphans_complete(menzen);
}

/// No kept standard-pattern decomposition double-counts one tile value as
/// two separate pairs: such a decomposition is rejected with the sentinel
/// maximum, which can never be the minimal distance of a legal hand.
pub proof fn lemma_minimal_pairs_distinct(menzen: Seq<Hai>, fuuro_len: int, n: int,
    mins: Seq<Decomposer>)
    requires
        calculate_ok(menzen, fuuro_len, n, mins),
        menzen.len() <= 14,
    ensures
        forall|i: int| 0 <= i < mins.len() && (#[trigger] mins[i])@.hourakei == Hourakei::Mentsute
            ==> !toitsu_has_dup(mins[i]@.toitsu),
{
    assert forall|i: int| 0 <= i < mins.len()
        && (#[trigger] mins[i])@.hourakei == Hourakei::Mentsute
        implies !toitsu_has_dup(mins[i]@.toitsu) by {
        assert(min_entry_ok(mins[i]@, menzen, fuuro_len, n));
        if toitsu_has_dup(mins[i]@.toitsu) {
            assert(mins[i]@.spec_shanten(menzen.len() as int) == 13);
            assert(n <= 2 * ((menzen.len() as int) / 3) <= 8);
            assert(false);
        }
    }
}

} // verus!
