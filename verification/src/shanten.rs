//! The distance orchestrator: runs the standard-pattern search and the
//! seven-pairs and thirteen-orphans scans over a hand and keeps every
//! decomposition achieving the minimal distance.

use vstd::prelude::*;
use vstd::multiset::Multiset;
use crate::tile::{Hai, all_valid, sorted, hai_of_key, lemma_key_bijective};
use crate::mentsu::{Toitsu, Ukihai};
use crate::tehai::{Tehai, count_tiles, is_sorted_vec, fuuro_all_valid};
use crate::decomp::{Decomposer, DecompView, Hourakei, chiitoitsu_shanten, kokushimusou_shanten,
    mentsute_shanten, spec_min, toitsu_has_dup, lemma_toitsu_tiles_push, lemma_ukihai_tiles_push,
    lemma_component_bounds};
use crate::error::MahjongError;
use crate::search::{split, floats_only};
use crate::mentsu::check_hai_in_range;

verus! {

broadcast use vstd::seq_lib::group_to_multiset_ensures;

/// How many copies of the tile kind at canonical position `k` the
/// sequence holds.
pub open spec fn kind_count(s: Seq<Hai>, k: int) -> nat {
    s.to_multiset().count(hai_of_key(k))
}

/// How many tile kinds below position `k` occur at least twice.
pub open spec fn pair_kinds_upto(s: Seq<Hai>, k: int) -> int
    decreases k,
{
    if k <= 0 {
        0
    } else {
        pair_kinds_upto(s, k - 1) + if kind_count(s, k - 1) >= 2 { 1int } else { 0int }
    }
}

/// How many tile kinds occur at least twice: the pair count of the
/// seven-pairs scan.
pub open spec fn pair_kinds(s: Seq<Hai>) -> int {
    pair_kinds_upto(s, 34)
}

/// How many tile kinds below position `k` occur exactly once.
pub open spec fn lone_kinds_upto(s: Seq<Hai>, k: int) -> int
    decreases k,
{
    if k <= 0 {
        0
    } else {
        lone_kinds_upto(s, k - 1) + if kind_count(s, k - 1) == 1 { 1int } else { 0int }
    }
}

/// How many tile kinds occur exactly once: the lone-tile count of the
/// seven-pairs scan.
pub open spec fn lone_kinds(s: Seq<Hai>) -> int {
    lone_kinds_upto(s, 34)
}

/// The canonical position holds a terminal or honor tile.
pub open spec fn yaochuu_key(k: int) -> bool {
    hai_of_key(k).is_yaochuu()
}

/// How many distinct terminal and honor kinds below position `k` are
/// present.
pub open spec fn yaochuu_present_upto(s: Seq<Hai>, k: int) -> int
    decreases k,
{
    if k <= 0 {
        0
    } else {
        yaochuu_present_upto(s, k - 1)
            + if yaochuu_key(k - 1) && kind_count(s, k - 1) >= 1 { 1int } else { 0int }
    }
}

/// How many distinct terminal and honor kinds are present.
pub open spec fn yaochuu_present(s: Seq<Hai>) -> int {
    yaochuu_present_upto(s, 34)
}

/// Some terminal or honor kind below position `k` occurs at least twice.
pub open spec fn yaochuu_dup_before(s: Seq<Hai>, k: int) -> bool {
    exists|j: int| 0 <= j < k && yaochuu_key(j) && kind_count(s, j) >= 2
}

/// Some terminal or honor kind occurs at least twice.
pub open spec fn yaochuu_dup(s: Seq<Hai>) -> bool {
    yaochuu_dup_before(s, 34)
}

/// What the thirteen-orphans scan counts: each distinct terminal or honor
/// kind present, plus one for the first duplicate.
pub open spec fn kokushi_valid_count(s: Seq<Hai>) -> int {
    yaochuu_present(s) + if yaochuu_dup(s) { 1int } else { 0int }
}

/// The pair list carries the tile kind at canonical position `kk`.
pub open spec fn toitsu_lists_kind(toitsu: Seq<Toitsu>, kk: int) -> bool {
    exists|i: int| 0 <= i < toitsu.len() && (#[trigger] toitsu[i]).0 == hai_of_key(kk)
}

/// The tile list carries the tile kind at canonical position `kk`.
pub open spec fn tiles_list_kind(ts: Seq<Hai>, kk: int) -> bool {
    exists|i: int| 0 <= i < ts.len() && #[trigger] ts[i] == hai_of_key(kk)
}

/// The standard-pattern formula stays between the completed-hand floor
/// and the empty-decomposition ceiling for every decomposition that fits
/// inside a legally shaped hand.
pub proof fn lemma_mentsute_bounds(m: int, t: int, tt: int, n: int)
    requires
        0 <= m,
        0 <= t,
        0 <= tt,
        3 * m + 2 * t + 2 * tt <= n,
        n % 3 == 2,
    ensures
        -1 <= mentsute_shanten(m, t, tt, n),
        mentsute_shanten(m, t, tt, n) <= 2 * (n / 3),
{
    let q = n / 3;
    assert(n == 3 * q + 2);
    let l = (n + 1) / 3;
    assert(l == q + 1);
    assert(m <= q);
    let taatsu_num = spec_min(l - 1 - m, tt);
    let toitsu_num = spec_min(l - m - taatsu_num, t);
    assert(0 <= taatsu_num <= l - 1 - m);
    assert(0 <= toitsu_num <= l - m - taatsu_num);
}

/// Every decomposition that accounts for a legally shaped hand yields a
/// distance of at least the completed-hand floor.
pub proof fn lemma_candidate_floor(d: DecompView, n: int)
    requires
        d.tiles().len() == n,
        n % 3 == 2,
        n <= 14,
    ensures
        d.spec_shanten(n) >= -1,
{
    lemma_component_bounds(d);
    match d.hourakei {
        Hourakei::Mentsute => {
            if !toitsu_has_dup(d.toitsu) {
                lemma_mentsute_bounds(d.mentsu.len() as int, d.toitsu.len() as int,
                    d.taatsu.len() as int, n);
            }
        },
        Hourakei::Chiitoitsu => {
            assert(2 * d.toitsu.len() + d.valid_tiles.len() <= 14);
        },
        Hourakei::Kokushimusou => {
            assert(d.valid_tiles.len() <= 14);
        },
    }
}

/// Whether the list already holds a decomposition with the same content.
pub fn contains_content(mins: &Vec<Decomposer>, d: &Decomposer) -> (r: bool)
    ensures
        r == exists|i: int| 0 <= i < mins@.len() && (#[trigger] mins@[i])@ == d@,
{
    let mut i: usize = 0;
    while i < mins.len()
        invariant
            i <= mins@.len(),
            forall|j: int| 0 <= j < i ==> (#[trigger] mins@[j])@ != d@,
        decreases mins@.len() - i,
    {
        if mins[i].same_content(d) {
            return true;
        }
        i = i + 1;
    }
    false
}

/// Append `n` floating copies of one tile to a decomposition.
fn push_floats(d: &mut Decomposer, t: Hai, n: u8)
    requires
        t.valid(),
    ensures
        final(d)@.mentsu == old(d)@.mentsu,
        final(d)@.toitsu == old(d)@.toitsu,
        final(d)@.taatsu == old(d)@.taatsu,
        final(d)@.valid_tiles == old(d)@.valid_tiles,
        final(d)@.hourakei == old(d)@.hourakei,
        old(d)@.struct_valid() ==> final(d)@.struct_valid(),
        forall|u: Hai| u != t ==> #[trigger] final(d)@.tiles().count(u) == old(d)@.tiles().count(u),
        final(d)@.tiles().count(t) == old(d)@.tiles().count(t) + n,
{
    let mut j: u8 = 0;
    while j < n
        invariant
            t.valid(),
            j <= n,
            d@.mentsu == old(d)@.mentsu,
            d@.toitsu == old(d)@.toitsu,
            d@.taatsu == old(d)@.taatsu,
            d@.valid_tiles == old(d)@.valid_tiles,
            d@.hourakei == old(d)@.hourakei,
            old(d)@.struct_valid() ==> d@.struct_valid(),
            forall|u: Hai| u != t ==> #[trigger] d@.tiles().count(u) == old(d)@.tiles().count(u),
            d@.tiles().count(t) == old(d)@.tiles().count(t) + j,
        decreases n - j,
    {
        let ghost pre = d@;
        d.ukihai_vec.push(Ukihai(t));
        proof {
            lemma_ukihai_tiles_push(pre.ukihai, Ukihai(t));
            assert(d@.tiles() =~= pre.tiles().insert(t));
            assert forall|u: Hai| u != t
                implies #[trigger] d@.tiles().count(u) == old(d)@.tiles().count(u) by {
                assert(d@.tiles().count(u) == pre.tiles().count(u));
            }
        }
        j = j + 1;
    }
}

/// The seven-pairs scan: every kind occurring at least twice contributes
/// one pair (further copies float), every kind occurring exactly once a
/// lone usable tile.
pub fn chiitoitsu_decomposer(menzen: &Vec<Hai>) -> (d: Decomposer)
    requires
        all_valid(menzen@),
        menzen@.len() == 14,
    ensures
        d@.hourakei == Hourakei::Chiitoitsu,
        d@.mentsu.len() == 0,
        d@.taatsu.len() == 0,
        d@.toitsu.len() == pair_kinds(menzen@),
        d@.valid_tiles.len() == lone_kinds(menzen@),
        d@.tiles() == menzen@.to_multiset(),
        d@.struct_valid(),
        forall|kk: int| 0 <= kk < 34
            ==> (#[trigger] toitsu_lists_kind(d@.toitsu, kk) <==> kind_count(menzen@, kk) >= 2),
        forall|kk: int| 0 <= kk < 34
            ==> (#[trigger] tiles_list_kind(d@.valid_tiles, kk) <==> kind_count(menzen@, kk) == 1),
        forall|i: int, j: int| 0 <= i < j < d@.toitsu.len()
            ==> (#[trigger] d@.toitsu[i]).0.key() < (#[trigger] d@.toitsu[j]).0.key(),
        forall|i: int, j: int| 0 <= i < j < d@.valid_tiles.len()
            ==> (#[trigger] d@.valid_tiles[i]).key() < (#[trigger] d@.valid_tiles[j]).key(),
{
    let ghost s = menzen@;
    let cnt = count_tiles(menzen);
    let mut d = Decomposer::new();
    d.hourakei = Hourakei::Chiitoitsu;
    let mut k: usize = 0;
    while k < 34
        invariant
            cnt@.len() == 34,
            forall|kk: int| 0 <= kk < 34 ==> #[trigger] cnt@[kk] as nat == kind_count(s, kk),
            k <= 34,
            d@.hourakei == Hourakei::Chiitoitsu,
            d@.mentsu.len() == 0,
            d@.taatsu.len() == 0,
            d@.toitsu.len() == pair_kinds_upto(s, k as int),
            d@.valid_tiles.len() == lone_kinds_upto(s, k as int),
            d@.struct_valid(),
            forall|i: int| 0 <= i < d@.toitsu.len()
                ==> (#[trigger] d@.toitsu[i]).0.key() < k && d@.toitsu[i].0.valid(),
            forall|i: int| 0 <= i < d@.valid_tiles.len()
                ==> (#[trigger] d@.valid_tiles[i]).key() < k && d@.valid_tiles[i].valid(),
            forall|i: int, j: int| 0 <= i < j < d@.toitsu.len()
                ==> (#[trigger] d@.toitsu[i]).0.key() < (#[trigger] d@.toitsu[j]).0.key(),
            forall|i: int, j: int| 0 <= i < j < d@.valid_tiles.len()
                ==> (#[trigger] d@.valid_tiles[i]).key() < (#[trigger] d@.valid_tiles[j]).key(),
            forall|kk: int| 0 <= kk < k
                ==> (#[trigger] toitsu_lists_kind(d@.toitsu, kk) <==> kind_count(s, kk) >= 2),
            forall|kk: int| 0 <= kk < k
                ==> (#[trigger] tiles_list_kind(d@.valid_tiles, kk) <==> kind_count(s, kk) == 1),
            forall|t: Hai| t.valid() && t.key() < k ==> #[trigger] d@.tiles().count(t)
                == s.to_multiset().count(t),
            forall|t: Hai| t.valid() && t.key() >= k ==> #[trigger] d@.tiles().count(t) == 0,
            forall|t: Hai| !t.valid() ==> #[trigger] d@.tiles().count(t) == 0,
        decreases 34 - k,
    {
        let c = cnt[k];
        let t = Hai::from_index(k as u8);
        proof {
            lemma_key_bijective();
        }
        let ghost d0 = d@;
        if c >= 2 {
            d.toitsu_vec.push(Toitsu(t));
            proof {
                lemma_toitsu_tiles_push(d0.toitsu, Toitsu(t));
                assert(d@.tiles() =~= d0.tiles().insert(t).insert(t));
            }
            let ghost d1 = d@;
            push_floats(&mut d, t, c - 2);
            proof {
                assert(d@.tiles().count(t) == d1.tiles().count(t) + (c - 2));
                assert(d1.tiles().count(t) == d0.tiles().count(t) + 2);
                assert forall|u: Hai| u != t
                    implies #[trigger] d@.tiles().count(u) == d0.tiles().count(u) by {
                    assert(d@.tiles().count(u) == d1.tiles().count(u));
                    assert(d1.tiles().count(u) == d0.tiles().count(u));
                }
            }
        } else if c == 1 {
            d.chiitoutsu_kokushimusou_valid_tile_vec.push(t);
            proof {
                assert(d0.valid_tiles.push(t).to_multiset()
                    =~= d0.valid_tiles.to_multiset().insert(t));
                assert(d@.tiles() =~= d0.tiles().insert(t));
                assert forall|u: Hai| u != t
                    implies #[trigger] d@.tiles().count(u) == d0.tiles().count(u) by {
                }
            }
        }
        proof {
            assert forall|u: Hai| u.valid() && u.key() < k + 1
                implies #[trigger] d@.tiles().count(u) == s.to_multiset().count(u) by {
                if u.key() == k {
                    assert(u == hai_of_key(k as int));
                    assert(s.to_multiset().count(u) == c);
                    assert(d0.tiles().count(u) == 0);
                    if c == 0 {
                        assert(d@.tiles().count(u) == d0.tiles().count(u));
                    }
                } else {
                    assert(d0.tiles().count(u) == s.to_multiset().count(u));
                    if c == 0 {
                        assert(d@.tiles().count(u) == d0.tiles().count(u));
                    }
                }
            }
            assert forall|u: Hai| u.valid() && u.key() >= k + 1
                implies #[trigger] d@.tiles().count(u) == 0 by {
                assert(d0.tiles().count(u) == 0);
                if c == 0 {
                    assert(d@.tiles().count(u) == d0.tiles().count(u));
                }
            }
            assert forall|u: Hai| !u.valid()
                implies #[trigger] d@.tiles().count(u) == 0 by {
                assert(d0.tiles().count(u) == 0);
                if c == 0 {
                    assert(d@.tiles().count(u) == d0.tiles().count(u));
                }
            }
            assert forall|kk: int| 0 <= kk < k + 1
                implies (#[trigger] toitsu_lists_kind(d@.toitsu, kk) <==> kind_count(s, kk) >= 2) by {
                assert(hai_of_key(kk).key() == kk);
                if kk == k {
                    if c >= 2 {
                        assert(d@.toitsu[d@.toitsu.len() - 1].0 == hai_of_key(kk));
                    } else {
                        if toitsu_lists_kind(d@.toitsu, kk) {
                            let i = choose|i: int| 0 <= i < d@.toitsu.len()
                                && (#[trigger] d@.toitsu[i]).0 == hai_of_key(kk);
                            assert(d0.toitsu[i].0.key() < k);
                            assert(false);
                        }
                    }
                } else {
                    if toitsu_lists_kind(d0.toitsu, kk) {
                        let i = choose|i: int| 0 <= i < d0.toitsu.len()
                            && (#[trigger] d0.toitsu[i]).0 == hai_of_key(kk);
                        assert(d@.toitsu[i].0 == hai_of_key(kk));
                    }
                    if toitsu_lists_kind(d@.toitsu, kk) {
                        let i = choose|i: int| 0 <= i < d@.toitsu.len()
                            && (#[trigger] d@.toitsu[i]).0 == hai_of_key(kk);
                        if i < d0.toitsu.len() {
                            assert(toitsu_lists_kind(d0.toitsu, kk));
                        } else {
                            assert(d@.toitsu[i].0.key() == k);
                            assert(false);
                        }
                    }
                }
            }
            assert forall|kk: int| 0 <= kk < k + 1
                implies (#[trigger] tiles_list_kind(d@.valid_tiles, kk) <==> kind_count(s, kk) == 1) by {
                assert(hai_of_key(kk).key() == kk);
                if kk == k {
                    if c == 1 {
                        assert(d@.valid_tiles[d@.valid_tiles.len() - 1] == hai_of_key(kk));
                    } else {
                        if tiles_list_kind(d@.valid_tiles, kk) {
                            let i = choose|i: int| 0 <= i < d@.valid_tiles.len()
                                && #[trigger] d@.valid_tiles[i] == hai_of_key(kk);
                            assert(d0.valid_tiles[i].key() < k);
                            assert(false);
                        }
                    }
                } else {
                    if tiles_list_kind(d0.valid_tiles, kk) {
                        let i = choose|i: int| 0 <= i < d0.valid_tiles.len()
                            && #[trigger] d0.valid_tiles[i] == hai_of_key(kk);
                        assert(d@.valid_tiles[i] == hai_of_key(kk));
                    }
                    if tiles_list_kind(d@.valid_tiles, kk) {
                        let i = choose|i: int| 0 <= i < d@.valid_tiles.len()
                            && #[trigger] d@.valid_tiles[i] == hai_of_key(kk);
                        if i < d0.valid_tiles.len() {
                            assert(tiles_list_kind(d0.valid_tiles, kk));
                        } else {
                            assert(d@.valid_tiles[i].key() == k);
                            assert(false);
                        }
                    }
                }
            }
        }
        k = k + 1;
    }
    proof {
        assert forall|t: Hai| d@.tiles().count(t) == s.to_multiset().count(t) by {
            if !t.valid() {
                if s.to_multiset().count(t) > 0 {
                    assert(s.contains(t));
                    let i = choose|i: int| 0 <= i < s.len() && s[i] == t;
                    assert(s[i].valid());
                }
                assert(s.to_multiset().count(t) == 0);
            }
        }
        assert(d@.tiles() =~= s.to_multiset());
    }
    d
}

/// The thirteen-orphans scan: each distinct terminal or honor kind
/// present is counted once, the first duplicated one a second time;
/// everything else floats.
pub fn kokushimusou_decomposer(menzen: &Vec<Hai>) -> (d: Decomposer)
    requires
        all_valid(menzen@),
        menzen@.len() == 14,
    ensures
        d@.hourakei == Hourakei::Kokushimusou,
        d@.mentsu.len() == 0,
        d@.taatsu.len() == 0,
        d@.toitsu.len() == 0,
        d@.valid_tiles.len() == kokushi_valid_count(menzen@),
        d@.tiles() == menzen@.to_multiset(),
        d@.struct_valid(),
        forall|i: int| 0 <= i < d@.valid_tiles.len()
            ==> (#[trigger] d@.valid_tiles[i]).is_yaochuu(),
        forall|kk: int| 0 <= kk < 34
            ==> (#[trigger] tiles_list_kind(d@.valid_tiles, kk)
                <==> (yaochuu_key(kk) && kind_count(menzen@, kk) >= 1)),
{
    let ghost s = menzen@;
    let cnt = count_tiles(menzen);
    let mut d = Decomposer::new();
    d.hourakei = Hourakei::Kokushimusou;
    let mut pair_taken: bool = false;
    let mut k: usize = 0;
    while k < 34
        invariant
            cnt@.len() == 34,
            forall|kk: int| 0 <= kk < 34 ==> #[trigger] cnt@[kk] as nat == kind_count(s, kk),
            k <= 34,
            d@.hourakei == Hourakei::Kokushimusou,
            d@.mentsu.len() == 0,
            d@.taatsu.len() == 0,
            d@.toitsu.len() == 0,
            pair_taken == yaochuu_dup_before(s, k as int),
            d@.valid_tiles.len() == yaochuu_present_upto(s, k as int)
                + if pair_taken { 1int } else { 0int },
            d@.struct_valid(),
            forall|i: int| 0 <= i < d@.valid_tiles.len()
                ==> (#[trigger] d@.valid_tiles[i]).is_yaochuu() && d@.valid_tiles[i].key() < k,
            forall|kk: int| 0 <= kk < k
                ==> (#[trigger] tiles_list_kind(d@.valid_tiles, kk)
                    <==> (yaochuu_key(kk) && kind_count(s, kk) >= 1)),
            forall|t: Hai| t.valid() && t.key() < k ==> #[trigger] d@.tiles().count(t)
                == s.to_multiset().count(t),
            forall|t: Hai| t.valid() && t.key() >= k ==> #[trigger] d@.tiles().count(t) == 0,
            forall|t: Hai| !t.valid() ==> #[trigger] d@.tiles().count(t) == 0,
        decreases 34 - k,
    {
        let c = cnt[k];
        let t = Hai::from_index(k as u8);
        proof {
            lemma_key_bijective();
        }
        let ghost dup_before = pair_taken;
        let ghost d0 = d@;
        if t.yaochuu() {
            if c >= 1 {
                d.chiitoutsu_kokushimusou_valid_tile_vec.push(t);
                proof {
                    assert(d0.valid_tiles.push(t).to_multiset()
                        =~= d0.valid_tiles.to_multiset().insert(t));
                    assert(d@.tiles() =~= d0.tiles().insert(t));
                }
                let ghost d1 = d@;
                if c >= 2 && !pair_taken {
                    pair_taken = true;
                    d.chiitoutsu_kokushimusou_valid_tile_vec.push(t);
                    proof {
                        assert(d1.valid_tiles.push(t).to_multiset()
                            =~= d1.valid_tiles.to_multiset().insert(t));
                        assert(d@.tiles() =~= d1.tiles().insert(t));
                    }
                    let ghost d2 = d@;
                    push_floats(&mut d, t, c - 2);
                    proof {
                        assert(d@.tiles().count(t) == d2.tiles().count(t) + (c - 2));
                        assert(d2.tiles().count(t) == d1.tiles().count(t) + 1);
                        assert(d1.tiles().count(t) == d0.tiles().count(t) + 1);
                        assert forall|u: Hai| u != t
                            implies #[trigger] d@.tiles().count(u) == d0.tiles().count(u) by {
                            assert(d@.tiles().count(u) == d2.tiles().count(u));
                            assert(d2.tiles().count(u) == d1.tiles().count(u));
                            assert(d1.tiles().count(u) == d0.tiles().count(u));
                        }
                    }
                } else {
                    push_floats(&mut d, t, c - 1);
                    proof {
                        assert(d@.tiles().count(t) == d1.tiles().count(t) + (c - 1));
                        assert(d1.tiles().count(t) == d0.tiles().count(t) + 1);
                        assert forall|u: Hai| u != t
                            implies #[trigger] d@.tiles().count(u) == d0.tiles().count(u) by {
                            assert(d@.tiles().count(u) == d1.tiles().count(u));
                            assert(d1.tiles().count(u) == d0.tiles().count(u));
                        }
                    }
                }
            }
        } else {
            push_floats(&mut d, t, c);
            proof {
                assert(d@.tiles().count(t) == d0.tiles().count(t) + c);
                assert forall|u: Hai| u != t
                    implies #[trigger] d@.tiles().count(u) == d0.tiles().count(u) by {
                    assert(d@.tiles().count(u) == d0.tiles().count(u));
                }
            }
        }
        proof {
            assert forall|u: Hai| u.valid() && u.key() < k + 1
                implies #[trigger] d@.tiles().count(u) == s.to_multiset().count(u) by {
                if u.key() == k {
                    assert(u == hai_of_key(k as int));
                    assert(s.to_multiset().count(u) == c);
                    assert(d0.tiles().count(u) == 0);
                    if t.is_yaochuu() && c == 0 {
                        assert(d@.tiles().count(u) == d0.tiles().count(u));
                    }
                } else {
                    assert(d0.tiles().count(u) == s.to_multiset().count(u));
                    if t.is_yaochuu() && c == 0 {
                        assert(d@.tiles().count(u) == d0.tiles().count(u));
                    }
                }
            }
            assert forall|u: Hai| u.valid() && u.key() >= k + 1
                implies #[trigger] d@.tiles().count(u) == 0 by {
                assert(d0.tiles().count(u) == 0);
                if t.is_yaochuu() && c == 0 {
                    assert(d@.tiles().count(u) == d0.tiles().count(u));
                }
            }
            assert forall|u: Hai| !u.valid()
                implies #[trigger] d@.tiles().count(u) == 0 by {
                assert(d0.tiles().count(u) == 0);
                if t.is_yaochuu() && c == 0 {
                    assert(d@.tiles().count(u) == d0.tiles().count(u));
                }
            }
            assert(pair_taken == yaochuu_dup_before(s, k + 1)) by {
                if pair_taken {
                    if dup_before {
                        let j = choose|j: int| 0 <= j < k && yaochuu_key(j) && kind_count(s, j) >= 2;
                        assert(0 <= j < k + 1 && yaochuu_key(j) && kind_count(s, j) >= 2);
                    } else {
                        assert(yaochuu_key(k as int) && kind_count(s, k as int) >= 2);
                    }
                } else {
                    if yaochuu_dup_before(s, k + 1) {
                        let j = choose|j: int| 0 <= j < k + 1 && yaochuu_key(j)
                            && kind_count(s, j) >= 2;
                        if j < k {
                            assert(yaochuu_dup_before(s, k as int));
                        }
                        assert(false);
                    }
                }
            }
            assert forall|kk: int| 0 <= kk < k + 1
                implies (#[trigger] tiles_list_kind(d@.valid_tiles, kk)
                    <==> (yaochuu_key(kk) && kind_count(s, kk) >= 1)) by {
                assert(hai_of_key(kk).key() == kk);
                if kk == k {
                    assert(hai_of_key(k as int) == t);
                    if t.is_yaochuu() && c >= 1 {
                        assert(d@.valid_tiles[d0.valid_tiles.len() as int] == hai_of_key(kk));
                    } else {
                        assert(d@.valid_tiles == d0.valid_tiles);
                        if tiles_list_kind(d@.valid_tiles, kk) {
                            let i = choose|i: int| 0 <= i < d@.valid_tiles.len()
                                && #[trigger] d@.valid_tiles[i] == hai_of_key(kk);
                            assert(d0.valid_tiles[i].key() < k);
                            assert(false);
                        }
                    }
                } else {
                    if tiles_list_kind(d0.valid_tiles, kk) {
                        let i = choose|i: int| 0 <= i < d0.valid_tiles.len()
                            && #[trigger] d0.valid_tiles[i] == hai_of_key(kk);
                        assert(d@.valid_tiles[i] == hai_of_key(kk));
                    }
                    if tiles_list_kind(d@.valid_tiles, kk) {
                        let i = choose|i: int| 0 <= i < d@.valid_tiles.len()
                            && #[trigger] d@.valid_tiles[i] == hai_of_key(kk);
                        if i < d0.valid_tiles.len() {
                            assert(tiles_list_kind(d0.valid_tiles, kk));
                        } else {
                            assert(d@.valid_tiles[i] == t);
                            assert(d@.valid_tiles[i].key() == k);
                            assert(false);
                        }
                    }
                }
            }
        }
        k = k + 1;
    }
    proof {
        assert forall|t: Hai| d@.tiles().count(t) == s.to_multiset().count(t) by {
            if !t.valid() {
                if s.to_multiset().count(t) > 0 {
                    assert(s.contains(t));
                    let i = choose|i: int| 0 <= i < s.len() && s[i] == t;
                    assert(s[i].valid());
                }
                assert(s.to_multiset().count(t) == 0);
            }
        }
        assert(d@.tiles() =~= s.to_multiset());
    }
    d
}

/// What holds of each kept decomposition: it accounts for exactly the
/// concealed tiles, is well shaped, yields the minimal distance, and a
/// pattern-scan decomposition appears only for a closed fourteen-tile
/// hand.
pub open spec fn min_entry_ok(d: DecompView, menzen: Seq<Hai>, fuuro_len: int, n_min: int) -> bool {
    &&& d.tiles() == menzen.to_multiset()
    &&& d.struct_valid()
    &&& d.spec_shanten(menzen.len() as int) == n_min
    &&& (d.hourakei == Hourakei::Mentsute ==> d.valid_tiles.len() == 0)
    &&& (d.hourakei != Hourakei::Mentsute ==> menzen.len() == 14 && fuuro_len == 0)
}

/// What a successful distance computation guarantees: the distance lies
/// between the completed-hand floor and the all-floating ceiling, at
/// least one decomposition achieves it, every kept decomposition is a
/// minimal account of the concealed tiles with no two alike, and for a
/// closed fourteen-tile hand the distance is no worse than what the
/// seven-pairs and thirteen-orphans scans yield.
pub open spec fn calculate_ok(menzen: Seq<Hai>, fuuro_len: int, n_min: int,
    mins: Seq<Decomposer>) -> bool {
    &&& -1 <= n_min <= 2 * ((menzen.len() as int) / 3)
    &&& mins.len() > 0
    &&& forall|i: int| 0 <= i < mins.len()
        ==> min_entry_ok((#[trigger] mins[i])@, menzen, fuuro_len, n_min)
    &&& forall|i: int, j: int| 0 <= i < j < mins.len() ==> mins[i]@ != mins[j]@
    &&& (menzen.len() == 14 && fuuro_len == 0 ==> {
        &&& n_min <= chiitoitsu_shanten(pair_kinds(menzen), lone_kinds(menzen))
        &&& n_min <= kokushimusou_shanten(kokushi_valid_count(menzen))
    })
}

/// Compute the minimal distance of the hand and keep every decomposition
/// achieving it, across the standard, seven-pairs and thirteen-orphans
/// patterns (the latter two only for a closed fourteen-tile hand).
pub fn calculate(tehai: &Tehai) -> (r: Result<(i32, Vec<Decomposer>), MahjongError>)
    ensures
        r is Ok <==> tehai.wf(),
        !all_valid(tehai.menzen@) ==> r == Result::<(i32, Vec<Decomposer>), MahjongError>::Err(
            MahjongError::InvalidTile),
        all_valid(tehai.menzen@) && !(sorted(tehai.menzen@) && tehai.menzen@.len() % 3 == 2
            && tehai.menzen@.len() + 3 * tehai.fuuro@.len() <= 14)
            ==> r == Result::<(i32, Vec<Decomposer>), MahjongError>::Err(
                MahjongError::InvalidHandShape),
        all_valid(tehai.menzen@) && sorted(tehai.menzen@) && tehai.menzen@.len() % 3 == 2
            && tehai.menzen@.len() + 3 * tehai.fuuro@.len() <= 14
            && !fuuro_all_valid(tehai.fuuro@)
            ==> r == Result::<(i32, Vec<Decomposer>), MahjongError>::Err(
                MahjongError::InvalidMeld),
        r is Ok ==> calculate_ok(tehai.menzen@, tehai.fuuro@.len() as int,
            r->Ok_0.0 as int, r->Ok_0.1@),
{
    let menzen = &tehai.menzen;
    if !check_hai_in_range(menzen) {
        return Err(MahjongError::InvalidTile);
    }
    if !is_sorted_vec(menzen) {
        return Err(MahjongError::InvalidHandShape);
    }
    if menzen.len() % 3 != 2 || menzen.len() > 14
        || (14 - menzen.len()) / 3 < tehai.fuuro.len() {
        return Err(MahjongError::InvalidHandShape);
    }
    let mut fi: usize = 0;
    while fi < tehai.fuuro.len()
        invariant
            all_valid(tehai.menzen@),
            sorted(tehai.menzen@),
            tehai.menzen@.len() % 3 == 2,
            tehai.menzen@.len() + 3 * tehai.fuuro@.len() <= 14,
            fi <= tehai.fuuro@.len(),
            forall|j: int| 0 <= j < fi ==> (#[trigger] tehai.fuuro@[j]).valid(),
        decreases tehai.fuuro@.len() - fi,
    {
        if !tehai.fuuro[fi].is_valid_shape() {
            return Err(MahjongError::InvalidMeld);
        }
        fi = fi + 1;
    }

    let hai_number = menzen.len();
    let ghost n_int = hai_number as int;
    let ghost fuuro_len = tehai.fuuro@.len() as int;
    let mut decomposers_vec: Vec<Decomposer> = Vec::new();
    let base = Decomposer::new();
    split(menzen, &base, &mut decomposers_vec);
    proof {
        assert(Multiset::<Hai>::empty().add(menzen@.to_multiset()) =~= menzen@.to_multiset());
        assert(menzen@.to_multiset().len() == menzen@.len());
    }

    let mut min_shanten: i32 = ((hai_number / 3) * 2) as i32;
    let ghost init_val = min_shanten as int;
    let mut mins: Vec<Decomposer> = Vec::new();

    let mut i: usize = 0;
    while i < decomposers_vec.len()
        invariant
            n_int == tehai.menzen@.len(),
            fuuro_len == tehai.fuuro@.len(),
            n_int % 3 == 2,
            2 <= n_int <= 14,
            init_val == 2 * (n_int / 3),
            hai_number == n_int,
            tehai.menzen@.to_multiset().len() == n_int,
            forall|j: int| 0 <= j < decomposers_vec@.len() ==> {
                let d = (#[trigger] decomposers_vec@[j])@;
                &&& d.hourakei == Hourakei::Mentsute
                &&& d.struct_valid()
                &&& d.valid_tiles.len() == 0
                &&& d.tiles() == tehai.menzen@.to_multiset()
            },
            i <= decomposers_vec@.len(),
            -1 <= min_shanten <= init_val,
            forall|j: int| 0 <= j < mins@.len()
                ==> min_entry_ok((#[trigger] mins@[j])@, tehai.menzen@, fuuro_len,
                    min_shanten as int),
            forall|a: int, b: int| 0 <= a < b < mins@.len() ==> mins@[a]@ != mins@[b]@,
            forall|j: int| 0 <= j < i
                ==> (#[trigger] decomposers_vec@[j])@.spec_shanten(n_int) >= min_shanten,
            mins@.len() == 0 ==> min_shanten == init_val
                && forall|j: int| 0 <= j < i
                    ==> (#[trigger] decomposers_vec@[j])@.spec_shanten(n_int) > init_val,
        decreases decomposers_vec@.len() - i,
    {
        let dref = &decomposers_vec[i];
        proof {
            lemma_component_bounds(dref@);
            lemma_candidate_floor(dref@, n_int);
        }
        let s = dref.shanten_number(hai_number);
        if s == min_shanten {
            if !contains_content(&mins, dref) {
                mins.push(dref.duplicate());
            }
        } else if s < min_shanten {
            min_shanten = s;
            mins = Vec::new();
            mins.push(dref.duplicate());
        }
        i = i + 1;
    }

    proof {
        if mins@.len() == 0 {
            let idx = choose|idx: int| 0 <= idx < decomposers_vec@.len()
                && floats_only((#[trigger] decomposers_vec@[idx])@, base@);
            let d = decomposers_vec@[idx]@;
            assert(!toitsu_has_dup(d.toitsu));
            assert(d.spec_shanten(n_int) == init_val);
            assert(false);
        }
    }

    if hai_number == 14 && tehai.fuuro.len() == 0 {
        let cd = chiitoitsu_decomposer(menzen);
        proof {
            lemma_component_bounds(cd@);
            lemma_candidate_floor(cd@, n_int);
        }
        let s = cd.shanten_number(hai_number);
        if s == min_shanten {
            if !contains_content(&mins, &cd) {
                mins.push(cd);
            }
        } else if s < min_shanten {
            min_shanten = s;
            mins = Vec::new();
            mins.push(cd);
        }
        proof {
            assert(min_shanten as int
                <= chiitoitsu_shanten(pair_kinds(tehai.menzen@), lone_kinds(tehai.menzen@)));
        }
        let ghost min_after_chiitoi = min_shanten as int;

        let kd = kokushimusou_decomposer(menzen);
        proof {
            lemma_component_bounds(kd@);
            lemma_candidate_floor(kd@, n_int);
        }
        let s2 = kd.shanten_number(hai_number);
        if s2 == min_shanten {
            if !contains_content(&mins, &kd) {
                mins.push(kd);
            }
        } else if s2 < min_shanten {
            min_shanten = s2;
            mins = Vec::new();
            mins.push(kd);
        }
        proof {
            assert(min_shanten as int <= min_after_chiitoi);
            assert(min_shanten as int
                <= kokushimusou_shanten(kokushi_valid_count(tehai.menzen@)));
        }
    }

    if mins.len() == 0 {
        return Err(MahjongError::NoDecomposition);
    }
    Ok((min_shanten, mins))
}

} // verus!
