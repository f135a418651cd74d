//! The hand: a sorted concealed tile multiset plus declared open groups,
//! with per-kind counting and canonical sorting.

use vstd::prelude::*;
use vstd::multiset::Multiset;
use crate::tile::{Hai, all_valid, sorted, hai_of_key, lemma_key_bijective};
use crate::mentsu::Mentsu;
use crate::error::MahjongError;

verus! {

broadcast use vstd::seq_lib::group_to_multiset_ensures;

/// Every declared group is well shaped.
pub open spec fn fuuro_all_valid(s: Seq<Mentsu>) -> bool {
    forall|i: int| 0 <= i < s.len() ==> (#[trigger] s[i]).valid()
}

/// A hand: concealed tiles (kept sorted) plus declared open groups.
#[derive(Debug)]
pub struct Tehai {
    pub menzen: Vec<Hai>,
    pub fuuro: Vec<Mentsu>,
}

impl Tehai {
    /// The hand invariant: the concealed tiles are sorted and valid, their
    /// count is of the form 3k+2, the hand as a whole holds at most the
    /// fourteen tiles of a full hand, and every declared group is well
    /// shaped.
    pub open spec fn wf(self) -> bool {
        &&& sorted(self.menzen@)
        &&& all_valid(self.menzen@)
        &&& self.menzen@.len() % 3 == 2
        &&& self.menzen@.len() + 3 * self.fuuro@.len() <= 14
        &&& fuuro_all_valid(self.fuuro@)
    }

    /// Build a validated hand from concealed tiles (in any order) and
    /// declared open groups.  The concealed tiles are sorted; the inputs
    /// are rejected exactly when a tile is out of range, the counts do not
    /// form a legal hand shape, or an open group is ill shaped.
    pub fn new(menzen: Vec<Hai>, fuuro: Vec<Mentsu>) -> (r: Result<Tehai, MahjongError>)
        ensures
            r is Ok <==> (all_valid(menzen@) && menzen@.len() % 3 == 2
                && menzen@.len() + 3 * fuuro@.len() <= 14 && fuuro_all_valid(fuuro@)),
            !all_valid(menzen@) ==> r == Result::<Tehai, MahjongError>::Err(MahjongError::InvalidTile),
            all_valid(menzen@) && !(menzen@.len() % 3 == 2 && menzen@.len() + 3 * fuuro@.len() <= 14)
                ==> r == Result::<Tehai, MahjongError>::Err(MahjongError::InvalidHandShape),
            all_valid(menzen@) && menzen@.len() % 3 == 2 && menzen@.len() + 3 * fuuro@.len() <= 14
                && !fuuro_all_valid(fuuro@)
                ==> r == Result::<Tehai, MahjongError>::Err(MahjongError::InvalidMeld),
            r is Ok ==> {
                &&& r->Ok_0.wf()
                &&& r->Ok_0.menzen@.to_multiset() == menzen@.to_multiset()
                &&& r->Ok_0.menzen@.len() == menzen@.len()
                &&& r->Ok_0.fuuro@ == fuuro@
            },
    {
        if !crate::mentsu::check_hai_in_range(&menzen) {
            return Err(MahjongError::InvalidTile);
        }
        if menzen.len() % 3 != 2 || menzen.len() > 14 || (14 - menzen.len()) / 3 < fuuro.len() {
            return Err(MahjongError::InvalidHandShape);
        }
        let mut i: usize = 0;
        while i < fuuro.len()
            invariant
                all_valid(menzen@),
                menzen@.len() % 3 == 2,
                menzen@.len() + 3 * fuuro@.len() <= 14,
                i <= fuuro@.len(),
                forall|j: int| 0 <= j < i ==> (#[trigger] fuuro@[j]).valid(),
            decreases fuuro@.len() - i,
        {
            if !fuuro[i].is_valid_shape() {
                return Err(MahjongError::InvalidMeld);
            }
            i = i + 1;
        }
        let sorted_menzen = sort_hai(&menzen);
        Ok(Tehai { menzen: sorted_menzen, fuuro })
    }
}

/// Whether the tiles stand in canonical order.
pub fn is_sorted_vec(v: &Vec<Hai>) -> (r: bool)
    requires
        all_valid(v@),
    ensures
        r == sorted(v@),
{
    let mut i: usize = 1;
    while i < v.len()
        invariant
            all_valid(v@),
            1 <= i,
            i <= v@.len() || v@.len() == 0,
            forall|a: int, b: int| 0 <= a <= b < i && b < v@.len()
                ==> #[trigger] v@[a].key() <= #[trigger] v@[b].key(),
        decreases v@.len() - i,
    {
        if !v[i - 1].le(&v[i]) {
            return false;
        }
        i = i + 1;
    }
    true
}

/// Count the copies of each of the 34 tile kinds in the vector, indexed by
/// canonical tile position.
pub fn count_tiles(v: &Vec<Hai>) -> (r: Vec<u8>)
    requires
        all_valid(v@),
        v@.len() <= 255,
    ensures
        r@.len() == 34,
        forall|k: int| 0 <= k < 34 ==> #[trigger] r@[k] as nat == v@.to_multiset().count(hai_of_key(k)),
{
    let mut r: Vec<u8> = Vec::new();
    let mut k: usize = 0;
    while k < 34
        invariant
            r@.len() == k,
            k <= 34,
            forall|j: int| 0 <= j < k ==> #[trigger] r@[j] == 0u8,
        decreases 34 - k,
    {
        r.push(0);
        k = k + 1;
    }
    proof {
        lemma_key_bijective();
        assert(v@.subrange(0, 0) =~= Seq::<Hai>::empty());
        assert forall|kk: int| 0 <= kk < 34 implies #[trigger] r@[kk] as nat
            == v@.subrange(0, 0).to_multiset().count(hai_of_key(kk)) by {
            assert(v@.subrange(0, 0).to_multiset() =~= Multiset::<Hai>::empty());
        }
    }
    let mut i: usize = 0;
    while i < v.len()
        invariant
            all_valid(v@),
            v@.len() <= 255,
            i <= v@.len(),
            r@.len() == 34,
            forall|kk: int| 0 <= kk < 34 ==> #[trigger] r@[kk] as nat
                == v@.subrange(0, i as int).to_multiset().count(hai_of_key(kk)),
            forall|kk: int| 0 <= kk < 34 ==> #[trigger] r@[kk] as nat <= i,
        decreases v@.len() - i,
    {
        let idx = v[i].index();
        let ghost prefix = v@.subrange(0, i as int);
        let old_count = r[idx as usize];
        r.set(idx as usize, old_count + 1);
        proof {
            lemma_key_bijective();
            assert(v@.subrange(0, i + 1) =~= prefix.push(v@[i as int]));
            assert(prefix.push(v@[i as int]).to_multiset() =~= prefix.to_multiset().insert(v@[i as int]));
            assert(hai_of_key(idx as int) == v@[i as int]);
        }
        i = i + 1;
    }
    proof {
        assert(v@.subrange(0, v@.len() as int) =~= v@);
    }
    r
}

/// Rebuild the sorted tile vector that a per-kind count table describes.
pub fn sorted_from_counts(cnt: &Vec<u8>) -> (r: Vec<Hai>)
    requires
        cnt@.len() == 34,
    ensures
        sorted(r@),
        all_valid(r@),
        forall|t: Hai| t.valid() ==> #[trigger] r@.to_multiset().count(t) == cnt@[t.key()] as nat,
        forall|t: Hai| !t.valid() ==> #[trigger] r@.to_multiset().count(t) == 0,
{
    let mut r: Vec<Hai> = Vec::new();
    proof {
        assert(r@.to_multiset() =~= Multiset::<Hai>::empty());
    }
    let mut k: usize = 0;
    while k < 34
        invariant
            cnt@.len() == 34,
            k <= 34,
            all_valid(r@),
            sorted(r@),
            forall|i: int| 0 <= i < r@.len() ==> (#[trigger] r@[i]).key() < k,
            forall|t: Hai| t.valid() && t.key() < k ==> #[trigger] r@.to_multiset().count(t) == cnt@[t.key()] as nat,
            forall|t: Hai| t.valid() && t.key() >= k ==> #[trigger] r@.to_multiset().count(t) == 0,
            forall|t: Hai| !t.valid() ==> #[trigger] r@.to_multiset().count(t) == 0,
        decreases 34 - k,
    {
        let c = cnt[k];
        let t = Hai::from_index(k as u8);
        let mut j: u8 = 0;
        while j < c
            invariant
                cnt@.len() == 34,
                k < 34,
                t == hai_of_key(k as int),
                t.valid(),
                t.key() == k,
                c == cnt@[k as int],
                j <= c,
                all_valid(r@),
                sorted(r@),
                forall|i: int| 0 <= i < r@.len() ==> (#[trigger] r@[i]).key() <= k,
                r@.to_multiset().count(t) == j as nat,
                forall|u: Hai| u.valid() && u.key() < k ==> #[trigger] r@.to_multiset().count(u) == cnt@[u.key()] as nat,
                forall|u: Hai| u.valid() && u.key() >= k && u != t ==> #[trigger] r@.to_multiset().count(u) == 0,
                forall|u: Hai| !u.valid() ==> #[trigger] r@.to_multiset().count(u) == 0,
            decreases c - j,
        {
            let ghost old_r = r@;
            r.push(t);
            proof {
                assert(old_r.push(t).to_multiset() =~= old_r.to_multiset().insert(t));
                assert forall|a: int, b: int| 0 <= a <= b < r@.len()
                    implies #[trigger] r@[a].key() <= #[trigger] r@[b].key() by {
                    if b < old_r.len() {
                        assert(old_r[a].key() <= old_r[b].key());
                    } else {
                        assert(r@[b] == t);
                        if a < old_r.len() {
                            assert(old_r[a].key() <= k);
                        }
                    }
                }
            }
            j = j + 1;
        }
        proof {
            lemma_key_bijective();
            assert forall|u: Hai| u.valid() && u.key() < k + 1
                implies #[trigger] r@.to_multiset().count(u) == cnt@[u.key()] as nat by {
                if u.key() == k {
                    assert(u == hai_of_key(k as int));
                }
            }
        }
        k = k + 1;
    }
    r
}

/// Sort tiles into canonical order, preserving the multiset of tiles.
pub fn sort_hai(v: &Vec<Hai>) -> (r: Vec<Hai>)
    requires
        all_valid(v@),
        v@.len() <= 255,
    ensures
        sorted(r@),
        all_valid(r@),
        r@.to_multiset() == v@.to_multiset(),
        r@.len() == v@.len(),
{
    let cnt = count_tiles(v);
    let r = sorted_from_counts(&cnt);
    proof {
        lemma_key_bijective();
        assert forall|t: Hai| r@.to_multiset().count(t) == v@.to_multiset().count(t) by {
            if t.valid() {
                assert(hai_of_key(t.key()) == t);
                assert(r@.to_multiset().count(t) == cnt@[t.key()] as nat);
            } else {
                if v@.to_multiset().count(t) > 0 {
                    assert(v@.contains(t));
                    let i = choose|i: int| 0 <= i < v@.len() && v@[i] == t;
                    assert(v@[i].valid());
                }
                assert(v@.to_multiset().count(t) == 0);
            }
        }
        assert(r@.to_multiset() =~= v@.to_multiset());
        assert(r@.to_multiset().len() == r@.len());
        assert(v@.to_multiset().len() == v@.len());
    }
    r
}

} // verus!
