//! Decompositions: a partition of the concealed tiles into groups, pairs,
//! partial runs and floating tiles, tagged by the completion pattern it
//! serves, together with its distance formula.

use vstd::prelude::*;
use vstd::multiset::Multiset;
use crate::tile::{Hai, all_valid};
use crate::mentsu::{Mentsu, Toitsu, Taatsu, Ukihai};

verus! {

broadcast use vstd::seq_lib::group_to_multiset_ensures;

/// The completion pattern a decomposition serves.
#[derive(Clone, Copy, Debug, PartialEq, Eq, Structural)]
pub enum Hourakei {
    /// Four groups plus one pair.
    Mentsute,
    /// Seven distinct pairs.
    Chiitoitsu,
    /// One of each terminal and honor tile plus one duplicate.
    Kokushimusou,
}

/// The mathematical content of a decomposition.
#[verifier::ext_equal]
pub ghost struct DecompView {
    pub mentsu: Seq<Mentsu>,
    pub toitsu: Seq<Toitsu>,
    pub taatsu: Seq<Taatsu>,
    pub ukihai: Seq<Ukihai>,
    pub valid_tiles: Seq<Hai>,
    pub hourakei: Hourakei,
}

/// The physical tiles a list of completed groups stands for.
pub open spec fn mentsu_seq_tiles(s: Seq<Mentsu>) -> Multiset<Hai>
    decreases s.len(),
{
    if s.len() == 0 {
        Multiset::empty()
    } else {
        mentsu_seq_tiles(s.drop_last()).add(s.last().tiles())
    }
}

/// The physical tiles a list of pairs stands for.
pub open spec fn toitsu_seq_tiles(s: Seq<Toitsu>) -> Multiset<Hai>
    decreases s.len(),
{
    if s.len() == 0 {
        Multiset::empty()
    } else {
        toitsu_seq_tiles(s.drop_last()).add(s.last().tiles())
    }
}

/// The physical tiles a list of partial runs stands for.
pub open spec fn taatsu_seq_tiles(s: Seq<Taatsu>) -> Multiset<Hai>
    decreases s.len(),
{
    if s.len() == 0 {
        Multiset::empty()
    } else {
        taatsu_seq_tiles(s.drop_last()).add(s.last().tiles())
    }
}

/// The physical tiles a list of floating tiles stands for.
pub open spec fn ukihai_seq_tiles(s: Seq<Ukihai>) -> Multiset<Hai>
    decreases s.len(),
{
    if s.len() == 0 {
        Multiset::empty()
    } else {
        ukihai_seq_tiles(s.drop_last()).insert(s.last().0)
    }
}

pub proof fn lemma_mentsu_tiles_push(s: Seq<Mentsu>, m: Mentsu)
    ensures
        mentsu_seq_tiles(s.push(m)) == mentsu_seq_tiles(s).add(m.tiles()),
{
    assert(s.push(m).drop_last() =~= s);
}

pub proof fn lemma_toitsu_tiles_push(s: Seq<Toitsu>, t: Toitsu)
    ensures
        toitsu_seq_tiles(s.push(t)) == toitsu_seq_tiles(s).add(t.tiles()),
{
    assert(s.push(t).drop_last() =~= s);
}

pub proof fn lemma_taatsu_tiles_push(s: Seq<Taatsu>, t: Taatsu)
    ensures
        taatsu_seq_tiles(s.push(t)) == taatsu_seq_tiles(s).add(t.tiles()),
{
    assert(s.push(t).drop_last() =~= s);
}

pub proof fn lemma_ukihai_tiles_push(s: Seq<Ukihai>, u: Ukihai)
    ensures
        ukihai_seq_tiles(s.push(u)) == ukihai_seq_tiles(s).insert(u.0),
{
    assert(s.push(u).drop_last() =~= s);
}

pub proof fn lemma_mentsu_tiles_len(s: Seq<Mentsu>)
    ensures
        mentsu_seq_tiles(s).len() >= 3 * s.len(),
    decreases s.len(),
{
    if s.len() > 0 {
        lemma_mentsu_tiles_len(s.drop_last());
    }
}

pub proof fn lemma_toitsu_tiles_len(s: Seq<Toitsu>)
    ensures
        toitsu_seq_tiles(s).len() == 2 * s.len(),
    decreases s.len(),
{
    if s.len() > 0 {
        lemma_toitsu_tiles_len(s.drop_last());
    }
}

pub proof fn lemma_taatsu_tiles_len(s: Seq<Taatsu>)
    ensures
        taatsu_seq_tiles(s).len() == 2 * s.len(),
    decreases s.len(),
{
    if s.len() > 0 {
        lemma_taatsu_tiles_len(s.drop_last());
    }
}

pub proof fn lemma_ukihai_tiles_len(s: Seq<Ukihai>)
    ensures
        ukihai_seq_tiles(s).len() == s.len(),
    decreases s.len(),
{
    if s.len() > 0 {
        lemma_ukihai_tiles_len(s.drop_last());
    }
}

/// Each component list of a decomposition is bounded by the tiles it
/// accounts for.
pub proof fn lemma_component_bounds(d: DecompView)
    ensures
        d.tiles().len() >= 3 * d.mentsu.len() + 2 * d.toitsu.len() + 2 * d.taatsu.len()
            + d.ukihai.len() + d.valid_tiles.len(),
{
    broadcast use vstd::seq_lib::group_to_multiset_ensures;

    lemma_mentsu_tiles_len(d.mentsu);
    lemma_toitsu_tiles_len(d.toitsu);
    lemma_taatsu_tiles_len(d.taatsu);
    lemma_ukihai_tiles_len(d.ukihai);
}

/// The smaller of two integers.
pub open spec fn spec_min(a: int, b: int) -> int {
    if a <= b { a } else { b }
}

/// Two entries of the pair list carry the same tile value.
pub open spec fn toitsu_has_dup(s: Seq<Toitsu>) -> bool {
    exists|i: int, j: int| 0 <= i < j < s.len() && s[i] == s[j]
}

/// The standard-pattern distance formula over group, pair and partial-run
/// counts for a concealed hand of `n` tiles: each completed group saves
/// two steps, each usable partial shape one, capped by the number of group
/// slots the hand size allows.
pub open spec fn mentsute_shanten(m: int, t: int, tt: int, n: int) -> int {
    let limit = (n + 1) / 3;
    let taatsu_num = spec_min(limit - 1 - m, tt);
    let toitsu_num = spec_min(limit - m - taatsu_num, t);
    2 * (n / 3) - 2 * m - taatsu_num - toitsu_num
}

/// The seven-pairs distance formula over the number of pairs and of lone
/// usable tiles.
pub open spec fn chiitoitsu_shanten(pairs: int, lones: int) -> int {
    13 - 2 * pairs - spec_min(lones, 7 - pairs)
}

/// The thirteen-orphans distance formula over the number of counted
/// terminal and honor tiles (at most one duplicate included).
pub open spec fn kokushimusou_shanten(valid_count: int) -> int {
    13 - valid_count
}

impl DecompView {
    /// The multiset of all physical tiles this decomposition accounts for.
    pub open spec fn tiles(self) -> Multiset<Hai> {
        mentsu_seq_tiles(self.mentsu)
            .add(toitsu_seq_tiles(self.toitsu))
            .add(taatsu_seq_tiles(self.taatsu))
            .add(ukihai_seq_tiles(self.ukihai))
            .add(self.valid_tiles.to_multiset())
    }

    /// Every recorded group, pair, partial run and tile is well shaped.
    pub open spec fn struct_valid(self) -> bool {
        &&& forall|i: int| 0 <= i < self.mentsu.len() ==> (#[trigger] self.mentsu[i]).valid()
        &&& forall|i: int| 0 <= i < self.toitsu.len() ==> (#[trigger] self.toitsu[i]).valid()
        &&& forall|i: int| 0 <= i < self.taatsu.len() ==> (#[trigger] self.taatsu[i]).valid()
        &&& forall|i: int| 0 <= i < self.ukihai.len() ==> (#[trigger] self.ukihai[i]).valid()
        &&& all_valid(self.valid_tiles)
    }

    /// The distance this decomposition yields for a concealed hand of `n`
    /// tiles, by its pattern's formula.  A standard decomposition whose
    /// pair list double-counts one tile value is rejected with the
    /// sentinel maximum.
    pub open spec fn spec_shanten(self, n: int) -> int {
        match self.hourakei {
            Hourakei::Mentsute => if toitsu_has_dup(self.toitsu) {
                13
            } else {
                mentsute_shanten(self.mentsu.len() as int, self.toitsu.len() as int,
                    self.taatsu.len() as int, n)
            },
            Hourakei::Chiitoitsu => chiitoitsu_shanten(self.toitsu.len() as int,
                self.valid_tiles.len() as int),
            Hourakei::Kokushimusou => kokushimusou_shanten(self.valid_tiles.len() as int),
        }
    }
}

/// One full partition of a hand's concealed tiles, tagged by pattern.
///
/// For the standard pattern the groups, pairs, partial runs and floating
/// tiles carry the partition; for seven pairs the pair list holds the
/// pairs and `chiitoutsu_kokushimusou_valid_tile_vec` the lone usable
/// tiles; for thirteen orphans that list holds the counted terminal and
/// honor tiles (at most one duplicate).
#[derive(Debug)]
pub struct Decomposer {
    pub mentsu_vec: Vec<Mentsu>,
    pub toitsu_vec: Vec<Toitsu>,
    pub taatsu_vec: Vec<Taatsu>,
    pub ukihai_vec: Vec<Ukihai>,
    pub chiitoutsu_kokushimusou_valid_tile_vec: Vec<Hai>,
    pub hourakei: Hourakei,
}

impl View for Decomposer {
    type V = DecompView;

    open spec fn view(&self) -> DecompView {
        DecompView {
            mentsu: self.mentsu_vec@,
            toitsu: self.toitsu_vec@,
            taatsu: self.taatsu_vec@,
            ukihai: self.ukihai_vec@,
            valid_tiles: self.chiitoutsu_kokushimusou_valid_tile_vec@,
            hourakei: self.hourakei,
        }
    }
}

/// Copy a vector of plain values element by element.
pub fn copy_vec<T: Copy>(v: &Vec<T>) -> (r: Vec<T>)
    ensures
        r@ == v@,
{
    let mut r: Vec<T> = Vec::new();
    let mut i: usize = 0;
    while i < v.len()
        invariant
            i <= v@.len(),
            r@ =~= v@.subrange(0, i as int),
        decreases v@.len() - i,
    {
        r.push(v[i]);
        proof {
            assert(v@.subrange(0, i as int).push(v@[i as int]) =~= v@.subrange(0, i + 1));
        }
        i = i + 1;
    }
    proof {
        assert(v@.subrange(0, v@.len() as int) =~= v@);
    }
    r
}

impl Decomposer {
    /// An empty standard-pattern decomposition.
    pub fn new() -> (r: Decomposer)
        ensures
            r@.mentsu == Seq::<Mentsu>::empty(),
            r@.toitsu == Seq::<Toitsu>::empty(),
            r@.taatsu == Seq::<Taatsu>::empty(),
            r@.ukihai == Seq::<Ukihai>::empty(),
            r@.valid_tiles == Seq::<Hai>::empty(),
            r@.hourakei == Hourakei::Mentsute,
            r@.tiles() == Multiset::<Hai>::empty(),
    {
        let r = Decomposer {
            mentsu_vec: Vec::new(),
            toitsu_vec: Vec::new(),
            taatsu_vec: Vec::new(),
            ukihai_vec: Vec::new(),
            chiitoutsu_kokushimusou_valid_tile_vec: Vec::new(),
            hourakei: Hourakei::Mentsute,
        };
        proof {
            assert forall|t: Hai| r@.valid_tiles.to_multiset().count(t) == 0 by {
                assert(!r@.valid_tiles.contains(t));
            }
            assert(r@.valid_tiles.to_multiset() =~= Multiset::<Hai>::empty());
            assert(r@.tiles() =~= Multiset::<Hai>::empty());
        }
        r
    }

    /// A structurally independent copy with the same content.
    pub fn duplicate(&self) -> (r: Decomposer)
        ensures
            r@ == self@,
    {
        let r = Decomposer {
            mentsu_vec: copy_vec(&self.mentsu_vec),
            toitsu_vec: copy_vec(&self.toitsu_vec),
            taatsu_vec: copy_vec(&self.taatsu_vec),
            ukihai_vec: copy_vec(&self.ukihai_vec),
            chiitoutsu_kokushimusou_valid_tile_vec: copy_vec(
                &self.chiitoutsu_kokushimusou_valid_tile_vec),
            hourakei: self.hourakei,
        };
        proof {
            assert(r@ =~= self@);
        }
        r
    }

    /// The completed groups of this decomposition.
    pub fn mentsu_vec(&self) -> (r: &Vec<Mentsu>)
        ensures
            r@ == self@.mentsu,
    {
        &self.mentsu_vec
    }

    /// The pairs of this decomposition.
    pub fn toitsu_vec(&self) -> (r: &Vec<Toitsu>)
        ensures
            r@ == self@.toitsu,
    {
        &self.toitsu_vec
    }

    /// The partial runs of this decomposition.
    pub fn taatsu_vec(&self) -> (r: &Vec<Taatsu>)
        ensures
            r@ == self@.taatsu,
    {
        &self.taatsu_vec
    }

    /// The floating tiles of this decomposition.
    pub fn ukihai_vec(&self) -> (r: &Vec<Ukihai>)
        ensures
            r@ == self@.ukihai,
    {
        &self.ukihai_vec
    }

    /// The tiles counted by the seven-pairs or thirteen-orphans scan.
    pub fn chiitoutsu_kokushimusou_valid_tile_vec(&self) -> (r: &Vec<Hai>)
        ensures
            r@ == self@.valid_tiles,
    {
        &self.chiitoutsu_kokushimusou_valid_tile_vec
    }

    /// The completion pattern this decomposition serves.
    pub fn hourakei(&self) -> (r: Hourakei)
        ensures
            r == self@.hourakei,
    {
        self.hourakei
    }

    /// Structural equality of content.
    pub fn same_content(&self, other: &Decomposer) -> (r: bool)
        ensures
            r == (self@ == other@),
    {
        let r = eq_mentsu_vec(&self.mentsu_vec, &other.mentsu_vec)
            && eq_toitsu_vec(&self.toitsu_vec, &other.toitsu_vec)
            && eq_taatsu_vec(&self.taatsu_vec, &other.taatsu_vec)
            && eq_ukihai_vec(&self.ukihai_vec, &other.ukihai_vec)
            && eq_hai_vec(&self.chiitoutsu_kokushimusou_valid_tile_vec,
                &other.chiitoutsu_kokushimusou_valid_tile_vec)
            && self.hourakei == other.hourakei;
        proof {
            if r {
                assert(self@ =~= other@);
            }
        }
        r
    }

    /// The distance this decomposition yields for a concealed hand of
    /// `hai_number` tiles, by its pattern's formula.
    pub fn shanten_number(&self, hai_number: usize) -> (r: i32)
        requires
            hai_number <= 14,
            self@.mentsu.len() <= 14,
            self@.toitsu.len() <= 14,
            self@.taatsu.len() <= 14,
            self@.valid_tiles.len() <= 14,
        ensures
            r == self@.spec_shanten(hai_number as int),
    {
        match self.hourakei {
            Hourakei::Mentsute => {
                if toitsu_vec_has_dup(&self.toitsu_vec) {
                    13
                } else {
                    let n: i32 = hai_number as i32;
                    let m: i32 = self.mentsu_vec.len() as i32;
                    let t: i32 = self.toitsu_vec.len() as i32;
                    let tt: i32 = self.taatsu_vec.len() as i32;
                    let limit: i32 = (n + 1) / 3;
                    let taatsu_num: i32 = min_i32(limit - 1 - m, tt);
                    let toitsu_num: i32 = min_i32(limit - m - taatsu_num, t);
                    2 * (n / 3) - 2 * m - taatsu_num - toitsu_num
                }
            },
            Hourakei::Chiitoitsu => {
                let t: i32 = self.toitsu_vec.len() as i32;
                let l: i32 = self.chiitoutsu_kokushimusou_valid_tile_vec.len() as i32;
                13 - 2 * t - min_i32(l, 7 - t)
            },
            Hourakei::Kokushimusou => {
                13 - self.chiitoutsu_kokushimusou_valid_tile_vec.len() as i32
            },
        }
    }
}

/// The smaller of two machine integers.
pub fn min_i32(a: i32, b: i32) -> (r: i32)
    ensures
        r == spec_min(a as int, b as int),
{
    if a <= b { a } else { b }
}

/// Whether the pair list carries some tile value twice.
pub fn toitsu_vec_has_dup(v: &Vec<Toitsu>) -> (r: bool)
    ensures
        r == toitsu_has_dup(v@),
{
    let mut i: usize = 0;
    while i < v.len()
        invariant
            i <= v@.len(),
            forall|a: int, b: int| 0 <= a < b < v@.len() && a < i ==> v@[a] != v@[b],
        decreases v@.len() - i,
    {
        let mut j: usize = i + 1;
        while j < v.len()
            invariant
                i < j,
                j <= v@.len(),
                i < v@.len(),
                forall|a: int, b: int| 0 <= a < b < v@.len() && a < i ==> v@[a] != v@[b],
                forall|b: int| i < b < j ==> v@[i as int] != v@[b],
            decreases v@.len() - j,
        {
            if v[i] == v[j] {
                return true;
            }
            j = j + 1;
        }
        i = i + 1;
    }
    false
}

/// Elementwise equality of group lists.
pub fn eq_mentsu_vec(a: &Vec<Mentsu>, b: &Vec<Mentsu>) -> (r: bool)
    ensures
        r == (a@ == b@),
{
    if a.len() != b.len() {
        return false;
    }
    let mut i: usize = 0;
    while i < a.len()
        invariant
            a@.len() == b@.len(),
            i <= a@.len(),
            forall|j: int| 0 <= j < i ==> a@[j] == b@[j],
        decreases a@.len() - i,
    {
        if a[i] != b[i] {
            return false;
        }
        i = i + 1;
    }
    proof {
        assert(a@ =~= b@);
    }
    true
}

/// Elementwise equality of pair lists.
pub fn eq_toitsu_vec(a: &Vec<Toitsu>, b: &Vec<Toitsu>) -> (r: bool)
    ensures
        r == (a@ == b@),
{
    if a.len() != b.len() {
        return false;
    }
    let mut i: usize = 0;
    while i < a.len()
        invariant
            a@.len() == b@.len(),
            i <= a@.len(),
            forall|j: int| 0 <= j < i ==> a@[j] == b@[j],
        decreases a@.len() - i,
    {
        if a[i] != b[i] {
            return false;
        }
        i = i + 1;
    }
    proof {
        assert(a@ =~= b@);
    }
    true
}

/// Elementwise equality of partial-run lists.
pub fn eq_taatsu_vec(a: &Vec<Taatsu>, b: &Vec<Taatsu>) -> (r: bool)
    ensures
        r == (a@ == b@),
{
    if a.len() != b.len() {
        return false;
    }
    let mut i: usize = 0;
    while i < a.len()
        invariant
            a@.len() == b@.len(),
            i <= a@.len(),
            forall|j: int| 0 <= j < i ==> a@[j] == b@[j],
        decreases a@.len() - i,
    {
        if a[i] != b[i] {
            return false;
        }
        i = i + 1;
    }
    proof {
        assert(a@ =~= b@);
    }
    true
}

/// Elementwise equality of floating-tile lists.
pub fn eq_ukihai_vec(a: &Vec<Ukihai>, b: &Vec<Ukihai>) -> (r: bool)
    ensures
        r == (a@ == b@),
{
    if a.len() != b.len() {
        return false;
    }
    let mut i: usize = 0;
    while i < a.len()
        invariant
            a@.len() == b@.len(),
            i <= a@.len(),
            forall|j: int| 0 <= j < i ==> a@[j] == b@[j],
        decreases a@.len() - i,
    {
        if a[i] != b[i] {
            return false;
        }
        i = i + 1;
    }
    proof {
        assert(a@ =~= b@);
    }
    true
}

/// Elementwise equality of tile lists.
pub fn eq_hai_vec(a: &Vec<Hai>, b: &Vec<Hai>) -> (r: bool)
    ensures
        r == (a@ == b@),
{
    if a.len() != b.len() {
        return false;
    }
    let mut i: usize = 0;
    while i < a.len()
        invariant
            a@.len() == b@.len(),
            i <= a@.len(),
            forall|j: int| 0 <= j < i ==> a@[j] == b@[j],
        decreases a@.len() - i,
    {
        if a[i] != b[i] {
            return false;
        }
        i = i + 1;
    }
    proof {
        assert(a@ =~= b@);
    }
    true
}

} // verus!
