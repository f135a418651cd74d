//! Wait analysis: for each candidate discard, which tiles would bring the
//! hand closer to completion and how many copies of each remain unseen.

use vstd::prelude::*;
use crate::tile::{Hai, lemma_key_bijective, yaochuu_list, lemma_yaochuu_members, hai_of_key, HAI_COPIES};
use crate::mentsu::{Mentsu, Toitsu, Taatsu, Ukihai, lemma_next_step, lemma_before_step};
use crate::tehai::Tehai;
use crate::decomp::{Decomposer, Hourakei, mentsu_seq_tiles};
use crate::error::MahjongError;

verus! {

broadcast use vstd::seq_lib::group_to_multiset_ensures;

/// An ordered tile-to-count table: keys strictly increasing in canonical
/// order (hence unique) and valid.
pub open spec fn map_wf(m: Seq<(Hai, u8)>) -> bool {
    &&& forall|i: int, j: int| 0 <= i < j < m.len()
        ==> #[trigger] m[i].0.key() < #[trigger] m[j].0.key()
    &&& forall|i: int| 0 <= i < m.len() ==> (#[trigger] m[i].0).valid()
}

/// The table holds an entry for the tile.
pub open spec fn map_has_key(m: Seq<(Hai, u8)>, h: Hai) -> bool {
    exists|i: int| 0 <= i < m.len() && (#[trigger] m[i]).0 == h
}

/// The count recorded for the tile, if any.  Well defined on tables with
/// unique keys.
pub open spec fn lookup(m: Seq<(Hai, u8)>, h: Hai) -> Option<u8> {
    if map_has_key(m, h) {
        Some(m[choose|i: int| 0 <= i < m.len() && (#[trigger] m[i]).0 == h].1)
    } else {
        None
    }
}

/// Every recorded count is exactly `c`.
pub open spec fn all_counts_are(m: Seq<(Hai, u8)>, c: u8) -> bool {
    forall|i: int| 0 <= i < m.len() ==> (#[trigger] m[i]).1 == c
}

/// Every recorded count lies between `lo` and `hi`.
pub open spec fn counts_between(m: Seq<(Hai, u8)>, lo: u8, hi: u8) -> bool {
    forall|i: int| 0 <= i < m.len() ==> lo <= (#[trigger] m[i]).1 <= hi
}

/// The sum of all recorded counts.
pub open spec fn total(m: Seq<(Hai, u8)>) -> int
    decreases m.len(),
{
    if m.len() == 0 {
        0
    } else {
        total(m.drop_last()) + m.last().1
    }
}

/// A recorded count after `v` visible copies were struck off: it drops by
/// `v`, and the entry disappears once nothing remains.
pub open spec fn lookup_after(l0: Option<u8>, v: nat) -> Option<u8> {
    match l0 {
        Option::None => Option::None,
        Option::Some(c) => if c > v { Option::Some((c - v) as u8) } else { Option::None },
    }
}

/// How many copies of the tile are visible in the hand itself: concealed
/// tiles plus the tiles of the declared open groups.
pub open spec fn visible_count(menzen: Seq<Hai>, fuuro: Seq<Mentsu>, h: Hai) -> nat {
    menzen.to_multiset().count(h) + mentsu_seq_tiles(fuuro).count(h)
}

/// On a table with unique keys, any entry holding the key determines the
/// lookup.
pub proof fn lemma_lookup_at(m: Seq<(Hai, u8)>, i: int)
    requires
        map_wf(m),
        0 <= i < m.len(),
    ensures
        lookup(m, m[i].0) == Some(m[i].1),
{
    let h = m[i].0;
    assert(map_has_key(m, h));
    let j = choose|j: int| 0 <= j < m.len() && m[j].0 == h;
    if i < j {
        assert(m[i].0.key() < m[j].0.key());
        assert(false);
    }
    if j < i {
        assert(m[j].0.key() < m[i].0.key());
        assert(false);
    }
}

/// A table with unique keys drawn from the 34 kinds holds at most 34
/// entries.
pub proof fn lemma_map_len(m: Seq<(Hai, u8)>)
    requires
        map_wf(m),
    ensures
        m.len() <= 34,
{
    if m.len() > 34 {
        lemma_key_ge_index(m, 34);
        assert(m[34].0.valid());
        assert(false);
    }
}

proof fn lemma_key_ge_index(m: Seq<(Hai, u8)>, i: int)
    requires
        map_wf(m),
        0 <= i < m.len(),
    ensures
        m[i].0.key() >= i,
    decreases i,
{
    if i > 0 {
        lemma_key_ge_index(m, i - 1);
    }
}

/// Record the count `c` for the tile, keeping the table ordered:
/// overwrite an existing entry, or place a new one at its position.
#[verifier::rlimit(60)]
pub fn map_insert(m: &mut Vec<(Hai, u8)>, h: Hai, c: u8)
    requires
        map_wf(old(m)@),
        h.valid(),
    ensures
        map_wf(final(m)@),
        lookup(final(m)@, h) == Some(c),
        forall|x: Hai| x != h ==> #[trigger] lookup(final(m)@, x) == lookup(old(m)@, x),
        all_counts_are(old(m)@, c) ==> all_counts_are(final(m)@, c),
        forall|x: Hai| map_has_key(old(m)@, x) ==> #[trigger] map_has_key(final(m)@, x),
{
    let ghost orig = m@;
    let key = h.index();
    let mut pos: usize = 0;
    while pos < m.len() && m[pos].0.index() < key
        invariant
            map_wf(orig),
            m@ == orig,
            h.valid(),
            key == h.key(),
            pos <= m@.len(),
            forall|j: int| 0 <= j < pos ==> (#[trigger] m@[j]).0.key() < h.key(),
        decreases m@.len() - pos,
    {
        pos = pos + 1;
    }
    if pos < m.len() && m[pos].0.index() == key {
        proof {
            lemma_key_bijective();
            assert(m@[pos as int].0 == h);
        }
        m.set(pos, (h, c));
        proof {
            assert(map_wf(m@));
            lemma_lookup_at(m@, pos as int);
            assert forall|x: Hai| x != h
                implies #[trigger] lookup(m@, x) == lookup(orig, x) by {
                if map_has_key(orig, x) {
                    let i = choose|i: int| 0 <= i < orig.len() && orig[i].0 == x;
                    assert(m@[i] == orig[i]);
                    lemma_lookup_at(m@, i);
                    lemma_lookup_at(orig, i);
                } else {
                    if map_has_key(m@, x) {
                        let i = choose|i: int| 0 <= i < m@.len() && m@[i].0 == x;
                        assert(orig[i].0 == x);
                        assert(false);
                    }
                }
            }
            assert forall|x: Hai| map_has_key(orig, x)
                implies #[trigger] map_has_key(m@, x) by {
                let i = choose|i: int| 0 <= i < orig.len() && orig[i].0 == x;
                if i == pos {
                    assert(m@[pos as int].0 == h);
                } else {
                    assert(m@[i] == orig[i]);
                }
            }
        }
    } else {
        proof {
            lemma_key_bijective();
            if pos < m@.len() {
                assert(m@[pos as int].0.key() > h.key());
            }
            assert(!map_has_key(orig, h)) by {
                if map_has_key(orig, h) {
                    let i = choose|i: int| 0 <= i < orig.len() && orig[i].0 == h;
                    if i < pos {
                        assert(orig[i].0.key() < h.key());
                    } else {
                        if i > pos {
                            assert(orig[pos as int].0.key() < orig[i].0.key());
                        }
                    }
                    assert(false);
                }
            }
        }
        m.insert(pos, (h, c));
        proof {
            assert(m@ == orig.insert(pos as int, (h, c)));
            assert forall|a: int, b: int| 0 <= a < b < m@.len()
                implies #[trigger] m@[a].0.key() < #[trigger] m@[b].0.key() by {
                let aa: int = if a < pos { a } else { a - 1 };
                let bb: int = if b < pos { b } else { b - 1 };
                if a == pos {
                    assert(m@[b] == orig[bb]);
                } else if b == pos {
                    assert(m@[a] == orig[aa]);
                } else {
                    assert(m@[a] == orig[aa]);
                    assert(m@[b] == orig[bb]);
                }
            }
            assert forall|i: int| 0 <= i < m@.len() implies (#[trigger] m@[i].0).valid() by {
                if i != pos {
                    let ii: int = if i < pos { i } else { i - 1 };
                    assert(m@[i] == orig[ii]);
                }
            }
            assert(map_wf(m@));
            lemma_lookup_at(m@, pos as int);
            assert forall|x: Hai| x != h
                implies #[trigger] lookup(m@, x) == lookup(orig, x) by {
                if map_has_key(orig, x) {
                    let i = choose|i: int| 0 <= i < orig.len() && orig[i].0 == x;
                    let ni: int = if i < pos { i } else { i + 1 };
                    assert(m@[ni] == orig[i]);
                    lemma_lookup_at(m@, ni);
                    lemma_lookup_at(orig, i);
                } else {
                    if map_has_key(m@, x) {
                        let i = choose|i: int| 0 <= i < m@.len() && m@[i].0 == x;
                        let ii: int = if i < pos { i } else { i - 1 };
                        assert(orig[ii].0 == x);
                        assert(false);
                    }
                }
            }
            assert forall|x: Hai| map_has_key(orig, x)
                implies #[trigger] map_has_key(m@, x) by {
                let i = choose|i: int| 0 <= i < orig.len() && orig[i].0 == x;
                let ni: int = if i < pos { i } else { i + 1 };
                assert(m@[ni] == orig[i]);
            }
        }
    }
}

/// Strike one visible copy of the tile off the table: decrement its
/// count, removing the entry when nothing remains.
pub fn map_decrement(m: &mut Vec<(Hai, u8)>, h: &Hai)
    requires
        map_wf(old(m)@),
    ensures
        map_wf(final(m)@),
        lookup(final(m)@, *h) == lookup_after(lookup(old(m)@, *h), 1),
        forall|x: Hai| x != *h ==> #[trigger] lookup(final(m)@, x) == lookup(old(m)@, x),
        counts_between(old(m)@, 1, 4) ==> counts_between(final(m)@, 1, 4),
{
    let ghost orig = m@;
    let mut pos: usize = 0;
    while pos < m.len() && m[pos].0 != *h
        invariant
            map_wf(orig),
            m@ == orig,
            pos <= m@.len(),
            forall|j: int| 0 <= j < pos ==> (#[trigger] m@[j]).0 != *h,
        decreases m@.len() - pos,
    {
        pos = pos + 1;
    }
    if pos == m.len() {
        proof {
            if map_has_key(orig, *h) {
                let i = choose|i: int| 0 <= i < orig.len() && orig[i].0 == *h;
                assert(false);
            }
        }
        return;
    }
    proof {
        lemma_lookup_at(orig, pos as int);
    }
    let v = m[pos].1;
    if v > 1 {
        m.set(pos, (*h, v - 1));
        proof {
            assert(map_wf(m@));
            lemma_lookup_at(m@, pos as int);
            assert forall|x: Hai| x != *h
                implies #[trigger] lookup(m@, x) == lookup(orig, x) by {
                if map_has_key(orig, x) {
                    let i = choose|i: int| 0 <= i < orig.len() && orig[i].0 == x;
                    assert(m@[i] == orig[i]);
                    lemma_lookup_at(m@, i);
                    lemma_lookup_at(orig, i);
                } else {
                    if map_has_key(m@, x) {
                        let i = choose|i: int| 0 <= i < m@.len() && m@[i].0 == x;
                        assert(orig[i].0 == x);
                        assert(false);
                    }
                }
            }
        }
    } else {
        m.remove(pos);
        proof {
            assert(m@ == orig.remove(pos as int));
            assert forall|a: int, b: int| 0 <= a < b < m@.len()
                implies #[trigger] m@[a].0.key() < #[trigger] m@[b].0.key() by {
                let aa: int = if a < pos { a } else { a + 1 };
                let bb: int = if b < pos { b } else { b + 1 };
                assert(m@[a] == orig[aa]);
                assert(m@[b] == orig[bb]);
            }
            assert forall|i: int| 0 <= i < m@.len() implies (#[trigger] m@[i].0).valid() by {
                let ii: int = if i < pos { i } else { i + 1 };
                assert(m@[i] == orig[ii]);
            }
            assert(map_wf(m@));
            assert forall|x: Hai| x != *h
                implies #[trigger] lookup(m@, x) == lookup(orig, x) by {
                if map_has_key(orig, x) {
                    let i = choose|i: int| 0 <= i < orig.len() && orig[i].0 == x;
                    let ni: int = if i < pos { i } else { i - 1 };
                    assert(m@[ni] == orig[i]);
                    lemma_lookup_at(m@, ni);
                    lemma_lookup_at(orig, i);
                } else {
                    if map_has_key(m@, x) {
                        let i = choose|i: int| 0 <= i < m@.len() && m@[i].0 == x;
                        let ii: int = if i < pos { i } else { i + 1 };
                        assert(orig[ii].0 == x);
                        assert(false);
                    }
                }
            }
            assert(!map_has_key(m@, *h)) by {
                if map_has_key(m@, *h) {
                    let i = choose|i: int| 0 <= i < m@.len() && m@[i].0 == *h;
                    let ii: int = if i < pos { i } else { i + 1 };
                    assert(orig[ii].0 == *h);
                    lemma_lookup_at(orig, ii);
                    assert(ii == pos);
                    assert(false);
                }
            }
        }
    }
}

/// Whether some floating tile carries the value.
pub fn ukihai_contains(v: &Vec<Ukihai>, h: Hai) -> (r: bool)
    ensures
        r == exists|i: int| 0 <= i < v@.len() && (#[trigger] v@[i]).0 == h,
{
    let mut i: usize = 0;
    while i < v.len()
        invariant
            i <= v@.len(),
            forall|j: int| 0 <= j < i ==> (#[trigger] v@[j]).0 != h,
        decreases v@.len() - i,
    {
        if v[i].0 == h {
            return true;
        }
        i = i + 1;
    }
    false
}

/// Whether some pair carries the value.
pub fn toitsu_contains(v: &Vec<Toitsu>, h: Hai) -> (r: bool)
    ensures
        r == exists|i: int| 0 <= i < v@.len() && (#[trigger] v@[i]).0 == h,
{
    let mut i: usize = 0;
    while i < v.len()
        invariant
            i <= v@.len(),
            forall|j: int| 0 <= j < i ==> (#[trigger] v@[j]).0 != h,
        decreases v@.len() - i,
    {
        if v[i].0 == h {
            return true;
        }
        i = i + 1;
    }
    false
}

/// Whether some counted scan tile carries the value.
pub fn hai_vec_contains(v: &Vec<Hai>, h: Hai) -> (r: bool)
    ensures
        r == v@.contains(h),
{
    let mut i: usize = 0;
    while i < v.len()
        invariant
            i <= v@.len(),
            forall|j: int| 0 <= j < i ==> v@[j] != h,
        decreases v@.len() - i,
    {
        if v[i] == h {
            return true;
        }
        i = i + 1;
    }
    false
}

/// The candidate discard is one of the decomposition's floating tiles,
/// or, for the seven-pairs pattern, one of its lone counted tiles: only
/// then does the decomposition speak about that discard.
pub open spec fn discards_a_float(d: crate::decomp::DecompView, sutehai: Hai) -> bool {
    ||| exists|i: int| 0 <= i < d.ukihai.len() && (#[trigger] d.ukihai[i]).0 == sutehai
    ||| (d.hourakei == Hourakei::Chiitoitsu && d.valid_tiles.contains(sutehai))
}

/// The decomposition already holds more shapes than the hand size allows
/// group slots, so it contributes no waits.
pub open spec fn shape_slots_overloaded(d: crate::decomp::DecompView, hai_number: int) -> bool {
    let limit = (hai_number + 1) / 3;
    ||| d.mentsu.len() + d.taatsu.len() > limit - 1
    ||| d.mentsu.len() + d.taatsu.len() + d.toitsu.len() > limit
}

/// A tile that completes one of the decomposition's partial runs: the
/// middle tile of a gapped one, or a neighbour on either open side of an
/// adjacent one, where the suit allows.
pub open spec fn taatsu_wait(t: Taatsu, x: Hai) -> bool {
    if t.1.key() == t.0.key() + 2 {
        t.0.spec_next() == Some(x)
    } else {
        t.0.spec_before() == Some(x) || t.1.spec_next() == Some(x)
    }
}

/// A second-order wait around a floating tile: one or two ranks away on
/// either side, inside the suit.
pub open spec fn flank_wait(u: Hai, x: Hai) -> bool {
    ||| u.spec_before() == Some(x)
    ||| (u.spec_before() is Some && (u.spec_before()->Some_0).spec_before() == Some(x))
    ||| u.spec_next() == Some(x)
    ||| (u.spec_next() is Some && (u.spec_next()->Some_0).spec_next() == Some(x))
}

/// What a floating tile other than the discard candidate contributes:
/// itself, and (when group slots are still short) its flanking tiles.
pub open spec fn ukihai_wait(u: Ukihai, sutehai: Hai, x: Hai, second_order: bool) -> bool {
    u.0 != sutehai && (x == u.0 || (second_order && flank_wait(u.0, x)))
}

/// The wait tiles a standard-pattern decomposition contributes for the
/// candidate discard: the completing tiles of each partial run; every
/// pair value when more than one pair exists; and, when shapes are short
/// of the slot limit, the pair values and every other floating tile,
/// with its flanking tiles when groups and partial runs are also short.
pub open spec fn mentsute_waits(d: crate::decomp::DecompView, sutehai: Hai, n: int,
    x: Hai) -> bool {
    let limit = (n + 1) / 3;
    ||| (exists|i: int| 0 <= i < d.taatsu.len() && taatsu_wait(#[trigger] d.taatsu[i], x))
    ||| (d.toitsu.len() > 1 && exists|i: int| 0 <= i < d.toitsu.len()
        && (#[trigger] d.toitsu[i]).0 == x)
    ||| (d.mentsu.len() + d.taatsu.len() + d.toitsu.len() < limit && {
        ||| (exists|i: int| 0 <= i < d.toitsu.len() && (#[trigger] d.toitsu[i]).0 == x)
        ||| (exists|i: int| 0 <= i < d.ukihai.len() && ukihai_wait(#[trigger] d.ukihai[i],
            sutehai, x, d.mentsu.len() + d.taatsu.len() < limit - 1))
    })
}

/// The wait tiles a seven-pairs decomposition contributes: with enough
/// shapes, every lone counted tile other than the candidate; otherwise
/// every tile kind not already paired.
pub open spec fn chiitoitsu_waits(d: crate::decomp::DecompView, sutehai: Hai, x: Hai) -> bool {
    if d.toitsu.len() + d.valid_tiles.len() >= 7 {
        d.valid_tiles.contains(x) && x != sutehai
    } else {
        x.valid() && !(exists|i: int| 0 <= i < d.toitsu.len() && (#[trigger] d.toitsu[i]).0 == x)
    }
}

/// Two equal tiles stand side by side in the counted list.
pub open spec fn has_adjacent_dup(s: Seq<Hai>) -> bool {
    exists|i: int| 1 <= i < s.len() && #[trigger] s[i] == s[i - 1]
}

/// The wait tiles a thirteen-orphans decomposition contributes: every
/// orphan kind while no duplicate is counted, and only the orphan kinds
/// not yet counted once one is.
pub open spec fn kokushimusou_waits(d: crate::decomp::DecompView, x: Hai) -> bool {
    if has_adjacent_dup(d.valid_tiles) {
        x.is_yaochuu() && !d.valid_tiles.contains(x)
    } else {
        x.is_yaochuu()
    }
}

/// The wait tiles one decomposition contributes for the candidate
/// discard, by its pattern.
pub open spec fn handle_waits(d: crate::decomp::DecompView, sutehai: Hai, n: int, x: Hai) -> bool {
    match d.hourakei {
        Hourakei::Mentsute => mentsute_waits(d, sutehai, n, x),
        Hourakei::Chiitoitsu => chiitoitsu_waits(d, sutehai, x),
        Hourakei::Kokushimusou => kokushimusou_waits(d, x),
    }
}

/// A table holds a key exactly when its lookup answers.
proof fn lemma_has_key_lookup(m: Seq<(Hai, u8)>, x: Hai)
    ensures
        map_has_key(m, x) <==> lookup(m, x) is Some,
{
}

/// One insertion extends the key set by exactly the inserted tile.
proof fn lemma_insert_key_step(pre: Seq<(Hai, u8)>, post: Seq<(Hai, u8)>, h: Hai)
    requires
        lookup(post, h) is Some,
        forall|x: Hai| x != h ==> #[trigger] lookup(post, x) == lookup(pre, x),
    ensures
        forall|x: Hai| #[trigger] map_has_key(post, x) <==> (map_has_key(pre, x) || x == h),
{
    assert forall|x: Hai| #[trigger] map_has_key(post, x)
        <==> (map_has_key(pre, x) || x == h) by {
        lemma_has_key_lookup(post, x);
        lemma_has_key_lookup(pre, x);
        if x != h {
            assert(lookup(post, x) == lookup(pre, x));
        }
    }
}

/// The wait condition for one candidate discard: the tiles that would
/// improve the hand once the candidate leaves, each with how many copies
/// remain unseen, and whether the wait fouls on an earlier discard.
#[derive(Debug)]
pub struct Condition {
    pub sutehai: Hai,
    pub machihai: Vec<(Hai, u8)>,
    pub furiten: bool,
    pub shanten_number: i32,
    pub hai_number: usize,
}

impl Condition {
    /// A fresh, empty condition for one candidate discard.
    pub fn new(sutehai: Hai, shanten_number: i32, hai_number: usize) -> (r: Condition)
        ensures
            r.sutehai == sutehai,
            r.machihai@ == Seq::<(Hai, u8)>::empty(),
            r.furiten == false,
            r.shanten_number == shanten_number,
            r.hai_number == hai_number,
            map_wf(r.machihai@),
            all_counts_are(r.machihai@, 4),
    {
        Condition {
            sutehai,
            machihai: Vec::new(),
            furiten: false,
            shanten_number,
            hai_number,
        }
    }

    /// Collect into the wait table every tile this decomposition waits
    /// for once the candidate is discarded, each provisionally counted at
    /// the full four copies; `finally_handle` corrects the counts.
    pub fn handle(&mut self, decomposer: &Decomposer) -> (r: Result<(), MahjongError>)
        requires
            old(self).hai_number % 3 == 2,
            old(self).hai_number <= 14,
            map_wf(old(self).machihai@),
            all_counts_are(old(self).machihai@, 4),
            decomposer@.struct_valid(),
            decomposer@.mentsu.len() <= 14,
            decomposer@.taatsu.len() <= 14,
            decomposer@.toitsu.len() <= 14,
        ensures
            final(self).sutehai == old(self).sutehai,
            final(self).furiten == old(self).furiten,
            final(self).shanten_number == old(self).shanten_number,
            final(self).hai_number == old(self).hai_number,
            map_wf(final(self).machihai@),
            all_counts_are(final(self).machihai@, 4),
            forall|x: Hai| map_has_key(old(self).machihai@, x)
                ==> #[trigger] map_has_key(final(self).machihai@, x),
            r is Err <==> old(self).shanten_number <= -2,
            r is Err ==> *final(self) == *old(self)
                && r == Result::<(), MahjongError>::Err(MahjongError::ShantenBelowFloor),
            old(self).shanten_number == -1 ==> *final(self) == *old(self),
            old(self).shanten_number >= 0 && !discards_a_float(decomposer@, old(self).sutehai)
                ==> *final(self) == *old(self),
            old(self).shanten_number >= 0 && decomposer@.hourakei == Hourakei::Mentsute
                && shape_slots_overloaded(decomposer@, old(self).hai_number as int)
                ==> *final(self) == *old(self),
            old(self).shanten_number >= 0 && discards_a_float(decomposer@, old(self).sutehai)
                && !(decomposer@.hourakei == Hourakei::Mentsute
                    && shape_slots_overloaded(decomposer@, old(self).hai_number as int))
                ==> forall|x: Hai| #[trigger] map_has_key(final(self).machihai@, x)
                    <==> (map_has_key(old(self).machihai@, x)
                        || handle_waits(decomposer@, old(self).sutehai,
                            old(self).hai_number as int, x)),
    {
        if self.shanten_number <= -2 {
            return Err(MahjongError::ShantenBelowFloor);
        }
        if self.shanten_number == -1 {
            return Ok(());
        }
        if !ukihai_contains(decomposer.ukihai_vec(), self.sutehai) {
            if decomposer.hourakei() == Hourakei::Chiitoitsu {
                if !hai_vec_contains(decomposer.chiitoutsu_kokushimusou_valid_tile_vec(),
                    self.sutehai) {
                    return Ok(());
                }
            } else {
                return Ok(());
            }
        }
        let ghost g0 = self.machihai@;
        match decomposer.hourakei() {
            Hourakei::Mentsute => {
                let limit = (self.hai_number + 1) / 3;
                let ghost limit_int = (old(self).hai_number as int + 1) / 3;
                let m_len = decomposer.mentsu_vec().len();
                let tt_len = decomposer.taatsu_vec().len();
                let t_len = decomposer.toitsu_vec().len();
                if m_len + tt_len > limit - 1 {
                    return Ok(());
                }
                if m_len + tt_len + t_len > limit {
                    return Ok(());
                }

                let taatsu_vec = decomposer.taatsu_vec();
                let mut i: usize = 0;
                while i < taatsu_vec.len()
                    invariant
                        taatsu_vec@ == decomposer@.taatsu,
                        decomposer@.struct_valid(),
                        i <= taatsu_vec@.len(),
                        self.sutehai == old(self).sutehai,
                        self.furiten == old(self).furiten,
                        self.shanten_number == old(self).shanten_number,
                        self.hai_number == old(self).hai_number,
                        map_wf(self.machihai@),
                        all_counts_are(self.machihai@, 4),
                        forall|x: Hai| #[trigger] map_has_key(self.machihai@, x)
                            <==> (map_has_key(g0, x) || exists|jj: int| 0 <= jj < i
                                && taatsu_wait(#[trigger] decomposer@.taatsu[jj], x)),
                    decreases taatsu_vec@.len() - i,
                {
                    let ta = taatsu_vec[i];
                    proof {
                        assert(decomposer@.taatsu[i as int].valid());
                    }
                    let ghost m0 = self.machihai@;
                    let k0 = ta.0.index();
                    let k1 = ta.1.index();
                    if k1 - k0 == 2 {
                        match ta.0.next() {
                            Some(mid) => {
                                proof {
                                    lemma_next_step(ta.0);
                                }
                                let ghost mp = self.machihai@;
                                map_insert(&mut self.machihai, mid, HAI_COPIES);
                                proof {
                                    lemma_insert_key_step(mp, self.machihai@, mid);
                                }
                            },
                            None => {},
                        }
                    } else {
                        match ta.0.before() {
                            Some(b) => {
                                proof {
                                    lemma_before_step(ta.0);
                                }
                                let ghost mp = self.machihai@;
                                map_insert(&mut self.machihai, b, HAI_COPIES);
                                proof {
                                    lemma_insert_key_step(mp, self.machihai@, b);
                                }
                            },
                            None => {},
                        }
                        match ta.1.next() {
                            Some(nx) => {
                                proof {
                                    lemma_next_step(ta.1);
                                }
                                let ghost mp = self.machihai@;
                                map_insert(&mut self.machihai, nx, HAI_COPIES);
                                proof {
                                    lemma_insert_key_step(mp, self.machihai@, nx);
                                }
                            },
                            None => {},
                        }
                    }
                    proof {
                        let ghost t_cur = decomposer@.taatsu[i as int];
                        assert forall|x: Hai| #[trigger] map_has_key(self.machihai@, x)
                            <==> (map_has_key(g0, x) || exists|jj: int| 0 <= jj < i + 1
                                && taatsu_wait(#[trigger] decomposer@.taatsu[jj], x)) by {
                            assert(map_has_key(m0, x) <==> (map_has_key(g0, x)
                                || exists|jj: int| 0 <= jj < i
                                    && taatsu_wait(#[trigger] decomposer@.taatsu[jj], x)));
                            if map_has_key(self.machihai@, x) && !map_has_key(m0, x) {
                                assert(taatsu_wait(t_cur, x));
                            }
                            if taatsu_wait(t_cur, x) {
                                assert(map_has_key(self.machihai@, x));
                            }
                            if map_has_key(m0, x) {
                                assert(map_has_key(self.machihai@, x));
                            }
                        }
                    }
                    i = i + 1;
                }
                let ghost g1 = self.machihai@;

                let toitsu_vec = decomposer.toitsu_vec();
                if t_len > 1 {
                    let mut i: usize = 0;
                    while i < toitsu_vec.len()
                        invariant
                            toitsu_vec@ == decomposer@.toitsu,
                            decomposer@.struct_valid(),
                            i <= toitsu_vec@.len(),
                            self.sutehai == old(self).sutehai,
                            self.furiten == old(self).furiten,
                            self.shanten_number == old(self).shanten_number,
                            self.hai_number == old(self).hai_number,
                            map_wf(self.machihai@),
                            all_counts_are(self.machihai@, 4),
                            forall|x: Hai| #[trigger] map_has_key(self.machihai@, x)
                                <==> (map_has_key(g1, x) || exists|jj: int| 0 <= jj < i
                                    && (#[trigger] decomposer@.toitsu[jj]).0 == x),
                        decreases toitsu_vec@.len() - i,
                    {
                        proof {
                            assert(decomposer@.toitsu[i as int].valid());
                        }
                        let t = toitsu_vec[i].0;
                        let ghost mp = self.machihai@;
                        map_insert(&mut self.machihai, t, HAI_COPIES);
                        proof {
                            lemma_insert_key_step(mp, self.machihai@, t);
                            assert forall|x: Hai| #[trigger] map_has_key(self.machihai@, x)
                                <==> (map_has_key(g1, x) || exists|jj: int| 0 <= jj < i + 1
                                    && (#[trigger] decomposer@.toitsu[jj]).0 == x) by {
                                if map_has_key(self.machihai@, x) && !map_has_key(mp, x) {
                                    assert(decomposer@.toitsu[i as int].0 == x);
                                }
                            }
                        }
                        i = i + 1;
                    }
                }
                let ghost g2 = self.machihai@;

                if m_len + tt_len + t_len < limit {
                    let mut i: usize = 0;
                    while i < toitsu_vec.len()
                        invariant
                            toitsu_vec@ == decomposer@.toitsu,
                            decomposer@.struct_valid(),
                            i <= toitsu_vec@.len(),
                            self.sutehai == old(self).sutehai,
                            self.furiten == old(self).furiten,
                            self.shanten_number == old(self).shanten_number,
                            self.hai_number == old(self).hai_number,
                            map_wf(self.machihai@),
                            all_counts_are(self.machihai@, 4),
                            forall|x: Hai| #[trigger] map_has_key(self.machihai@, x)
                                <==> (map_has_key(g2, x) || exists|jj: int| 0 <= jj < i
                                    && (#[trigger] decomposer@.toitsu[jj]).0 == x),
                        decreases toitsu_vec@.len() - i,
                    {
                        proof {
                            assert(decomposer@.toitsu[i as int].valid());
                        }
                        let t = toitsu_vec[i].0;
                        let ghost mp = self.machihai@;
                        map_insert(&mut self.machihai, t, HAI_COPIES);
                        proof {
                            lemma_insert_key_step(mp, self.machihai@, t);
                            assert forall|x: Hai| #[trigger] map_has_key(self.machihai@, x)
                                <==> (map_has_key(g2, x) || exists|jj: int| 0 <= jj < i + 1
                                    && (#[trigger] decomposer@.toitsu[jj]).0 == x) by {
                                if map_has_key(self.machihai@, x) && !map_has_key(mp, x) {
                                    assert(decomposer@.toitsu[i as int].0 == x);
                                }
                            }
                        }
                        i = i + 1;
                    }
                    let ghost g2a = self.machihai@;
                    let ghost so = decomposer@.mentsu.len() + decomposer@.taatsu.len()
                        < limit_int - 1;
                    let ukihai_vec = decomposer.ukihai_vec();
                    let mut i: usize = 0;
                    while i < ukihai_vec.len()
                        invariant
                            ukihai_vec@ == decomposer@.ukihai,
                            decomposer@.struct_valid(),
                            1 <= limit <= 5,
                            limit == limit_int,
                            m_len == decomposer@.mentsu.len(),
                            tt_len == decomposer@.taatsu.len(),
                            m_len <= 14,
                            tt_len <= 14,
                            so == (decomposer@.mentsu.len() + decomposer@.taatsu.len()
                                < limit_int - 1),
                            i <= ukihai_vec@.len(),
                            self.sutehai == old(self).sutehai,
                            self.furiten == old(self).furiten,
                            self.shanten_number == old(self).shanten_number,
                            self.hai_number == old(self).hai_number,
                            map_wf(self.machihai@),
                            all_counts_are(self.machihai@, 4),
                            forall|x: Hai| #[trigger] map_has_key(self.machihai@, x)
                                <==> (map_has_key(g2a, x) || exists|jj: int| 0 <= jj < i
                                    && ukihai_wait(#[trigger] decomposer@.ukihai[jj],
                                        old(self).sutehai, x, so)),
                        decreases ukihai_vec@.len() - i,
                    {
                        proof {
                            assert(decomposer@.ukihai[i as int].valid());
                        }
                        let ghost u_cur = decomposer@.ukihai[i as int];
                        let ghost m0 = self.machihai@;
                        let u = ukihai_vec[i].0;
                        if u != self.sutehai {
                            let ghost mp = self.machihai@;
                            map_insert(&mut self.machihai, u, HAI_COPIES);
                            proof {
                                lemma_insert_key_step(mp, self.machihai@, u);
                            }
                            if m_len + tt_len < limit - 1 {
                                match u {
                                    Hai::Jihai(_) => {},
                                    _ => {
                                        match u.before() {
                                            Some(b) => {
                                                proof {
                                                    lemma_before_step(u);
                                                }
                                                let ghost mp = self.machihai@;
                                                map_insert(&mut self.machihai, b, HAI_COPIES);
                                                proof {
                                                    lemma_insert_key_step(mp, self.machihai@, b);
                                                }
                                                match b.before() {
                                                    Some(b2) => {
                                                        proof {
                                                            lemma_before_step(b);
                                                        }
                                                        let ghost mp = self.machihai@;
                                                        map_insert(&mut self.machihai, b2,
                                                            HAI_COPIES);
                                                        proof {
                                                            lemma_insert_key_step(mp,
                                                                self.machihai@, b2);
                                                        }
                                                    },
                                                    None => {},
                                                }
                                            },
                                            None => {},
                                        }
                                        match u.next() {
                                            Some(nx) => {
                                                proof {
                                                    lemma_next_step(u);
                                                }
                                                let ghost mp = self.machihai@;
                                                map_insert(&mut self.machihai, nx, HAI_COPIES);
                                                proof {
                                                    lemma_insert_key_step(mp, self.machihai@, nx);
                                                }
                                                match nx.next() {
                                                    Some(nx2) => {
                                                        proof {
                                                            lemma_next_step(nx);
                                                        }
                                                        let ghost mp = self.machihai@;
                                                        map_insert(&mut self.machihai, nx2,
                                                            HAI_COPIES);
                                                        proof {
                                                            lemma_insert_key_step(mp,
                                                                self.machihai@, nx2);
                                                        }
                                                    },
                                                    None => {},
                                                }
                                            },
                                            None => {},
                                        }
                                    },
                                }
                            }
                        }
                        proof {
                            assert forall|x: Hai| #[trigger] map_has_key(self.machihai@, x)
                                <==> (map_has_key(g2a, x) || exists|jj: int| 0 <= jj < i + 1
                                    && ukihai_wait(#[trigger] decomposer@.ukihai[jj],
                                        old(self).sutehai, x, so)) by {
                                assert(map_has_key(m0, x) <==> (map_has_key(g2a, x)
                                    || exists|jj: int| 0 <= jj < i
                                        && ukihai_wait(#[trigger] decomposer@.ukihai[jj],
                                            old(self).sutehai, x, so)));
                                if map_has_key(self.machihai@, x) && !map_has_key(m0, x) {
                                    assert(ukihai_wait(u_cur, old(self).sutehai, x, so));
                                }
                                if ukihai_wait(u_cur, old(self).sutehai, x, so) {
                                    assert(map_has_key(self.machihai@, x));
                                }
                                if map_has_key(m0, x) {
                                    assert(map_has_key(self.machihai@, x));
                                }
                            }
                        }
                        i = i + 1;
                    }
                }
                proof {
                    assert forall|x: Hai| #[trigger] map_has_key(self.machihai@, x)
                        <==> (map_has_key(g0, x) || mentsute_waits(decomposer@,
                            old(self).sutehai, old(self).hai_number as int, x)) by {
                        assert(map_has_key(g1, x) <==> (map_has_key(g0, x)
                            || exists|jj: int| 0 <= jj < decomposer@.taatsu.len()
                                && taatsu_wait(#[trigger] decomposer@.taatsu[jj], x)));
                    }
                }
            },
            Hourakei::Chiitoitsu => {
                let toitsu_vec = decomposer.toitsu_vec();
                let valid_vec = decomposer.chiitoutsu_kokushimusou_valid_tile_vec();
                if toitsu_vec.len() >= 7 || valid_vec.len() >= 7 - toitsu_vec.len() {
                    let mut i: usize = 0;
                    while i < valid_vec.len()
                        invariant
                            valid_vec@ == decomposer@.valid_tiles,
                            decomposer@.struct_valid(),
                            i <= valid_vec@.len(),
                            self.sutehai == old(self).sutehai,
                            self.furiten == old(self).furiten,
                            self.shanten_number == old(self).shanten_number,
                            self.hai_number == old(self).hai_number,
                            map_wf(self.machihai@),
                            all_counts_are(self.machihai@, 4),
                            forall|x: Hai| #[trigger] map_has_key(self.machihai@, x)
                                <==> (map_has_key(g0, x) || exists|jj: int| 0 <= jj < i
                                    && #[trigger] decomposer@.valid_tiles[jj] == x
                                    && x != old(self).sutehai),
                        decreases valid_vec@.len() - i,
                    {
                        proof {
                            assert(decomposer@.valid_tiles[i as int].valid());
                        }
                        let v = valid_vec[i];
                        if v != self.sutehai {
                            let ghost mp = self.machihai@;
                            map_insert(&mut self.machihai, v, HAI_COPIES);
                            proof {
                                lemma_insert_key_step(mp, self.machihai@, v);
                            }
                        }
                        i = i + 1;
                    }
                    proof {
                        assert forall|x: Hai| #[trigger] map_has_key(self.machihai@, x)
                            <==> (map_has_key(g0, x) || chiitoitsu_waits(decomposer@,
                                old(self).sutehai, x)) by {
                        }
                    }
                } else {
                    let mut k: u8 = 0;
                    while k < 34
                        invariant
                            k <= 34,
                            decomposer@.struct_valid(),
                            decomposer@.toitsu.len() + decomposer@.valid_tiles.len() < 7,
                            self.sutehai == old(self).sutehai,
                            self.furiten == old(self).furiten,
                            self.shanten_number == old(self).shanten_number,
                            self.hai_number == old(self).hai_number,
                            map_wf(self.machihai@),
                            all_counts_are(self.machihai@, 4),
                            forall|x: Hai| #[trigger] map_has_key(self.machihai@, x)
                                <==> (map_has_key(g0, x) || (x.valid() && x.key() < k
                                    && !(exists|jj: int| 0 <= jj < decomposer@.toitsu.len()
                                        && (#[trigger] decomposer@.toitsu[jj]).0 == x))),
                        decreases 34 - k,
                    {
                        let t = Hai::from_index(k);
                        let ghost mp = self.machihai@;
                        if !toitsu_contains(decomposer.toitsu_vec(), t) {
                            map_insert(&mut self.machihai, t, HAI_COPIES);
                            proof {
                                lemma_insert_key_step(mp, self.machihai@, t);
                            }
                        }
                        proof {
                            lemma_key_bijective();
                            assert forall|x: Hai| #[trigger] map_has_key(self.machihai@, x)
                                <==> (map_has_key(g0, x) || (x.valid() && x.key() < k + 1
                                    && !(exists|jj: int| 0 <= jj < decomposer@.toitsu.len()
                                        && (#[trigger] decomposer@.toitsu[jj]).0 == x))) by {
                                if x.valid() && x.key() == k {
                                    assert(x == hai_of_key(k as int));
                                    assert(x == t);
                                }
                            }
                        }
                        k = k + 1;
                    }
                    proof {
                        assert forall|x: Hai| #[trigger] map_has_key(self.machihai@, x)
                            <==> (map_has_key(g0, x) || chiitoitsu_waits(decomposer@,
                                old(self).sutehai, x)) by {
                        }
                    }
                }
            },
            Hourakei::Kokushimusou => {
                let valid_vec = decomposer.chiitoutsu_kokushimusou_valid_tile_vec();
                let mut has_pair: bool = false;
                let mut i: usize = 1;
                while i < valid_vec.len()
                    invariant
                        valid_vec@ == decomposer@.valid_tiles,
                        i >= 1,
                        i <= valid_vec@.len() || i == 1,
                        has_pair == exists|jj: int| 1 <= jj < i
                            && #[trigger] valid_vec@[jj] == valid_vec@[jj - 1],
                    decreases valid_vec@.len() - i,
                {
                    if valid_vec[i] == valid_vec[i - 1] {
                        has_pair = true;
                    }
                    i = i + 1;
                }
                proof {
                    if has_pair {
                        let jj = choose|jj: int| 1 <= jj < i
                            && #[trigger] valid_vec@[jj] == valid_vec@[jj - 1];
                        assert(1 <= jj < i && valid_vec@[jj] == valid_vec@[jj - 1]);
                        assert(jj < decomposer@.valid_tiles.len());
                        assert(decomposer@.valid_tiles[jj] == decomposer@.valid_tiles[jj - 1]);
                        assert(has_adjacent_dup(decomposer@.valid_tiles));
                    } else {
                        if has_adjacent_dup(decomposer@.valid_tiles) {
                            let jj = choose|jj: int| 1 <= jj < decomposer@.valid_tiles.len()
                                && #[trigger] decomposer@.valid_tiles[jj]
                                    == decomposer@.valid_tiles[jj - 1];
                            assert(valid_vec@[jj] == valid_vec@[jj - 1]);
                            assert(jj < i);
                            assert(false);
                        }
                    }
                    assert(has_pair == has_adjacent_dup(decomposer@.valid_tiles));
                    lemma_yaochuu_members();
                }
                let ylist = yaochuu_list();
                if !has_pair {
                    let mut j: usize = 0;
                    while j < ylist.len()
                        invariant
                            ylist@ == crate::tile::yaochuu_seq(),
                            forall|a: int| 0 <= a < ylist@.len() ==> (#[trigger] ylist@[a]).valid(),
                            j <= ylist@.len(),
                            self.sutehai == old(self).sutehai,
                            self.furiten == old(self).furiten,
                            self.shanten_number == old(self).shanten_number,
                            self.hai_number == old(self).hai_number,
                            map_wf(self.machihai@),
                            all_counts_are(self.machihai@, 4),
                            forall|x: Hai| #[trigger] map_has_key(self.machihai@, x)
                                <==> (map_has_key(g0, x) || exists|jj: int| 0 <= jj < j
                                    && #[trigger] ylist@[jj] == x),
                        decreases ylist@.len() - j,
                    {
                        let ghost mp = self.machihai@;
                        map_insert(&mut self.machihai, ylist[j], HAI_COPIES);
                        proof {
                            lemma_insert_key_step(mp, self.machihai@, ylist@[j as int]);
                        }
                        j = j + 1;
                    }
                    proof {
                        lemma_yaochuu_members();
                        assert forall|x: Hai| #[trigger] map_has_key(self.machihai@, x)
                            <==> (map_has_key(g0, x)
                                || kokushimusou_waits(decomposer@, x)) by {
                            if x.is_yaochuu() {
                                assert(crate::tile::yaochuu_seq().contains(x));
                            }
                            if exists|jj: int| 0 <= jj < 13 && #[trigger] ylist@[jj] == x {
                                assert(crate::tile::yaochuu_seq().contains(x));
                            }
                        }
                    }
                } else {
                    let mut j: usize = 0;
                    while j < ylist.len()
                        invariant
                            ylist@ == crate::tile::yaochuu_seq(),
                            forall|a: int| 0 <= a < ylist@.len() ==> (#[trigger] ylist@[a]).valid(),
                            valid_vec@ == decomposer@.valid_tiles,
                            j <= ylist@.len(),
                            self.sutehai == old(self).sutehai,
                            self.furiten == old(self).furiten,
                            self.shanten_number == old(self).shanten_number,
                            self.hai_number == old(self).hai_number,
                            map_wf(self.machihai@),
                            all_counts_are(self.machihai@, 4),
                            forall|x: Hai| #[trigger] map_has_key(self.machihai@, x)
                                <==> (map_has_key(g0, x) || exists|jj: int| 0 <= jj < j
                                    && #[trigger] ylist@[jj] == x
                                    && !decomposer@.valid_tiles.contains(x)),
                        decreases ylist@.len() - j,
                    {
                        let y = ylist[j];
                        let ghost mp = self.machihai@;
                        if !hai_vec_contains(valid_vec, y) {
                            map_insert(&mut self.machihai, y, HAI_COPIES);
                            proof {
                                lemma_insert_key_step(mp, self.machihai@, y);
                            }
                        }
                        j = j + 1;
                    }
                    proof {
                        lemma_yaochuu_members();
                        assert forall|x: Hai| #[trigger] map_has_key(self.machihai@, x)
                            <==> (map_has_key(g0, x)
                                || kokushimusou_waits(decomposer@, x)) by {
                            if x.is_yaochuu() {
                                assert(crate::tile::yaochuu_seq().contains(x));
                            }
                            if exists|jj: int| 0 <= jj < 13 && #[trigger] ylist@[jj] == x {
                                assert(crate::tile::yaochuu_seq().contains(x));
                            }
                        }
                    }
                }
            },
        }
        Ok(())
    }

    /// Correct every provisional wait count by the copies already visible
    /// in the hand itself (concealed tiles and declared open groups),
    /// dropping a wait tile once no copy remains.  The optional pool is
    /// not yet consulted: counts fall back to the hand's own visible
    /// copies.
    pub fn finally_handle(&mut self, tehai: &Tehai, yama: Option<&crate::haiyama::Haiyama>)
        requires
            map_wf(old(self).machihai@),
            counts_between(old(self).machihai@, 1, 4),
        ensures
            final(self).sutehai == old(self).sutehai,
            final(self).furiten == old(self).furiten,
            final(self).shanten_number == old(self).shanten_number,
            final(self).hai_number == old(self).hai_number,
            map_wf(final(self).machihai@),
            counts_between(old(self).machihai@, 1, 4) ==> counts_between(final(self).machihai@, 1, 4),
            forall|h: Hai| #[trigger] lookup(final(self).machihai@, h)
                == lookup_after(lookup(old(self).machihai@, h),
                    visible_count(tehai.menzen@, tehai.fuuro@, h)),
    {
        let ghost orig = self.machihai@;
        if let Some(_yama) = yama {
        }
        proof {
            assert forall|h: Hai| tehai.menzen@.subrange(0, 0).to_multiset().count(h) == 0 by {
                assert(!tehai.menzen@.subrange(0, 0).contains(h));
            }
            assert forall|h: Hai| #[trigger] lookup_after(lookup(orig, h), 0)
                == lookup(orig, h) by {
                if map_has_key(orig, h) {
                    let i = choose|i: int| 0 <= i < orig.len() && orig[i].0 == h;
                    assert(1 <= orig[i].1);
                    lemma_lookup_at(orig, i);
                }
            }
        }
        let mut i: usize = 0;
        while i < tehai.menzen.len()
            invariant
                i <= tehai.menzen@.len(),
                map_wf(orig),
                map_wf(self.machihai@),
                self.sutehai == old(self).sutehai,
                self.furiten == old(self).furiten,
                self.shanten_number == old(self).shanten_number,
                self.hai_number == old(self).hai_number,
                counts_between(orig, 1, 4) ==> counts_between(self.machihai@, 1, 4),
                forall|h: Hai| #[trigger] lookup(self.machihai@, h)
                    == lookup_after(lookup(orig, h),
                        tehai.menzen@.subrange(0, i as int).to_multiset().count(h)),
            decreases tehai.menzen@.len() - i,
        {
            let t = tehai.menzen[i];
            let ghost pre = self.machihai@;
            let ghost vis_pre = tehai.menzen@.subrange(0, i as int).to_multiset();
            map_decrement(&mut self.machihai, &t);
            proof {
                assert(tehai.menzen@.subrange(0, i + 1)
                    =~= tehai.menzen@.subrange(0, i as int).push(tehai.menzen@[i as int]));
                assert(tehai.menzen@.subrange(0, i as int).push(t).to_multiset()
                    =~= vis_pre.insert(t));
                assert forall|h: Hai| #[trigger] lookup(self.machihai@, h)
                    == lookup_after(lookup(orig, h), vis_pre.insert(t).count(h)) by {
                    if h == t {
                        lemma_lookup_after_step(lookup(orig, h), vis_pre.count(h));
                    } else {
                        assert(lookup(self.machihai@, h) == lookup(pre, h));
                    }
                }
            }
            i = i + 1;
        }
        proof {
            assert(tehai.menzen@.subrange(0, tehai.menzen@.len() as int) =~= tehai.menzen@);
        }
        let ghost menzen_ms = tehai.menzen@.to_multiset();
        let mut j: usize = 0;
        while j < tehai.fuuro.len()
            invariant
                j <= tehai.fuuro@.len(),
                map_wf(orig),
                map_wf(self.machihai@),
                self.sutehai == old(self).sutehai,
                self.furiten == old(self).furiten,
                self.shanten_number == old(self).shanten_number,
                self.hai_number == old(self).hai_number,
                menzen_ms == tehai.menzen@.to_multiset(),
                counts_between(orig, 1, 4) ==> counts_between(self.machihai@, 1, 4),
                forall|h: Hai| #[trigger] lookup(self.machihai@, h)
                    == lookup_after(lookup(orig, h),
                        menzen_ms.count(h)
                            + mentsu_seq_tiles(tehai.fuuro@.subrange(0, j as int)).count(h)),
            decreases tehai.fuuro@.len() - j,
        {
            let ghost fu_pre = mentsu_seq_tiles(tehai.fuuro@.subrange(0, j as int));
            let m = tehai.fuuro[j];
            match m {
                Mentsu::Juntsu(a, b, c) => {
                    let ghost p0 = self.machihai@;
                    map_decrement(&mut self.machihai, &a);
                    let ghost p1 = self.machihai@;
                    map_decrement(&mut self.machihai, &b);
                    let ghost p2 = self.machihai@;
                    map_decrement(&mut self.machihai, &c);
                    proof {
                        assert forall|h: Hai| #[trigger] lookup(self.machihai@, h)
                            == lookup_after(lookup(orig, h),
                                menzen_ms.count(h)
                                    + fu_pre.insert(a).insert(b).insert(c).count(h)) by {
                            let base: nat = menzen_ms.count(h) + fu_pre.count(h);
                            if h == a {
                                lemma_lookup_after_step(lookup(orig, h), base);
                            }
                            if h == b {
                                lemma_lookup_after_step(lookup(orig, h),
                                    base + if a == h { 1nat } else { 0nat });
                            }
                            if h == c {
                                lemma_lookup_after_step(lookup(orig, h),
                                    base + (if a == h { 1nat } else { 0nat })
                                        + (if b == h { 1nat } else { 0nat }));
                            }
                        }
                    }
                },
                Mentsu::Koutsu(a) => {
                    map_decrement(&mut self.machihai, &a);
                    map_decrement(&mut self.machihai, &a);
                    map_decrement(&mut self.machihai, &a);
                    proof {
                        assert forall|h: Hai| #[trigger] lookup(self.machihai@, h)
                            == lookup_after(lookup(orig, h),
                                menzen_ms.count(h)
                                    + fu_pre.insert(a).insert(a).insert(a).count(h)) by {
                            let base: nat = menzen_ms.count(h) + fu_pre.count(h);
                            if h == a {
                                lemma_lookup_after_step(lookup(orig, h), base);
                                lemma_lookup_after_step(lookup(orig, h), base + 1);
                                lemma_lookup_after_step(lookup(orig, h), base + 2);
                            }
                        }
                    }
                },
                Mentsu::Kantsu(a) => {
                    map_decrement(&mut self.machihai, &a);
                    map_decrement(&mut self.machihai, &a);
                    map_decrement(&mut self.machihai, &a);
                    map_decrement(&mut self.machihai, &a);
                    proof {
                        assert forall|h: Hai| #[trigger] lookup(self.machihai@, h)
                            == lookup_after(lookup(orig, h),
                                menzen_ms.count(h)
                                    + fu_pre.insert(a).insert(a).insert(a).insert(a).count(h)) by {
                            let base: nat = menzen_ms.count(h) + fu_pre.count(h);
                            if h == a {
                                lemma_lookup_after_step(lookup(orig, h), base);
                                lemma_lookup_after_step(lookup(orig, h), base + 1);
                                lemma_lookup_after_step(lookup(orig, h), base + 2);
                                lemma_lookup_after_step(lookup(orig, h), base + 3);
                            }
                        }
                    }
                },
            }
            proof {
                assert(tehai.fuuro@.subrange(0, j + 1).drop_last()
                    =~= tehai.fuuro@.subrange(0, j as int));
                assert(tehai.fuuro@.subrange(0, j + 1).last() == tehai.fuuro@[j as int]);
                match tehai.fuuro@[j as int] {
                    Mentsu::Juntsu(a, b, c) => {
                        assert(mentsu_seq_tiles(tehai.fuuro@.subrange(0, j + 1))
                            =~= fu_pre.insert(a).insert(b).insert(c));
                    },
                    Mentsu::Koutsu(a) => {
                        assert(mentsu_seq_tiles(tehai.fuuro@.subrange(0, j + 1))
                            =~= fu_pre.insert(a).insert(a).insert(a));
                    },
                    Mentsu::Kantsu(a) => {
                        assert(mentsu_seq_tiles(tehai.fuuro@.subrange(0, j + 1))
                            =~= fu_pre.insert(a).insert(a).insert(a).insert(a));
                    },
                }
            }
            j = j + 1;
        }
        proof {
            assert(tehai.fuuro@.subrange(0, tehai.fuuro@.len() as int) =~= tehai.fuuro@);
        }
    }

    /// The total number of remaining copies over all wait tiles.
    pub fn nokori(&self) -> (r: usize)
        requires
            map_wf(self.machihai@),
        ensures
            r == total(self.machihai@),
    {
        proof {
            lemma_map_len(self.machihai@);
        }
        let mut sum: usize = 0;
        let mut i: usize = 0;
        while i < self.machihai.len()
            invariant
                map_wf(self.machihai@),
                self.machihai@.len() <= 34,
                i <= self.machihai@.len(),
                sum == total(self.machihai@.subrange(0, i as int)),
                sum <= i * 255,
            decreases self.machihai@.len() - i,
        {
            sum = sum + self.machihai[i].1 as usize;
            proof {
                assert(self.machihai@.subrange(0, i + 1).drop_last()
                    =~= self.machihai@.subrange(0, i as int));
                assert(self.machihai@.subrange(0, i + 1).last() == self.machihai@[i as int]);
            }
            i = i + 1;
        }
        proof {
            assert(self.machihai@.subrange(0, self.machihai@.len() as int) =~= self.machihai@);
        }
        sum
    }
}

/// Striking copies off one at a time agrees with striking them off at
/// once.
pub proof fn lemma_lookup_after_step(l0: Option<u8>, v: nat)
    ensures
        lookup_after(lookup_after(l0, v), 1) == lookup_after(l0, v + 1),
{
}

/// What holds of every reported wait condition: a valid candidate, a
/// well-formed wait table whose counts lie between one and four, at
/// least one remaining copy in total, no foul flag, and the hand's
/// distance and size.
pub open spec fn condition_ok(c: Condition, n: int, hai_number: int) -> bool {
    &&& c.sutehai.valid()
    &&& c.furiten == false
    &&& map_wf(c.machihai@)
    &&& counts_between(c.machihai@, 1, 4)
    &&& total(c.machihai@) > 0
    &&& c.shanten_number == n
    &&& c.hai_number == hai_number
}

/// The reporting order: more remaining copies first, ties broken by the
/// candidate tile's canonical order.
pub open spec fn cond_le(a: Condition, b: Condition) -> bool {
    ||| total(a.machihai@) > total(b.machihai@)
    ||| (total(a.machihai@) == total(b.machihai@) && a.sutehai.key() <= b.sutehai.key())
}

/// The conditions stand in reporting order.
pub open spec fn conds_sorted(s: Seq<Condition>) -> bool {
    forall|i: int, j: int| 0 <= i <= j < s.len() ==> cond_le(#[trigger] s[i], #[trigger] s[j])
}

/// Whether `a` comes no later than `b` in the reporting order.
fn cond_before(a: &Condition, b: &Condition) -> (r: bool)
    requires
        map_wf(a.machihai@),
        map_wf(b.machihai@),
        a.sutehai.valid(),
        b.sutehai.valid(),
    ensures
        r == cond_le(*a, *b),
{
    let ta = a.nokori();
    let tb = b.nokori();
    if ta != tb {
        ta > tb
    } else {
        a.sutehai.index() <= b.sutehai.index()
    }
}

/// Every entry of `r` is one of the entries of `pool`.
pub open spec fn drawn_from(r: Seq<Condition>, pool: Seq<Condition>) -> bool {
    forall|i: int| 0 <= i < r.len()
        ==> exists|j: int| 0 <= j < pool.len() && #[trigger] r[i] == pool[j]
}

/// Arrange the conditions into reporting order.
fn sort_conditions(input: Vec<Condition>) -> (r: Vec<Condition>)
    requires
        forall|i: int| 0 <= i < input@.len()
            ==> map_wf((#[trigger] input@[i]).machihai@) && input@[i].sutehai.valid(),
    ensures
        r@.len() == input@.len(),
        r@.to_multiset() == input@.to_multiset(),
        drawn_from(r@, input@),
        conds_sorted(r@),
{
    let ghost orig = input@;
    let mut work = input;
    let mut out: Vec<Condition> = Vec::new();
    proof {
        assert(work@ == work@.subrange(0, work@.len() as int));
        assert forall|x: Condition| out@.to_multiset().count(x) == 0 by {
            assert(!out@.contains(x));
        }
        assert(out@.to_multiset().add(work@.to_multiset()) =~= orig.to_multiset());
    }
    while work.len() > 0
        invariant
            forall|i: int| 0 <= i < work@.len()
                ==> map_wf((#[trigger] work@[i]).machihai@) && work@[i].sutehai.valid(),
            forall|i: int| 0 <= i < out@.len()
                ==> map_wf((#[trigger] out@[i]).machihai@) && out@[i].sutehai.valid(),
            conds_sorted(out@),
            out@.len() + work@.len() == orig.len(),
            out@.to_multiset().add(work@.to_multiset()) == orig.to_multiset(),
            drawn_from(out@, orig),
            work@ == orig.subrange(0, work@.len() as int),
        decreases work@.len(),
    {
        let ghost wpre = work@;
        let c = match work.pop() {
            Some(c) => c,
            None => {
                proof {
                    assert(false);
                }
                return out;
            },
        };
        proof {
            assert(c == wpre[wpre.len() - 1]);
            assert(c == orig[wpre.len() - 1]);
            assert(work@ =~= orig.subrange(0, work@.len() as int));
        }
        let mut pos: usize = 0;
        while pos < out.len() && cond_before(&out[pos], &c)
            invariant
                map_wf(c.machihai@),
                c.sutehai.valid(),
                forall|i: int| 0 <= i < out@.len()
                    ==> map_wf((#[trigger] out@[i]).machihai@) && out@[i].sutehai.valid(),
                conds_sorted(out@),
                pos <= out@.len(),
                forall|j: int| 0 <= j < pos ==> cond_le(#[trigger] out@[j], c),
            decreases out@.len() - pos,
        {
            pos = pos + 1;
        }
        let ghost opre = out@;
        let ghost inspos = pos as int;
        out.insert(pos, c);
        proof {
            assert(out@ == opre.insert(inspos, c));
            assert forall|a: int, b: int| 0 <= a <= b < out@.len()
                implies cond_le(#[trigger] out@[a], #[trigger] out@[b]) by {
                let aa: int = if a < inspos { a } else { a - 1 };
                let bb: int = if b < inspos { b } else { b - 1 };
                if a == inspos && b == inspos {
                } else if a == inspos {
                    assert(out@[b] == opre[bb]);
                    if inspos < opre.len() {
                        assert(!cond_le(opre[inspos], c));
                        assert(cond_le(c, opre[inspos]));
                        assert(cond_le(opre[inspos], opre[bb]));
                    }
                } else if b == inspos {
                    assert(out@[a] == opre[aa]);
                    assert(cond_le(opre[aa], c));
                } else {
                    assert(out@[a] == opre[aa]);
                    assert(out@[b] == opre[bb]);
                }
            }
            assert forall|i: int| 0 <= i < out@.len()
                implies map_wf((#[trigger] out@[i]).machihai@) && out@[i].sutehai.valid() by {
                if i != inspos {
                    let ii: int = if i < inspos { i } else { i - 1 };
                    assert(out@[i] == opre[ii]);
                }
            }
            assert forall|i: int| 0 <= i < out@.len()
                implies exists|j: int| 0 <= j < orig.len() && #[trigger] out@[i] == orig[j] by {
                if i == inspos {
                    assert(out@[i] == orig[wpre.len() - 1]);
                } else {
                    let ii: int = if i < inspos { i } else { i - 1 };
                    assert(out@[i] == opre[ii]);
                    assert(exists|j: int| 0 <= j < orig.len() && opre[ii] == orig[j]);
                }
            }
            assert(drawn_from(out@, orig));
            assert(wpre.drop_last() =~= wpre.remove(wpre.len() - 1));
            assert(work@.to_multiset() =~= wpre.to_multiset().remove(c));
            assert(out@.to_multiset() =~= opre.to_multiset().insert(c));
            assert(wpre.contains(c));
            assert(out@.to_multiset().add(work@.to_multiset()) =~= orig.to_multiset());
        }
    }
    proof {
        assert(orig == input@);
        assert forall|x: Condition| work@.to_multiset().count(x) == 0 by {
            assert(!work@.contains(x));
        }
        assert(out@.to_multiset() =~= orig.to_multiset());
    }
    out
}

/// The tile is a discard candidate of this decomposition: one of its
/// floating tiles or, for a seven-pairs decomposition with no floating
/// tile, one of its lone counted tiles.
pub open spec fn candidate_in(d: crate::decomp::DecompView, h: Hai) -> bool {
    ||| exists|i: int| 0 <= i < d.ukihai.len() && (#[trigger] d.ukihai[i]).0 == h
    ||| (d.hourakei == Hourakei::Chiitoitsu && d.ukihai.len() == 0 && d.valid_tiles.contains(h))
}

/// The tile is a discard candidate of one of the kept decompositions.
pub open spec fn candidate_of(mins: Seq<Decomposer>, h: Hai) -> bool {
    exists|j: int| 0 <= j < mins.len() && candidate_in((#[trigger] mins[j])@, h)
}

/// The decomposition contributes the wait tile `x` for the candidate
/// discard `h`: it discards `h`, its shapes fit the slot limit of the
/// `hai_number`-tile hand, and `x` is among its waits.
pub open spec fn contributes(d: crate::decomp::DecompView, h: Hai, hai_number: int,
    x: Hai) -> bool {
    &&& discards_a_float(d, h)
    &&& !(d.hourakei == Hourakei::Mentsute && shape_slots_overloaded(d, hai_number))
    &&& handle_waits(d, h, hai_number, x)
}

/// The corrected count owed for wait tile `x` of the candidate discard
/// `h`: four copies when some kept decomposition contributes it, struck
/// down by the copies visible in the hand.
pub open spec fn expected_wait_count(mins: Seq<Decomposer>, h: Hai, menzen: Seq<Hai>,
    fuuro: Seq<Mentsu>, x: Hai) -> Option<u8> {
    lookup_after(
        if exists|j: int| 0 <= j < mins.len()
            && contributes((#[trigger] mins[j])@, h, menzen.len() as int, x) {
            Some(4u8)
        } else {
            None
        },
        visible_count(menzen, fuuro, x))
}

/// The condition's table is exactly the union of the waits the kept
/// decompositions contribute for its discard, each counted at four
/// copies and then corrected by the copies visible in the hand.
pub open spec fn wait_table_exact(c: Condition, mins: Seq<Decomposer>, menzen: Seq<Hai>,
    fuuro: Seq<Mentsu>) -> bool {
    forall|x: Hai| #[trigger] lookup(c.machihai@, x)
        == expected_wait_count(mins, c.sutehai, menzen, fuuro, x)
}

/// The tile stands among the first `upto` collected discard candidates.
pub open spec fn sutehai_listed(sv: Seq<Hai>, upto: int, h: Hai) -> bool {
    exists|j: int| 0 <= j < upto && #[trigger] sv[j] == h
}

/// A table whose counts all lie between one and four sums to something
/// positive exactly when it holds an entry.
pub proof fn lemma_total_positive(m: Seq<(Hai, u8)>)
    requires
        counts_between(m, 1, 4),
    ensures
        total(m) >= 0,
        total(m) > 0 <==> m.len() > 0,
    decreases m.len(),
{
    if m.len() > 0 {
        lemma_total_positive(m.drop_last());
    }
}

/// The analysis stands on a kept minimal decomposition list: the distance
/// carries the orchestrator's full guarantee over that list, every
/// reported condition discards a candidate of it, and each condition's
/// wait table is exactly the corrected union of the waits that list
/// contributes for its discard.
pub open spec fn conds_from_minimal(menzen: Seq<Hai>, fuuro: Seq<Mentsu>, n: int,
    conds: Seq<Condition>) -> bool {
    exists|mins: Seq<Decomposer>| {
        &&& #[trigger] crate::shanten::calculate_ok(menzen, fuuro.len() as int, n, mins)
        &&& forall|i: int| 0 <= i < conds.len()
            ==> candidate_of(mins, (#[trigger] conds[i]).sutehai)
        &&& forall|i: int| 0 <= i < conds.len()
            ==> wait_table_exact(#[trigger] conds[i], mins, menzen, fuuro)
        &&& (n >= 0 ==> forall|h: Hai| #[trigger] candidate_of(mins, h)
            && (exists|x: Hai| #[trigger] expected_wait_count(mins, h, menzen, fuuro, x) is Some)
            ==> exists|i: int| 0 <= i < conds.len() && (#[trigger] conds[i]).sutehai == h)
    }
}

/// Analyze a hand: its minimal distance and, for each viable candidate
/// discard, the tiles waited for with their remaining counts, ordered by
/// descending total remaining count (ties by tile order).  A completed
/// hand reports no conditions.
pub fn analyze(tehai: &Tehai, yama: Option<&crate::haiyama::Haiyama>)
    -> (r: Result<(i32, Vec<Condition>), MahjongError>)
    ensures
        r is Ok <==> tehai.wf(),
        r is Ok ==> {
            &&& -1 <= r->Ok_0.0 as int <= 2 * ((tehai.menzen@.len() as int) / 3)
            &&& (r->Ok_0.0 == -1 ==> r->Ok_0.1@.len() == 0)
            &&& forall|i: int| 0 <= i < r->Ok_0.1@.len()
                ==> condition_ok(#[trigger] r->Ok_0.1@[i], r->Ok_0.0 as int,
                    tehai.menzen@.len() as int)
            &&& conds_sorted(r->Ok_0.1@)
            &&& conds_from_minimal(tehai.menzen@, tehai.fuuro@, r->Ok_0.0 as int,
                r->Ok_0.1@)
        },
{
    let (shanten_number, decomposers_set) = match crate::shanten::calculate(tehai) {
        Ok(v) => v,
        Err(e) => {
            return Err(e);
        },
    };
    let mut conditions_vec: Vec<Condition> = Vec::new();
    if decomposers_set.len() == 0 {
        return Err(MahjongError::NoDecomposition);
    }
    if shanten_number == -1 {
        proof {
            assert(crate::shanten::calculate_ok(tehai.menzen@, tehai.fuuro@.len() as int,
                shanten_number as int, decomposers_set@));
            assert(conds_from_minimal(tehai.menzen@, tehai.fuuro@, shanten_number as int,
                conditions_vec@));
        }
        return Ok((shanten_number, conditions_vec));
    }

    let hai_number = tehai.menzen.len();
    let ghost menzen_seq = tehai.menzen@;
    let ghost fuuro_len = tehai.fuuro@.len() as int;
    let ghost n_min = shanten_number as int;

    let mut sutehai_vec: Vec<Hai> = Vec::new();
    let mut di: usize = 0;
    while di < decomposers_set.len()
        invariant
            forall|j: int| 0 <= j < decomposers_set@.len()
                ==> crate::shanten::min_entry_ok((#[trigger] decomposers_set@[j])@, menzen_seq,
                    fuuro_len, n_min),
            di <= decomposers_set@.len(),
            forall|j: int| 0 <= j < sutehai_vec@.len() ==> (#[trigger] sutehai_vec@[j]).valid(),
            forall|j: int| 0 <= j < sutehai_vec@.len()
                ==> candidate_of(decomposers_set@, #[trigger] sutehai_vec@[j]),
            forall|j: int, h: Hai| 0 <= j < di
                && #[trigger] candidate_in(decomposers_set@[j]@, h)
                ==> sutehai_vec@.contains(h),
        decreases decomposers_set@.len() - di,
    {
        let d = &decomposers_set[di];
        let uv = d.ukihai_vec();
        let mut ui: usize = 0;
        while ui < uv.len()
            invariant
                di < decomposers_set@.len(),
                uv@ == decomposers_set@[di as int]@.ukihai,
                decomposers_set@[di as int]@.struct_valid(),
                ui <= uv@.len(),
                forall|j: int| 0 <= j < sutehai_vec@.len() ==> (#[trigger] sutehai_vec@[j]).valid(),
                forall|j: int| 0 <= j < sutehai_vec@.len()
                    ==> candidate_of(decomposers_set@, #[trigger] sutehai_vec@[j]),
                forall|j: int, h: Hai| 0 <= j < di
                    && #[trigger] candidate_in(decomposers_set@[j]@, h)
                    ==> sutehai_vec@.contains(h),
                forall|ii: int| 0 <= ii < ui
                    ==> sutehai_vec@.contains((#[trigger] uv@[ii]).0),
            decreases uv@.len() - ui,
        {
            proof {
                assert(decomposers_set@[di as int]@.ukihai[ui as int].valid());
            }
            let u = uv[ui].0;
            if !hai_vec_contains(&sutehai_vec, u) {
                proof {
                    assert(candidate_in(decomposers_set@[di as int]@, u));
                }
                let ghost svpre = sutehai_vec@;
                sutehai_vec.push(u);
                proof {
                    assert forall|h: Hai| svpre.contains(h)
                        implies sutehai_vec@.contains(h) by {
                        let ix = choose|ix: int| 0 <= ix < svpre.len() && svpre[ix] == h;
                        assert(sutehai_vec@[ix] == h);
                    }
                    assert(sutehai_vec@[svpre.len() as int] == u);
                    assert(sutehai_vec@.contains(u));
                }
            }
            ui = ui + 1;
        }
        if d.hourakei() == Hourakei::Chiitoitsu {
            if d.ukihai_vec().len() == 0 {
                let vv = d.chiitoutsu_kokushimusou_valid_tile_vec();
                let mut vi: usize = 0;
                while vi < vv.len()
                    invariant
                        di < decomposers_set@.len(),
                        vv@ == decomposers_set@[di as int]@.valid_tiles,
                        decomposers_set@[di as int]@.struct_valid(),
                        decomposers_set@[di as int]@.hourakei == Hourakei::Chiitoitsu,
                        decomposers_set@[di as int]@.ukihai.len() == 0,
                        vi <= vv@.len(),
                        forall|j: int| 0 <= j < sutehai_vec@.len()
                            ==> (#[trigger] sutehai_vec@[j]).valid(),
                        forall|j: int| 0 <= j < sutehai_vec@.len()
                            ==> candidate_of(decomposers_set@, #[trigger] sutehai_vec@[j]),
                        forall|j: int, h: Hai| 0 <= j < di
                            && #[trigger] candidate_in(decomposers_set@[j]@, h)
                            ==> sutehai_vec@.contains(h),
                        forall|ii: int| 0 <= ii < vi
                            ==> sutehai_vec@.contains(#[trigger] vv@[ii]),
                    decreases vv@.len() - vi,
                {
                    proof {
                        assert(decomposers_set@[di as int]@.valid_tiles[vi as int].valid());
                    }
                    let u = vv[vi];
                    if !hai_vec_contains(&sutehai_vec, u) {
                        proof {
                            assert(decomposers_set@[di as int]@.valid_tiles.contains(u));
                            assert(candidate_in(decomposers_set@[di as int]@, u));
                        }
                        let ghost svpre = sutehai_vec@;
                        sutehai_vec.push(u);
                        proof {
                            assert forall|h: Hai| svpre.contains(h)
                                implies sutehai_vec@.contains(h) by {
                                let ix = choose|ix: int| 0 <= ix < svpre.len()
                                    && svpre[ix] == h;
                                assert(sutehai_vec@[ix] == h);
                            }
                            assert(sutehai_vec@[svpre.len() as int] == u);
                            assert(sutehai_vec@.contains(u));
                        }
                    }
                    vi = vi + 1;
                }
            }
        }
        proof {
            assert forall|h: Hai| #[trigger] candidate_in(decomposers_set@[di as int]@, h)
                implies sutehai_vec@.contains(h) by {
                let dv = decomposers_set@[di as int]@;
                if exists|i: int| 0 <= i < dv.ukihai.len() && (#[trigger] dv.ukihai[i]).0 == h {
                    let ii = choose|i: int| 0 <= i < dv.ukihai.len()
                        && (#[trigger] dv.ukihai[i]).0 == h;
                    assert(sutehai_vec@.contains(dv.ukihai[ii].0));
                } else {
                    assert(dv.hourakei == Hourakei::Chiitoitsu && dv.ukihai.len() == 0
                        && dv.valid_tiles.contains(h));
                    let ii = choose|i: int| 0 <= i < dv.valid_tiles.len()
                        && dv.valid_tiles[i] == h;
                    assert(sutehai_vec@.contains(dv.valid_tiles[ii]));
                }
            }
        }
        di = di + 1;
    }

    let mut si: usize = 0;
    while si < sutehai_vec.len()
        invariant
            tehai.wf(),
            menzen_seq == tehai.menzen@,
            fuuro_len == tehai.fuuro@.len(),
            hai_number == tehai.menzen@.len(),
            hai_number % 3 == 2,
            hai_number <= 14,
            0 <= shanten_number,
            n_min == shanten_number as int,
            tehai.menzen@.to_multiset().len() == tehai.menzen@.len(),
            forall|j: int| 0 <= j < decomposers_set@.len()
                ==> crate::shanten::min_entry_ok((#[trigger] decomposers_set@[j])@, menzen_seq,
                    fuuro_len, n_min),
            si <= sutehai_vec@.len(),
            forall|j: int| 0 <= j < sutehai_vec@.len() ==> (#[trigger] sutehai_vec@[j]).valid(),
            forall|j: int| 0 <= j < sutehai_vec@.len()
                ==> candidate_of(decomposers_set@, #[trigger] sutehai_vec@[j]),
            forall|i: int| 0 <= i < conditions_vec@.len()
                ==> condition_ok(#[trigger] conditions_vec@[i], n_min, hai_number as int),
            forall|i: int| 0 <= i < conditions_vec@.len()
                ==> candidate_of(decomposers_set@, (#[trigger] conditions_vec@[i]).sutehai),
            forall|i: int| 0 <= i < conditions_vec@.len()
                ==> wait_table_exact(#[trigger] conditions_vec@[i], decomposers_set@,
                    tehai.menzen@, tehai.fuuro@),
            forall|h: Hai| #[trigger] sutehai_listed(sutehai_vec@, si as int, h)
                && (exists|x: Hai| #[trigger] expected_wait_count(decomposers_set@, h,
                    tehai.menzen@, tehai.fuuro@, x) is Some)
                ==> exists|i: int| 0 <= i < conditions_vec@.len()
                    && (#[trigger] conditions_vec@[i]).sutehai == h,
        decreases sutehai_vec@.len() - si,
    {
        let mut condition = Condition::new(sutehai_vec[si], shanten_number, hai_number);
        let mut di2: usize = 0;
        while di2 < decomposers_set.len()
            invariant
                hai_number % 3 == 2,
                hai_number <= 14,
                0 <= shanten_number,
                n_min == shanten_number as int,
                menzen_seq.to_multiset().len() == menzen_seq.len(),
                menzen_seq.len() == hai_number,
                forall|j: int| 0 <= j < decomposers_set@.len()
                    ==> crate::shanten::min_entry_ok((#[trigger] decomposers_set@[j])@, menzen_seq,
                        fuuro_len, n_min),
                di2 <= decomposers_set@.len(),
                si < sutehai_vec@.len(),
                condition.sutehai == sutehai_vec@[si as int],
                condition.hai_number == hai_number,
                condition.shanten_number == shanten_number,
                condition.sutehai.valid(),
                condition.furiten == false,
                map_wf(condition.machihai@),
                all_counts_are(condition.machihai@, 4),
                forall|x: Hai| #[trigger] map_has_key(condition.machihai@, x)
                    <==> exists|j: int| 0 <= j < di2
                        && contributes((#[trigger] decomposers_set@[j])@, condition.sutehai,
                            hai_number as int, x),
            decreases decomposers_set@.len() - di2,
        {
            let d = &decomposers_set[di2];
            proof {
                assert(crate::shanten::min_entry_ok(decomposers_set@[di2 as int]@, menzen_seq,
                    fuuro_len, n_min));
                assert(d@.tiles().len() == menzen_seq.to_multiset().len());
                crate::decomp::lemma_component_bounds(d@);
            }
            let ghost mpre = condition.machihai@;
            let ghost sut = condition.sutehai;
            match condition.handle(d) {
                Ok(()) => {},
                Err(e) => {
                    return Err(e);
                },
            }
            proof {
                let ghost dv = decomposers_set@[di2 as int]@;
                let ghost hn = hai_number as int;
                assert forall|x: Hai| #[trigger] map_has_key(condition.machihai@, x)
                    <==> exists|j: int| 0 <= j < di2 + 1
                        && contributes((#[trigger] decomposers_set@[j])@, sut, hn, x) by {
                    assert(map_has_key(mpre, x) <==> exists|j: int| 0 <= j < di2
                        && contributes((#[trigger] decomposers_set@[j])@, sut, hn, x));
                    if discards_a_float(dv, sut)
                        && !(dv.hourakei == Hourakei::Mentsute
                            && shape_slots_overloaded(dv, hn)) {
                        assert(map_has_key(condition.machihai@, x)
                            <==> (map_has_key(mpre, x) || handle_waits(dv, sut, hn, x)));
                        if map_has_key(condition.machihai@, x) && !map_has_key(mpre, x) {
                            assert(contributes(decomposers_set@[di2 as int]@, sut, hn, x));
                        }
                        if contributes(dv, sut, hn, x) {
                            assert(map_has_key(condition.machihai@, x));
                        }
                    } else {
                        assert(condition.machihai@ == mpre);
                    }
                }
            }
            di2 = di2 + 1;
        }
        let ghost mid = condition.machihai@;
        proof {
            assert forall|x: Hai| #[trigger] lookup(mid, x)
                == (if map_has_key(mid, x) { Some(4u8) } else { None::<u8> }) by {
                if map_has_key(mid, x) {
                    let i = choose|i: int| 0 <= i < mid.len() && (#[trigger] mid[i]).0 == x;
                    assert(mid[i].1 == 4);
                    lemma_lookup_at(mid, i);
                }
            }
        }
        condition.finally_handle(tehai, yama);
        proof {
            let ghost hn = hai_number as int;
            assert forall|x: Hai| #[trigger] lookup(condition.machihai@, x)
                == expected_wait_count(decomposers_set@, condition.sutehai, tehai.menzen@,
                    tehai.fuuro@, x) by {
                assert(lookup(condition.machihai@, x)
                    == lookup_after(lookup(mid, x), visible_count(tehai.menzen@, tehai.fuuro@, x)));
                assert(lookup(mid, x) == (if map_has_key(mid, x) { Some(4u8) } else { None::<u8> }));
            }
            assert(wait_table_exact(condition, decomposers_set@, tehai.menzen@, tehai.fuuro@));
        }
        let ghost ctab = condition.machihai@;
        let ghost csut = condition.sutehai;
        let ghost cvpre = conditions_vec@;
        let keep = condition.nokori() > 0;
        if keep {
            conditions_vec.push(condition);
        }
        proof {
            lemma_total_positive(ctab);
            assert forall|h: Hai| #[trigger] sutehai_listed(sutehai_vec@, si + 1, h)
                && (exists|x: Hai| #[trigger] expected_wait_count(decomposers_set@, h,
                    tehai.menzen@, tehai.fuuro@, x) is Some)
                implies exists|i: int| 0 <= i < conditions_vec@.len()
                    && (#[trigger] conditions_vec@[i]).sutehai == h by {
                if h == sutehai_vec@[si as int] {
                    let x = choose|x: Hai| #[trigger] expected_wait_count(decomposers_set@, h,
                        tehai.menzen@, tehai.fuuro@, x) is Some;
                    assert(lookup(ctab, x)
                        == expected_wait_count(decomposers_set@, csut, tehai.menzen@,
                            tehai.fuuro@, x));
                    assert(lookup(ctab, x) is Some);
                    assert(map_has_key(ctab, x));
                    let ix = choose|ix: int| 0 <= ix < ctab.len() && (#[trigger] ctab[ix]).0 == x;
                    assert(ctab.len() > 0);
                    assert(keep);
                    assert(conditions_vec@[cvpre.len() as int].sutehai == h);
                } else {
                    assert(sutehai_listed(sutehai_vec@, si as int, h));
                    let i0 = choose|i: int| 0 <= i < cvpre.len()
                        && (#[trigger] cvpre[i]).sutehai == h;
                    assert(conditions_vec@[i0].sutehai == h);
                }
            }
        }
        si = si + 1;
    }

    let ghost cv = conditions_vec@;
    let sorted_conds = sort_conditions(conditions_vec);
    proof {
        assert forall|i: int| 0 <= i < sorted_conds@.len()
            implies condition_ok(#[trigger] sorted_conds@[i], n_min, hai_number as int)
                && candidate_of(decomposers_set@, sorted_conds@[i].sutehai)
                && wait_table_exact(sorted_conds@[i], decomposers_set@, tehai.menzen@,
                    tehai.fuuro@) by {
            let j = choose|j: int| 0 <= j < cv.len() && sorted_conds@[i] == cv[j];
            assert(condition_ok(cv[j], n_min, hai_number as int));
            assert(candidate_of(decomposers_set@, cv[j].sutehai));
            assert(wait_table_exact(cv[j], decomposers_set@, tehai.menzen@, tehai.fuuro@));
        }
        assert(crate::shanten::calculate_ok(tehai.menzen@, tehai.fuuro@.len() as int,
            shanten_number as int, decomposers_set@));
        assert forall|h: Hai| #[trigger] candidate_of(decomposers_set@, h)
            && (exists|x: Hai| #[trigger] expected_wait_count(decomposers_set@, h,
                tehai.menzen@, tehai.fuuro@, x) is Some)
            implies exists|i: int| 0 <= i < sorted_conds@.len()
                && (#[trigger] sorted_conds@[i]).sutehai == h by {
            let j = choose|j: int| 0 <= j < decomposers_set@.len()
                && candidate_in((#[trigger] decomposers_set@[j])@, h);
            assert(sutehai_vec@.contains(h));
            let jx = choose|jx: int| 0 <= jx < sutehai_vec@.len() && sutehai_vec@[jx] == h;
            assert(sutehai_listed(sutehai_vec@, sutehai_vec@.len() as int, h));
            let i0 = choose|i: int| 0 <= i < cv.len() && (#[trigger] cv[i]).sutehai == h;
            assert(cv.contains(cv[i0]));
            assert(cv.to_multiset().count(cv[i0]) > 0);
            assert(sorted_conds@.to_multiset().count(cv[i0]) > 0);
            assert(sorted_conds@.contains(cv[i0]));
            let i1 = choose|i1: int| 0 <= i1 < sorted_conds@.len()
                && sorted_conds@[i1] == cv[i0];
            assert(sorted_conds@[i1].sutehai == h);
        }
        assert(conds_from_minimal(tehai.menzen@, tehai.fuuro@, shanten_number as int,
            sorted_conds@));
    }
    Ok((shanten_number, sorted_conds))
}

} // verus!
