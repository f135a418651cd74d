//! The standard-pattern decomposition search: exhaustive recursive
//! partitioning of the sorted concealed tiles into pairs, triplets, runs,
//! partial runs and floating tiles.

use vstd::prelude::*;
use vstd::multiset::Multiset;
use crate::tile::{Hai, all_valid, sorted};
use crate::mentsu::{Mentsu, Toitsu, Taatsu, Ukihai, lemma_next_step, lemma_same_suit_trans};
use crate::decomp::{Decomposer, DecompView, Hourakei, lemma_mentsu_tiles_push,
    lemma_toitsu_tiles_push, lemma_taatsu_tiles_push, lemma_ukihai_tiles_push};

verus! {

broadcast use vstd::seq_lib::group_to_multiset_ensures;

/// A sequence of tiles with no element has the empty tile multiset.
pub proof fn lemma_empty_multiset(s: Seq<Hai>)
    requires
        s.len() == 0,
    ensures
        s.to_multiset() == Multiset::<Hai>::empty(),
{
    assert forall|t: Hai| s.to_multiset().count(t) == 0 by {
        assert(!s.contains(t));
    }
    assert(s.to_multiset() =~= Multiset::<Hai>::empty());
}

/// A one-tile sequence has the one-tile multiset.
pub proof fn lemma_singleton_multiset(s: Seq<Hai>)
    requires
        s.len() == 1,
    ensures
        s.to_multiset() == Multiset::<Hai>::empty().insert(s[0]),
{
    assert(s =~= Seq::<Hai>::empty().push(s[0]));
    lemma_empty_multiset(Seq::<Hai>::empty());
    assert(Seq::<Hai>::empty().push(s[0]).to_multiset()
        =~= Seq::<Hai>::empty().to_multiset().insert(s[0]));
}

/// Whether the vector holds the tile.
pub fn contains_tile(v: &Vec<Hai>, h: Hai) -> (r: bool)
    ensures
        r == v@.contains(h),
{
    let mut i: usize = 0;
    while i < v.len()
        invariant
            i <= v@.len(),
            forall|j: int| 0 <= j < i ==> v@[j] != h,
        decreases v@.len() - i,
    {
        if v[i] == h {
            return true;
        }
        i = i + 1;
    }
    false
}

/// The vector without its first tile.
pub fn drop_head(v: &Vec<Hai>) -> (r: Vec<Hai>)
    requires
        v@.len() >= 1,
    ensures
        r@ == v@.subrange(1, v@.len() as int),
        r@.len() + 1 == v@.len(),
        r@.to_multiset() == v@.to_multiset().remove(v@[0]),
        sorted(v@) ==> sorted(r@),
        all_valid(v@) ==> all_valid(r@),
{
    let mut r: Vec<Hai> = Vec::new();
    let mut i: usize = 1;
    while i < v.len()
        invariant
            1 <= i <= v@.len(),
            r@ =~= v@.subrange(1, i as int),
        decreases v@.len() - i,
    {
        r.push(v[i]);
        proof {
            assert(v@.subrange(1, i as int).push(v@[i as int]) =~= v@.subrange(1, i + 1));
        }
        i = i + 1;
    }
    proof {
        assert(r@ =~= v@.subrange(1, v@.len() as int));
        assert(v@.remove(0) =~= v@.subrange(1, v@.len() as int));
        assert(v@.remove(0).to_multiset() =~= v@.to_multiset().remove(v@[0]));
    }
    r
}

/// The vector with the first occurrence of `h` removed.
pub fn remove_first(v: &Vec<Hai>, h: Hai) -> (r: Vec<Hai>)
    requires
        v@.contains(h),
    ensures
        r@.len() + 1 == v@.len(),
        r@.to_multiset() == v@.to_multiset().remove(h),
        sorted(v@) ==> sorted(r@),
        all_valid(v@) ==> all_valid(r@),
{
    let mut i: usize = 0;
    while i < v.len() && v[i] != h
        invariant
            i <= v@.len(),
            forall|j: int| 0 <= j < i ==> v@[j] != h,
            v@.contains(h),
        decreases v@.len() - i,
    {
        i = i + 1;
    }
    proof {
        if i == v@.len() {
            let j = choose|j: int| 0 <= j < v@.len() && v@[j] == h;
            assert(false);
        }
    }
    let mut c = crate::decomp::copy_vec(v);
    c.remove(i);
    proof {
        assert(c@ == v@.remove(i as int));
        assert(v@.remove(i as int).to_multiset() =~= v@.to_multiset().remove(h));
        if sorted(v@) {
            assert forall|a: int, b: int| 0 <= a <= b < c@.len()
                implies #[trigger] c@[a].key() <= #[trigger] c@[b].key() by {
                let aa: int = if a < i { a } else { a + 1 };
                let bb: int = if b < i { b } else { b + 1 };
                assert(c@[a] == v@[aa]);
                assert(c@[b] == v@[bb]);
                assert(v@[aa].key() <= v@[bb].key());
            }
        }
        if all_valid(v@) {
            assert forall|a: int| 0 <= a < c@.len() implies (#[trigger] c@[a]).valid() by {
                let aa: int = if a < i { a } else { a + 1 };
                assert(c@[a] == v@[aa]);
            }
        }
    }
    c
}

/// The new list keeps every old entry in place.
pub open spec fn extends(old_s: Seq<Decomposer>, new_s: Seq<Decomposer>) -> bool {
    &&& old_s.len() <= new_s.len()
    &&& forall|i: int| 0 <= i < old_s.len() ==> old_s[i] == new_s[i]
}

/// What holds of every decomposition the search emits: it serves the
/// standard pattern, is well shaped, leaves the pattern-scan list empty,
/// and accounts for exactly the accumulated tiles plus the remaining
/// concealed tiles it was grown from.
pub open spec fn emitted_ok(d: DecompView, acc: DecompView, menzen: Seq<Hai>) -> bool {
    &&& d.hourakei == Hourakei::Mentsute
    &&& d.struct_valid()
    &&& d.valid_tiles.len() == 0
    &&& d.tiles() == acc.tiles().add(menzen.to_multiset())
}

/// The decomposition grew out of the accumulated one by floating tiles
/// alone: no further group, pair or partial run was formed.
pub open spec fn floats_only(d: DecompView, acc: DecompView) -> bool {
    &&& d.mentsu == acc.mentsu
    &&& d.toitsu == acc.toitsu
    &&& d.taatsu == acc.taatsu
}

/// What the search guarantees of the output list: the old entries stay,
/// at least one new entry arrives, every new entry is a complete account
/// of the tiles handed in, and among the new entries stands the one that
/// left every remaining tile floating.
pub open spec fn split_post(old_out: Seq<Decomposer>, new_out: Seq<Decomposer>,
    acc: DecompView, menzen: Seq<Hai>) -> bool {
    &&& extends(old_out, new_out)
    &&& new_out.len() > old_out.len()
    &&& forall|i: int| old_out.len() <= i < new_out.len()
        ==> emitted_ok((#[trigger] new_out[i])@, acc, menzen)
    &&& exists|i: int| old_out.len() <= i < new_out.len()
        && floats_only((#[trigger] new_out[i])@, acc)
}

/// Exhaustively partition the sorted remaining tiles, growing the
/// accumulated decomposition along every branch: pair, triplet, completed
/// run, adjacent or gapped partial run, and floating tile.
pub fn split(menzen: &Vec<Hai>, decomposer: &Decomposer, out: &mut Vec<Decomposer>)
    requires
        sorted(menzen@),
        all_valid(menzen@),
        decomposer@.hourakei == Hourakei::Mentsute,
        decomposer@.struct_valid(),
        decomposer@.valid_tiles.len() == 0,
    ensures
        split_post(old(out)@, final(out)@, decomposer@, menzen@),
    decreases menzen@.len(),
{
    if menzen.len() <= 1 {
        let mut d = decomposer.duplicate();
        if menzen.len() == 1 {
            let ghost pre = d@;
            d.ukihai_vec.push(Ukihai(menzen[0]));
            proof {
                lemma_ukihai_tiles_push(pre.ukihai, Ukihai(menzen@[0]));
                lemma_singleton_multiset(menzen@);
                assert(d@.tiles() =~= decomposer@.tiles().add(menzen@.to_multiset()));
            }
        } else {
            proof {
                lemma_empty_multiset(menzen@);
                assert(d@.tiles() =~= decomposer@.tiles().add(menzen@.to_multiset()));
            }
        }
        let ghost base = out@;
        out.push(d);
        proof {
            assert(out@[base.len() as int]@ == d@);
            assert(floats_only(out@[base.len() as int]@, decomposer@));
        }
        return;
    }

    let ghost orig_out = out@;
    let current = menzen[0];
    let next = menzen[1];

    if current == next {
        let mut d = decomposer.duplicate();
        let ghost pre = d@;
        d.toitsu_vec.push(Toitsu(current));
        let rest0 = drop_head(menzen);
        proof {
            assert(rest0@[0] == menzen@[1]);
        }
        let rest = drop_head(&rest0);
        proof {
            lemma_toitsu_tiles_push(pre.toitsu, Toitsu(current));
            assert(d@.tiles() =~= decomposer@.tiles().add(Toitsu(current).tiles()));
        }
        let ghost before = out@;
        split(&rest, &d, out);
        proof {
            assert forall|i: int| before.len() <= i < out@.len()
                implies emitted_ok((#[trigger] out@[i])@, decomposer@, menzen@) by {
                assert(emitted_ok(out@[i]@, d@, rest@));
                assert(out@[i]@.tiles() =~= decomposer@.tiles().add(menzen@.to_multiset()));
            }
        }
    }
    proof {
        assert(extends(orig_out, out@));
        assert(forall|i: int| orig_out.len() <= i < out@.len()
            ==> emitted_ok((#[trigger] out@[i])@, decomposer@, menzen@));
    }

    if menzen.len() >= 3 && current == next && menzen[2] == current {
        let mut d = decomposer.duplicate();
        let ghost pre = d@;
        d.mentsu_vec.push(Mentsu::Koutsu(current));
        let rest0 = drop_head(menzen);
        let rest1 = drop_head(&rest0);
        proof {
            assert(rest0@[0] == menzen@[1]);
            assert(rest0@[1] == menzen@[2]);
            assert(rest1@[0] == menzen@[2]);
        }
        let rest = drop_head(&rest1);
        proof {
            lemma_mentsu_tiles_push(pre.mentsu, Mentsu::Koutsu(current));
            assert(d@.tiles() =~= decomposer@.tiles().add(Mentsu::Koutsu(current).tiles()));
        }
        let ghost before = out@;
        split(&rest, &d, out);
        proof {
            assert forall|i: int| before.len() <= i < out@.len()
                implies emitted_ok((#[trigger] out@[i])@, decomposer@, menzen@) by {
                assert(emitted_ok(out@[i]@, d@, rest@));
                assert(out@[i]@.tiles() =~= decomposer@.tiles().add(menzen@.to_multiset()));
            }
        }
    }
    proof {
        assert(extends(orig_out, out@));
        assert(forall|i: int| orig_out.len() <= i < out@.len()
            ==> emitted_ok((#[trigger] out@[i])@, decomposer@, menzen@));
    }

    match current {
        Hai::Jihai(_) => {},
        _ => {
            match current.next() {
                None => {},
                Some(cp1) => {
                    proof {
                        lemma_next_step(current);
                    }
                    let cp2_opt = cp1.next();
                    if contains_tile(menzen, cp1) {
                        {
                            let mut d = decomposer.duplicate();
                            let ghost pre = d@;
                            d.taatsu_vec.push(Taatsu(current, cp1));
                            let rest0 = drop_head(menzen);
                            proof {
                                assert(rest0@.to_multiset().count(cp1) > 0);
                            }
                            let rest = remove_first(&rest0, cp1);
                            proof {
                                lemma_taatsu_tiles_push(pre.taatsu, Taatsu(current, cp1));
                                assert(Taatsu(current, cp1).valid());
                                assert(d@.tiles()
                                    =~= decomposer@.tiles().add(Taatsu(current, cp1).tiles()));
                            }
                            let ghost before = out@;
                            split(&rest, &d, out);
                            proof {
                                assert forall|i: int| before.len() <= i < out@.len()
                                    implies emitted_ok((#[trigger] out@[i])@, decomposer@, menzen@) by {
                                    assert(emitted_ok(out@[i]@, d@, rest@));
                                    assert(out@[i]@.tiles()
                                        =~= decomposer@.tiles().add(menzen@.to_multiset()));
                                }
                            }
                        }
                        match cp2_opt {
                            None => {},
                            Some(cp2) => {
                                if contains_tile(menzen, cp2) {
                                    proof {
                                        lemma_next_step(cp1);
                                        lemma_same_suit_trans(current, cp1, cp2);
                                    }
                                    let mut d = decomposer.duplicate();
                                    let ghost pre = d@;
                                    d.mentsu_vec.push(Mentsu::Juntsu(current, cp1, cp2));
                                    let rest0 = drop_head(menzen);
                                    proof {
                                        assert(rest0@.to_multiset().count(cp1) > 0);
                                    }
                                    let rest1 = remove_first(&rest0, cp1);
                                    proof {
                                        assert(rest1@.to_multiset().count(cp2) > 0);
                                    }
                                    let rest = remove_first(&rest1, cp2);
                                    proof {
                                        lemma_mentsu_tiles_push(pre.mentsu,
                                            Mentsu::Juntsu(current, cp1, cp2));
                                        assert(Mentsu::Juntsu(current, cp1, cp2).valid());
                                        assert(d@.tiles() =~= decomposer@.tiles().add(
                                            Mentsu::Juntsu(current, cp1, cp2).tiles()));
                                    }
                                    let ghost before = out@;
                                    split(&rest, &d, out);
                                    proof {
                                        assert forall|i: int| before.len() <= i < out@.len()
                                            implies emitted_ok((#[trigger] out@[i])@, decomposer@,
                                                menzen@) by {
                                            assert(emitted_ok(out@[i]@, d@, rest@));
                                            assert(out@[i]@.tiles()
                                                =~= decomposer@.tiles().add(menzen@.to_multiset()));
                                        }
                                    }
                                }
                            },
                        }
                    } else {
                        match cp2_opt {
                            None => {},
                            Some(cp2) => {
                                if contains_tile(menzen, cp2) {
                                    proof {
                                        lemma_next_step(cp1);
                                        lemma_same_suit_trans(current, cp1, cp2);
                                    }
                                    let mut d = decomposer.duplicate();
                                    let ghost pre = d@;
                                    d.taatsu_vec.push(Taatsu(current, cp2));
                                    let rest0 = drop_head(menzen);
                                    proof {
                                        assert(rest0@.to_multiset().count(cp2) > 0);
                                    }
                                    let rest = remove_first(&rest0, cp2);
                                    proof {
                                        lemma_taatsu_tiles_push(pre.taatsu, Taatsu(current, cp2));
                                        assert(Taatsu(current, cp2).valid());
                                        assert(d@.tiles()
                                            =~= decomposer@.tiles().add(Taatsu(current, cp2).tiles()));
                                    }
                                    let ghost before = out@;
                                    split(&rest, &d, out);
                                    proof {
                                        assert forall|i: int| before.len() <= i < out@.len()
                                            implies emitted_ok((#[trigger] out@[i])@, decomposer@,
                                                menzen@) by {
                                            assert(emitted_ok(out@[i]@, d@, rest@));
                                            assert(out@[i]@.tiles()
                                                =~= decomposer@.tiles().add(menzen@.to_multiset()));
                                        }
                                    }
                                }
                            },
                        }
                    }
                },
            }
        },
    }
    proof {
        assert(extends(orig_out, out@));
        assert(forall|i: int| orig_out.len() <= i < out@.len()
            ==> emitted_ok((#[trigger] out@[i])@, decomposer@, menzen@));
    }

    let mut d = decomposer.duplicate();
    let ghost pre = d@;
    d.ukihai_vec.push(Ukihai(current));
    let rest = drop_head(menzen);
    proof {
        lemma_ukihai_tiles_push(pre.ukihai, Ukihai(current));
        assert(d@.tiles() =~= decomposer@.tiles().add(Multiset::<Hai>::empty().insert(current)));
    }
    let ghost before = out@;
    split(&rest, &d, out);
    proof {
        assert forall|i: int| before.len() <= i < out@.len()
            implies emitted_ok((#[trigger] out@[i])@, decomposer@, menzen@) by {
            assert(emitted_ok(out@[i]@, d@, rest@));
            assert(out@[i]@.tiles() =~= decomposer@.tiles().add(menzen@.to_multiset()));
        }
        assert(extends(orig_out, out@));
        let i = choose|i: int| before.len() <= i < out@.len() && floats_only((#[trigger] out@[i])@, d@);
        assert(floats_only(out@[i]@, decomposer@));
        assert(orig_out.len() <= i < out@.len());
    }
}

} // verus!
