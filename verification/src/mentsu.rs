//! Tile groupings: completed groups (run, triplet, quad), pairs, partial
//! runs and floating tiles, with shape recognition.

use vstd::prelude::*;
use vstd::multiset::Multiset;
use crate::tile::{Hai, all_valid};

verus! {

/// A completed group: a run of three consecutive tiles of one numbered
/// suit, a triplet of identical tiles, or a quad of identical tiles.
#[derive(Clone, Copy, Debug, PartialEq, Eq, Structural)]
pub enum Mentsu {
    Juntsu(Hai, Hai, Hai),
    Koutsu(Hai),
    Kantsu(Hai),
}

/// A pair of two identical tiles, recorded by their common value.
#[derive(Clone, Copy, Debug, PartialEq, Eq, Structural)]
pub struct Toitsu(pub Hai);

/// A partial run: two tiles of one numbered suit, adjacent or one rank
/// apart, needing one more tile to complete a run.
#[derive(Clone, Copy, Debug, PartialEq, Eq, Structural)]
pub struct Taatsu(pub Hai, pub Hai);

/// A floating tile, used by no group of its decomposition.
#[derive(Clone, Copy, Debug, PartialEq, Eq, Structural)]
pub struct Ukihai(pub Hai);

/// Both tiles belong to the same suit.
pub open spec fn same_suit(a: Hai, b: Hai) -> bool {
    match (a, b) {
        (Hai::Manzu(_), Hai::Manzu(_)) => true,
        (Hai::Pinzu(_), Hai::Pinzu(_)) => true,
        (Hai::Souzu(_), Hai::Souzu(_)) => true,
        (Hai::Jihai(_), Hai::Jihai(_)) => true,
        _ => false,
    }
}

impl Mentsu {
    /// The group is well shaped: a run holds three valid consecutive tiles
    /// of one numbered suit in ascending order; a triplet or quad holds one
    /// valid tile value.
    pub open spec fn valid(self) -> bool {
        match self {
            Mentsu::Juntsu(a, b, c) =>
                a.valid() && b.valid() && c.valid()
                && !a.is_jihai() && same_suit(a, b) && same_suit(b, c)
                && b.key() == a.key() + 1 && c.key() == b.key() + 1,
            Mentsu::Koutsu(h) => h.valid(),
            Mentsu::Kantsu(h) => h.valid(),
        }
    }

    /// The multiset of physical tiles the group stands for.
    pub open spec fn tiles(self) -> Multiset<Hai> {
        match self {
            Mentsu::Juntsu(a, b, c) => Multiset::empty().insert(a).insert(b).insert(c),
            Mentsu::Koutsu(h) => Multiset::empty().insert(h).insert(h).insert(h),
            Mentsu::Kantsu(h) => Multiset::empty().insert(h).insert(h).insert(h).insert(h),
        }
    }

    /// Whether the group is well shaped.
    pub fn is_valid_shape(&self) -> (r: bool)
        ensures
            r == self.valid(),
    {
        match *self {
            Mentsu::Juntsu(a, b, c) => {
                if a.in_range() && b.in_range() && c.in_range() {
                    let suits_match = match (a, b, c) {
                        (Hai::Manzu(_), Hai::Manzu(_), Hai::Manzu(_)) => true,
                        (Hai::Pinzu(_), Hai::Pinzu(_), Hai::Pinzu(_)) => true,
                        (Hai::Souzu(_), Hai::Souzu(_), Hai::Souzu(_)) => true,
                        _ => false,
                    };
                    suits_match && a.index() + 1 == b.index() && b.index() + 1 == c.index()
                } else {
                    false
                }
            },
            Mentsu::Koutsu(h) => h.in_range(),
            Mentsu::Kantsu(h) => h.in_range(),
        }
    }
}

impl Toitsu {
    /// The pair's tile value is valid.
    pub open spec fn valid(self) -> bool {
        self.0.valid()
    }

    /// The two physical tiles the pair stands for.
    pub open spec fn tiles(self) -> Multiset<Hai> {
        Multiset::empty().insert(self.0).insert(self.0)
    }
}

impl Taatsu {
    /// The partial run is well shaped: two valid tiles of one numbered
    /// suit, one or two ranks apart, in ascending order.
    pub open spec fn valid(self) -> bool {
        self.0.valid() && self.1.valid() && !self.0.is_jihai() && same_suit(self.0, self.1)
        && (self.1.key() == self.0.key() + 1 || self.1.key() == self.0.key() + 2)
    }

    /// The two physical tiles the partial run stands for.
    pub open spec fn tiles(self) -> Multiset<Hai> {
        Multiset::empty().insert(self.0).insert(self.1)
    }
}

impl Ukihai {
    /// The floating tile is valid.
    pub open spec fn valid(self) -> bool {
        self.0.valid()
    }
}

/// Stepping to the next rank stays inside the suit: the neighbour is
/// valid, one position later in the canonical order, of the same suit,
/// and a different tile.
pub proof fn lemma_next_step(h: Hai)
    requires
        h.valid(),
        h.spec_next() is Some,
    ensures
        (h.spec_next()->Some_0).valid(),
        (h.spec_next()->Some_0).key() == h.key() + 1,
        same_suit(h, h.spec_next()->Some_0),
        h.spec_next()->Some_0 != h,
        !h.is_jihai(),
        !(h.spec_next()->Some_0).is_jihai(),
{
}

/// Stepping to the previous rank stays inside the suit.
pub proof fn lemma_before_step(h: Hai)
    requires
        h.valid(),
        h.spec_before() is Some,
    ensures
        (h.spec_before()->Some_0).valid(),
        (h.spec_before()->Some_0).key() == h.key() - 1,
        same_suit(h, h.spec_before()->Some_0),
{
}

/// Same-suit membership is transitive.
pub proof fn lemma_same_suit_trans(a: Hai, b: Hai, c: Hai)
    requires
        same_suit(a, b),
        same_suit(b, c),
    ensures
        same_suit(a, c),
{
}

/// Every tile of the vector has a rank inside its suit's legal range.
pub fn check_hai_in_range(hai_vec: &Vec<Hai>) -> (r: bool)
    ensures
        r == all_valid(hai_vec@),
{
    let mut i: usize = 0;
    while i < hai_vec.len()
        invariant
            i <= hai_vec@.len(),
            forall|j: int| 0 <= j < i ==> (#[trigger] hai_vec@[j]).valid(),
        decreases hai_vec@.len() - i,
    {
        if !hai_vec[i].in_range() {
            return false;
        }
        i = i + 1;
    }
    true
}

/// The three ranks in ascending order.
pub open spec fn spec_sort3(a: u8, b: u8, c: u8) -> (u8, u8, u8) {
    if a <= b && a <= c {
        if b <= c { (a, b, c) } else { (a, c, b) }
    } else if b <= a && b <= c {
        if a <= c { (b, a, c) } else { (b, c, a) }
    } else {
        if a <= b { (c, a, b) } else { (c, b, a) }
    }
}

/// Three ranks form a run: in some order they are consecutive.
pub open spec fn spec_check_juntsu(a: u8, b: u8, c: u8) -> Option<(u8, u8, u8)> {
    let (x, y, z) = spec_sort3(a, b, c);
    if x + 1 == y && y + 1 == z {
        Some((x, y, z))
    } else {
        None
    }
}

fn check_juntsu(a: u8, b: u8, c: u8) -> (r: Option<(u8, u8, u8)>)
    requires
        a <= 9,
        b <= 9,
        c <= 9,
    ensures
        r == spec_check_juntsu(a, b, c),
{
    let mut x: u8 = a;
    let mut y: u8 = b;
    let mut z: u8 = c;
    if x > y {
        let t: u8 = x;
        x = y;
        y = t;
    }
    if x > z {
        let t: u8 = x;
        x = z;
        z = t;
    }
    if y > z {
        let t: u8 = y;
        y = z;
        z = t;
    }
    if x + 1 == y && y + 1 == z {
        Some((x, y, z))
    } else {
        None
    }
}

/// What group a small tile list forms, if any.
pub open spec fn spec_check_mentsu(s: Seq<Hai>) -> Option<Mentsu> {
    if !all_valid(s) {
        None
    } else if s.len() == 4 {
        if s[0] == s[1] && s[0] == s[2] && s[0] == s[3] {
            Some(Mentsu::Kantsu(s[0]))
        } else {
            None
        }
    } else if s.len() == 3 {
        if s[0] == s[1] && s[0] == s[2] {
            Some(Mentsu::Koutsu(s[0]))
        } else {
            match (s[0], s[1], s[2]) {
                (Hai::Manzu(a), Hai::Manzu(b), Hai::Manzu(c)) => match spec_check_juntsu(a, b, c) {
                    Some((x, y, z)) => Some(Mentsu::Juntsu(Hai::Manzu(x), Hai::Manzu(y), Hai::Manzu(z))),
                    None => None,
                },
                (Hai::Pinzu(a), Hai::Pinzu(b), Hai::Pinzu(c)) => match spec_check_juntsu(a, b, c) {
                    Some((x, y, z)) => Some(Mentsu::Juntsu(Hai::Pinzu(x), Hai::Pinzu(y), Hai::Pinzu(z))),
                    None => None,
                },
                (Hai::Souzu(a), Hai::Souzu(b), Hai::Souzu(c)) => match spec_check_juntsu(a, b, c) {
                    Some((x, y, z)) => Some(Mentsu::Juntsu(Hai::Souzu(x), Hai::Souzu(y), Hai::Souzu(z))),
                    None => None,
                },
                _ => None,
            }
        }
    } else {
        None
    }
}

/// Classify three or four tiles as a run, triplet or quad; `None` when the
/// tiles are out of range or do not match any group shape.
pub fn check_mentsu(hai_vec: &Vec<Hai>) -> (r: Option<Mentsu>)
    ensures
        r == spec_check_mentsu(hai_vec@),
        r is Some ==> r->Some_0.valid(),
{
    if !check_hai_in_range(hai_vec) {
        None
    } else if hai_vec.len() == 4 {
        if hai_vec[0] == hai_vec[1] && hai_vec[0] == hai_vec[2] && hai_vec[0] == hai_vec[3] {
            Some(Mentsu::Kantsu(hai_vec[0]))
        } else {
            None
        }
    } else if hai_vec.len() == 3 {
        if hai_vec[0] == hai_vec[1] && hai_vec[0] == hai_vec[2] {
            Some(Mentsu::Koutsu(hai_vec[0]))
        } else {
            match (hai_vec[0], hai_vec[1], hai_vec[2]) {
                (Hai::Manzu(a), Hai::Manzu(b), Hai::Manzu(c)) => match check_juntsu(a, b, c) {
                    Some((x, y, z)) => Some(Mentsu::Juntsu(Hai::Manzu(x), Hai::Manzu(y), Hai::Manzu(z))),
                    None => None,
                },
                (Hai::Pinzu(a), Hai::Pinzu(b), Hai::Pinzu(c)) => match check_juntsu(a, b, c) {
                    Some((x, y, z)) => Some(Mentsu::Juntsu(Hai::Pinzu(x), Hai::Pinzu(y), Hai::Pinzu(z))),
                    None => None,
                },
                (Hai::Souzu(a), Hai::Souzu(b), Hai::Souzu(c)) => match check_juntsu(a, b, c) {
                    Some((x, y, z)) => Some(Mentsu::Juntsu(Hai::Souzu(x), Hai::Souzu(y), Hai::Souzu(z))),
                    None => None,
                },
                _ => None,
            }
        }
    } else {
        None
    }
}

} // verus!
