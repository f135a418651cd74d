//! The tile model: one of 34 tile kinds, totally ordered, with adjacency
//! queries inside a numbered suit.

use vstd::prelude::*;

verus! {

/// One tile: three numbered suits with ranks 1..=9 and one honor suit with
/// ranks 1..=7.
#[derive(Clone, Copy, Debug, PartialEq, Eq, Structural)]
pub enum Hai {
    Manzu(u8),
    Pinzu(u8),
    Souzu(u8),
    Jihai(u8),
}

/// How many physical copies of each tile kind a full set holds.
pub const HAI_COPIES: u8 = 4;

/// How many distinct tile kinds exist.
pub const HAI_KINDS: usize = 34;

impl Hai {
    /// The rank within the suit is inside the legal range.
    pub open spec fn valid(self) -> bool {
        match self {
            Hai::Manzu(n) => 1 <= n <= 9,
            Hai::Pinzu(n) => 1 <= n <= 9,
            Hai::Souzu(n) => 1 <= n <= 9,
            Hai::Jihai(n) => 1 <= n <= 7,
        }
    }

    /// Canonical position in the total order of the 34 kinds:
    /// numbered suits first (rank order inside each suit), honors last.
    pub open spec fn key(self) -> int {
        match self {
            Hai::Manzu(n) => n - 1,
            Hai::Pinzu(n) => 8 + n,
            Hai::Souzu(n) => 17 + n,
            Hai::Jihai(n) => 26 + n,
        }
    }

    /// The tile one rank above, within the same numbered suit.
    pub open spec fn spec_next(self) -> Option<Hai> {
        match self {
            Hai::Manzu(n) => if n < 9 { Some(Hai::Manzu((n + 1) as u8)) } else { None },
            Hai::Pinzu(n) => if n < 9 { Some(Hai::Pinzu((n + 1) as u8)) } else { None },
            Hai::Souzu(n) => if n < 9 { Some(Hai::Souzu((n + 1) as u8)) } else { None },
            Hai::Jihai(_) => None,
        }
    }

    /// The tile one rank below, within the same numbered suit.
    pub open spec fn spec_before(self) -> Option<Hai> {
        match self {
            Hai::Manzu(n) => if n > 1 { Some(Hai::Manzu((n - 1) as u8)) } else { None },
            Hai::Pinzu(n) => if n > 1 { Some(Hai::Pinzu((n - 1) as u8)) } else { None },
            Hai::Souzu(n) => if n > 1 { Some(Hai::Souzu((n - 1) as u8)) } else { None },
            Hai::Jihai(_) => None,
        }
    }

    /// A terminal of a numbered suit (rank 1 or 9) or any honor tile.
    pub open spec fn is_yaochuu(self) -> bool {
        self.valid() && match self {
            Hai::Manzu(n) => n == 1 || n == 9,
            Hai::Pinzu(n) => n == 1 || n == 9,
            Hai::Souzu(n) => n == 1 || n == 9,
            Hai::Jihai(_) => true,
        }
    }

    /// True for honor tiles, which have no rank neighbours.
    pub open spec fn is_jihai(self) -> bool {
        match self {
            Hai::Jihai(_) => true,
            _ => false,
        }
    }

    /// Position of this tile in the canonical order of the 34 kinds.
    pub fn index(&self) -> (k: u8)
        requires
            self.valid(),
        ensures
            k == self.key(),
            k < 34,
    {
        match *self {
            Hai::Manzu(n) => n - 1,
            Hai::Pinzu(n) => 8 + n,
            Hai::Souzu(n) => 17 + n,
            Hai::Jihai(n) => 26 + n,
        }
    }

    /// The tile whose canonical position is `k`.
    pub fn from_index(k: u8) -> (r: Hai)
        requires
            k < 34,
        ensures
            r == hai_of_key(k as int),
            r.valid(),
            r.key() == k,
    {
        if k < 9 {
            Hai::Manzu(k + 1)
        } else if k < 18 {
            Hai::Pinzu(k - 8)
        } else if k < 27 {
            Hai::Souzu(k - 17)
        } else {
            Hai::Jihai(k - 26)
        }
    }

    /// The tile one rank above, within the same numbered suit; `None` at the
    /// top of a suit and for every honor tile.
    pub fn next(&self) -> (r: Option<Hai>)
        ensures
            r == self.spec_next(),
    {
        match *self {
            Hai::Manzu(n) => if n < 9 { Some(Hai::Manzu(n + 1)) } else { None },
            Hai::Pinzu(n) => if n < 9 { Some(Hai::Pinzu(n + 1)) } else { None },
            Hai::Souzu(n) => if n < 9 { Some(Hai::Souzu(n + 1)) } else { None },
            Hai::Jihai(_) => None,
        }
    }

    /// The tile one rank below, within the same numbered suit; `None` at the
    /// bottom of a suit and for every honor tile.
    pub fn before(&self) -> (r: Option<Hai>)
        ensures
            r == self.spec_before(),
    {
        match *self {
            Hai::Manzu(n) => if n > 1 { Some(Hai::Manzu(n - 1)) } else { None },
            Hai::Pinzu(n) => if n > 1 { Some(Hai::Pinzu(n - 1)) } else { None },
            Hai::Souzu(n) => if n > 1 { Some(Hai::Souzu(n - 1)) } else { None },
            Hai::Jihai(_) => None,
        }
    }

    /// Whether this tile is a terminal or an honor.
    pub fn yaochuu(&self) -> (r: bool)
        ensures
            r == self.is_yaochuu(),
    {
        match *self {
            Hai::Manzu(n) => n == 1 || n == 9,
            Hai::Pinzu(n) => n == 1 || n == 9,
            Hai::Souzu(n) => n == 1 || n == 9,
            Hai::Jihai(n) => 1 <= n && n <= 7,
        }
    }

    /// Whether this tile is valid (rank inside the suit's legal range).
    pub fn in_range(&self) -> (r: bool)
        ensures
            r == self.valid(),
    {
        match *self {
            Hai::Manzu(n) => 1 <= n && n <= 9,
            Hai::Pinzu(n) => 1 <= n && n <= 9,
            Hai::Souzu(n) => 1 <= n && n <= 9,
            Hai::Jihai(n) => 1 <= n && n <= 7,
        }
    }

    /// Compare two tiles in the canonical order.
    pub fn le(&self, other: &Hai) -> (r: bool)
        requires
            self.valid(),
            other.valid(),
        ensures
            r == (self.key() <= other.key()),
    {
        self.index() <= other.index()
    }
}

/// The tile at canonical position `k`, for `0 <= k < 34`.
pub open spec fn hai_of_key(k: int) -> Hai {
    if k < 9 {
        Hai::Manzu((k + 1) as u8)
    } else if k < 18 {
        Hai::Pinzu((k - 8) as u8)
    } else if k < 27 {
        Hai::Souzu((k - 17) as u8)
    } else {
        Hai::Jihai((k - 26) as u8)
    }
}

/// Keys and tiles are in bijection over the 34 valid kinds.
pub proof fn lemma_key_bijective()
    ensures
        forall|k: int| 0 <= k < 34 ==> (#[trigger] hai_of_key(k)).valid() && hai_of_key(k).key() == k,
        forall|h: Hai| h.valid() ==> hai_of_key(#[trigger] h.key()) == h,
{
}

/// The thirteen terminal and honor tiles, in canonical order.
pub open spec fn yaochuu_seq() -> Seq<Hai> {
    seq![
        Hai::Manzu(1),
        Hai::Manzu(9),
        Hai::Pinzu(1),
        Hai::Pinzu(9),
        Hai::Souzu(1),
        Hai::Souzu(9),
        Hai::Jihai(1),
        Hai::Jihai(2),
        Hai::Jihai(3),
        Hai::Jihai(4),
        Hai::Jihai(5),
        Hai::Jihai(6),
        Hai::Jihai(7),
    ]
}

/// The thirteen terminal and honor tiles as a vector, in canonical order.
pub fn yaochuu_list() -> (r: Vec<Hai>)
    ensures
        r@ == yaochuu_seq(),
        r@.len() == 13,
        all_valid(r@),
{
    let mut v: Vec<Hai> = Vec::new();
    v.push(Hai::Manzu(1));
    v.push(Hai::Manzu(9));
    v.push(Hai::Pinzu(1));
    v.push(Hai::Pinzu(9));
    v.push(Hai::Souzu(1));
    v.push(Hai::Souzu(9));
    v.push(Hai::Jihai(1));
    v.push(Hai::Jihai(2));
    v.push(Hai::Jihai(3));
    v.push(Hai::Jihai(4));
    v.push(Hai::Jihai(5));
    v.push(Hai::Jihai(6));
    v.push(Hai::Jihai(7));
    proof {
        assert(v@ =~= yaochuu_seq());
    }
    v
}

/// The thirteen-element orphan list holds exactly the terminal and honor
/// tiles.
pub proof fn lemma_yaochuu_members()
    ensures
        forall|x: Hai| #[trigger] yaochuu_seq().contains(x) <==> x.is_yaochuu(),
{
    assert forall|x: Hai| #[trigger] yaochuu_seq().contains(x) <==> x.is_yaochuu() by {
        if x.is_yaochuu() {
            if x == Hai::Manzu(1) {
                assert(yaochuu_seq()[0] == x);
            } else if x == Hai::Manzu(9) {
                assert(yaochuu_seq()[1] == x);
            } else if x == Hai::Pinzu(1) {
                assert(yaochuu_seq()[2] == x);
            } else if x == Hai::Pinzu(9) {
                assert(yaochuu_seq()[3] == x);
            } else if x == Hai::Souzu(1) {
                assert(yaochuu_seq()[4] == x);
            } else if x == Hai::Souzu(9) {
                assert(yaochuu_seq()[5] == x);
            } else if x == Hai::Jihai(1) {
                assert(yaochuu_seq()[6] == x);
            } else if x == Hai::Jihai(2) {
                assert(yaochuu_seq()[7] == x);
            } else if x == Hai::Jihai(3) {
                assert(yaochuu_seq()[8] == x);
            } else if x == Hai::Jihai(4) {
                assert(yaochuu_seq()[9] == x);
            } else if x == Hai::Jihai(5) {
                assert(yaochuu_seq()[10] == x);
            } else if x == Hai::Jihai(6) {
                assert(yaochuu_seq()[11] == x);
            } else {
                assert(x == Hai::Jihai(7));
                assert(yaochuu_seq()[12] == x);
            }
        }
        if yaochuu_seq().contains(x) {
            let i = choose|i: int| 0 <= i < yaochuu_seq().len() && yaochuu_seq()[i] == x;
            assert(x.is_yaochuu()) by {
                if i == 0 {
                } else if i == 1 {
                } else if i == 2 {
                } else if i == 3 {
                } else if i == 4 {
                } else if i == 5 {
                } else if i == 6 {
                } else if i == 7 {
                } else if i == 8 {
                } else if i == 9 {
                } else if i == 10 {
                } else if i == 11 {
                } else {
                    assert(i == 12);
                }
            }
        }
    }
}

/// A sequence of tiles in non-decreasing canonical order.
pub open spec fn sorted(s: Seq<Hai>) -> bool {
    forall|i: int, j: int| 0 <= i <= j < s.len() ==> #[trigger] s[i].key() <= #[trigger] s[j].key()
}

/// Every tile in the sequence has a rank inside its suit's legal range.
pub open spec fn all_valid(s: Seq<Hai>) -> bool {
    forall|i: int| 0 <= i < s.len() ==> (#[trigger] s[i]).valid()
}

} // verus!
