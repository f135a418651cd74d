//! The tile pool: how many copies of each of the 34 tile kinds remain
//! unseen, indexed by canonical tile position.

use vstd::prelude::*;
use crate::tile::{Hai, HAI_COPIES, HAI_KINDS};
use crate::error::MahjongError;

verus! {

/// The pool of unseen tiles, one count per tile kind.
#[derive(Debug)]
pub struct Haiyama {
    pub counts: Vec<u8>,
}

impl Haiyama {
    /// The pool records every one of the 34 tile kinds.
    pub open spec fn wf(self) -> bool {
        self.counts@.len() == 34
    }

    /// A full pool: four copies of each tile kind.
    pub fn new() -> (r: Haiyama)
        ensures
            r.wf(),
            forall|k: int| 0 <= k < 34 ==> #[trigger] r.counts@[k] == 4u8,
    {
        let mut counts: Vec<u8> = Vec::new();
        let mut k: usize = 0;
        while k < HAI_KINDS
            invariant
                counts@.len() == k,
                k <= 34,
                forall|j: int| 0 <= j < k ==> #[trigger] counts@[j] == 4u8,
            decreases 34 - k,
        {
            counts.push(HAI_COPIES);
            k = k + 1;
        }
        Haiyama { counts }
    }

    /// Reset the pool to four copies of each tile kind.
    pub fn initialize(&mut self)
        ensures
            final(self).wf(),
            forall|k: int| 0 <= k < 34 ==> #[trigger] final(self).counts@[k] == 4u8,
    {
        let fresh = Haiyama::new();
        self.counts = fresh.counts;
    }

    /// Put one copy of the tile back into the pool; refused once all four
    /// copies are there.
    pub fn add(&mut self, hai: &Hai) -> (r: Result<(), MahjongError>)
        requires
            old(self).wf(),
            hai.valid(),
        ensures
            final(self).wf(),
            r is Ok <==> old(self).counts@[hai.key()] < 4,
            r is Ok ==> final(self).counts@
                == old(self).counts@.update(hai.key(), (old(self).counts@[hai.key()] + 1) as u8),
            r is Err ==> *final(self) == *old(self)
                && r == Result::<(), MahjongError>::Err(MahjongError::HaiyamaFull),
    {
        let k = hai.index() as usize;
        let number = self.counts[k];
        if number < HAI_COPIES {
            self.counts.set(k, number + 1);
            Ok(())
        } else {
            Err(MahjongError::HaiyamaFull)
        }
    }

    /// Take one copy of the tile out of the pool; refused once none is
    /// left.
    pub fn discard(&mut self, hai: &Hai) -> (r: Result<(), MahjongError>)
        requires
            old(self).wf(),
            hai.valid(),
        ensures
            final(self).wf(),
            r is Ok <==> old(self).counts@[hai.key()] > 0,
            r is Ok ==> final(self).counts@
                == old(self).counts@.update(hai.key(), (old(self).counts@[hai.key()] - 1) as u8),
            r is Err ==> *final(self) == *old(self)
                && r == Result::<(), MahjongError>::Err(MahjongError::HaiyamaEmpty),
    {
        let k = hai.index() as usize;
        let number = self.counts[k];
        if number > 0 {
            self.counts.set(k, number - 1);
            Ok(())
        } else {
            Err(MahjongError::HaiyamaEmpty)
        }
    }

    /// Put one copy of the tile back into the pool without the four-copy
    /// cap.
    pub fn force_add(&mut self, hai: &Hai)
        requires
            old(self).wf(),
            hai.valid(),
            old(self).counts@[hai.key()] < 255,
        ensures
            final(self).wf(),
            final(self).counts@
                == old(self).counts@.update(hai.key(), (old(self).counts@[hai.key()] + 1) as u8),
    {
        let k = hai.index() as usize;
        let number = self.counts[k];
        self.counts.set(k, number + 1);
    }
}

} // verus!
