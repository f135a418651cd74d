//! A small game shell: a tile pool together with the hand under
//! analysis.

use vstd::prelude::*;
use crate::haiyama::Haiyama;
use crate::tehai::Tehai;

verus! {

/// The state a host keeps between analyses: the pool of unseen tiles and
/// the current hand, if one was set.
#[derive(Debug)]
pub struct Game {
    pub yama: Haiyama,
    pub tehai: Option<Tehai>,
}

impl Game {
    /// A fresh game: a full pool and no hand.
    pub fn new() -> (r: Game)
        ensures
            r.yama.wf(),
            forall|k: int| 0 <= k < 34 ==> #[trigger] r.yama.counts@[k] == 4u8,
            r.tehai is None,
    {
        Game { yama: Haiyama::new(), tehai: None }
    }

    /// Reset the pool and drop the hand.
    pub fn initialize(&mut self)
        ensures
            final(self).yama.wf(),
            forall|k: int| 0 <= k < 34 ==> #[trigger] final(self).yama.counts@[k] == 4u8,
            final(self).tehai is None,
    {
        self.yama.initialize();
        self.tehai = None;
    }

    /// Put a hand under analysis.
    pub fn set_tehai(&mut self, tehai: Tehai)
        ensures
            final(self).yama == old(self).yama,
            final(self).tehai is Some,
            final(self).tehai->0 == tehai,
    {
        self.tehai = Some(tehai);
    }

    /// The hand under analysis, if one was set.
    pub fn tehai(&self) -> (r: &Option<Tehai>)
        ensures
            r == &self.tehai,
    {
        &self.tehai
    }
}

} // verus!
