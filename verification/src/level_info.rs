//! The world and level counter that the signaler's texture variants follow.
use vstd::prelude::*;

verus! {

/// Tracks the current world and the current level within it. The world
/// number selects the texture variants of tiles and of the entrance door.
pub struct LevelInfo {
    pub world: u8,
    pub level: u8,
}

impl LevelInfo {
    /// A world holds four levels; the counter never runs past the fourth.
    pub open spec fn wf(self) -> bool {
        self.level <= 4
    }

    /// The state before the first level of the first world starts.
    pub fn new() -> (s: Self)
        ensures
            s.world == 1,
            s.level == 0,
            s.wf(),
    {
        LevelInfo { world: 1, level: 0 }
    }

    /// Advances to the next level: after the fourth level of a world the
    /// next world begins with its first level.
    pub fn update(&mut self)
        requires
            old(self).wf(),
            old(self).level == 4 ==> old(self).world < 255,
        ensures
            final(self).wf(),
            old(self).level == 4 ==> final(self).world == old(self).world + 1 && final(self).level
                == 1,
            old(self).level != 4 ==> final(self).world == old(self).world && final(self).level
                == old(self).level + 1,
    {
        if self.level == 4 {
            self.world += 1;
            self.level = 0;
        }
        self.level += 1;
    }

    /// The current world number.
    pub fn world(&self) -> (w: u8)
        ensures
            w == self.world,
    {
        self.world
    }

    /// The current level number within the world.
    pub fn level(&self) -> (l: u8)
        ensures
            l == self.level,
    {
        self.level
    }
}

impl Default for LevelInfo {
    /// The state before the first level of the first world starts.
    fn default() -> (s: Self)
        ensures
            s.world == 1,
            s.level == 0,
            s.wf(),
    {
        LevelInfo::new()
    }
}

} // verus!
