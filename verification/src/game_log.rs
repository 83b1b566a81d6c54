//! The ordered record of what happened.
use vstd::prelude::*;

verus! {

/// The events reported so far, oldest first.
pub struct GameLog {
    pub entries: Vec<String>,
}

impl GameLog {
    /// The entries as plain text.
    pub open spec fn lines(&self) -> Seq<Seq<char>> {
        Seq::new(self.entries@.len(), |i: int| self.entries@[i]@)
    }

    /// A log with no entry.
    pub fn new() -> (log: GameLog)
        ensures
            log.lines() == Seq::<Seq<char>>::empty(),
    {
        let log = GameLog { entries: Vec::new() };
        assert(log.lines() =~= Seq::<Seq<char>>::empty());
        log
    }

    /// Appends one entry.
    pub fn log(&mut self, str: String)
        ensures
            final(self).entries@ == old(self).entries@.push(str),
            final(self).lines() == old(self).lines().push(str@),
    {
        self.entries.push(str);
        assert(self.lines() =~= old(self).lines().push(str@));
    }
}

} // verus!
