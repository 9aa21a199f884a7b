use vstd::prelude::*;

verus! {

/// One saved result: a player's name and score. Equality and ordering
/// compare the score alone.
#[derive(Debug, Clone)]
pub struct Highscore {
    pub name: String,
    pub score: u32,
}

impl Highscore {
    pub fn new(name: String, score: u32) -> (r: Highscore)
        ensures
            r.name == name,
            r.score == score,
    {
        Highscore { name, score }
    }
}

impl PartialEq for Highscore {
    fn eq(&self, other: &Self) -> (r: bool) {
        self.score == other.score
    }
}

impl vstd::std_specs::cmp::PartialEqSpecImpl for Highscore {
    open spec fn obeys_eq_spec() -> bool {
        true
    }

    open spec fn eq_spec(&self, other: &Self) -> bool {
        self.score == other.score
    }
}

impl PartialOrd for Highscore {
    fn partial_cmp(&self, other: &Self) -> (r: Option<core::cmp::Ordering>) {
        if self.score < other.score {
            Some(core::cmp::Ordering::Less)
        } else if self.score == other.score {
            Some(core::cmp::Ordering::Equal)
        } else {
            Some(core::cmp::Ordering::Greater)
        }
    }
}

impl vstd::std_specs::cmp::PartialOrdSpecImpl for Highscore {
    open spec fn obeys_partial_cmp_spec() -> bool {
        true
    }

    open spec fn partial_cmp_spec(&self, other: &Self) -> Option<core::cmp::Ordering> {
        if self.score < other.score {
            Some(core::cmp::Ordering::Less)
        } else if self.score == other.score {
            Some(core::cmp::Ordering::Equal)
        } else {
            Some(core::cmp::Ordering::Greater)
        }
    }
}

/// Scores never increase along the list.
pub open spec fn sorted_desc(s: Seq<Highscore>) -> bool {
    forall|i: int, j: int| 0 <= i <= j < s.len() ==> s[i].score >= s[j].score
}

/// The saved results, kept sorted by descending score.
#[derive(Debug, Clone)]
pub struct Highscores {
    pub scores: Vec<Highscore>,
}

impl Default for Highscores {
    /// An empty collection.
    fn default() -> (r: Self)
        ensures
            r.scores@.len() == 0,
    {
        Highscores { scores: Vec::new() }
    }
}

impl Highscores {
    /// Insert one result, keeping the list sorted by descending score: the
    /// new entry lands right before the first strictly smaller score, so it
    /// goes after any entry it ties with.
    pub fn add(&mut self, entry: Highscore)
        requires
            sorted_desc(old(self).scores@),
            old(self).scores@.len() < usize::MAX,
        ensures
            sorted_desc(final(self).scores@),
            exists|i: int|
                0 <= i <= old(self).scores@.len() && final(self).scores@ == old(
                    self,
                ).scores@.insert(i, entry) && (forall|j: int|
                    0 <= j < i ==> old(self).scores@[j].score >= entry.score) && (i < old(
                    self,
                ).scores@.len() ==> old(self).scores@[i].score < entry.score),
    {
        let mut i: usize = 0;
        while i < self.scores.len() && self.scores[i].score >= entry.score
            invariant
                *self == *old(self),
                0 <= i <= self.scores@.len(),
                forall|j: int| 0 <= j < i ==> self.scores@[j].score >= entry.score,
            decreases self.scores@.len() - i,
        {
            i = i + 1;
        }
        let ghost pos = i as int;
        self.scores.insert(i, entry);
        proof {
            assert(final(self).scores@ == old(self).scores@.insert(pos, entry));
            assert forall|a: int, b: int|
                0 <= a <= b < self.scores@.len() implies self.scores@[a].score
                >= self.scores@[b].score by {
                let s = old(self).scores@;
                if a < pos && b > pos {
                    assert(s[a].score >= entry.score && entry.score > s[b - 1].score);
                }
            }
            assert(0 <= pos <= old(self).scores@.len() && final(self).scores@ == old(
                self,
            ).scores@.insert(pos, entry) && (forall|j: int|
                0 <= j < pos ==> old(self).scores@[j].score >= entry.score) && (pos < old(
                self,
            ).scores@.len() ==> old(self).scores@[pos].score < entry.score));
        }
    }
}

} // verus!
