//! The word record: a translation, a proficiency score and the last
//! self-assessed difficulty; and the rule by which a rating changes the score.

use vstd::prelude::*;

verus! {

/// Proficiency from which a word counts as finished.
pub const FINISHED_PROFICIENCY: isize = 100;

/// Highest proficiency at which a word is still weak: a weak word is asked
/// again in the next round.
pub const WEAK_PROFICIENCY: isize = 3;

/// A self-assessed difficulty. `Unselected` stands for "not rated yet".
#[derive(Clone, Copy, Debug, PartialEq, Eq, Structural)]
pub enum Level {
    Repeat,
    Hard,
    Normal,
    Simple,
    Unselected,
}

impl Level {
    /// The weight of a level: what a rating adds to the proficiency, or, for
    /// `Repeat`, what it sets the proficiency to.
    pub open spec fn spec_weight(self) -> int {
        match self {
            Level::Repeat => -3,
            Level::Hard => 1,
            Level::Normal => 3,
            Level::Simple => 5,
            Level::Unselected => 0,
        }
    }

    /// The level that follows `self` when the user steps through the ratings:
    /// `Unselected` leads into the cycle `Repeat`, `Hard`, `Normal`, `Simple`
    /// and is never reached again.
    pub open spec fn spec_next(self) -> Level {
        match self {
            Level::Unselected => Level::Repeat,
            Level::Repeat => Level::Hard,
            Level::Hard => Level::Normal,
            Level::Normal => Level::Simple,
            Level::Simple => Level::Repeat,
        }
    }

    /// The level raises the proficiency: it is `Hard`, `Normal` or `Simple`.
    pub open spec fn raises(self) -> bool {
        self.spec_weight() >= 1
    }

    /// The label under which a level is shown.
    pub open spec fn label(self) -> Seq<char> {
        match self {
            Level::Repeat => "Repeat"@,
            Level::Hard => "Hard"@,
            Level::Normal => "Normal"@,
            Level::Simple => "Simple"@,
            Level::Unselected => "No Selected"@,
        }
    }

    pub fn weight(self) -> (w: isize)
        ensures
            w == self.spec_weight(),
    {
        match self {
            Level::Repeat => -3,
            Level::Hard => 1,
            Level::Normal => 3,
            Level::Simple => 5,
            Level::Unselected => 0,
        }
    }

    pub fn next(self) -> (l: Level)
        ensures
            l == self.spec_next(),
            l != Level::Unselected,
    {
        match self {
            Level::Unselected => Level::Repeat,
            Level::Repeat => Level::Hard,
            Level::Hard => Level::Normal,
            Level::Normal => Level::Simple,
            Level::Simple => Level::Repeat,
        }
    }

    pub fn to_string(&self) -> (s: String)
        ensures
            s@ == self.label(),
    {
        match self {
            Level::Repeat => "Repeat".to_owned(),
            Level::Hard => "Hard".to_owned(),
            Level::Normal => "Normal".to_owned(),
            Level::Simple => "Simple".to_owned(),
            Level::Unselected => "No Selected".to_owned(),
        }
    }
}

/// What is kept of one word: its translation, its score and its last rating.
#[derive(Debug)]
pub struct Word {
    pub proficiency: isize,
    pub chinese: String,
    pub last_level: Level,
}

/// The mathematical value of a [`Word`].
pub struct WordView {
    pub proficiency: int,
    pub chinese: Seq<char>,
    pub last_level: Level,
}

impl View for Word {
    type V = WordView;

    open spec fn view(&self) -> WordView {
        WordView {
            proficiency: self.proficiency as int,
            chinese: self.chinese@,
            last_level: self.last_level,
        }
    }
}

impl WordView {
    /// A word that was never rated: proficiency 0 and no last rating.
    pub open spec fn fresh(chinese: Seq<char>) -> WordView {
        WordView { proficiency: 0, chinese, last_level: Level::Unselected }
    }

    /// The update rule. `Repeat` overwrites the proficiency with its weight,
    /// whatever it was; every other level adds its weight. The level becomes
    /// the last rating.
    pub open spec fn apply(self, level: Level) -> WordView {
        WordView {
            proficiency: if level == Level::Repeat {
                level.spec_weight()
            } else {
                self.proficiency + level.spec_weight()
            },
            chinese: self.chinese,
            last_level: level,
        }
    }

    /// The rule can be applied in machine integers.
    pub open spec fn can_apply(self, level: Level) -> bool {
        level == Level::Repeat || self.proficiency + level.spec_weight() <= isize::MAX
    }

    pub open spec fn is_finished(self) -> bool {
        self.proficiency >= FINISHED_PROFICIENCY
    }

    pub open spec fn is_weak(self) -> bool {
        self.proficiency <= WEAK_PROFICIENCY
    }
}

impl Clone for Word {
    fn clone(&self) -> (w: Word)
        ensures
            w == *self,
    {
        Word {
            proficiency: self.proficiency,
            chinese: self.chinese.clone(),
            last_level: self.last_level,
        }
    }
}

impl Default for Word {
    fn default() -> (w: Word)
        ensures
            w@ == WordView::fresh(Seq::empty()),
    {
        Word { proficiency: 0, chinese: String::new(), last_level: Level::Unselected }
    }
}

impl Word {
    /// A word that was never rated.
    pub fn new(chinese: String) -> (w: Word)
        ensures
            w@ == WordView::fresh(chinese@),
    {
        Word { proficiency: 0, chinese, last_level: Level::Unselected }
    }

    /// Whether [`Word::apply`] accepts `level` for this word.
    pub fn can_apply(&self, level: Level) -> (b: bool)
        ensures
            b == self@.can_apply(level),
    {
        match level {
            Level::Repeat => true,
            _ => self.proficiency <= isize::MAX - level.weight(),
        }
    }

    /// Applies the update rule for a rating.
    pub fn apply(self, level: Level) -> (w: Word)
        requires
            level != Level::Unselected,
            self@.can_apply(level),
        ensures
            w@ == self@.apply(level),
    {
        let proficiency: isize = match level {
            Level::Repeat => level.weight(),
            _ => self.proficiency + level.weight(),
        };
        Word { proficiency, chinese: self.chinese, last_level: level }
    }

    pub fn is_finished(&self) -> (b: bool)
        ensures
            b == self@.is_finished(),
    {
        self.proficiency >= FINISHED_PROFICIENCY
    }

    pub fn is_weak(&self) -> (b: bool)
        ensures
            b == self@.is_weak(),
    {
        self.proficiency <= WEAK_PROFICIENCY
    }
}

/// A rating with `Repeat` ends at the weight of `Repeat`, whatever the
/// proficiency was; a rating with `Hard`, `Normal` or `Simple` adds 1, 3 or 5.
pub proof fn lemma_apply_proficiency(w: WordView)
    ensures
        w.apply(Level::Repeat).proficiency == -3,
        w.apply(Level::Hard).proficiency == w.proficiency + 1,
        w.apply(Level::Normal).proficiency == w.proficiency + 3,
        w.apply(Level::Simple).proficiency == w.proficiency + 5,
{
}

} // verus!
