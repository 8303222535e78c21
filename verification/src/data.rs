//! The progress store: every word seen so far with its record, and two cached
//! counts that each merge recomputes.

use vstd::prelude::*;
use crate::words_map::{
    distinct_terms, finished_count, is_finished_entry, lemma_merge, lemma_merge_idempotent,
    lemma_select, lemma_select_distinct, merge, select, Entries, WordsMap,
};

verus! {

/// The mathematical value of a [`LearningData`].
pub struct LearningDataView {
    /// The entries, in the order in which their terms were first merged in.
    pub words: Entries,
    /// The cached number of entries.
    pub words_count: nat,
    /// The cached number of finished entries.
    pub finished_words_count: nat,
}

impl LearningDataView {
    /// The store before anything was merged into it.
    pub open spec fn empty() -> LearningDataView {
        LearningDataView { words: Seq::empty(), words_count: 0, finished_words_count: 0 }
    }

    /// The store after the working set `w` was merged into it: each entry of
    /// `w` is inserted or replaces the one of its term, and both counts are
    /// taken anew.
    pub open spec fn updated(self, w: Entries) -> LearningDataView {
        let words = merge(self.words, w);
        LearningDataView {
            words,
            words_count: words.len(),
            finished_words_count: finished_count(words),
        }
    }

    /// The cached counts are those of the entries.
    pub open spec fn is_consistent(self) -> bool {
        &&& self.words_count == self.words.len()
        &&& self.finished_words_count == finished_count(self.words)
    }
}

/// The progress store.
#[derive(Debug)]
pub struct LearningData {
    words_map: WordsMap,
    words_count: usize,
    finished_words_count: usize,
}

impl View for LearningData {
    type V = LearningDataView;

    closed spec fn view(&self) -> LearningDataView {
        LearningDataView {
            words: self.words_map@,
            words_count: self.words_count as nat,
            finished_words_count: self.finished_words_count as nat,
        }
    }
}

impl Default for LearningData {
    fn default() -> (d: LearningData)
        ensures
            d@ == LearningDataView::empty(),
    {
        LearningData { words_map: WordsMap::new(), words_count: 0, finished_words_count: 0 }
    }
}

impl Clone for LearningData {
    fn clone(&self) -> (d: LearningData)
        ensures
            d@ == self@,
    {
        LearningData {
            words_map: self.words_map.clone(),
            words_count: self.words_count,
            finished_words_count: self.finished_words_count,
        }
    }
}

impl LearningData {
    /// The store that a snapshot file gave. `loaded` is what was decoded from
    /// the file: the entries and the two counts as they stood there. Where the
    /// file was missing, unreadable or malformed, `loaded` is `None` and the
    /// store starts empty.
    pub fn read_file(&mut self, loaded: Option<(WordsMap, usize, usize)>) -> (d: LearningData)
        ensures
            *final(self) == *old(self),
            d@ == match loaded {
                Some((words, words_count, finished_words_count)) => LearningDataView {
                    words: words@,
                    words_count: words_count as nat,
                    finished_words_count: finished_words_count as nat,
                },
                None => LearningDataView::empty(),
            },
    {
        match loaded {
            Some((words_map, words_count, finished_words_count)) => LearningData {
                words_map,
                words_count,
                finished_words_count,
            },
            None => LearningData::default(),
        }
    }

    /// What a snapshot file of the store is to hold: every entry, in the
    /// store's order, and the two counts as they stand. Read back, it gives
    /// the same store.
    pub fn save_file(&self) -> (saved: (WordsMap, usize, usize))
        ensures
            saved.0@ == self@.words,
            saved.1 == self@.words_count,
            saved.2 == self@.finished_words_count,
    {
        (self.words_map.clone(), self.words_count, self.finished_words_count)
    }

    /// Merges a working set into the store and takes both counts anew.
    pub fn update(&mut self, words_map: &WordsMap) -> (d: &mut LearningData)
        ensures
            d@ == old(self)@.updated(words_map@),
            *final(self) == *final(d),
    {
        self.words_map.merge(words_map);
        self.words_count = self.words_map.len();
        self.finished_words_count = self.words_map.finished_count();
        self
    }

    /// Every entry of the store.
    pub fn _get_all_words_map(&self) -> (m: WordsMap)
        ensures
            m@ == self@.words,
            distinct_terms(m@),
    {
        proof {
            use_type_invariant(&self.words_map);
            self.words_map.lemma_distinct();
        }
        self.words_map.clone()
    }

    /// The working set of a fresh round: the first `count` entries of the store
    /// with a proficiency below `max_proficiency`, in the store's order. The
    /// store is not changed.
    pub fn get_words_map(&self, count: usize, max_proficiency: isize) -> (m: WordsMap)
        ensures
            m@ == select(self@.words, count as nat, max_proficiency as int),
            m@.len() <= count,
            forall|i: int|
                0 <= i < m@.len() ==> (#[trigger] m@[i]).1.proficiency < max_proficiency,
            distinct_terms(m@),
    {
        proof {
            use_type_invariant(&self.words_map);
            self.words_map.lemma_distinct();
            lemma_select(self@.words, count as nat, max_proficiency as int);
            lemma_select_distinct(self@.words, count as nat, max_proficiency as int);
        }
        self.words_map.select(count, max_proficiency)
    }

    pub fn get_words_count(&self) -> (n: usize)
        ensures
            n == self@.words_count,
    {
        self.words_count
    }

    pub fn get_finished_words_count(&self) -> (n: usize)
        ensures
            n == self@.finished_words_count,
    {
        self.finished_words_count
    }
}

/// Merging is idempotent: a store into which a working set was merged is not
/// changed by merging the same working set again.
pub proof fn lemma_update_idempotent(s: LearningDataView, w: Entries)
    requires
        distinct_terms(s.words),
        distinct_terms(w),
    ensures
        s.updated(w).updated(w) == s.updated(w),
{
    lemma_merge_idempotent(s.words, w);
}

/// After a merge the counts are those of the entries, the terms are still
/// distinct, and no more entries are finished than there are.
pub proof fn lemma_update_consistent(s: LearningDataView, w: Entries)
    requires
        distinct_terms(s.words),
        distinct_terms(w),
    ensures
        s.updated(w).is_consistent(),
        distinct_terms(s.updated(w).words),
        s.updated(w).finished_words_count <= s.updated(w).words_count,
{
    lemma_merge(s.words, w);
    merge(s.words, w).lemma_filter_len(is_finished_entry());
}

} // verus!
