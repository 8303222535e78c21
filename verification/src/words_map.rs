//! An ordered map from terms to words.
//!
//! The entries stand in the order in which their terms were first inserted, and
//! no term occurs twice. A working set and the entries of the progress store
//! are both such maps. Their mathematical value is the sequence of their
//! entries; the functions of this module are stated over such sequences.

use vstd::prelude::*;
use crate::word::{Word, WordView, WEAK_PROFICIENCY};

verus! {

/// A term with its word, as mathematical values.
pub type Entry = (Seq<char>, WordView);

/// The entries of a map, in order.
pub type Entries = Seq<(Seq<char>, WordView)>;

/// Some entry of `s` has the term `term`.
pub open spec fn has_term(s: Entries, term: Seq<char>) -> bool {
    exists|i: int| 0 <= i < s.len() && (#[trigger] s[i]).0 == term
}

/// An index at which `term` stands in `s`, if it stands there at all.
pub open spec fn position(s: Entries, term: Seq<char>) -> int {
    choose|i: int| 0 <= i < s.len() && (#[trigger] s[i]).0 == term
}

/// The word that `s` holds for `term`.
pub open spec fn lookup(s: Entries, term: Seq<char>) -> Option<WordView> {
    if has_term(s, term) {
        Some(s[position(s, term)].1)
    } else {
        None
    }
}

/// No term occurs twice in `s`.
pub open spec fn distinct_terms(s: Entries) -> bool {
    forall|i: int, j: int| 0 <= i < j < s.len() ==> (#[trigger] s[i]).0 != (#[trigger] s[j]).0
}

/// The entries as a mapping from term to word.
pub open spec fn as_map(s: Entries) -> Map<Seq<char>, WordView> {
    Map::new(|t: Seq<char>| has_term(s, t), |t: Seq<char>| s[position(s, t)].1)
}

/// Insert or replace: where `term` stands in `s` its word is overwritten in
/// place, else the entry is appended.
pub open spec fn upsert(s: Entries, term: Seq<char>, word: WordView) -> Entries {
    if has_term(s, term) {
        s.update(position(s, term), (term, word))
    } else {
        s.push((term, word))
    }
}

/// The entries of `w` inserted into `s` one after the other: the last writer
/// wins.
pub open spec fn merge(s: Entries, w: Entries) -> Entries
    decreases w.len(),
{
    if w.len() == 0 {
        s
    } else {
        upsert(merge(s, w.drop_last()), w.last().0, w.last().1)
    }
}

/// The test "proficiency below `max`".
pub open spec fn below(max: int) -> spec_fn(Entry) -> bool {
    |e: Entry| e.1.proficiency < max
}

/// The test "finished".
pub open spec fn is_finished_entry() -> spec_fn(Entry) -> bool {
    |e: Entry| e.1.is_finished()
}

/// The entries of `s` with a proficiency below `max`, in the order of `s`.
pub open spec fn eligible(s: Entries, max: int) -> Entries {
    s.filter(below(max))
}

/// A round's working set: the first `count` entries of `s` with a proficiency
/// below `max`, or all of them where there are no more than `count`.
pub open spec fn select(s: Entries, count: nat, max: int) -> Entries {
    let e = eligible(s, max);
    if e.len() > count {
        e.take(count as int)
    } else {
        e
    }
}

/// The weak entries of `s`: those with a proficiency of at most
/// `WEAK_PROFICIENCY`, in the order of `s`.
pub open spec fn weak(s: Entries) -> Entries {
    eligible(s, WEAK_PROFICIENCY + 1)
}

/// The number of finished entries of `s`.
pub open spec fn finished_count(s: Entries) -> nat {
    s.filter(is_finished_entry()).len()
}

/// The mathematical value of a vector of entries.
pub open spec fn entries_view(v: Seq<(String, Word)>) -> Entries {
    Seq::new(v.len(), |i: int| (v[i].0@, v[i].1@))
}

/// In a sequence of distinct terms, a term stands at one index only.
pub proof fn lemma_position(s: Entries, i: int)
    requires
        distinct_terms(s),
        0 <= i < s.len(),
    ensures
        has_term(s, s[i].0),
        position(s, s[i].0) == i,
        lookup(s, s[i].0) == Some(s[i].1),
{
    let p = position(s, s[i].0);
    assert(0 <= p < s.len() && s[p].0 == s[i].0);
    if p < i {
        assert(s[p].0 != s[i].0);
    } else if i < p {
        assert(s[i].0 != s[p].0);
    }
}

/// What insert-or-replace does: the terms stay distinct, `term` then has
/// `word`, and every other term keeps what it had.
pub proof fn lemma_upsert(s: Entries, term: Seq<char>, word: WordView)
    requires
        distinct_terms(s),
    ensures
        distinct_terms(upsert(s, term, word)),
        lookup(upsert(s, term, word), term) == Some(word),
        upsert(s, term, word).len() == s.len() + if has_term(s, term) {
            0int
        } else {
            1int
        },
        forall|t: Seq<char>|
            t != term ==> #[trigger] lookup(upsert(s, term, word), t) == lookup(s, t),
        forall|t: Seq<char>|
            #[trigger] has_term(upsert(s, term, word), t) <==> (t == term || has_term(s, t)),
{
    let r = upsert(s, term, word);
    let p = if has_term(s, term) {
        position(s, term)
    } else {
        s.len() as int
    };
    assert(r.len() > p && r[p] == (term, word));
    assert forall|i: int| 0 <= i < r.len() && i != p implies i < s.len() && #[trigger] r[i]
        == s[i] && s[i].0 != term by {
        if has_term(s, term) {
            if i < p {
                assert(s[i].0 != s[p].0);
            } else {
                assert(s[p].0 != s[i].0);
            }
        }
    }
    assert forall|i: int, j: int| 0 <= i < j < r.len() implies (#[trigger] r[i]).0 != (
    #[trigger] r[j]).0 by {
        if i != p && j != p {
            assert(s[i].0 != s[j].0);
        }
    }
    lemma_position(r, p);
    assert forall|t: Seq<char>| #[trigger] has_term(r, t) <==> (t == term || has_term(s, t)) by {
        if has_term(r, t) && t != term {
            let i = position(r, t);
            assert(r[i].0 == t);
            assert(s[i].0 == t);
        }
        if has_term(s, t) {
            let i = position(s, t);
            assert(s[i].0 == t);
            assert(r[i].0 == t);
        }
    }
    assert forall|t: Seq<char>| t != term implies #[trigger] lookup(r, t) == lookup(s, t) by {
        if has_term(s, t) {
            let i = position(s, t);
            assert(s[i].0 == t);
            assert(r[i] == s[i]);
            lemma_position(r, i);
            lemma_position(s, i);
        }
    }
}

/// What a merge does: the terms stay distinct; the result has the terms of
/// both; a term of `w` has the word that `w` gives it, every other term the
/// word that `s` gave it.
pub proof fn lemma_merge(s: Entries, w: Entries)
    requires
        distinct_terms(s),
        distinct_terms(w),
    ensures
        distinct_terms(merge(s, w)),
        s.len() <= merge(s, w).len() <= s.len() + w.len(),
        forall|t: Seq<char>| #[trigger]
            has_term(merge(s, w), t) <==> (has_term(s, t) || has_term(w, t)),
        forall|t: Seq<char>|
            has_term(w, t) ==> #[trigger] lookup(merge(s, w), t) == lookup(w, t),
        forall|t: Seq<char>|
            !has_term(w, t) ==> #[trigger] lookup(merge(s, w), t) == lookup(s, t),
    decreases w.len(),
{
    if w.len() > 0 {
        let init = w.drop_last();
        let last = w.last();
        let n = w.len() - 1;
        assert forall|i: int, j: int| 0 <= i < j < init.len() implies (#[trigger] init[i]).0 != (
        #[trigger] init[j]).0 by {
            assert(w[i].0 != w[j].0);
        }
        lemma_merge(s, init);
        let m = merge(s, init);
        lemma_upsert(m, last.0, last.1);
        let r = merge(s, w);
        assert(r == upsert(m, last.0, last.1));
        lemma_position(w, n);
        assert forall|t: Seq<char>| #[trigger]
            has_term(w, t) <==> (t == last.0 || has_term(init, t)) by {
            if has_term(w, t) && t != last.0 {
                let i = position(w, t);
                assert(w[i].0 == t);
                assert(init[i].0 == t);
            }
            if has_term(init, t) {
                let i = position(init, t);
                assert(init[i].0 == t);
                assert(w[i].0 == t);
            }
        }
        assert forall|t: Seq<char>| has_term(init, t) implies t != last.0 && #[trigger] lookup(
            init,
            t,
        ) == lookup(w, t) by {
            let i = position(init, t);
            assert(init[i].0 == t);
            assert(w[i].0 != w[n].0);
            lemma_position(init, i);
            lemma_position(w, i);
        }
        assert forall|t: Seq<char>| #[trigger]
            has_term(r, t) <==> (has_term(s, t) || has_term(w, t)) by {
            assert(has_term(m, t) <==> (has_term(s, t) || has_term(init, t)));
        }
        assert forall|t: Seq<char>| has_term(w, t) implies #[trigger] lookup(r, t) == lookup(
            w,
            t,
        ) by {
            if t != last.0 {
                assert(has_term(init, t));
                assert(lookup(r, t) == lookup(m, t));
                assert(lookup(m, t) == lookup(init, t));
                assert(lookup(init, t) == lookup(w, t));
            }
        }
        assert forall|t: Seq<char>| !has_term(w, t) implies #[trigger] lookup(r, t) == lookup(
            s,
            t,
        ) by {
            assert(t != last.0);
            assert(!has_term(init, t));
            assert(lookup(r, t) == lookup(m, t));
            assert(lookup(m, t) == lookup(s, t));
        }
    }
}

/// A map that already holds every entry of `w` is not changed when `w` is
/// merged into it.
pub proof fn lemma_merge_fixed(m: Entries, w: Entries)
    requires
        distinct_terms(m),
        forall|j: int| 0 <= j < w.len() ==> lookup(m, (#[trigger] w[j]).0) == Some(w[j].1),
    ensures
        merge(m, w) == m,
    decreases w.len(),
{
    if w.len() > 0 {
        let init = w.drop_last();
        assert forall|j: int| 0 <= j < init.len() implies lookup(m, (#[trigger] init[j]).0)
            == Some(init[j].1) by {
            assert(init[j] == w[j]);
        }
        lemma_merge_fixed(m, init);
        let last = w.last();
        assert(last == w[w.len() - 1]);
        assert(lookup(m, last.0) == Some(last.1));
        let p = position(m, last.0);
        assert(m[p] == last);
        assert(m.update(p, last) =~= m);
    }
}

/// Merging is idempotent: to merge the same working set a second time changes
/// nothing.
pub proof fn lemma_merge_idempotent(s: Entries, w: Entries)
    requires
        distinct_terms(s),
        distinct_terms(w),
    ensures
        merge(merge(s, w), w) == merge(s, w),
{
    lemma_merge(s, w);
    let m = merge(s, w);
    assert forall|j: int| 0 <= j < w.len() implies lookup(m, (#[trigger] w[j]).0) == Some(
        w[j].1,
    ) by {
        lemma_position(w, j);
    }
    lemma_merge_fixed(m, w);
}

/// As mappings, a merge is the union of the two in which the working set
/// wins.
pub proof fn lemma_merge_as_map(s: Entries, w: Entries)
    requires
        distinct_terms(s),
        distinct_terms(w),
    ensures
        as_map(merge(s, w)) == as_map(s).union_prefer_right(as_map(w)),
{
    lemma_merge(s, w);
    let m = merge(s, w);
    assert forall|t: Seq<char>| #[trigger] as_map(m).dom().contains(t) implies as_map(m)[t]
        == as_map(s).union_prefer_right(as_map(w))[t] by {
        if has_term(w, t) {
            assert(lookup(m, t) == lookup(w, t));
        } else {
            assert(lookup(m, t) == lookup(s, t));
        }
    }
    assert(as_map(m) =~= as_map(s).union_prefer_right(as_map(w)));
}

/// A filter keeps the terms distinct, and keeps no term that was not there.
pub proof fn lemma_filter_distinct(s: Entries, pred: spec_fn(Entry) -> bool)
    requires
        distinct_terms(s),
    ensures
        distinct_terms(s.filter(pred)),
        forall|t: Seq<char>| #[trigger] has_term(s.filter(pred), t) ==> has_term(s, t),
    decreases s.len(),
{
    reveal(Seq::filter);
    if s.len() > 0 {
        let init = s.drop_last();
        let n = s.len() - 1;
        assert forall|i: int, j: int| 0 <= i < j < init.len() implies (#[trigger] init[i]).0 != (
        #[trigger] init[j]).0 by {
            assert(s[i].0 != s[j].0);
        }
        lemma_filter_distinct(init, pred);
        let f = init.filter(pred);
        let r = s.filter(pred);
        assert forall|t: Seq<char>| #[trigger] has_term(f, t) implies has_term(s, t) && t
            != s[n].0 by {
            assert(has_term(init, t));
            let i = position(init, t);
            assert(init[i].0 == t);
            assert(s[i].0 == t);
            assert(s[i].0 != s[n].0);
        }
        assert forall|t: Seq<char>| #[trigger] has_term(r, t) implies has_term(s, t) by {
            let k = position(r, t);
            assert(r[k].0 == t);
            if k < f.len() {
                assert(f[k].0 == t);
                assert(has_term(f, t));
            } else {
                assert(s[n].0 == t);
            }
        }
        assert forall|i: int, j: int| 0 <= i < j < r.len() implies (#[trigger] r[i]).0 != (
        #[trigger] r[j]).0 by {
            if j < f.len() {
                assert(f[i].0 != f[j].0);
            } else {
                assert(f[i].0 == r[i].0);
                assert(has_term(f, r[i].0));
            }
        }
    }
}

/// A round's working set is never larger than `count`, and holds only
/// entries of the store with a proficiency below `max`. It holds `count` of
/// them wherever the store has that many.
pub proof fn lemma_select(s: Entries, count: nat, max: int)
    ensures
        select(s, count, max).len() <= count,
        select(s, count, max).len() <= s.len(),
        select(s, count, max).len() == count || select(s, count, max) == eligible(s, max),
        forall|i: int|
            0 <= i < select(s, count, max).len() ==> (#[trigger] select(
                s,
                count,
                max,
            )[i]).1.proficiency < max,
        forall|i: int|
            0 <= i < select(s, count, max).len() ==> s.contains(
                #[trigger] select(s, count, max)[i],
            ),
{
    let e = eligible(s, max);
    let r = select(s, count, max);
    s.lemma_filter_len(below(max));
    assert forall|i: int| 0 <= i < r.len() implies (#[trigger] r[i]).1.proficiency < max
        && s.contains(r[i]) by {
        assert(r[i] == e[i]);
        s.lemma_filter_pred(below(max), i);
        s.lemma_filter_contains_rev(below(max), e[i]);
    }
}

/// A round's working set holds no term twice, and each of its words is the
/// one that the store holds for the term.
pub proof fn lemma_select_distinct(s: Entries, count: nat, max: int)
    requires
        distinct_terms(s),
    ensures
        distinct_terms(select(s, count, max)),
        forall|i: int|
            0 <= i < select(s, count, max).len() ==> lookup(
                s,
                (#[trigger] select(s, count, max)[i]).0,
            ) == Some(select(s, count, max)[i].1),
{
    let e = eligible(s, max);
    let r = select(s, count, max);
    lemma_select(s, count, max);
    lemma_filter_distinct(s, below(max));
    assert forall|i: int| 0 <= i < r.len() implies lookup(s, (#[trigger] r[i]).0) == Some(
        r[i].1,
    ) by {
        assert(s.contains(r[i]));
        let k = choose|k: int| 0 <= k < s.len() && s[k] == r[i];
        lemma_position(s, k);
    }
    assert forall|i: int, j: int| 0 <= i < j < r.len() implies (#[trigger] r[i]).0 != (
    #[trigger] r[j]).0 by {
        assert(e[i].0 != e[j].0);
    }
}

/// An ordered map from terms to words, without a term twice.
#[derive(Debug)]
pub struct WordsMap {
    entries: Vec<(String, Word)>,
}

impl View for WordsMap {
    type V = Entries;

    closed spec fn view(&self) -> Entries {
        entries_view(self.entries@)
    }
}

impl WordsMap {
    #[verifier::type_invariant]
    pub closed spec fn wf(self) -> bool {
        distinct_terms(self@)
    }

    /// The terms of a map are distinct.
    pub proof fn lemma_distinct(&self)
        requires
            self.wf(),
        ensures
            distinct_terms(self@),
    {
    }

    pub fn new() -> (m: WordsMap)
        ensures
            m@ == Seq::<Entry>::empty(),
    {
        let m = WordsMap { entries: Vec::new() };
        assert(m@ =~= Seq::<Entry>::empty());
        m
    }

    pub fn len(&self) -> (n: usize)
        ensures
            n == self@.len(),
    {
        self.entries.len()
    }

    pub fn is_empty(&self) -> (b: bool)
        ensures
            b == (self@.len() == 0),
    {
        self.entries.len() == 0
    }

    /// The index at which `term` stands.
    pub fn find(&self, term: &String) -> (r: Option<usize>)
        ensures
            match r {
                Some(i) => i < self@.len() && self@[i as int].0 == term@ && position(
                    self@,
                    term@,
                ) == i,
                None => !has_term(self@, term@),
            },
    {
        proof {
            use_type_invariant(self);
        }
        let mut i: usize = 0;
        while i < self.entries.len()
            invariant
                i <= self.entries.len(),
                distinct_terms(self@),
                forall|j: int| 0 <= j < i ==> (#[trigger] self@[j]).0 != term@,
            decreases self.entries.len() - i,
        {
            if self.entries[i].0 == *term {
                proof {
                    lemma_position(self@, i as int);
                }
                return Some(i);
            }
            i += 1;
        }
        None
    }

    /// The word kept for `term`.
    pub fn get(&self, term: &String) -> (r: Option<&Word>)
        ensures
            match r {
                Some(w) => lookup(self@, term@) == Some(w@),
                None => lookup(self@, term@) is None,
            },
    {
        match self.find(term) {
            Some(i) => Some(&self.entries[i].1),
            None => None,
        }
    }

    /// The entry at index `i`, in the order of first insertion.
    pub fn get_index(&self, i: usize) -> (r: Option<(&String, &Word)>)
        ensures
            match r {
                Some((term, word)) => i < self@.len() && self@[i as int] == (term@, word@),
                None => i >= self@.len(),
            },
    {
        if i < self.entries.len() {
            Some((&self.entries[i].0, &self.entries[i].1))
        } else {
            None
        }
    }

    /// Insert or replace.
    pub fn insert(&mut self, term: String, word: Word)
        ensures
            final(self)@ == upsert(old(self)@, term@, word@),
    {
        proof {
            use_type_invariant(&*self);
            lemma_upsert(self@, term@, word@);
        }
        let found = self.find(&term);
        let ghost before = self@;
        let ghost entry = (term@, word@);
        let mut entries: Vec<(String, Word)> = Vec::new();
        assert(entries_view(entries@) =~= Seq::<Entry>::empty());
        std::mem::swap(&mut entries, &mut self.entries);
        match found {
            Some(i) => {
                entries.set(i, (term, word));
                assert(entries_view(entries@) =~= before.update(i as int, entry));
            },
            None => {
                entries.push((term, word));
                assert(entries_view(entries@) =~= before.push(entry));
            },
        }
        self.entries = entries;
    }

    /// Inserts every entry of `other`, in its order: the last writer wins.
    pub fn merge(&mut self, other: &WordsMap)
        ensures
            final(self)@ == merge(old(self)@, other@),
    {
        let ghost before = self@;
        let mut i: usize = 0;
        assert(other@.take(0) =~= Seq::<Entry>::empty());
        while i < other.entries.len()
            invariant
                i <= other.entries.len(),
                self@ == merge(before, other@.take(i as int)),
            decreases other.entries.len() - i,
        {
            let term = other.entries[i].0.clone();
            let word = other.entries[i].1.clone();
            assert(other@.take(i + 1).drop_last() =~= other@.take(i as int));
            assert(other@.take(i + 1).last() == (term@, word@));
            self.insert(term, word);
            i += 1;
        }
        assert(other@.take(i as int) =~= other@);
    }

    /// The first `count` entries with a proficiency below `max_proficiency`.
    pub fn select(&self, count: usize, max_proficiency: isize) -> (r: WordsMap)
        ensures
            r@ == select(self@, count as nat, max_proficiency as int),
    {
        proof {
            use_type_invariant(self);
        }
        let ghost max = max_proficiency as int;
        let mut out: Vec<(String, Word)> = Vec::new();
        let mut i: usize = 0;
        assert(self@.take(0) =~= Seq::<Entry>::empty());
        assert(entries_view(out@) =~= Seq::<Entry>::empty());
        proof {
            reveal(Seq::filter);
        }
        assert(eligible(self@.take(0), max) =~= Seq::<Entry>::empty());
        while i < self.entries.len() && out.len() < count
            invariant
                i <= self.entries.len(),
                out.len() <= count,
                max == max_proficiency as int,
                entries_view(out@) == eligible(self@.take(i as int), max),
            decreases self.entries.len() - i,
        {
            proof {
                assert(self@.take(i + 1) =~= self@.take(i as int).push(self@[i as int]));
                self@.take(i as int).lemma_filter_push(self@[i as int], below(max));
            }
            if self.entries[i].1.proficiency < max_proficiency {
                let term = self.entries[i].0.clone();
                let word = self.entries[i].1.clone();
                let ghost kept = entries_view(out@);
                out.push((term, word));
                assert(entries_view(out@) =~= kept.push(self@[i as int]));
            }
            i += 1;
        }
        proof {
            let head = self@.take(i as int);
            let tail = self@.skip(i as int);
            assert(head + tail =~= self@);
            Seq::filter_distributes_over_add(head, tail, below(max));
            let e = eligible(self@, max);
            assert(e == eligible(head, max) + eligible(tail, max));
            if i < self.entries.len() {
                assert(eligible(head, max).len() == count);
                assert(e.take(count as int) =~= eligible(head, max));
            } else {
                assert(tail =~= Seq::<Entry>::empty());
                assert(e =~= eligible(head, max));
            }
            assert(entries_view(out@) == select(self@, count as nat, max));
            lemma_select_distinct(self@, count as nat, max);
        }
        WordsMap { entries: out }
    }

    /// The weak entries: those asked again in the next round.
    pub fn weak(&self) -> (r: WordsMap)
        ensures
            r@ == weak(self@),
    {
        proof {
            self@.lemma_filter_len(below(WEAK_PROFICIENCY + 1));
        }
        self.select(self.entries.len(), WEAK_PROFICIENCY + 1)
    }

    /// The number of finished entries.
    pub fn finished_count(&self) -> (n: usize)
        ensures
            n == finished_count(self@),
    {
        let mut n: usize = 0;
        let mut i: usize = 0;
        assert(self@.take(0) =~= Seq::<Entry>::empty());
        proof {
            reveal(Seq::filter);
        }
        assert(finished_count(self@.take(0)) == 0);
        while i < self.entries.len()
            invariant
                i <= self.entries.len(),
                n <= i,
                n == finished_count(self@.take(i as int)),
            decreases self.entries.len() - i,
        {
            proof {
                assert(self@.take(i + 1) =~= self@.take(i as int).push(self@[i as int]));
                self@.take(i as int).lemma_filter_push(self@[i as int], is_finished_entry());
            }
            if self.entries[i].1.is_finished() {
                n += 1;
            }
            i += 1;
        }
        assert(self@.take(i as int) =~= self@);
        n
    }

    /// The entries, in order.
    pub fn to_vec(&self) -> (v: Vec<(String, Word)>)
        ensures
            entries_view(v@) == self@,
    {
        let mut v: Vec<(String, Word)> = Vec::new();
        let mut i: usize = 0;
        while i < self.entries.len()
            invariant
                i <= self.entries.len(),
                v.len() == i,
                forall|j: int|
                    0 <= j < i ==> (#[trigger] v@[j]).0@ == self.entries@[j].0@ && v@[j].1@
                        == self.entries@[j].1@,
            decreases self.entries.len() - i,
        {
            v.push((self.entries[i].0.clone(), self.entries[i].1.clone()));
            i += 1;
        }
        assert(entries_view(v@) =~= self@);
        v
    }
}

impl Clone for WordsMap {
    fn clone(&self) -> (m: WordsMap)
        ensures
            m@ == self@,
    {
        proof {
            use_type_invariant(self);
        }
        WordsMap { entries: self.to_vec() }
    }
}

} // verus!
