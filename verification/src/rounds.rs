//! What holds of rounds: when a session ends, and why it does.
//!
//! A round ends the session when none of its words is weak. Else the weak
//! words form the next round. The shortfall of a working set counts the points
//! its weak words lack; a round in which no word is rated `Repeat` leaves weak
//! words with a smaller shortfall than the round began with, so only finitely
//! many such rounds can follow one another.

use vstd::prelude::*;
use crate::app::{Action, AppView, Key};
use crate::word::{Level, WordView, WEAK_PROFICIENCY};
use crate::words_map::{
    below, distinct_terms, lemma_filter_distinct, lemma_position, weak, Entries, Entry,
};

verus! {

/// The points that a word lacks to a proficiency above `WEAK_PROFICIENCY`:
/// none, if it is not weak.
pub open spec fn lacking(word: WordView) -> nat {
    if word.is_weak() {
        (WEAK_PROFICIENCY + 1 - word.proficiency) as nat
    } else {
        0
    }
}

/// The points that the words of `s` lack together.
pub open spec fn shortfall(s: Entries) -> nat
    decreases s.len(),
{
    if s.len() == 0 {
        0
    } else {
        shortfall(s.drop_last()) + lacking(s.last().1)
    }
}

/// The working set `s` after a round in which the word at each index `i` was
/// rated with `levels[i]`.
pub open spec fn rated_all(s: Entries, levels: Seq<Level>) -> Entries {
    Seq::new(s.len(), |i: int| (s[i].0, s[i].1.apply(levels[i])))
}

/// The weak entries of a working set are entries of it, in its order, each of
/// them weak and none twice; and no weak entry is left out.
pub proof fn lemma_weak(s: Entries)
    requires
        distinct_terms(s),
    ensures
        weak(s).len() <= s.len(),
        distinct_terms(weak(s)),
        forall|i: int| 0 <= i < weak(s).len() ==> (#[trigger] weak(s)[i]).1.is_weak(),
        forall|i: int| 0 <= i < weak(s).len() ==> s.contains(#[trigger] weak(s)[i]),
        forall|k: int|
            0 <= k < s.len() && (#[trigger] s[k]).1.is_weak() ==> weak(s).contains(s[k]),
{
    let p = below(WEAK_PROFICIENCY + 1);
    s.lemma_filter_len(p);
    lemma_filter_distinct(s, p);
    assert forall|i: int| 0 <= i < weak(s).len() implies (#[trigger] weak(s)[i]).1.is_weak()
        && s.contains(weak(s)[i]) by {
        s.lemma_filter_pred(p, i);
        s.lemma_filter_contains_rev(p, weak(s)[i]);
    }
    assert forall|k: int| 0 <= k < s.len() && (#[trigger] s[k]).1.is_weak() implies weak(
        s,
    ).contains(s[k]) by {
        s.lemma_filter_contains(p, k);
    }
}

/// No entry is weak exactly when every word has a proficiency above
/// `WEAK_PROFICIENCY`, and exactly when nothing is lacking.
pub proof fn lemma_no_weak(s: Entries)
    ensures
        weak(s).len() == 0 <==> (forall|k: int|
            0 <= k < s.len() ==> (#[trigger] s[k]).1.proficiency > WEAK_PROFICIENCY),
        weak(s).len() == 0 <==> shortfall(s) == 0,
    decreases s.len(),
{
    let p = below(WEAK_PROFICIENCY + 1);
    reveal(Seq::filter);
    if s.len() > 0 {
        let init = s.drop_last();
        lemma_no_weak(init);
        assert(s =~= init.push(s.last()));
        init.lemma_filter_push(s.last(), p);
        if weak(s).len() == 0 {
            assert forall|k: int| 0 <= k < s.len() implies (#[trigger] s[k]).1.proficiency
                > WEAK_PROFICIENCY by {
                if k < s.len() - 1 {
                    assert(init[k] == s[k]);
                }
            }
        }
        if forall|k: int|
            0 <= k < s.len() ==> (#[trigger] s[k]).1.proficiency > WEAK_PROFICIENCY {
            assert forall|k: int| 0 <= k < init.len() implies (#[trigger] init[k]).1.proficiency
                > WEAK_PROFICIENCY by {
                assert(init[k] == s[k]);
            }
            assert(s[s.len() - 1].1.proficiency > WEAK_PROFICIENCY);
        }
    }
}

/// A round in which every word is rated `Hard`, `Normal` or `Simple` makes
/// progress: the weak words that it leaves lack less, by at least one point
/// each, than the words of the round lacked. So where weak words are left,
/// their shortfall is smaller than that of the round's working set, and rounds
/// of this kind cannot follow one another for ever.
pub proof fn lemma_round_progress(s: Entries, levels: Seq<Level>)
    requires
        levels.len() == s.len(),
        forall|i: int| 0 <= i < levels.len() ==> (#[trigger] levels[i]).raises(),
    ensures
        shortfall(weak(rated_all(s, levels))) + weak(rated_all(s, levels)).len() <= shortfall(s),
        weak(rated_all(s, levels)).len() > 0 ==> shortfall(weak(rated_all(s, levels)))
            < shortfall(s),
    decreases s.len(),
{
    let p = below(WEAK_PROFICIENCY + 1);
    let r = rated_all(s, levels);
    reveal(Seq::filter);
    if s.len() > 0 {
        let n = s.len() - 1;
        let r0 = rated_all(s.drop_last(), levels.drop_last());
        assert forall|i: int| 0 <= i < levels.drop_last().len() implies (
        #[trigger] levels.drop_last()[i]).raises() by {
            assert(levels[i].raises());
        }
        lemma_round_progress(s.drop_last(), levels.drop_last());
        assert(r =~= r0.push(r[n]));
        r0.lemma_filter_push(r[n], p);
        assert(levels[n].raises());
        assert(r[n].1.proficiency >= s[n].1.proficiency + 1);
        if p(r[n]) {
            assert(weak(r) == weak(r0).push(r[n]));
            assert(weak(r).drop_last() =~= weak(r0));
            assert(lacking(r[n].1) + 1 <= lacking(s[n].1));
        }
    }
}

/// The words that are left after the rounds `ratings`. Round `k` rates the
/// word at each index `i` of its working set with `ratings[k][i]`; its weak
/// words are the working set of the next round.
pub open spec fn after_rounds(s: Entries, ratings: Seq<Seq<Level>>) -> Entries
    decreases ratings.len(),
{
    if ratings.len() == 0 {
        s
    } else {
        after_rounds(weak(rated_all(s, ratings[0])), ratings.drop_first())
    }
}

/// In each of the rounds `ratings`, every word of the working set is rated,
/// and rated `Hard`, `Normal` or `Simple`.
pub open spec fn all_raise(s: Entries, ratings: Seq<Seq<Level>>) -> bool
    decreases ratings.len(),
{
    ratings.len() == 0 || {
        &&& ratings[0].len() == s.len()
        &&& forall|i: int| 0 <= i < ratings[0].len() ==> (#[trigger] ratings[0][i]).raises()
        &&& all_raise(weak(rated_all(s, ratings[0])), ratings.drop_first())
    }
}

/// Once no word is left, none comes back.
pub proof fn lemma_nothing_left(ratings: Seq<Seq<Level>>)
    ensures
        after_rounds(Seq::empty(), ratings) == Seq::<Entry>::empty(),
    decreases ratings.len(),
{
    if ratings.len() > 0 {
        reveal(Seq::filter);
        assert(weak(rated_all(Seq::empty(), ratings[0])) =~= Seq::<Entry>::empty());
        lemma_nothing_left(ratings.drop_first());
    }
}

/// A session in which no word is rated `Repeat` ends: after as many rounds as
/// the first working set lacks points, and after one round at the least, no
/// weak word is left.
pub proof fn lemma_session_ends(s: Entries, ratings: Seq<Seq<Level>>)
    requires
        all_raise(s, ratings),
        ratings.len() >= 1,
        ratings.len() >= shortfall(s),
    ensures
        after_rounds(s, ratings).len() == 0,
    decreases ratings.len(),
{
    let left = weak(rated_all(s, ratings[0]));
    let rest = ratings.drop_first();
    lemma_round_progress(s, ratings[0]);
    if left.len() == 0 {
        assert(left =~= Seq::<Entry>::empty());
        lemma_nothing_left(rest);
    } else {
        rated_all(s, ratings[0]).lemma_filter_pred(below(WEAK_PROFICIENCY + 1), 0);
        lemma_no_weak(left);
        lemma_session_ends(left, rest);
    }
}

/// The end of a round. When the working set is exhausted, it is merged into
/// the store and the store is to be written. The session is over exactly when
/// every word of the working set has a proficiency above `WEAK_PROFICIENCY`;
/// else the next round begins, with exactly the weak entries.
pub proof fn lemma_round_end(s: AppView)
    requires
        !s.exit,
        s.cur_done,
        s.position >= s.words_map.len(),
    ensures
        s.advance().1 == Action::Save,
        s.advance().0.learning_data == s.learning_data.updated(s.words_map),
        s.advance().0.exit <==> (forall|k: int|
            0 <= k < s.words_map.len() ==> (#[trigger] s.words_map[k]).1.proficiency
                > WEAK_PROFICIENCY),
        !s.advance().0.exit ==> s.advance().0.words_map == weak(s.words_map)
            && s.advance().0.position == 0 && s.advance().0.cur_done,
{
    lemma_no_weak(s.words_map);
}

/// Confirming a rating rates the word on screen and no other: the entry that
/// was presented last has the update rule applied to it, and the word is
/// retired.
pub proof fn lemma_confirm(s: AppView)
    requires
        distinct_terms(s.words_map),
        s.revealed(),
        s.cur_selected_level != Level::Unselected,
        0 < s.position <= s.words_map.len(),
        s.cur_word.0 == s.words_map[s.position - 1].0,
    ensures
        s.handle(Key::Enter).words_map == s.words_map.update(
            s.position - 1,
            (s.cur_word.0, s.words_map[s.position - 1].1.apply(s.cur_selected_level)),
        ),
        s.handle(Key::Enter).cur_done,
        s.handle(Key::Enter).learning_data == s.learning_data,
{
    lemma_position(s.words_map, s.position - 1);
}

} // verus!
