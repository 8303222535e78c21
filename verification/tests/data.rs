use word_trainer::data::LearningData;
use word_trainer::word::{Level, Word};
use word_trainer::words_map::WordsMap;

fn map_of(entries: &[(&str, isize)]) -> WordsMap {
    let mut m = WordsMap::new();
    for (term, p) in entries {
        m.insert(
            String::from(*term),
            Word { proficiency: *p, chinese: String::from("x"), last_level: Level::Unselected },
        );
    }
    m
}

fn summary(m: &WordsMap) -> Vec<(String, isize)> {
    m.to_vec().into_iter().map(|(t, w)| (t, w.proficiency)).collect()
}

fn pairs(entries: &[(&str, isize)]) -> Vec<(String, isize)> {
    entries.iter().map(|(t, p)| (String::from(*t), *p)).collect()
}

fn state(d: &LearningData) -> (Vec<(String, isize)>, usize, usize) {
    (summary(&d._get_all_words_map()), d.get_words_count(), d.get_finished_words_count())
}

#[test]
fn default_store_is_empty() {
    let d = LearningData::default();
    assert_eq!(state(&d), (pairs(&[]), 0, 0));
}

#[test]
fn missing_snapshot_gives_an_empty_store() {
    let mut seed = LearningData::default();
    let d = seed.read_file(None);
    assert_eq!(state(&d), (pairs(&[]), 0, 0));
    assert_eq!(state(&seed), (pairs(&[]), 0, 0));
}

#[test]
fn snapshot_is_taken_as_it_stands() {
    let mut seed = LearningData::default();
    let d = seed.read_file(Some((map_of(&[("dog", 120), ("cat", 2)]), 2, 1)));
    assert_eq!(state(&d), (pairs(&[("dog", 120), ("cat", 2)]), 2, 1));
    let stale = seed.read_file(Some((map_of(&[("dog", 120)]), 7, 5)));
    assert_eq!(state(&stale), (pairs(&[("dog", 120)]), 7, 5));
}

#[test]
fn update_merges_and_recounts() {
    let mut d = LearningData::default();
    d.update(&map_of(&[("dog", 1), ("cat", 100)]));
    assert_eq!(state(&d), (pairs(&[("dog", 1), ("cat", 100)]), 2, 1));
    d.update(&map_of(&[("cat", 99), ("bird", 250), ("dog", 100)]));
    assert_eq!(state(&d), (pairs(&[("dog", 100), ("cat", 99), ("bird", 250)]), 3, 2));
}

#[test]
fn update_returns_the_store_itself() {
    let mut d = LearningData::default();
    let n = d.update(&map_of(&[("dog", 1)])).get_words_count();
    assert_eq!(n, 1);
    assert_eq!(d.get_words_count(), 1);
}

#[test]
fn update_corrects_stale_counts() {
    let mut d = LearningData::default().read_file(Some((map_of(&[("dog", 120)]), 7, 5)));
    d.update(&WordsMap::new());
    assert_eq!(state(&d), (pairs(&[("dog", 120)]), 1, 1));
}

#[test]
fn update_twice_is_update_once() {
    let w = map_of(&[("cat", 150), ("bird", 7)]);
    let mut once = LearningData::default();
    once.update(&map_of(&[("dog", 1), ("cat", 2)]));
    once.update(&w);
    let mut twice = once.clone();
    twice.update(&w);
    assert_eq!(state(&twice), state(&once));
    assert_eq!(state(&once), (pairs(&[("dog", 1), ("cat", 150), ("bird", 7)]), 3, 1));
}

#[test]
fn round_is_bounded_by_count_and_proficiency() {
    let mut d = LearningData::default();
    d.update(&map_of(&[("a", 60), ("b", 10), ("c", 49), ("d", 50), ("e", -3)]));
    let r = d.get_words_map(2, 50);
    assert_eq!(summary(&r), pairs(&[("b", 10), ("c", 49)]));
    let all = d.get_words_map(20, 50);
    assert_eq!(summary(&all), pairs(&[("b", 10), ("c", 49), ("e", -3)]));
    for count in 0..7 {
        for max in [-5, -3, 0, 10, 11, 50, 51, 61] {
            let r = d.get_words_map(count, max);
            assert!(r.len() <= count);
            for (_, w) in r.to_vec() {
                assert!(w.proficiency < max);
            }
        }
    }
    assert_eq!(
        state(&d),
        (pairs(&[("a", 60), ("b", 10), ("c", 49), ("d", 50), ("e", -3)]), 5, 0)
    );
}

#[test]
fn round_from_an_empty_store_is_empty() {
    let d = LearningData::default();
    assert!(d.get_words_map(20, 50).is_empty());
}

#[test]
fn all_words_are_handed_out() {
    let mut d = LearningData::default();
    d.update(&map_of(&[("dog", 1), ("cat", 100)]));
    assert_eq!(summary(&d._get_all_words_map()), pairs(&[("dog", 1), ("cat", 100)]));
}

#[test]
fn what_is_saved_reads_back_as_the_same_store() {
    let mut d = LearningData::default();
    d.update(&map_of(&[("dog", 1), ("cat", 100)]));
    let (words, words_count, finished_words_count) = d.save_file();
    assert_eq!(summary(&words), pairs(&[("dog", 1), ("cat", 100)]));
    assert_eq!(words_count, 2);
    assert_eq!(finished_words_count, 1);
    let back = LearningData::default().read_file(Some((words, words_count, finished_words_count)));
    assert_eq!(state(&back), state(&d));
    let stale = LearningData::default().read_file(Some((map_of(&[("dog", 120)]), 7, 5)));
    let (words, words_count, finished_words_count) = stale.save_file();
    assert_eq!(summary(&words), pairs(&[("dog", 120)]));
    assert_eq!((words_count, finished_words_count), (7, 5));
}
