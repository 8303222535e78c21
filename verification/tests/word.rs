use word_trainer::word::{Level, Word, FINISHED_PROFICIENCY, WEAK_PROFICIENCY};

fn word(proficiency: isize) -> Word {
    Word { proficiency, chinese: String::from("狗"), last_level: Level::Unselected }
}

#[test]
fn level_weights_are_fixed() {
    assert_eq!(Level::Repeat.weight(), -3);
    assert_eq!(Level::Hard.weight(), 1);
    assert_eq!(Level::Normal.weight(), 3);
    assert_eq!(Level::Simple.weight(), 5);
    assert_eq!(Level::Unselected.weight(), 0);
}

#[test]
fn level_cycle_never_returns_to_unselected() {
    assert_eq!(Level::Unselected.next(), Level::Repeat);
    assert_eq!(Level::Repeat.next(), Level::Hard);
    assert_eq!(Level::Hard.next(), Level::Normal);
    assert_eq!(Level::Normal.next(), Level::Simple);
    assert_eq!(Level::Simple.next(), Level::Repeat);
    let mut level = Level::Unselected;
    for _ in 0..20 {
        level = level.next();
        assert_ne!(level, Level::Unselected);
    }
}

#[test]
fn level_labels() {
    assert_eq!(Level::Repeat.to_string(), "Repeat");
    assert_eq!(Level::Hard.to_string(), "Hard");
    assert_eq!(Level::Normal.to_string(), "Normal");
    assert_eq!(Level::Simple.to_string(), "Simple");
    assert_eq!(Level::Unselected.to_string(), "No Selected");
}

#[test]
fn thresholds() {
    assert_eq!(FINISHED_PROFICIENCY, 100);
    assert_eq!(WEAK_PROFICIENCY, 3);
}

#[test]
fn default_word_is_unrated() {
    let w = Word::default();
    assert_eq!(w.proficiency, 0);
    assert_eq!(w.chinese, "");
    assert_eq!(w.last_level, Level::Unselected);
}

#[test]
fn new_word_is_unrated() {
    let w = Word::new(String::from("猫"));
    assert_eq!(w.proficiency, 0);
    assert_eq!(w.chinese, "猫");
    assert_eq!(w.last_level, Level::Unselected);
}

#[test]
fn clone_keeps_every_field() {
    let w = Word { proficiency: 17, chinese: String::from("鸟"), last_level: Level::Normal };
    let c = w.clone();
    assert_eq!(c.proficiency, 17);
    assert_eq!(c.chinese, "鸟");
    assert_eq!(c.last_level, Level::Normal);
}

#[test]
fn repeat_overwrites_whatever_the_proficiency_was() {
    for p in [0, 1, -3, -100, 42, 99, 100, 5000, isize::MAX, isize::MIN] {
        let w = word(p).apply(Level::Repeat);
        assert_eq!(w.proficiency, -3);
        assert_eq!(w.last_level, Level::Repeat);
        assert_eq!(w.chinese, "狗");
    }
}

#[test]
fn repeat_three_times_in_a_row_stays_at_minus_three() {
    for p in [0, 7, -20, 250] {
        let mut w = word(p);
        for _ in 0..3 {
            w = w.apply(Level::Repeat);
            assert_eq!(w.proficiency, -3);
        }
    }
}

#[test]
fn other_levels_add_their_weight() {
    for p in [0, -3, 10, 97, -1000] {
        assert_eq!(word(p).apply(Level::Hard).proficiency, p + 1);
        assert_eq!(word(p).apply(Level::Normal).proficiency, p + 3);
        assert_eq!(word(p).apply(Level::Simple).proficiency, p + 5);
    }
    let w = word(10).apply(Level::Simple);
    assert_eq!(w.proficiency, 15);
    assert_eq!(w.last_level, Level::Simple);
    assert_eq!(w.chinese, "狗");
}

#[test]
fn repeat_after_progress_resets_then_adds_again() {
    let w = word(0).apply(Level::Simple).apply(Level::Simple).apply(Level::Repeat).apply(Level::Hard);
    assert_eq!(w.proficiency, -2);
    assert_eq!(w.last_level, Level::Hard);
}

#[test]
fn can_apply_tells_when_the_sum_fits() {
    assert!(word(isize::MAX).can_apply(Level::Repeat));
    assert!(!word(isize::MAX).can_apply(Level::Hard));
    assert!(word(isize::MAX - 1).can_apply(Level::Hard));
    assert!(!word(isize::MAX - 1).can_apply(Level::Normal));
    assert!(word(isize::MAX - 5).can_apply(Level::Simple));
    assert!(!word(isize::MAX - 4).can_apply(Level::Simple));
    assert!(word(isize::MIN).can_apply(Level::Simple));
    assert_eq!(word(isize::MAX - 5).apply(Level::Simple).proficiency, isize::MAX);
}

#[test]
fn finished_from_one_hundred() {
    assert!(!word(99).is_finished());
    assert!(word(100).is_finished());
    assert!(word(101).is_finished());
    assert!(!word(-3).is_finished());
}

#[test]
fn weak_up_to_three() {
    assert!(word(-3).is_weak());
    assert!(word(0).is_weak());
    assert!(word(3).is_weak());
    assert!(!word(4).is_weak());
    assert!(!word(100).is_weak());
}
