use word_trainer::app::{Action, App, Event, Key, Mark};
use word_trainer::data::LearningData;
use word_trainer::word::{Level, Word};
use word_trainer::words_map::WordsMap;

fn file(content: &str) -> Option<(String, String)> {
    Some((String::from("words.txt"), String::from(content)))
}

fn store_of(entries: &[(&str, isize)]) -> LearningData {
    let mut m = WordsMap::new();
    for (term, p) in entries {
        m.insert(
            String::from(*term),
            Word { proficiency: *p, chinese: String::from("x"), last_level: Level::Unselected },
        );
    }
    let mut d = LearningData::default();
    d.update(&m);
    d
}

fn key(app: &mut App, k: Key) -> Action {
    assert!(app.accepts(Event::Key(k)));
    app.run(Event::Key(k), 20, 50)
}

fn rate(app: &mut App, level: Level) -> Action {
    assert_eq!(key(app, Key::Enter), Action::Draw);
    let mut a = Action::Draw;
    for _ in 0..20 {
        a = key(app, Key::Tab);
        assert_eq!(a, Action::Draw);
        if app.cur_selected_level() == level {
            break;
        }
    }
    assert_eq!(app.cur_selected_level(), level);
    assert_eq!(a, Action::Draw);
    key(app, Key::Enter)
}

fn summary(m: &WordsMap) -> Vec<(String, isize)> {
    m.to_vec().into_iter().map(|(t, w)| (t, w.proficiency)).collect()
}

fn pairs(entries: &[(&str, isize)]) -> Vec<(String, isize)> {
    entries.iter().map(|(t, p)| (String::from(*t), *p)).collect()
}

#[test]
fn new_session_with_a_word_list() {
    let app = App::new(LearningData::default(), file("dog:狗\nbad line\n cat : 猫 \n"));
    assert_eq!(app.title(), "words.txt");
    assert_eq!(summary(app.words_map()), pairs(&[("dog", 0), ("cat", 0)]));
    let words = app.words_map().to_vec();
    assert_eq!(words[0].1.chinese, "狗");
    assert_eq!(words[0].1.last_level, Level::Unselected);
    assert_eq!(words[1].1.chinese, "猫");
    assert!(app.cur_done());
    assert!(!app.exit());
    assert!(!app.cur_show_chinese());
    assert_eq!(app.cur_selected_level(), Level::Unselected);
    assert!(app.cur_input().is_empty());
    assert_eq!(app.cur_word().0, "");
    assert_eq!(app.cur_word().1.proficiency, 0);
    assert_eq!(app.learning_data().get_words_count(), 0);
}

#[test]
fn new_session_without_a_word_list() {
    let app = App::new(store_of(&[("dog", 1)]), None);
    assert_eq!(app.title(), " Learning Data ");
    assert!(app.words_map().is_empty());
    assert_eq!(app.learning_data().get_words_count(), 1);
}

#[test]
fn word_list_with_a_term_twice_keeps_place_and_last_translation() {
    let lines = vec![
        String::from("dog:狗"),
        String::from("cat:猫"),
        String::from("onlyoneword"),
        String::from("a:b:c"),
        String::from("dog:犬"),
    ];
    let m = App::content_to_words_map(lines);
    let words = m.to_vec();
    assert_eq!(words.len(), 2);
    assert_eq!(words[0].0, "dog");
    assert_eq!(words[0].1.chinese, "犬");
    assert_eq!(words[0].1.proficiency, 0);
    assert_eq!(words[0].1.last_level, Level::Unselected);
    assert_eq!(words[1].0, "cat");
    assert_eq!(words[1].1.chinese, "猫");
}

#[test]
fn one_word_revealed_rated_hard_and_confirmed() {
    let mut app = App::new(LearningData::default(), file("dog:狗"));
    assert_eq!(app.run(Event::Start, 20, 50), Action::Draw);
    assert_eq!(app.cur_word().0, "dog");
    assert!(!app.cur_done());
    assert_eq!(key(&mut app, Key::Enter), Action::Draw);
    assert!(app.cur_show_chinese());
    assert_eq!(key(&mut app, Key::Tab), Action::Draw);
    assert_eq!(app.cur_selected_level(), Level::Repeat);
    assert_eq!(key(&mut app, Key::Tab), Action::Draw);
    assert_eq!(app.cur_selected_level(), Level::Hard);
    assert_eq!(key(&mut app, Key::Enter), Action::Save);
    let store = app.learning_data();
    let dog = store._get_all_words_map();
    let dog = dog.get(&String::from("dog")).unwrap();
    assert_eq!(dog.proficiency, 1);
    assert_eq!(dog.last_level, Level::Hard);
    assert_eq!(dog.chinese, "狗");
    assert_eq!(store.get_finished_words_count(), 0);
    assert_eq!(store.get_words_count(), 1);
    assert!(!app.exit());
    assert!(!app.cur_show_chinese());
    assert_eq!(app.cur_selected_level(), Level::Unselected);
}

#[test]
fn weak_words_are_asked_again_until_none_is_left() {
    let mut app = App::new(LearningData::default(), file("dog:狗\ncat:猫"));
    assert_eq!(app.run(Event::Start, 20, 50), Action::Draw);
    assert_eq!(app.cur_word().0, "dog");
    assert_eq!(rate(&mut app, Level::Hard), Action::Draw);
    assert_eq!(app.cur_word().0, "cat");
    assert_eq!(rate(&mut app, Level::Simple), Action::Save);
    assert_eq!(summary(app.words_map()), pairs(&[("dog", 1)]));
    assert_eq!(
        summary(&app.learning_data()._get_all_words_map()),
        pairs(&[("dog", 1), ("cat", 5)])
    );
    assert_eq!(app.run(Event::Saved, 20, 50), Action::Draw);
    assert_eq!(app.cur_word().0, "dog");
    assert_eq!(app.cur_word().1.proficiency, 1);
    assert_eq!(rate(&mut app, Level::Normal), Action::Save);
    assert!(app.exit());
    assert_eq!(
        summary(&app.learning_data()._get_all_words_map()),
        pairs(&[("dog", 4), ("cat", 5)])
    );
    assert_eq!(app.run(Event::Saved, 20, 50), Action::Exit);
    assert_eq!(app.run(Event::Saved, 20, 50), Action::Exit);
}

#[test]
fn session_ends_once_every_word_is_above_three() {
    let mut app = App::new(LearningData::default(), file("a:1\nb:2\nc:3"));
    let mut action = app.run(Event::Start, 20, 50);
    let mut rounds = 0;
    let mut turns = 0;
    loop {
        turns += 1;
        assert!(turns < 1000);
        match action {
            Action::Exit => break,
            Action::Save => {
                rounds += 1;
                action = app.run(Event::Saved, 20, 50);
            },
            Action::Draw => {
                action = rate(&mut app, Level::Hard);
            },
        }
    }
    assert_eq!(rounds, 4);
    assert_eq!(
        summary(&app.learning_data()._get_all_words_map()),
        pairs(&[("a", 4), ("b", 4), ("c", 4)])
    );
}

#[test]
fn repeat_in_three_sessions_ends_each_time_at_minus_three() {
    for start in [0isize, 42, 99, -7, 1000] {
        let mut store = store_of(&[("dog", start)]);
        for _ in 0..3 {
            let mut app = App::new(store, None);
            assert_eq!(app.run(Event::Start, 20, isize::MAX), Action::Draw);
            assert_eq!(app.cur_word().0, "dog");
            assert_eq!(rate(&mut app, Level::Repeat), Action::Save);
            assert_eq!(app.run(Event::Saved, 20, isize::MAX), Action::Draw);
            assert_eq!(key(&mut app, Key::Esc), Action::Save);
            assert_eq!(app.run(Event::Saved, 20, isize::MAX), Action::Exit);
            store = app.learning_data().clone();
            let all = store._get_all_words_map();
            let dog = all.get(&String::from("dog")).unwrap();
            assert_eq!(dog.proficiency, -3);
            assert_eq!(dog.last_level, Level::Repeat);
        }
    }
}

#[test]
fn nothing_to_learn_ends_at_once() {
    for word_file in [None, file(""), file("no entry here\n\n")] {
        let mut app = App::new(LearningData::default().read_file(None), word_file);
        assert!(app.words_map().is_empty());
        assert_eq!(app.run(Event::Start, 20, 50), Action::Save);
        assert!(app.exit());
        assert!(app.words_map().is_empty());
        assert_eq!(app.learning_data().get_words_count(), 0);
        assert_eq!(app.learning_data().get_finished_words_count(), 0);
        assert_eq!(app.run(Event::Saved, 20, 50), Action::Exit);
    }
}

#[test]
fn first_round_is_drawn_from_the_store() {
    let store = store_of(&[("a", 60), ("b", 10), ("c", 49), ("d", 50), ("e", -3)]);
    let mut app = App::new(store, None);
    assert_eq!(app.run(Event::Start, 2, 50), Action::Draw);
    assert_eq!(summary(app.words_map()), pairs(&[("b", 10), ("c", 49)]));
    assert_eq!(app.cur_word().0, "b");
    assert_eq!(app.cur_word().1.proficiency, 10);
}

#[test]
fn word_list_goes_before_the_store() {
    let store = store_of(&[("dog", 40)]);
    let mut app = App::new(store, file("dog:狗"));
    assert_eq!(app.run(Event::Start, 20, 50), Action::Draw);
    assert_eq!(app.cur_word().1.proficiency, 0);
    assert_eq!(rate(&mut app, Level::Simple), Action::Save);
    assert_eq!(summary(&app.learning_data()._get_all_words_map()), pairs(&[("dog", 5)]));
}

#[test]
fn typing_is_bounded_by_the_term() {
    let mut app = App::new(LearningData::default(), file("狗a:dog"));
    assert_eq!(app.run(Event::Start, 20, 50), Action::Draw);
    assert_eq!(key(&mut app, Key::Char('狗')), Action::Draw);
    assert_eq!(key(&mut app, Key::Char('b')), Action::Draw);
    assert_eq!(key(&mut app, Key::Char('c')), Action::Draw);
    assert_eq!(app.cur_input(), &vec!['狗', 'b']);
    assert_eq!(app.build_text(), vec![('狗', Mark::Correct), ('a', Mark::Wrong)]);
    assert_eq!(key(&mut app, Key::Backspace), Action::Draw);
    assert_eq!(app.cur_input(), &vec!['狗']);
    assert_eq!(app.build_text(), vec![('狗', Mark::Correct), ('a', Mark::Cursor)]);
    assert_eq!(key(&mut app, Key::Tab), Action::Draw);
    assert!(app.cur_input().is_empty());
    assert_eq!(app.cur_selected_level(), Level::Unselected);
    assert_eq!(key(&mut app, Key::Backspace), Action::Draw);
    assert!(app.cur_input().is_empty());
    assert_eq!(app.build_text(), vec![('狗', Mark::Cursor), ('a', Mark::Plain)]);
    assert_eq!(key(&mut app, Key::Other), Action::Draw);
    assert!(!app.cur_show_chinese());
}

#[test]
fn reveal_clears_the_input_and_typing_is_then_ignored() {
    let mut app = App::new(LearningData::default(), file("dog:狗"));
    assert_eq!(app.run(Event::Start, 20, 50), Action::Draw);
    key(&mut app, Key::Char('d'));
    key(&mut app, Key::Char('o'));
    assert_eq!(app.cur_input(), &vec!['d', 'o']);
    assert_eq!(key(&mut app, Key::Enter), Action::Draw);
    assert!(app.cur_show_chinese());
    assert!(app.cur_input().is_empty());
    assert_eq!(key(&mut app, Key::Char('x')), Action::Draw);
    assert!(app.cur_input().is_empty());
}

#[test]
fn confirm_without_a_rating_does_nothing() {
    let mut app = App::new(LearningData::default(), file("dog:狗"));
    assert_eq!(app.run(Event::Start, 20, 50), Action::Draw);
    assert_eq!(key(&mut app, Key::Enter), Action::Draw);
    assert_eq!(key(&mut app, Key::Enter), Action::Draw);
    assert!(app.cur_show_chinese());
    assert!(!app.cur_done());
    assert_eq!(app.cur_selected_level(), Level::Unselected);
    assert_eq!(summary(app.words_map()), pairs(&[("dog", 0)]));
    assert_eq!(app.learning_data().get_words_count(), 0);
}

#[test]
fn ratings_cycle_and_skip_unselected() {
    let mut app = App::new(LearningData::default(), file("dog:狗"));
    assert_eq!(app.run(Event::Start, 20, 50), Action::Draw);
    key(&mut app, Key::Enter);
    let mut seen = Vec::new();
    for _ in 0..6 {
        key(&mut app, Key::Tab);
        seen.push(app.cur_selected_level());
    }
    assert_eq!(
        seen,
        vec![Level::Repeat, Level::Hard, Level::Normal, Level::Simple, Level::Repeat, Level::Hard]
    );
}

#[test]
fn quit_merges_what_was_rated_so_far() {
    let mut app = App::new(store_of(&[("old", 7)]), file("dog:狗\ncat:猫"));
    assert_eq!(app.run(Event::Start, 20, 50), Action::Draw);
    assert_eq!(rate(&mut app, Level::Normal), Action::Draw);
    assert_eq!(app.cur_word().0, "cat");
    key(&mut app, Key::Enter);
    key(&mut app, Key::Tab);
    assert_eq!(key(&mut app, Key::Esc), Action::Save);
    assert!(app.exit());
    let all = app.learning_data()._get_all_words_map();
    assert_eq!(summary(&all), pairs(&[("old", 7), ("dog", 3), ("cat", 0)]));
    assert_eq!(all.get(&String::from("cat")).unwrap().last_level, Level::Unselected);
    assert_eq!(app.learning_data().get_words_count(), 3);
    assert_eq!(app.run(Event::Saved, 20, 50), Action::Exit);
    assert_eq!(app.run(Event::Key(Key::Enter), 20, 50), Action::Exit);
    assert_eq!(summary(app.words_map()), pairs(&[("dog", 3), ("cat", 0)]));
}

#[test]
fn handle_event_tells_when_to_save() {
    let mut app = App::new(LearningData::default(), file("dog:狗"));
    app.run(Event::Start, 20, 50);
    assert!(app.can_handle(Key::Enter));
    assert!(!app.handle_event(Key::Enter));
    assert!(!app.handle_event(Key::Tab));
    assert!(app.can_handle(Key::Enter));
    assert!(!app.handle_event(Key::Enter));
    assert!(app.cur_done());
    assert_eq!(summary(app.words_map()), pairs(&[("dog", -3)]));
    assert!(!app.handle_event(Key::Enter));
    assert!(!app.cur_show_chinese());
    assert!(app.handle_event(Key::Esc));
    assert!(app.exit());
    assert_eq!(summary(&app.learning_data()._get_all_words_map()), pairs(&[("dog", -3)]));
}

#[test]
fn a_rating_that_does_not_fit_is_not_accepted() {
    let mut m = WordsMap::new();
    m.insert(
        String::from("dog"),
        Word { proficiency: isize::MAX - 2, chinese: String::from("狗"), last_level: Level::Simple },
    );
    let store = LearningData::default().read_file(Some((m, 1, 1)));
    let mut app = App::new(store, None);
    assert_eq!(app.run(Event::Start, 20, isize::MAX), Action::Draw);
    key(&mut app, Key::Enter);
    key(&mut app, Key::Tab);
    assert_eq!(app.cur_selected_level(), Level::Repeat);
    assert!(app.can_handle(Key::Enter));
    key(&mut app, Key::Tab);
    assert_eq!(app.cur_selected_level(), Level::Hard);
    assert!(app.can_handle(Key::Enter));
    key(&mut app, Key::Tab);
    assert_eq!(app.cur_selected_level(), Level::Normal);
    assert!(!app.can_handle(Key::Enter));
    assert!(!app.accepts(Event::Key(Key::Enter)));
    assert!(app.accepts(Event::Key(Key::Tab)));
    assert!(app.accepts(Event::Saved));
    key(&mut app, Key::Tab);
    assert_eq!(app.cur_selected_level(), Level::Simple);
    assert!(!app.can_handle(Key::Enter));
}
