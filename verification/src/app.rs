//! The session engine: one word at a time is presented, revealed and rated,
//! and a round is repeated with its weak words until none is left.
//!
//! The engine does no input or output. Its caller draws the state, reads a
//! key, writes the store, and tells the engine what happened; the engine
//! answers with what to do next.

use vstd::prelude::*;
use vstd::string::StrSliceExecFns;
use crate::data::{LearningData, LearningDataView};
use crate::word::{Level, Word, WordView};
use crate::word_list::{chars_of, entry_of_line, lines, lines_of, parse_line, strings};
use crate::words_map::{
    distinct_terms, lookup, select, upsert, weak, Entries, Entry, WordsMap,
};

verus! {

/// A key press, as far as the engine tells keys apart.
#[derive(Clone, Copy, Debug, PartialEq, Eq)]
pub enum Key {
    /// Quit.
    Esc,
    /// Clear the input; with the translation shown, step to the next rating.
    Tab,
    /// Take back the last typed character.
    Backspace,
    /// Reveal the translation; with the translation shown, confirm the rating.
    Enter,
    /// Type a character.
    Char(char),
    /// Any other key.
    Other,
}

/// What the caller reports to the engine.
#[derive(Clone, Copy, Debug, PartialEq, Eq)]
pub enum Event {
    /// The session begins.
    Start,
    /// The state was drawn and this key was read.
    Key(Key),
    /// The store was written.
    Saved,
}

/// What the engine asks of its caller.
#[derive(Clone, Copy, Debug, PartialEq, Eq)]
pub enum Action {
    /// Draw the state, read a key and report it.
    Draw,
    /// Write the store and report that it was written.
    Save,
    /// The session is over.
    Exit,
}

/// How a character of the current term is shown while the user types it.
#[derive(Clone, Copy, Debug, PartialEq, Eq)]
pub enum Mark {
    /// Not typed yet.
    Plain,
    /// Typed, and typed right.
    Correct,
    /// Typed, and typed wrong.
    Wrong,
    /// The next character to type.
    Cursor,
}

/// The working set that the lines of a word list give: each line that is an
/// entry inserts its term, unrated, or replaces the translation read for that
/// term before.
pub open spec fn words_of_lines(content_lines: Seq<Seq<char>>) -> Entries
    decreases content_lines.len(),
{
    if content_lines.len() == 0 {
        Seq::empty()
    } else {
        let before = words_of_lines(content_lines.drop_last());
        match entry_of_line(content_lines.last()) {
            Some((term, translation)) => upsert(before, term, WordView::fresh(translation)),
            None => before,
        }
    }
}

/// The working set after the word of `term` was rated with `level`.
pub open spec fn rate(s: Entries, term: Seq<char>, level: Level) -> Entries {
    match lookup(s, term) {
        Some(word) => upsert(s, term, word.apply(level)),
        None => s,
    }
}

/// The current term as it is shown while the user types: each character with
/// its mark. What was typed is marked right or wrong, the next character
/// carries the cursor.
pub open spec fn prompt(term: Seq<char>, input: Seq<char>) -> Seq<(char, Mark)> {
    Seq::new(
        term.len(),
        |i: int|
            (
                term[i],
                if i < input.len() {
                    if term[i] == input[i] {
                        Mark::Correct
                    } else {
                        Mark::Wrong
                    }
                } else if i == input.len() {
                    Mark::Cursor
                } else {
                    Mark::Plain
                },
            ),
    )
}

/// The mathematical value of an [`App`].
pub struct AppView {
    /// The heading: the name of the word list, if there is one.
    pub title: Seq<char>,
    /// The progress store.
    pub learning_data: LearningDataView,
    /// The working set of the round.
    pub words_map: Entries,
    /// How many entries of the working set were presented in this round.
    pub position: nat,
    /// The word on screen, as it was when it was presented.
    pub cur_word: Entry,
    /// The translation and the ratings are shown.
    pub cur_show_chinese: bool,
    /// The rating that the user has stepped to.
    pub cur_selected_level: Level,
    /// What the user has typed of the term.
    pub cur_input: Seq<char>,
    /// No word is on screen: the last one was rated, or none was presented yet.
    pub cur_done: bool,
    /// The session is over.
    pub exit: bool,
}

impl AppView {
    /// The state in which a session starts.
    pub open spec fn initial(
        learning_data: LearningDataView,
        word_file: Option<(Seq<char>, Seq<char>)>,
    ) -> AppView {
        AppView {
            title: match word_file {
                Some((name, content)) => name,
                None => " Learning Data "@,
            },
            learning_data,
            words_map: match word_file {
                Some((name, content)) => words_of_lines(lines_of(content)),
                None => Seq::empty(),
            },
            position: 0,
            cur_word: (Seq::empty(), WordView::fresh(Seq::empty())),
            cur_show_chinese: false,
            cur_selected_level: Level::Unselected,
            cur_input: Seq::empty(),
            cur_done: true,
            exit: false,
        }
    }

    /// A word is on screen and its translation is hidden.
    pub open spec fn presenting(self) -> bool {
        !self.cur_done && !self.cur_show_chinese
    }

    /// A word is on screen with its translation and the ratings.
    pub open spec fn revealed(self) -> bool {
        !self.cur_done && self.cur_show_chinese
    }

    /// The key confirms a rating.
    pub open spec fn confirms(self, key: Key) -> bool {
        key == Key::Enter && self.revealed() && self.cur_selected_level != Level::Unselected
    }

    /// The key can be handled in machine integers: where it confirms a rating,
    /// the new proficiency fits.
    pub open spec fn can_handle(self, key: Key) -> bool {
        self.confirms(key) ==> (lookup(self.words_map, self.cur_word.0) matches Some(word)
            ==> word.can_apply(self.cur_selected_level))
    }

    /// The state after a key.
    ///
    /// `Esc` merges the working set into the store and ends the session, in
    /// any state. Every other key acts on the word on screen, and does nothing
    /// where there is none. While the translation is hidden, `Enter` reveals
    /// it, a character is appended to the input unless the input is already
    /// as long as the term, and `Tab` clears the input. While it is shown,
    /// `Tab` steps to the next rating, and `Enter` confirms the rating: the
    /// word is rated and retired. With no rating chosen `Enter` does nothing.
    pub open spec fn handle(self, key: Key) -> AppView {
        match key {
            Key::Esc => AppView {
                learning_data: self.learning_data.updated(self.words_map),
                exit: true,
                ..self
            },
            _ if self.cur_done => self,
            Key::Tab => AppView {
                cur_input: Seq::empty(),
                cur_selected_level: if self.cur_show_chinese {
                    self.cur_selected_level.spec_next()
                } else {
                    self.cur_selected_level
                },
                ..self
            },
            Key::Backspace => AppView {
                cur_input: if self.cur_input.len() > 0 {
                    self.cur_input.drop_last()
                } else {
                    self.cur_input
                },
                ..self
            },
            Key::Enter => if !self.cur_show_chinese {
                AppView { cur_show_chinese: true, cur_input: Seq::empty(), ..self }
            } else if self.cur_selected_level == Level::Unselected {
                self
            } else {
                AppView {
                    words_map: rate(self.words_map, self.cur_word.0, self.cur_selected_level),
                    cur_done: true,
                    cur_show_chinese: false,
                    cur_selected_level: Level::Unselected,
                    cur_input: Seq::empty(),
                    ..self
                }
            },
            Key::Char(c) => if !self.cur_show_chinese && self.cur_input.len()
                < self.cur_word.0.len() {
                AppView { cur_input: self.cur_input.push(c), ..self }
            } else {
                self
            },
            Key::Other => self,
        }
    }

    /// The state in which the next thing is asked of the caller, and what is
    /// asked.
    ///
    /// A session that is over stays over. A word on screen stays on screen.
    /// Else the next entry of the working set is presented. Where the working
    /// set is exhausted the round ends: the working set is merged into the
    /// store, which is to be written; the session is over if no entry of the
    /// working set is weak, else a new round begins whose working set is
    /// exactly the weak entries.
    pub open spec fn advance(self) -> (AppView, Action) {
        if self.exit {
            (self, Action::Exit)
        } else if !self.cur_done {
            (self, Action::Draw)
        } else if self.position < self.words_map.len() {
            (
                AppView {
                    cur_word: self.words_map[self.position as int],
                    position: self.position + 1,
                    cur_done: false,
                    cur_show_chinese: false,
                    cur_selected_level: Level::Unselected,
                    cur_input: Seq::empty(),
                    ..self
                },
                Action::Draw,
            )
        } else {
            let learning_data = self.learning_data.updated(self.words_map);
            let again = weak(self.words_map);
            if again.len() == 0 {
                (AppView { learning_data, exit: true, ..self }, Action::Save)
            } else {
                (AppView { learning_data, words_map: again, position: 0, ..self }, Action::Save)
            }
        }
    }

    /// The state in which a session begins its first round: an empty working
    /// set is filled from the store.
    pub open spec fn seeded(self, count: nat, max_proficiency: int) -> AppView {
        AppView {
            words_map: if self.words_map.len() == 0 {
                select(self.learning_data.words, count, max_proficiency)
            } else {
                self.words_map
            },
            position: 0,
            ..self
        }
    }

    /// One turn of the session: the state after `event`, and what is asked of
    /// the caller next.
    pub open spec fn run(self, event: Event, count: nat, max_proficiency: int) -> (
        AppView,
        Action,
    ) {
        match event {
            Event::Start => self.seeded(count, max_proficiency).advance(),
            Event::Saved => self.advance(),
            Event::Key(key) => if self.exit {
                (self, Action::Exit)
            } else if key == Key::Esc {
                (self.handle(key), Action::Save)
            } else {
                self.handle(key).advance()
            },
        }
    }

    /// The event can be handled in machine integers.
    pub open spec fn accepts(self, event: Event) -> bool {
        event matches Event::Key(key) ==> self.exit || self.can_handle(key)
    }
}

/// The state of a session.
#[derive(Debug)]
pub struct App {
    title: String,
    learning_data: LearningData,
    words_map: WordsMap,
    position: usize,
    cur_word: (String, Word),
    cur_show_chinese: bool,
    cur_selected_level: Level,
    cur_input: Vec<char>,
    cur_done: bool,
    exit: bool,
}

impl View for App {
    type V = AppView;

    closed spec fn view(&self) -> AppView {
        AppView {
            title: self.title@,
            learning_data: self.learning_data@,
            words_map: self.words_map@,
            position: self.position as nat,
            cur_word: (self.cur_word.0@, self.cur_word.1@),
            cur_show_chinese: self.cur_show_chinese,
            cur_selected_level: self.cur_selected_level,
            cur_input: self.cur_input@,
            cur_done: self.cur_done,
            exit: self.exit,
        }
    }
}

impl App {
    /// A session over the store `learning_data`. `word_file` is the name of
    /// the word list and what was read from it (nothing, where it could not
    /// be read), or `None` if the session has no word list.
    pub fn new(learning_data: LearningData, word_file: Option<(String, String)>) -> (app: App)
        ensures
            app@ == AppView::initial(
                learning_data@,
                match word_file {
                    Some((name, content)) => Some((name@, content@)),
                    None => None,
                },
            ),
    {
        let title;
        let words_map;
        match word_file {
            Some((name, content)) => {
                title = name;
                words_map = App::content_to_words_map(lines(content.as_str()));
            },
            None => {
                title = " Learning Data ".to_owned();
                words_map = WordsMap::new();
            },
        }
        App {
            title,
            learning_data,
            words_map,
            position: 0,
            cur_word: (String::new(), Word::default()),
            cur_show_chinese: false,
            cur_selected_level: Level::Unselected,
            cur_input: Vec::new(),
            cur_done: true,
            exit: false,
        }
    }

    /// The working set that the lines of a word list give. Lines that are no
    /// entry are passed over.
    pub fn content_to_words_map(content_lines: Vec<String>) -> (words_map: WordsMap)
        ensures
            words_map@ == words_of_lines(strings(content_lines@)),
    {
        let mut words_map = WordsMap::new();
        let mut i: usize = 0;
        let ghost all = strings(content_lines@);
        assert(all.take(0) =~= Seq::<Seq<char>>::empty());
        while i < content_lines.len()
            invariant
                i <= content_lines.len(),
                all == strings(content_lines@),
                words_map@ == words_of_lines(all.take(i as int)),
            decreases content_lines.len() - i,
        {
            assert(all.take(i + 1).drop_last() =~= all.take(i as int));
            assert(all.take(i + 1).last() == content_lines@[i as int]@);
            match parse_line(content_lines[i].as_str()) {
                Some((term, translation)) => {
                    words_map.insert(term, Word::new(translation));
                },
                None => {},
            }
            i += 1;
        }
        assert(all.take(i as int) =~= all);
        words_map
    }

    /// Whether [`App::handle_event`] accepts `key` in this state.
    pub fn can_handle(&self, key: Key) -> (b: bool)
        ensures
            b == self@.can_handle(key),
    {
        match key {
            Key::Enter => {
                if !self.cur_done && self.cur_show_chinese {
                    match self.cur_selected_level {
                        Level::Unselected => true,
                        level => match self.words_map.get(&self.cur_word.0) {
                            Some(word) => word.can_apply(level),
                            None => true,
                        },
                    }
                } else {
                    true
                }
            },
            _ => true,
        }
    }

    /// Whether [`App::run`] accepts `event` in this state.
    pub fn accepts(&self, event: Event) -> (b: bool)
        ensures
            b == self@.accepts(event),
    {
        match event {
            Event::Key(key) => self.exit || self.can_handle(key),
            _ => true,
        }
    }

    /// Handles one key. Returns whether the store was merged into and is to be
    /// written.
    pub fn handle_event(&mut self, key: Key) -> (save: bool)
        requires
            old(self)@.can_handle(key),
        ensures
            final(self)@ == old(self)@.handle(key),
            save == (key == Key::Esc),
    {
        match key {
            Key::Esc => {
                self.learning_data.update(&self.words_map);
                self.exit = true;
                return true;
            },
            _ => {},
        }
        if self.cur_done {
            return false;
        }
        match key {
            Key::Tab => {
                self.cur_input.clear();
                if self.cur_show_chinese {
                    self.cur_selected_level = self.cur_selected_level.next();
                }
            },
            Key::Backspace => {
                self.cur_input.pop();
            },
            Key::Enter => {
                if !self.cur_show_chinese {
                    self.cur_input.clear();
                    self.cur_show_chinese = true;
                } else {
                    match self.cur_selected_level {
                        Level::Unselected => {},
                        level => {
                            let rated = match self.words_map.get(&self.cur_word.0) {
                                Some(word) => Some(word.clone().apply(level)),
                                None => None,
                            };
                            match rated {
                                Some(word) => {
                                    self.words_map.insert(self.cur_word.0.clone(), word);
                                },
                                None => {},
                            }
                            self.cur_input.clear();
                            self.cur_done = true;
                            self.cur_show_chinese = false;
                            self.cur_selected_level = Level::Unselected;
                        },
                    }
                }
            },
            Key::Char(c) => {
                if !self.cur_show_chinese && self.cur_input.len()
                    < self.cur_word.0.as_str().unicode_len() {
                    self.cur_input.push(c);
                }
            },
            _ => {},
        }
        false
    }

    /// Presents the next word, or ends the round.
    fn advance(&mut self) -> (action: Action)
        ensures
            (final(self)@, action) == old(self)@.advance(),
    {
        if self.exit {
            return Action::Exit;
        }
        if !self.cur_done {
            return Action::Draw;
        }
        if self.position < self.words_map.len() {
            match self.words_map.get_index(self.position) {
                Some((term, word)) => {
                    self.cur_word = (term.clone(), word.clone());
                },
                None => {},
            }
            self.position = self.position + 1;
            self.cur_done = false;
            self.cur_show_chinese = false;
            self.cur_selected_level = Level::Unselected;
            self.cur_input.clear();
            Action::Draw
        } else {
            self.learning_data.update(&self.words_map);
            let again = self.words_map.weak();
            if again.is_empty() {
                self.exit = true;
            } else {
                self.words_map = again;
                self.position = 0;
            }
            Action::Save
        }
    }

    /// One turn of the session. `count` and `max_proficiency` say how a first
    /// round is drawn from the store, where there is no word list.
    pub fn run(&mut self, event: Event, count: usize, max_proficiency: isize) -> (action: Action)
        requires
            old(self)@.accepts(event),
        ensures
            (final(self)@, action) == old(self)@.run(
                event,
                count as nat,
                max_proficiency as int,
            ),
    {
        match event {
            Event::Start => {
                if self.words_map.is_empty() {
                    self.words_map = self.learning_data.get_words_map(count, max_proficiency);
                }
                self.position = 0;
                self.advance()
            },
            Event::Saved => self.advance(),
            Event::Key(key) => {
                if self.exit {
                    Action::Exit
                } else if self.handle_event(key) {
                    Action::Save
                } else {
                    self.advance()
                }
            },
        }
    }

    /// The current term as it is shown while the user types it: each character
    /// with its mark.
    pub fn build_text(&self) -> (text: Vec<(char, Mark)>)
        ensures
            text@ == prompt(self@.cur_word.0, self@.cur_input),
    {
        let term = chars_of(self.cur_word.0.as_str());
        let mut text: Vec<(char, Mark)> = Vec::new();
        let mut i: usize = 0;
        while i < term.len()
            invariant
                i <= term.len(),
                term@ == self@.cur_word.0,
                text@ == prompt(term@, self@.cur_input).take(i as int),
            decreases term.len() - i,
        {
            let mark = if i < self.cur_input.len() {
                if term[i] == self.cur_input[i] {
                    Mark::Correct
                } else {
                    Mark::Wrong
                }
            } else if i == self.cur_input.len() {
                Mark::Cursor
            } else {
                Mark::Plain
            };
            text.push((term[i], mark));
            assert(text@ =~= prompt(term@, self@.cur_input).take(i + 1));
            i += 1;
        }
        assert(text@ =~= prompt(term@, self@.cur_input));
        text
    }

    pub fn title(&self) -> (title: &String)
        ensures
            title@ == self@.title,
    {
        &self.title
    }

    pub fn learning_data(&self) -> (learning_data: &LearningData)
        ensures
            learning_data@ == self@.learning_data,
    {
        &self.learning_data
    }

    pub fn words_map(&self) -> (words_map: &WordsMap)
        ensures
            words_map@ == self@.words_map,
            distinct_terms(words_map@),
    {
        proof {
            use_type_invariant(&self.words_map);
            self.words_map.lemma_distinct();
        }
        &self.words_map
    }

    /// The word on screen: its term, and its record as it was presented.
    pub fn cur_word(&self) -> (cur_word: (&String, &Word))
        ensures
            (cur_word.0@, cur_word.1@) == self@.cur_word,
    {
        (&self.cur_word.0, &self.cur_word.1)
    }

    pub fn cur_show_chinese(&self) -> (b: bool)
        ensures
            b == self@.cur_show_chinese,
    {
        self.cur_show_chinese
    }

    pub fn cur_selected_level(&self) -> (level: Level)
        ensures
            level == self@.cur_selected_level,
    {
        self.cur_selected_level
    }

    pub fn cur_input(&self) -> (input: &Vec<char>)
        ensures
            input@ == self@.cur_input,
    {
        &self.cur_input
    }

    pub fn cur_done(&self) -> (b: bool)
        ensures
            b == self@.cur_done,
    {
        self.cur_done
    }

    pub fn exit(&self) -> (b: bool)
        ensures
            b == self@.exit,
    {
        self.exit
    }
}

} // verus!
