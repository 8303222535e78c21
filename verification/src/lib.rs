//! A vocabulary flashcard trainer: word records with a proficiency score, a
//! progress store that rounds are merged into, the selection of a round's
//! working set, and the session engine that walks a working set one word at a
//! time.

pub mod args;
pub mod word;
pub mod word_list;
pub mod words_map;
pub mod data;
pub mod app;
pub mod rounds;
