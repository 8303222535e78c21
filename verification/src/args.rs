//! The settings of a session, as the command line gives them.

use vstd::prelude::*;

verus! {

/// The number of words in a fresh round, unless another is asked for.
pub const DEFAULT_COUNT: usize = 20;

/// The proficiency from which a word is not drawn into a fresh round any more,
/// unless another is asked for.
pub const DEFAULT_MAX_PROFICIENCY: isize = 50;

/// The settings of a session.
#[derive(Debug)]
pub struct Args {
    /// The word list to learn from: `term : translation`, one entry per line.
    pub src_words_file: Option<String>,
    /// The snapshot file of the progress store.
    pub data_file: Option<String>,
    /// The number of words in a round drawn from the store.
    pub count: usize,
    /// A round drawn from the store holds only words below this proficiency.
    pub max_proficiency: isize,
}

impl Args {
    /// Where the progress store is kept: the file asked for, or the default
    /// under the directory `data`.
    pub open spec fn spec_data_path(self) -> Seq<char> {
        match self.data_file {
            Some(path) => path@,
            None => "./data/learning_data.json"@,
        }
    }

    /// Where the progress store is kept.
    pub fn data_path(&self) -> (path: String)
        ensures
            path@ == self.spec_data_path(),
    {
        match &self.data_file {
            Some(path) => path.clone(),
            None => "./data/learning_data.json".to_owned(),
        }
    }
}

impl Default for Args {
    fn default() -> (args: Args)
        ensures
            args.src_words_file is None,
            args.data_file is None,
            args.count == DEFAULT_COUNT,
            args.max_proficiency == DEFAULT_MAX_PROFICIENCY,
    {
        Args {
            src_words_file: None,
            data_file: None,
            count: DEFAULT_COUNT,
            max_proficiency: DEFAULT_MAX_PROFICIENCY,
        }
    }
}

} // verus!
