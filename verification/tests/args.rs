use word_trainer::args::{Args, DEFAULT_COUNT, DEFAULT_MAX_PROFICIENCY};

#[test]
fn default_settings() {
    let args = Args::default();
    assert_eq!(args.src_words_file, None);
    assert_eq!(args.data_file, None);
    assert_eq!(args.count, 20);
    assert_eq!(args.max_proficiency, 50);
    assert_eq!(DEFAULT_COUNT, 20);
    assert_eq!(DEFAULT_MAX_PROFICIENCY, 50);
}

#[test]
fn store_is_kept_under_data_unless_asked_otherwise() {
    let mut args = Args::default();
    assert_eq!(args.data_path(), "./data/learning_data.json");
    args.data_file = Some(String::from("/tmp/progress.json"));
    assert_eq!(args.data_path(), "/tmp/progress.json");
}
