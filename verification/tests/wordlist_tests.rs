use pazzfraze::WordList;

#[test]
fn parses_whitespace_runs() {
    let wl = WordList::new("  alpha   beta\ngamma\t\tdelta ".to_string()).unwrap();
    assert_eq!(wl.word_count(), 4);
    assert_eq!(wl.word(0), "alpha");
    assert_eq!(wl.word(1), "beta");
    assert_eq!(wl.word(2), "gamma");
    assert_eq!(wl.word(3), "delta");
}

#[test]
fn whitespace_only_fails() {
    assert!(WordList::new("   \n\t  ".to_string()).is_none());
}

#[test]
fn empty_text_fails() {
    assert!(WordList::new(String::new()).is_none());
}

#[test]
fn single_word_without_separators() {
    let wl = WordList::new("word".to_string()).unwrap();
    assert_eq!(wl.word_count(), 1);
    assert_eq!(wl.word(0), "word");
}

#[test]
fn unicode_separators_split_words() {
    let wl = WordList::new("one\u{a0}two\u{3000}three".to_string()).unwrap();
    assert_eq!(wl.word_count(), 3);
    assert_eq!(wl.word(0), "one");
    assert_eq!(wl.word(1), "two");
    assert_eq!(wl.word(2), "three");
}

#[test]
fn clone_keeps_words() {
    let wl = WordList::new("alpha beta".to_string()).unwrap();
    let copy = wl.clone();
    assert_eq!(copy.word_count(), 2);
    assert_eq!(copy.word(0), "alpha");
    assert_eq!(copy.word(1), "beta");
}
