use pazzfraze::word_count_for_bits;
use pazzfraze::Config;
use pazzfraze::Style;
use pazzfraze::WordList;

fn four_words() -> WordList {
    WordList::new("correct horse battery staple".to_string()).unwrap()
}

#[test]
fn word_count_for_bits_matches_ceiling() {
    // ceil(48 / log2(n)) for a few list sizes.
    assert_eq!(word_count_for_bits(7776, 48), 4);
    assert_eq!(word_count_for_bits(4, 48), 24);
    assert_eq!(word_count_for_bits(2, 48), 48);
    assert_eq!(word_count_for_bits(3, 48), 31);
    assert_eq!(word_count_for_bits(2, 64), 64);
    assert_eq!(word_count_for_bits(4, 1), 1);
    // A single-word list reaches no positive target.
    assert_eq!(word_count_for_bits(1, 48), u32::MAX);
}

#[test]
fn new_config_defaults() {
    let wl = four_words();
    let conf = Config::new(&wl);
    // Four words carry two bits each; the default 48-bit target needs 24.
    assert_eq!(conf.word_count(), 24);
    assert_eq!(conf.style(), &Style::Pascal);
    assert_eq!(conf.word_list().word_count(), 4);
}

#[test]
fn builders_last_write_wins() {
    let wl = four_words();
    let a = Config::new(&wl)
        .with_style_camel()
        .with_word_count(7)
        .with_style(Style::Concat("-".to_string()))
        .with_word_count(5);
    let b = Config::new(&wl)
        .with_word_count(9)
        .with_style_concat("-".to_string())
        .with_word_count(5);
    assert_eq!(a.word_count(), 5);
    assert_eq!(b.word_count(), 5);
    assert_eq!(a.style(), b.style());
    assert_eq!(a.style(), &Style::Concat("-".to_string()));
}

#[test]
fn builder_order_gives_equal_passwords() {
    let wl = four_words();
    let a = Config::new(&wl).with_style_camel().with_word_count(6);
    let b = Config::new(&wl).with_word_count(6).with_style_camel();
    assert_eq!(a.gen(b"master", b"domain"), b.gen(b"master", b"domain"));
}

#[test]
fn generation_is_deterministic() {
    let wl = four_words();
    let conf = Config::new(&wl).with_word_count(8);
    let one = conf.gen(b"hunter2", b"example.com");
    let two = conf.gen(b"hunter2", b"example.com");
    assert_eq!(one, two);
}

#[test]
fn single_word_list_repeats_the_word() {
    let wl = WordList::new("word".to_string()).unwrap();
    let conf = Config::new(&wl).with_word_count(3);
    assert_eq!(conf.gen(b"master", b"domain"), "WordWordWord");
    let camel = conf.with_style_camel();
    assert_eq!(camel.gen(b"master", b"domain"), "wordWordWord");
}

#[test]
fn generation_is_domain_sensitive() {
    let wl = four_words();
    let conf = Config::new(&wl);
    let one = conf.gen(b"master", b"example.com");
    let two = conf.gen(b"master", b"example.org");
    let three = conf.gen(b"master", b"example.com.");
    assert_ne!(one, two);
    assert_ne!(one, three);
    assert_ne!(two, three);
}

#[test]
fn empty_inputs_are_accepted() {
    let wl = four_words();
    let conf = Config::new(&wl).with_word_count(4);
    let password = conf.gen(b"", b"");
    assert!(!password.is_empty());
    assert!(!password.contains(char::is_whitespace));
}

#[test]
fn with_word_list_keeps_count_and_style() {
    let wl = four_words();
    let other = WordList::new("alpha beta".to_string()).unwrap();
    let conf = Config::new(&wl).with_word_count(5).with_style_camel();
    let moved = conf.with_word_list(&other);
    assert_eq!(moved.word_count(), 5);
    assert_eq!(moved.style(), &Style::Camel);
    assert_eq!(moved.word_list().word_count(), 2);
}

/// Pins the whole pipeline, seed derivation and index drawing included, for
/// one fixed input; the same draws are then joined in each style.
#[test]
fn pinned_password_each_style() {
    let wl = four_words();
    let conf = Config::new(&wl).with_word_count(6);
    assert_eq!(
        conf.gen(b"correct horse", b"example.com"),
        "CorrectHorseCorrectBatteryBatteryHorse"
    );
    let camel = Config::new(&wl).with_word_count(6).with_style_camel();
    assert_eq!(
        camel.gen(b"correct horse", b"example.com"),
        "correctHorseCorrectBatteryBatteryHorse"
    );
    let concat = Config::new(&wl)
        .with_word_count(6)
        .with_style_concat("-".to_string());
    assert_eq!(
        concat.gen(b"correct horse", b"example.com"),
        "correct-horse-correct-battery-battery-horse"
    );
}
