use pazzfraze::Style;

fn join(style: &Style, words: &[&str]) -> String {
    let mut out = String::new();
    let n = words.len();
    for (i, w) in words.iter().enumerate() {
        style.push(w, &mut out, i == 0, i == n - 1);
    }
    out
}

const WORDS: [&str; 4] = ["correct", "horse", "battery", "staple"];

#[test]
fn pascal_capitalizes_every_word() {
    assert_eq!(join(&Style::Pascal, &WORDS), "CorrectHorseBatteryStaple");
}

#[test]
fn camel_leaves_first_word_lowercase() {
    assert_eq!(join(&Style::Camel, &WORDS), "correctHorseBatteryStaple");
}

#[test]
fn concat_joins_with_separator() {
    assert_eq!(
        join(&Style::Concat("-".to_string()), &WORDS),
        "correct-horse-battery-staple"
    );
}

#[test]
fn concat_with_empty_separator() {
    assert_eq!(
        join(&Style::Concat(String::new()), &WORDS),
        "correcthorsebatterystaple"
    );
}

#[test]
fn default_style_is_pascal() {
    assert_eq!(Style::default(), Style::Pascal);
}

#[test]
fn capitalization_may_grow_the_word() {
    // The uppercase mapping of a sharp s is two characters.
    assert_eq!(join(&Style::Pascal, &["\u{df}eta"]), "SSeta");
}

#[test]
fn empty_word_appends_nothing() {
    assert_eq!(join(&Style::Pascal, &[""]), "");
    assert_eq!(join(&Style::Camel, &["", "x"]), "X");
}
