use hangman::{parse_guess, pick_word, split_words, vec_to_string};

#[test]
fn letters_are_joined_by_spaces() {
    assert_eq!(vec_to_string(&vec!['c', '_', 't']), "c _ t");
    assert_eq!(vec_to_string(&vec!['a']), "a");
    assert_eq!(vec_to_string(&vec![]), "");
}

#[test]
fn guess_line_with_white_space_around() {
    assert_eq!(parse_guess("a\n"), Some('a'));
    assert_eq!(parse_guess("  Q \t\r\n"), Some('Q'));
    assert_eq!(parse_guess("ß"), Some('ß'));
}

#[test]
fn guess_line_refused() {
    assert_eq!(parse_guess(""), None);
    assert_eq!(parse_guess(" \n"), None);
    assert_eq!(parse_guess("ab\n"), None);
    assert_eq!(parse_guess("a b"), None);
    assert_eq!(parse_guess("3\n"), None);
    assert_eq!(parse_guess("_"), None);
}

#[test]
fn words_split_on_any_white_space() {
    assert_eq!(split_words("cat dog\nbird\t\n  fish "), vec!["cat", "dog", "bird", "fish"]);
    assert_eq!(split_words("one"), vec!["one"]);
    assert!(split_words("").is_empty());
    assert!(split_words(" \n\t ").is_empty());
}

#[test]
fn picked_word_comes_from_the_list() {
    let words = vec!["cat".to_string(), "dog".to_string(), "egg".to_string()];
    for _ in 0..20 {
        let w = pick_word(&words).expect("a non-empty list gives a word");
        assert!(words.contains(&w));
    }
    assert_eq!(pick_word(&vec!["solo".to_string()]), Some("solo".to_string()));
}

#[test]
fn empty_list_gives_no_word() {
    assert_eq!(pick_word(&vec![]), None);
}
