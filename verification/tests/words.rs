use pg_search::words::{join_words, letter_at, random_words, spell};

#[test]
fn letters_are_the_alphabet() {
    let alphabet: Vec<char> = "abcdefghijklmnopqrstuvwxyz".chars().collect();
    for (index, letter) in alphabet.iter().enumerate() {
        assert_eq!(letter_at(index), *letter);
    }
}

#[test]
fn words_are_spelled_from_positions() {
    assert_eq!(spell(&vec![7, 4, 11, 11, 14]), "hello");
    assert_eq!(spell(&Vec::new()), "");
}

#[test]
fn words_are_joined_with_single_spaces() {
    assert_eq!(join_words(&Vec::new()), "");
    assert_eq!(join_words(&vec!["abc".to_string()]), "abc");
    assert_eq!(
        join_words(&vec!["abc".to_string(), "defg".to_string(), "hij".to_string()]),
        "abc defg hij"
    );
}

#[test]
fn no_words_for_zero_or_less() {
    assert_eq!(random_words(0), "");
    assert_eq!(random_words(-3), "");
}

#[test]
fn random_words_have_three_to_seven_letters() {
    for count in [1, 2, 5, 40] {
        let text = random_words(count);
        let words: Vec<&str> = text.split(' ').collect();
        assert_eq!(words.len(), count as usize);
        for word in words {
            assert!(3 <= word.len() && word.len() <= 7, "{:?}", word);
            assert!(word.chars().all(|c| c.is_ascii_lowercase()), "{:?}", word);
        }
        assert_eq!(text.trim_end(), text);
    }
}

#[test]
fn random_words_are_drawn() {
    let text = random_words(400);
    let words: Vec<&str> = text.split(' ').collect();
    assert_eq!(words.len(), 400);
    assert!(words.iter().any(|word| word.len() != 3));
    assert!(words.iter().any(|word| word.len() != 7));
    assert!(text.chars().any(|c| c != 'a' && c != ' '));
    assert!(text.chars().any(|c| c != 'z' && c != ' '));
}
