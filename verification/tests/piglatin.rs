use workbench::piglatin::{convert_enlish, to_ascii_lowercase};

#[test]
fn consonant_goes_to_the_end() {
    assert_eq!("ichael-May", convert_enlish("Michael"));
    assert_eq!("odge-Hay", convert_enlish("Hodge"));
    assert_eq!("irst-fay", convert_enlish("first"));
    assert_eq!("-yay", convert_enlish("y"));
}

#[test]
fn vowel_gets_hay() {
    assert_eq!("apple-hay", convert_enlish("apple"));
    assert_eq!("Apple-hay", convert_enlish("Apple"));
    assert_eq!("u-hay", convert_enlish("u"));
}

#[test]
fn other_words_stay() {
    assert_eq!("", convert_enlish(""));
    assert_eq!("1st", convert_enlish("1st"));
    assert_eq!("état", convert_enlish("état"));
    assert_eq!(" b", convert_enlish(" b"));
}

#[test]
fn words_beyond_ascii_keep_their_characters() {
    assert_eq!("äse-Kay", convert_enlish("Käse"));
}

#[test]
fn lowercase_touches_ascii_capitals_only() {
    assert_eq!('a', to_ascii_lowercase('A'));
    assert_eq!('z', to_ascii_lowercase('Z'));
    assert_eq!('m', to_ascii_lowercase('m'));
    assert_eq!('[', to_ascii_lowercase('['));
    assert_eq!('@', to_ascii_lowercase('@'));
    assert_eq!('É', to_ascii_lowercase('É'));
}
