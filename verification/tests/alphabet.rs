use croissant::alphabet::{contains, index_of, letter_at, letter_count, number_of_letters};

#[test]
fn alphabet_contains() {
    assert_eq!(true, contains('A'));
    assert_eq!(true, contains('E'));
    assert_eq!(true, contains('Z'));
    assert_eq!(false, contains('@'));
    assert_eq!(false, contains('&'));
    assert_eq!(false, contains('À'));
}

#[test]
fn alphabet_letter_at() {
    assert_eq!('A', letter_at(0));
    assert_eq!('E', letter_at(4));
    assert_eq!('Z', letter_at(25));
}

#[test]
fn alphabet_index_of() {
    assert_eq!(Some(0), index_of('A'));
    assert_eq!(Some(4), index_of('E'));
    assert_eq!(Some(25), index_of('Z'));
    assert_eq!(None, index_of('@'));
    assert_eq!(None, index_of('&'));
    assert_eq!(None, index_of('À'));
}

#[test]
fn alphabet_number_of_letters() {
    assert_eq!(26, letter_count());
    assert_eq!(26, number_of_letters());
}

#[test]
fn alphabet_alphabet_contains() {
    assert_eq!(true, contains('A'));
    assert_eq!(true, contains('E'));
    assert_eq!(true, contains('Z'));
    assert_eq!(false, contains('@'));
    assert_eq!(false, contains('&'));
    assert_eq!(false, contains('À'));
}

#[test]
fn alphabet_alphabet_letter_at() {
    assert_eq!('A', letter_at(0));
    assert_eq!('E', letter_at(4));
    assert_eq!('Z', letter_at(25));
}

#[test]
fn alphabet_alphabet_index_of() {
    assert_eq!(Some(0), index_of('A'));
    assert_eq!(Some(4), index_of('E'));
    assert_eq!(Some(25), index_of('Z'));
    assert_eq!(None, index_of('@'));
    assert_eq!(None, index_of('&'));
    assert_eq!(None, index_of('À'));
}

#[test]
fn alphabet_alphabet_number_of_letters() {
    assert_eq!(26, number_of_letters())
}
