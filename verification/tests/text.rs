use fixture::path::{extension, has_extension};
use fixture::text::{positions, same_lowered, to_lower};

#[test]
fn to_lower_changes_ascii_capitals() {
    assert_eq!(to_lower('A'), 'a');
    assert_eq!(to_lower('M'), 'm');
    assert_eq!(to_lower('Z'), 'z');
}

#[test]
fn to_lower_keeps_the_rest() {
    assert_eq!(to_lower('a'), 'a');
    assert_eq!(to_lower('z'), 'z');
    assert_eq!(to_lower('@'), '@');
    assert_eq!(to_lower('['), '[');
    assert_eq!(to_lower('7'), '7');
    assert_eq!(to_lower('\u{c9}'), '\u{c9}');
}

#[test]
fn same_lowered_ignores_ascii_case() {
    assert!(same_lowered("TXT", "txt"));
    assert!(same_lowered("tXt", "TxT"));
    assert!(same_lowered("", ""));
}

#[test]
fn same_lowered_tells_texts_apart() {
    assert!(!same_lowered("txt", "txtx"));
    assert!(!same_lowered("txtx", "txt"));
    assert!(!same_lowered("txt", "tyt"));
    assert!(!same_lowered("", "a"));
    assert!(!same_lowered("\u{c9}", "\u{e9}"));
}

#[test]
fn positions_of_a_character_that_is_missing() {
    assert_eq!(positions("include dep.dat", '"'), None);
    assert_eq!(positions("", '"'), None);
}

#[test]
fn positions_of_a_character_that_occurs_once() {
    assert_eq!(positions("say \"", '"'), Some((4, 4)));
    assert_eq!(positions("\"", '"'), Some((0, 0)));
}

#[test]
fn positions_of_a_character_that_occurs_often() {
    assert_eq!(positions("a \"b\" c \"d\"", '"'), Some((2, 10)));
    assert_eq!(positions("\"\"", '"'), Some((0, 1)));
}

#[test]
fn positions_count_characters() {
    assert_eq!(positions("\u{e9}\u{e9} \"x\"", '"'), Some((3, 5)));
}

#[test]
fn extension_follows_the_last_dot() {
    assert_eq!(extension("a.txt"), Some("txt"));
    assert_eq!(extension("a.tar.gz"), Some("gz"));
    assert_eq!(extension("a.TXT"), Some("TXT"));
    assert_eq!(extension("..a"), Some("a"));
}

#[test]
fn extension_may_be_empty() {
    assert_eq!(extension("a."), Some(""));
}

#[test]
fn extension_is_missing_without_a_dot() {
    assert_eq!(extension("a"), None);
    assert_eq!(extension(""), None);
}

#[test]
fn extension_is_missing_behind_a_leading_dot() {
    assert_eq!(extension(".txt"), None);
    assert_eq!(extension("."), None);
}

#[test]
fn has_extension_ignores_case() {
    assert!(has_extension("a.TXT", "txt"));
    assert!(has_extension("a.txt", "TXT"));
    assert!(has_extension("a.tar.Gz", "gZ"));
}

#[test]
fn has_extension_wants_the_whole_extension() {
    assert!(!has_extension("a.txtx", "txt"));
    assert!(!has_extension("a.tx", "txt"));
    assert!(!has_extension("a.txt", "tx"));
}

#[test]
fn has_extension_finds_none_in_a_name_without_one() {
    assert!(!has_extension("txt", "txt"));
    assert!(!has_extension(".txt", "txt"));
    assert!(!has_extension("a", ""));
}

#[test]
fn has_extension_takes_an_empty_extension() {
    assert!(has_extension("a.", ""));
    assert!(!has_extension("a.", "txt"));
}
