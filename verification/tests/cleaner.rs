//! The tag normalizer on fixture documents.
use playmission::xmlcleaner::{clean, dirty};

fn dirty_fixture() -> String {
    "<OBJECT: GAME >\n<ATTR: Name >My Game</ATTR>\n<OBJECT: PROPERTIES >\n<OBJECT: PROPERTY ><ATTR: NAME >Active</ATTR><ATTR: VALUE >true</ATTR></OBJECT>\n</OBJECT>\n</OBJECT>"
    .to_string()
}

fn clean_fixture() -> String {
    "<GAME>\n<Name>My Game</Name>\n<PROPERTIES>\n<PROPERTY><NAME>Active</NAME><VALUE>true</VALUE></PROPERTY>\n</PROPERTIES>\n</GAME>"
    .to_string()
}

#[test]
fn get_clean() {
    let expected = clean_fixture();
    let dirty_text = dirty_fixture();
    let found = clean(&dirty_text).unwrap();
    assert_eq!(expected, found);
}

#[test]
fn get_dirty() {
    let expected = dirty_fixture();
    let clean_text = clean_fixture();
    let found = dirty(&clean_text).unwrap();
    assert_eq!(expected, found);
}

// normalizing and re-wrapping restores the original exactly, nested
// same-named wrappers included
#[test]
fn dirty_clean_roundtrip() {
    let x = dirty_fixture();
    let cleaned = clean(&x).unwrap();
    let back = dirty(&cleaned).unwrap();
    assert_eq!(x, back);
}

#[test]
fn clean_rejects_unbalanced() {
    assert!(clean("<OBJECT: GAME ><ATTR: Name >x</ATTR>").is_err());
    assert!(clean("<OBJECT: GAME ></ATTR>").is_err());
    assert!(clean("no tags at all").is_ok());
}

#[test]
fn dirty_rejects_mismatched() {
    assert!(dirty("<GAME></MISMATCH>").is_err());
    assert!(dirty("<GAME>").is_err());
}
