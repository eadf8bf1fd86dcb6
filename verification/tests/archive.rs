//! The virtual archive over real zip containers.
use std::io::Write;
use playmission::error::PlaymissionError;
use playmission::filemap::Filemap;

fn fixture_zip() -> Vec<u8> {
    let mut z = zip::ZipWriter::new(std::io::Cursor::new(Vec::new()));
    let opts = zip::write::SimpleFileOptions::default();
    z.start_file("foo", opts).unwrap();
    z.write_all(b"oof").unwrap();
    z.start_file("bar", opts).unwrap();
    z.write_all(b"rab").unwrap();
    z.finish().unwrap().into_inner()
}

fn from_fixture() -> Filemap {
    Filemap::load(&fixture_zip()).unwrap()
}

// every entry round-trips its exact byte content through the container
#[test]
fn loads() {
    let mut expected = Filemap::new();
    expected.add("foo".to_string(), b"oof".to_vec()).unwrap();
    expected.add("bar".to_string(), b"rab".to_vec()).unwrap();

    let found = from_fixture();

    assert_eq!(expected, found);
}

#[test]
fn add() {
    let mut filemap = from_fixture();
    if let Err(_) = filemap.add("new".to_string(), b"new".to_vec()) {
        panic!("errored when okay");
    }
}

#[test]
fn add_with_existing() {
    let mut filemap = from_fixture();
    if let Ok(_) = filemap.add("foo".to_string(), b"new".to_vec()) {
        panic!("inserted when illegal");
    }
}

#[test]
fn get_closure() {
    let mut filemap = from_fixture();
    let expected = Some(b"oof".to_vec());
    let found = filemap.take_closure(|s: &str| s.ends_with("oo"));
    assert_eq!(expected, found);
}

#[test]
fn get_closure_without_match() {
    let mut filemap = from_fixture();
    let expected = None;
    let found = filemap.take_closure(|s: &str| s.ends_with("ooo"));
    assert_eq!(expected, found);
}

// writing a filemap and loading the bytes gives the same entries back
#[test]
fn save_load_roundtrip() {
    let mut filemap = Filemap::new();
    filemap.add("a.txt".to_string(), b"alpha".to_vec()).unwrap();
    filemap.add("b.bin".to_string(), vec![0u8, 255u8, 7u8]).unwrap();
    let bytes = filemap.save().unwrap();
    let back = Filemap::load(&bytes).unwrap();
    assert_eq!(filemap, back);
}

#[test]
fn load_rejects_junk() {
    let err = Filemap::load(&b"this is not a zip container".to_vec()).unwrap_err();
    assert!(matches!(err, PlaymissionError::ArchiveFormat(_)));
}

#[test]
fn take_and_get() {
    let mut filemap = from_fixture();
    assert_eq!(filemap.get("foo").map(|b| b.clone()), Some(b"oof".to_vec()));
    assert!(filemap.contains("foo"));
    assert_eq!(filemap.take("foo"), Some(b"oof".to_vec()));
    // an exclusive claim removes the entry; a second claim fails
    assert_eq!(filemap.take("foo"), None);
    assert!(!filemap.contains("foo"));
}

#[test]
fn merge_rejects_collision() {
    let mut left = Filemap::new();
    left.add("shared".to_string(), b"1".to_vec()).unwrap();
    let mut right = Filemap::new();
    right.add("shared".to_string(), b"2".to_vec()).unwrap();
    let err = left.merge(right).unwrap_err();
    assert!(matches!(err, PlaymissionError::TakenFileName(_)));
    // nothing moved
    assert_eq!(left.get("shared").map(|b| b.clone()), Some(b"1".to_vec()));

    let mut other = Filemap::new();
    other.add("fresh".to_string(), b"3".to_vec()).unwrap();
    left.merge(other).unwrap();
    assert!(left.contains("fresh"));
}
