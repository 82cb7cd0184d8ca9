use std::path::Path;
use vhs_gui::path::{ends_with, strip_suffix, FilePath};

fn text(p: &FilePath) -> String {
    String::from_utf8(p.as_bytes().to_vec()).unwrap()
}

/// Every path of up to `len` pieces out of a small stock.
fn stock(len: usize) -> Vec<String> {
    let pieces = ["/", ".", "..", "a", "b.mkv", "é"];
    let mut all: Vec<String> = vec![String::new()];
    let mut last = all.clone();
    for _ in 0..len {
        let mut next = Vec::new();
        for p in &last {
            for piece in pieces {
                next.push(format!("{p}{piece}"));
            }
        }
        all.extend(next.iter().cloned());
        last = next;
    }
    all
}

#[test]
fn parents_are_those_of_the_standard_library() {
    for s in stock(6) {
        let expected = Path::new(&s).parent().map(|p| p.to_str().unwrap().to_string());
        assert_eq!(FilePath::new(&s).parent().map(|p| text(&p)), expected, "{s}");
    }
}

#[test]
fn file_names_are_those_of_the_standard_library() {
    for s in stock(6) {
        let expected = Path::new(&s).file_name().map(|n| n.to_str().unwrap().as_bytes().to_vec());
        assert_eq!(FilePath::new(&s).file_name(), expected, "{s}");
    }
}

#[test]
fn joins_are_those_of_the_standard_library() {
    let names = stock(3);
    for dir in stock(3) {
        for name in &names {
            let expected = Path::new(&dir).join(name).to_str().unwrap().to_string();
            assert_eq!(text(&FilePath::new(&dir).join(name)), expected, "{dir} {name}");
        }
    }
}

#[test]
fn a_file_in_a_directory_is_found_there_again() {
    let p = FilePath::new("/videos/captures//").join("tape.mkv");
    assert_eq!(text(&p), "/videos/captures//tape.mkv");
    assert_eq!(p.file_name(), Some(b"tape.mkv".to_vec()));
    assert_eq!(text(&p.parent().unwrap()), "/videos/captures");
}

#[test]
fn paths_need_not_be_utf8() {
    let p = FilePath::from_bytes(b"/v/\xff\xfe/x\xff.mkv".to_vec());
    assert_eq!(p.file_name(), Some(b"x\xff.mkv".to_vec()));
    assert_eq!(p.parent().unwrap().as_bytes(), b"/v/\xff\xfe");
    assert_eq!(p.dir_of().join_bytes(b"\xfd").as_bytes(), b"/v/\xff\xfe/\xfd");
    assert_eq!(p.stem_of(), b"out".to_vec());
    assert_eq!(p.raw_stem_of(), b"x\xff".to_vec());
}

#[test]
fn derived_names_start_from_the_stem() {
    assert_eq!(FilePath::new("/v/tape.mkv").stem_of(), b"tape".to_vec());
    assert_eq!(FilePath::new("/v/tape.avi").stem_of(), b"tape.avi".to_vec());
    assert_eq!(FilePath::new("/v/.mkv").stem_of(), b"".to_vec());
    assert_eq!(FilePath::new("/v/..").stem_of(), b"out".to_vec());
    assert_eq!(text(&FilePath::new("tape.mkv").dir_of()), "");
    assert_eq!(text(&FilePath::new("/").dir_of()), ".");
    assert_eq!(text(&FilePath::new("").dir_of()), ".");
}

#[test]
fn suffixes_are_stripped() {
    assert!(ends_with(b"a_VD.mkv", b"_VD.mkv"));
    assert!(!ends_with(b"VD", b"_VD"));
    assert_eq!(strip_suffix(b"a_VD", b"_VD"), Some(b"a".to_vec()));
    assert_eq!(strip_suffix(b"a_VD_", b"_VD"), None);
}
