use rust_logger::error::ErrorKind;
use rust_logger::hashing::{
    content_hash, full_hash, hash_index, is_tracked, Content, Source, HASH_TRUNCATE_LENGTH,
};

fn cs(s: &str) -> Vec<char> {
    s.chars().collect()
}

fn file(path: &str, bytes: &[u8]) -> Source {
    Source { path: path.to_string(), content: Content::Bytes(bytes.to_vec()) }
}

fn patterns() -> Vec<Vec<char>> {
    vec![cs("in."), cs("log.")]
}

#[test]
fn hash_of_known_bytes() {
    assert_eq!(content_hash(b"abc"), "ba7816bf8f01cfea");
    assert_eq!(content_hash(b"").len(), HASH_TRUNCATE_LENGTH);
    assert_eq!(content_hash(b""), "e3b0c44298fc1c14");
    assert_eq!(
        full_hash(b"abc"),
        "ba7816bf8f01cfea414140de5dae2223b00361a396177a9cb410ff61f20015ad"
    );
}

#[test]
fn pattern_anywhere_in_the_path_tracks_the_file() {
    assert!(is_tracked("in.crack", &patterns()));
    assert!(is_tracked("run/log.lammps", &patterns()));
    assert!(is_tracked("main.log.old", &patterns()));
    assert!(!is_tracked("data.txt", &patterns()));
    assert!(!is_tracked("in", &patterns()));
    assert!(!is_tracked("in.crack", &Vec::new()));
    assert!(is_tracked("anything", &vec![cs("")]));
}

#[test]
fn index_of_one_file() {
    let index = hash_index(&vec![file("in.crack", b"abc")], &patterns()).unwrap();
    assert_eq!(index.files.len(), 1);
    assert_eq!(index.files.key(0), "in.crack");
    assert_eq!(index.files.value(0), "ba7816bf8f01cfea");
    assert_eq!(index.combined, "4f8b42c22dd3729b");
}

#[test]
fn index_folds_digests_in_sorted_order() {
    let entries = vec![
        file("log.lammps", b"hello\n"),
        file("notes.txt", b"not tracked"),
        file("in.crack", b"abc"),
    ];
    let index = hash_index(&entries, &patterns()).unwrap();
    assert_eq!(index.files.len(), 2);
    assert_eq!(index.files.key(0), "in.crack");
    assert_eq!(index.files.value(0), "ba7816bf8f01cfea");
    assert_eq!(index.files.key(1), "log.lammps");
    assert_eq!(index.files.value(1), "5891b5b522d5df08");
    assert_eq!(index.combined, "12392df861801747");
}

#[test]
fn index_is_deterministic_in_any_order() {
    let a = vec![file("in.crack", b"abc"), file("log.lammps", b"hello\n")];
    let b = vec![file("log.lammps", b"hello\n"), file("in.crack", b"abc")];
    let first = hash_index(&a, &patterns()).unwrap();
    let again = hash_index(&a, &patterns()).unwrap();
    let other = hash_index(&b, &patterns()).unwrap();
    assert_eq!(first.combined, again.combined);
    assert_eq!(first.combined, other.combined);
    assert_eq!(first.files.value(1), other.files.value(1));
}

#[test]
fn index_changes_with_a_single_byte() {
    let a = vec![file("in.crack", b"abc"), file("log.lammps", b"hello\n")];
    let b = vec![file("in.crack", b"abd"), file("log.lammps", b"hello\n")];
    let first = hash_index(&a, &patterns()).unwrap();
    let second = hash_index(&b, &patterns()).unwrap();
    assert_ne!(first.combined, second.combined);
    assert_ne!(first.files.value(0), second.files.value(0));
    assert_eq!(first.files.value(1), second.files.value(1));
}

#[test]
fn index_ignores_untracked_bytes() {
    let a = vec![file("in.crack", b"abc"), file("other", b"1")];
    let b = vec![file("in.crack", b"abc"), file("other", b"2")];
    assert_eq!(
        hash_index(&a, &patterns()).unwrap().combined,
        hash_index(&b, &patterns()).unwrap().combined
    );
}

#[test]
fn index_of_nothing_is_the_hash_of_nothing() {
    let index = hash_index(&Vec::new(), &patterns()).unwrap();
    assert_eq!(index.files.len(), 0);
    assert_eq!(index.combined, "e3b0c44298fc1c14");
}

#[test]
fn index_skips_directories() {
    let entries = vec![
        Source { path: "log.d".to_string(), content: Content::Directory },
        file("in.crack", b"abc"),
    ];
    let index = hash_index(&entries, &patterns()).unwrap();
    assert_eq!(index.files.len(), 1);
    assert_eq!(index.combined, "4f8b42c22dd3729b");
}

#[test]
fn index_fails_on_an_unreadable_tracked_file() {
    let entries = vec![
        file("in.crack", b"abc"),
        Source { path: "log.lammps".to_string(), content: Content::Unreadable },
    ];
    assert_eq!(hash_index(&entries, &patterns()).unwrap_err(), ErrorKind::HashIOError);
}

#[test]
fn index_passes_over_an_unreadable_untracked_file() {
    let entries = vec![
        file("in.crack", b"abc"),
        Source { path: "secret".to_string(), content: Content::Unreadable },
    ];
    assert_eq!(hash_index(&entries, &patterns()).unwrap().combined, "4f8b42c22dd3729b");
}
