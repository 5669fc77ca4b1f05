use ectfy::file_ops::{decrypt_folder, encrypt_folder};
use ectfy::metadata::ContentType;
use std::io::Read;

fn dir_header() -> tar::Header {
    let mut h = tar::Header::new_gnu();
    h.set_entry_type(tar::EntryType::Directory);
    h.set_size(0);
    h.set_mode(0o755);
    h.set_cksum();
    h
}

fn file_header(len: usize) -> tar::Header {
    let mut h = tar::Header::new_gnu();
    h.set_entry_type(tar::EntryType::Regular);
    h.set_size(len as u64);
    h.set_mode(0o644);
    h.set_cksum();
    h
}

fn archive_of(dirs: &[&str], files: &[(&str, &[u8])]) -> Vec<u8> {
    let mut builder = tar::Builder::new(Vec::new());
    for d in dirs {
        let mut h = dir_header();
        builder.append_data(&mut h, d, std::io::empty()).unwrap();
    }
    for (name, content) in files {
        let mut h = file_header(content.len());
        builder.append_data(&mut h, name, *content).unwrap();
    }
    builder.into_inner().unwrap()
}

fn entries_of(archive: &[u8]) -> Vec<(String, bool, Vec<u8>)> {
    let mut ar = tar::Archive::new(archive);
    let mut out = Vec::new();
    for e in ar.entries().unwrap() {
        let mut e = e.unwrap();
        let path = e.path().unwrap().to_string_lossy().into_owned();
        let is_dir = e.header().entry_type().is_dir();
        let mut content = Vec::new();
        e.read_to_end(&mut content).unwrap();
        out.push((path, is_dir, content));
    }
    out
}

#[test]
fn folder_with_two_files_round_trip() {
    let archive = archive_of(&["sub"], &[("a.txt", b"A"), ("sub/b.txt", b"B")]);
    let container = encrypt_folder(&archive, "project", "pw", "which project?").unwrap();
    let (meta, back) = decrypt_folder(&container, "pw").unwrap();
    assert_eq!(meta.original_name, "project");
    assert_eq!(meta.content_type, ContentType::Folder);
    assert_eq!(back, archive);
    let entries = entries_of(&back);
    assert!(entries.iter().any(|(p, d, c)| p == "a.txt" && !d && c == b"A"));
    assert!(entries.iter().any(|(p, d, c)| p == "sub/b.txt" && !d && c == b"B"));
}

#[test]
fn nested_tree_with_empty_dir_and_duplicates_round_trip() {
    let archive = archive_of(
        &["one", "one/two", "one/two/three", "empty"],
        &[("one/same.txt", b"twin"), ("one/two/three/same.txt", b"twin"), ("top.bin", &[0u8, 255, 7])],
    );
    let container = encrypt_folder(&archive, "tree", "pw", "h").unwrap();
    let (_, back) = decrypt_folder(&container, "pw").unwrap();
    assert_eq!(back, archive);
    let entries = entries_of(&back);
    assert!(entries.iter().any(|(p, d, _)| p.trim_end_matches('/') == "empty" && *d));
    assert!(entries.iter().any(|(p, d, _)| p.trim_end_matches('/') == "one/two/three" && *d));
    let twins = entries.iter().filter(|(_, d, c)| !d && c == b"twin").count();
    assert_eq!(twins, 2);
    assert!(entries.iter().any(|(p, _, c)| p == "top.bin" && c == &vec![0u8, 255, 7]));
}

#[test]
fn test_encrypt_decrypt_folder() {
    let archive = archive_of(
        &["subdir"],
        &[("file1.txt", b"File 1 content"), ("subdir/file2.txt", b"File 2 content")],
    );
    let container = encrypt_folder(&archive, "folder", "test_password", "Test question").unwrap();
    let (_, back) = decrypt_folder(&container, "test_password").unwrap();
    let entries = entries_of(&back);
    assert!(entries.iter().any(|(p, _, c)| p == "file1.txt" && c == b"File 1 content"));
    assert!(entries.iter().any(|(p, _, c)| p == "subdir/file2.txt" && c == b"File 2 content"));
}
