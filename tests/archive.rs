use std::io::Read;

use es_plugin_generators::zippy::{archive, path_stored_as_given, ArchiveError, ArchiveItem};

fn read_back(bytes: &[u8]) -> Vec<(String, Option<Vec<u8>>)> {
    let zip = rawzip::ZipArchive::from_slice(bytes).unwrap();
    let mut entries = zip.entries();
    let mut out = Vec::new();
    while let Some(entry) = entries.next_entry().unwrap() {
        let path = entry.file_path().try_normalize().unwrap().as_ref().to_string();
        if entry.is_dir() {
            out.push((path, None));
        } else {
            let local = zip.get_entry(entry.wayfinder()).unwrap();
            let decoder = flate2::bufread::DeflateDecoder::new(local.data());
            let mut data = Vec::new();
            local.verifying_reader(decoder).read_to_end(&mut data).unwrap();
            out.push((path, Some(data)));
        }
    }
    out
}

#[test]
fn archive_round_trip() {
    let items = vec![
        ArchiveItem::File("plugin.txt".to_string(), b"name \"System Shuffler\"".to_vec()),
        ArchiveItem::Directory("data/".to_string()),
        ArchiveItem::File("data/main.txt".to_string(), b"mission x\n\trepeat".to_vec()),
    ];
    let bytes = archive(&items).ok().unwrap();
    assert_eq!(&bytes[0..4], b"PK\x03\x04");
    let entries = read_back(&bytes);
    assert_eq!(entries.len(), 3);
    assert_eq!(entries[0], ("plugin.txt".to_string(), Some(b"name \"System Shuffler\"".to_vec())));
    assert_eq!(entries[1].0, "data/");
    assert_eq!(entries[1].1, None);
    assert_eq!(entries[2], ("data/main.txt".to_string(), Some(b"mission x\n\trepeat".to_vec())));
}

#[test]
fn archive_is_deterministic() {
    let items = vec![ArchiveItem::File("a.txt".to_string(), b"same".to_vec())];
    assert_eq!(archive(&items).ok(), archive(&items).ok());
}

#[test]
fn empty_archive() {
    let bytes = archive(&Vec::new()).ok().unwrap();
    assert!(read_back(&bytes).is_empty());
}

#[test]
fn paths_that_would_change_are_refused() {
    let items = vec![
        ArchiveItem::Directory("data/".to_string()),
        ArchiveItem::File("/abs.txt".to_string(), b"x".to_vec()),
    ];
    match archive(&items) {
        Err(ArchiveError::Path(p)) => assert_eq!(p, "/abs.txt"),
        _ => panic!("a leading slash must be refused"),
    }
    assert!(!path_stored_as_given(&"data".to_string(), true));
    assert!(path_stored_as_given(&"data/".to_string(), true));
    assert!(!path_stored_as_given(&"data/".to_string(), false));
    assert!(!path_stored_as_given(&"a//b".to_string(), false));
    assert!(!path_stored_as_given(&"a/../b".to_string(), false));
    assert!(!path_stored_as_given(&"./a".to_string(), false));
    assert!(!path_stored_as_given(&"c:\\a".to_string(), false));
    assert!(path_stored_as_given(&"data/presets/universe_preset_0/main.txt".to_string(), false));
}
