use mp3_walker::error::Mp3Error;
use mp3_walker::sniff::{classify_entry, is_mp3, EntryClassification, EntryKind};
use mp3_walker::walker::{DirectoryWalker, WalkAction};

enum Node {
    Dir(Vec<&'static str>),
    File(Vec<u8>),
    Locked,
}

struct FakeFs {
    nodes: Vec<(&'static str, Node)>,
}

impl FakeFs {
    fn node(&self, path: &str) -> Option<&Node> {
        self.nodes.iter().find(|(p, _)| *p == path).map(|(_, n)| n)
    }

    fn inspect(&self, path: &str) -> (Result<EntryKind, String>, Result<Vec<u8>, String>) {
        match self.node(path) {
            None => (Err("no such entry".to_string()), Ok(Vec::new())),
            Some(Node::Dir(_)) | Some(Node::Locked) => (Ok(EntryKind::Directory), Ok(Vec::new())),
            Some(Node::File(bytes)) => {
                let n = bytes.len().min(3);
                (Ok(EntryKind::RegularFile), Ok(bytes[..n].to_vec()))
            }
        }
    }

    fn list(&self, path: &str) -> Result<Vec<Result<String, String>>, String> {
        match self.node(path) {
            Some(Node::Dir(children)) => Ok(children
                .iter()
                .map(|c| Ok(format!("{}/{}", path, c)))
                .collect()),
            _ => Err("permission denied".to_string()),
        }
    }
}

fn walk(fs: &FakeFs, root: &str) -> (Vec<String>, DirectoryWalker) {
    let mut w = DirectoryWalker::new(root.to_string());
    let mut found = Vec::new();
    loop {
        match w.next_action() {
            WalkAction::Classify(p) => {
                let (stat, header) = fs.inspect(&p);
                let class = classify_entry(stat, header);
                if let Some(p) = w.handle_entry(p, class) {
                    found.push(p);
                }
            }
            WalkAction::List(d) => {
                let listing = fs.list(&d);
                w.repopulate_files(d, listing);
            }
            WalkAction::Exhausted => break,
        }
    }
    (found, w)
}

#[test]
fn marker_bytes_qualify() {
    assert!(is_mp3(&[0x49, 0x44, 0x33]));
    assert!(is_mp3(b"ID3\x04\x00rest"));
    assert!(!is_mp3(b"id3"));
    assert!(!is_mp3(b"hello"));
    assert!(!is_mp3(&[0xff, 0xfe, 0x00]));
}

#[test]
fn short_header_is_not_a_failure() {
    for header in [vec![], vec![0x49], vec![0x49, 0x44]] {
        let c = classify_entry(Ok(EntryKind::RegularFile), Ok(header));
        assert!(matches!(c, EntryClassification::NonQualifyingFile));
    }
}

#[test]
fn classification_cases() {
    assert!(matches!(
        classify_entry(Ok(EntryKind::Directory), Ok(b"ID3".to_vec())),
        EntryClassification::Directory
    ));
    assert!(matches!(
        classify_entry(Ok(EntryKind::Other), Ok(b"ID3".to_vec())),
        EntryClassification::NonQualifyingFile
    ));
    assert!(matches!(
        classify_entry(Ok(EntryKind::RegularFile), Ok(b"ID3".to_vec())),
        EntryClassification::QualifyingFile
    ));
    match classify_entry(Err("gone".to_string()), Ok(Vec::new())) {
        EntryClassification::Unreadable(c) => assert_eq!(c, "gone"),
        _ => panic!("expected an unreadable entry"),
    }
    match classify_entry(Ok(EntryKind::RegularFile), Err("denied".to_string())) {
        EntryClassification::Unreadable(c) => assert_eq!(c, "denied"),
        _ => panic!("expected an unreadable entry"),
    }
}

#[test]
fn scenario_marker_file_among_text() {
    let fs = FakeFs {
        nodes: vec![
            ("r", Node::Dir(vec!["song.mp3", "notes.txt"])),
            ("r/song.mp3", Node::File(b"ID3\x03\x00data".to_vec())),
            ("r/notes.txt", Node::File(b"hello".to_vec())),
        ],
    };
    let (found, w) = walk(&fs, "r");
    assert_eq!(found, vec!["r/song.mp3".to_string()]);
    assert!(w.errors().is_empty());
    assert!(w.is_exhausted());
}

#[test]
fn scenario_locked_directory() {
    let fs = FakeFs {
        nodes: vec![
            ("r", Node::Dir(vec!["locked", "track.mp3"])),
            ("r/locked", Node::Locked),
            ("r/track.mp3", Node::File(b"ID3abc".to_vec())),
        ],
    };
    let (found, w) = walk(&fs, "r");
    assert_eq!(found, vec!["r/track.mp3".to_string()]);
    assert_eq!(w.errors().len(), 1);
    match &w.errors()[0] {
        Mp3Error::Io { path, .. } => assert_eq!(path, "r/locked"),
        other => panic!("unexpected failure {:?}", other),
    }
}

#[test]
fn scenario_empty_file() {
    let fs = FakeFs {
        nodes: vec![
            ("r", Node::Dir(vec!["empty.mp3"])),
            ("r/empty.mp3", Node::File(Vec::new())),
        ],
    };
    let (found, w) = walk(&fs, "r");
    assert!(found.is_empty());
    assert!(w.errors().is_empty());
}

#[test]
fn nested_tree_yields_every_qualifying_file() {
    let fs = FakeFs {
        nodes: vec![
            ("r", Node::Dir(vec!["a", "b", "x.mp3", "y.txt"])),
            ("r/a", Node::Dir(vec!["c", "one.mp3"])),
            ("r/a/c", Node::Dir(vec!["deep.mp3", "short.mp3"])),
            ("r/a/c/deep.mp3", Node::File(b"ID3deep".to_vec())),
            ("r/a/c/short.mp3", Node::File(b"ID".to_vec())),
            ("r/a/one.mp3", Node::File(b"ID3one".to_vec())),
            ("r/b", Node::Dir(vec![])),
            ("r/x.mp3", Node::File(b"ID3x".to_vec())),
            ("r/y.txt", Node::File(b"ID4".to_vec())),
        ],
    };
    let (mut found, w) = walk(&fs, "r");
    found.sort();
    assert_eq!(
        found,
        vec![
            "r/a/c/deep.mp3".to_string(),
            "r/a/one.mp3".to_string(),
            "r/x.mp3".to_string()
        ]
    );
    assert!(w.errors().is_empty());
}

#[test]
fn vanished_entry_is_recorded_and_walk_goes_on() {
    let fs = FakeFs {
        nodes: vec![
            ("r", Node::Dir(vec!["gone.mp3", "kept.mp3"])),
            ("r/kept.mp3", Node::File(b"ID3".to_vec())),
        ],
    };
    let (found, w) = walk(&fs, "r");
    assert_eq!(found, vec!["r/kept.mp3".to_string()]);
    assert_eq!(w.errors().len(), 1);
    assert!(matches!(&w.errors()[0], Mp3Error::Io { path, .. } if path == "r/gone.mp3"));
}

#[test]
fn unlistable_root_gives_one_failure() {
    let fs = FakeFs { nodes: vec![("r", Node::Locked)] };
    let (found, w) = walk(&fs, "r");
    assert!(found.is_empty());
    assert_eq!(w.errors().len(), 1);
}

#[test]
fn walk_can_pause_between_steps() {
    let mut w = DirectoryWalker::new("r".to_string());
    match w.next_action() {
        WalkAction::List(d) => {
            assert_eq!(d, "r");
            w.repopulate_files(
                d,
                Ok(vec![
                    Ok("r/a".to_string()),
                    Err("bad entry".to_string()),
                    Ok("r/b".to_string()),
                ]),
            );
        }
        _ => panic!("expected the root to be listed first"),
    }
    assert_eq!(w.errors().len(), 1);
    assert!(!w.is_exhausted());
    match w.next_action() {
        WalkAction::Classify(p) => assert_eq!(p, "r/b"),
        _ => panic!("expected the last listed entry"),
    }
    w.record_failure(Mp3Error::Decode { path: "r/b".to_string(), cause: "bad tag".to_string() });
    assert_eq!(w.errors().len(), 2);
    match w.next_action() {
        WalkAction::Classify(p) => assert_eq!(p, "r/a"),
        _ => panic!("expected the first listed entry"),
    }
    assert!(matches!(w.next_action(), WalkAction::Exhausted));
}
