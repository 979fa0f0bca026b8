use tmus::browser::{list_rows, sort_rows, DirEntryInfo, Row};

fn entry(name: &str, is_dir: bool, size: u64) -> DirEntryInfo {
    DirEntryInfo { name: name.to_string(), path: format!("/m/{name}"), is_dir, size }
}

fn names(rows: &[Row]) -> Vec<String> {
    rows.iter().map(|r| r.name()).collect()
}

#[test]
fn listing_order_and_filter() {
    let entries = vec![
        entry("b", true, 0),
        entry("Z.mp3", false, 10),
        entry(".hidden", true, 0),
        entry("notes.txt", false, 5),
        entry("A", true, 0),
        entry("a.flac", false, 20),
        entry(".x.mp3", false, 1),
    ];
    let rows = list_rows(true, &entries);
    assert_eq!(names(&rows), vec!["..", "A", "b", "a.flac", "Z.mp3"]);
    assert!(matches!(rows[0], Row::Parent));
    assert_eq!(rows[3].path(), Some("/m/a.flac".to_string()));
    match &rows[4] {
        Row::File { size, .. } => assert_eq!(*size, 10),
        _ => panic!("expected a file row"),
    }
    let rows = list_rows(false, &entries);
    assert_eq!(names(&rows), vec!["A", "b", "a.flac", "Z.mp3"]);
    assert_eq!(Row::Parent.path(), None);
}

#[test]
fn sorting_is_stable_and_case_insensitive() {
    let rows = vec![
        Row::File { name: "song.mp3".into(), path: "1".into(), size: 0 },
        Row::File { name: "Alpha.mp3".into(), path: "2".into(), size: 0 },
        Row::File { name: "SONG.mp3".into(), path: "3".into(), size: 0 },
        Row::File { name: "Song.mp3".into(), path: "4".into(), size: 0 },
        Row::File { name: "Ä.mp3".into(), path: "5".into(), size: 0 },
        Row::File { name: "ä.mp3".into(), path: "6".into(), size: 0 },
    ];
    let sorted = sort_rows(rows);
    let paths: Vec<String> = sorted.iter().map(|r| r.path().unwrap()).collect();
    assert_eq!(paths, vec!["2", "1", "3", "4", "5", "6"]);
}
