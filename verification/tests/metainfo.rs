use btclient::metainfo::{FileEntry, Metainfo, MetainfoError};

/// The metainfo file of a torrent with one file.
fn single(date: &str, length: i64, piece_length: i64, pieces: usize) -> Vec<u8> {
    let tracker = "http://tracker.example/announce";
    let mut out = format!("d8:announce{}:{}7:comment2:hi", tracker.len(), tracker);
    out.push_str("10:created by3:abc");
    out.push_str(date);
    out.push_str(&format!("4:infod6:lengthi{}e4:name8:file.txt", length));
    out.push_str(&format!("12:piece lengthi{}e", piece_length));
    out.push_str(&format!("6:pieces{}:{}ee", 20 * pieces, "x".repeat(20 * pieces)));
    out.into_bytes()
}

/// The metainfo file of a torrent with three files and no tracker.
fn multi() -> Vec<u8> {
    let mut out = String::from("d4:infod5:files");
    out.push_str("ld6:lengthi10000e4:pathl1:aeed6:lengthi50000e4:pathl3:sub1:bee");
    out.push_str("d6:lengthi5000e4:pathleee4:name3:dir12:piece lengthi32768e6:pieces40:");
    out.push_str(&"y".repeat(40));
    out.push_str("ee");
    out.into_bytes()
}

/// A torrent with the given files, which was made by hand.
fn torrent_of(lengths: &[i64], piece_length: i64) -> Metainfo {
    Metainfo {
        info_hash: vec![0xab; 20],
        main_tracker: None,
        comment: None,
        created_by: None,
        creation_date: None,
        directory: Some("d".to_owned()),
        piece_length,
        piece_count: 3,
        files: lengths.iter().map(|l| FileEntry { length: *l, paths: vec![] }).collect(),
    }
}

#[test]
fn single_file_is_read() {
    let m = Metainfo::from_bytes(&single("13:creation datei1000000000e", 40000, 32768, 2)).unwrap();
    assert_eq!(m.main_tracker.as_deref(), Some("http://tracker.example/announce"));
    assert_eq!(m.comment.as_deref(), Some("hi"));
    assert_eq!(m.created_by.as_deref(), Some("abc"));
    assert_eq!(m.creation_date, Some(1_000_000_000));
    assert_eq!(m.directory, None);
    assert_eq!(m.piece_length, 32768);
    assert_eq!(m.piece_count, 2);
    assert_eq!(m.files.len(), 1);
    assert_eq!(m.files[0].length, 40000);
    assert_eq!(m.files[0].paths, vec!["file.txt".to_owned()]);
    assert_eq!(m.info_hash.len(), 20);
    assert_eq!(&m.info_hash[..3], &[0xb2, 0x4d, 0x13]);
    assert!(m.usable() && m.placeable());
    assert_eq!(m.total_size(), 40000);
    assert_eq!(m.root_name(), "file.txt");
    assert_eq!(m.block_count(), 4);
}

#[test]
fn overview_of_a_single_file() {
    let m = Metainfo::from_bytes(&single("13:creation datei1000000000e", 40000, 32768, 2)).unwrap();
    let expected = "------Metainfo File Overview-----\n\
        InfoHash: b24d13fa1cf75dc1d0191a38eeeeaced1e00caaa\n\
        Main Tracker: http://tracker.example/announce\n\
        Comment: hi\n\
        Creator: abc\n\
        Creation Date: Some(2001-09-09T01:46:40Z)\n\
        Directory: None\n\
        Piece Length: 32768\n\
        Number Of Pieces: 2\n\
        Number Of Files: 1\n\
        Total File Size: 40000\n\n\
        File List:\n\
        Size (bytes)\tPath\n\
        ------------\t----------------------------------------------\n       \
        40000\tfile.txt\n";
    assert_eq!(m.overview().unwrap(), expected);
    assert_eq!(m.overview_with_date(&Some("2001-09-09T01:46:40Z".to_owned())), expected);
}

#[test]
fn overview_of_several_files() {
    let m = Metainfo::from_bytes(&multi()).unwrap();
    let expected = "------Metainfo File Overview-----\n\
        InfoHash: 73d3a8541c395abc31798c0a4f17f4cd57129030\n\
        Main Tracker: <missing>\n\
        Comment: <missing>\n\
        Creator: None\n\
        Creation Date: None\n\
        Directory: dir\n\
        Piece Length: 32768\n\
        Number Of Pieces: 2\n\
        Number Of Files: 3\n\
        Total File Size: 65000\n\n\
        File List:\n\
        Size (bytes)\tPath\n\
        ------------\t----------------------------------------------\n       \
        10000\ta\n       \
        50000\tsub\n        \
        5000\t<unknown>\n";
    assert_eq!(m.overview().unwrap(), expected);
}

#[test]
fn overview_needs_a_date_in_range() {
    for date in [i64::MAX, i64::MIN, 9_999_999_999_999, -9_999_999_999_999] {
        let mut m = torrent_of(&[1], 1);
        m.creation_date = Some(date);
        assert_eq!(m.overview(), None);
    }
    let mut m = torrent_of(&[1], 1);
    m.creation_date = Some(-1);
    assert!(m.overview().unwrap().contains("Creation Date: Some(1969-12-31T23:59:59Z)\n"));
}

#[test]
fn several_files_are_laid_out() {
    let m = Metainfo::from_bytes(&multi()).unwrap();
    assert_eq!(m.root_name(), "dir");
    let files = m.layout();
    let places: Vec<(&str, usize, i64, usize, i64)> = files
        .iter()
        .map(|f| (f.name.as_str(), f.start_piece, f.start_offset, f.end_piece, f.end_offset))
        .collect();
    assert_eq!(
        places,
        vec![
            ("a", 0, 0, 0, 9999),
            ("sub", 0, 10000, 1, 27231),
            ("<unknown>", 1, 27232, 1, 32231),
        ],
    );
}

#[test]
fn files_adjoin() {
    let m = torrent_of(&[5, 0, 7, 100, 1], 10);
    let files = m.layout();
    let mut pos = 0;
    for (file, entry) in files.iter().zip(&m.files) {
        assert_eq!(file.start_piece as i64 * 10 + file.start_offset, pos);
        pos += entry.length;
        assert_eq!(file.end_piece as i64 * 10 + file.end_offset + 1, pos);
    }
    assert_eq!(pos, m.total_size());
}

#[test]
fn first_empty_file_ends_before_it_starts() {
    let files = torrent_of(&[0, 4], 10).layout();
    assert_eq!((files[0].start_piece, files[0].start_offset), (0, 0));
    assert_eq!((files[0].end_piece, files[0].end_offset), (0, -1));
}

#[test]
fn garbage_is_malformed() {
    assert_eq!(Metainfo::from_bytes(&b"hello".to_vec()).unwrap_err(), MetainfoError::Malformed);
    assert_eq!(Metainfo::from_bytes(&vec![]).unwrap_err(), MetainfoError::Malformed);
    assert_eq!(Metainfo::from_bytes(&b"de".to_vec()).unwrap_err(), MetainfoError::Malformed);
}

#[test]
fn usable_needs_sizes_that_can_be_counted() {
    assert!(torrent_of(&[1, 2], 5).usable());
    assert!(torrent_of(&[1, 2], 0).usable());
    assert!(torrent_of(&[i64::MIN], 5).usable());
    assert!(!torrent_of(&[i64::MAX, 1], 5).usable());
    assert!(!torrent_of(&[i64::MIN, -1], 5).usable());
    let mut nameless = torrent_of(&[1], 5);
    nameless.directory = None;
    assert!(!nameless.usable());
    let mut long = torrent_of(&[1], 5);
    long.info_hash = vec![0; 21];
    assert!(!long.usable());
}

#[test]
fn files_are_placed_in_pieces_with_a_length() {
    assert!(torrent_of(&[1, 2], 5).placeable());
    assert!(!torrent_of(&[1, 2], 0).placeable());
    assert!(torrent_of(&[], 0).placeable());
    assert!(torrent_of(&[], 0).layout().is_empty());
    assert!(!torrent_of(&[i64::MAX, 1], 5).placeable());
    assert!(!torrent_of(&[i64::MIN], 5).placeable());
    assert!(!torrent_of(&[i64::MIN + 1], -1).placeable());
    let mut huge = torrent_of(&[1], i64::MAX);
    huge.piece_count = usize::MAX;
    assert!(!huge.placeable());
}

#[test]
fn file_list_aligns_sizes() {
    let mut m = torrent_of(&[7, 1_234_567_890_123], 5);
    m.files[0].paths = vec!["a".to_owned(), "b".to_owned()];
    assert_eq!(
        m.file_list(),
        "File List:\nSize (bytes)\tPath\n\
         ------------\t----------------------------------------------\n\u{20}          \
         7\ta\n1234567890123\t<unknown>\n",
    );
}
