use btclient::btclient::BTClient;
use btclient::metainfo::MetainfoError;
use btclient::torrent::Command;

/// The metainfo file of a torrent with one file.
fn single(date: &str, length: i64, piece_length: i64, pieces: usize) -> Vec<u8> {
    let tracker = "http://tracker.example/announce";
    let mut out = format!("d8:announce{}:{}7:comment2:hi", tracker.len(), tracker);
    out.push_str("10:created by3:abc");
    out.push_str(date);
    out.push_str(&format!("4:infod6:lengthi{}e4:name8:file.txt", length));
    out.push_str(&format!("12:piece lengthi{}e", piece_length));
    out.push_str(&format!("6:pieces{}:{}ee", 20 * pieces, "x".repeat(20 * pieces)));
    out.into_bytes()
}

fn sorted(client: &BTClient) -> Vec<(usize, String)> {
    let mut list = client.list();
    list.sort();
    list
}

#[test]
fn added_torrents_are_listed() {
    let mut client = BTClient::new(6881, 1_500_000_042);
    assert!(client.list().is_empty());
    let first = client.add(&single("", 40000, 32768, 2)).ok().unwrap();
    assert_eq!(first.id, 0);
    assert_eq!(first.torrent.root_name(), "file.txt");
    assert!(first.overview.contains("Total File Size: 40000\n"));
    assert_eq!(client.track("other".to_owned()), 1);
    assert_eq!(sorted(&client), vec![(0, "file.txt".to_owned()), (1, "other".to_owned())]);
}

#[test]
fn added_torrent_has_its_files_placed() {
    let mut client = BTClient::new(6881, 1);
    let t = client.add(&single("", 40000, 32768, 2)).ok().unwrap().torrent;
    assert_eq!(t.file_names(), vec!["file.txt".to_owned()]);
    assert_eq!(t.get_block_num(3), Ok(0));
}

#[test]
fn directory_without_files_needs_no_piece_length() {
    let mut client = BTClient::new(6881, 1);
    let bytes = b"d4:infod5:filesle4:name3:dir12:piece lengthi0e6:pieces0:ee".to_vec();
    let added = client.add(&bytes).ok().unwrap();
    assert_eq!(added.torrent.root_name(), "dir");
    assert!(added.torrent.file_names().is_empty());
    assert_eq!(client.list(), vec![(0, "dir".to_owned())]);
}

#[test]
fn peer_id_is_that_of_the_start() {
    for (secs, id) in [
        (1_500_000_042u64, "-bittorrent-rs-42"),
        (100_000, "-bittorrent-rs-0"),
        (99_999, "-bittorrent-rs-99999"),
    ] {
        let mut client = BTClient::new(6881, secs);
        let added = client.add(&single("", 1, 1, 1)).ok().unwrap();
        let url = added.torrent.announce_url().unwrap();
        assert!(url.contains(&format!("&peer_id={}&port=6881&", id)));
        assert!(id.len() >= 16 && id.len() <= 20);
    }
}

#[test]
fn unusable_files_are_not_added() {
    let mut client = BTClient::new(1, 1);
    assert_eq!(client.add(&vec![1]).err(), Some(MetainfoError::Malformed));
    assert_eq!(client.add(&single("", 1, 0, 1)).err(), Some(MetainfoError::Unusable));
    let late = single("13:creation datei99999999999999e", 1, 1, 1);
    assert_eq!(client.add(&late).err(), Some(MetainfoError::DateOutOfRange));
    assert!(client.list().is_empty());
    assert_eq!(client.add(&single("", 1, 1, 1)).ok().unwrap().id, 0);
}

#[test]
fn removed_ids_are_not_given_out_again() {
    let mut client = BTClient::new(1, 1);
    assert_eq!(client.next_id(), 0);
    assert_eq!(client.track("a".to_owned()), 0);
    assert_eq!(client.track("b".to_owned()), 1);
    assert_eq!(client.next_id(), 2);
    assert_eq!(client.remove(1), Ok(1));
    assert_eq!(client.remove(1), Ok(1));
    assert_eq!(client.track("c".to_owned()), 2);
    assert_eq!(sorted(&client), vec![(0, "a".to_owned()), (2, "c".to_owned())]);
    assert_eq!(client.remove(0), Ok(1));
    assert_eq!(client.remove(2), Ok(0));
    assert!(client.list().is_empty());
}

#[test]
fn commands_go_to_tracked_torrents() {
    let mut client = BTClient::new(1, 1);
    assert!(!client.contains(0));
    client.track("a".to_owned());
    client.track("b".to_owned());
    assert!(client.contains(0) && client.contains(1) && !client.contains(2));
    assert_eq!(client.start_download(0), (0, Command::StartDownload));
    assert_eq!(client.showfiles(1), (1, Command::ListFiles));
    client.remove(0).unwrap();
    assert!(!client.contains(0));
}
