use btclient::console::{help, parse, parse_port, show_list, Action};

#[test]
fn commands_have_short_forms() {
    for line in ["help", "h", "help me"] {
        assert!(matches!(parse(line), Action::Help));
    }
    for line in ["list", "l", "  list\t"] {
        assert!(matches!(parse(line), Action::List));
    }
    for line in ["showfiles 1", "sf x"] {
        assert!(matches!(parse(line), Action::ShowFiles));
    }
    for line in ["seed 1", "s 1"] {
        assert!(matches!(parse(line), Action::Seed));
    }
    for line in ["add a.torrent", "a a.torrent"] {
        match parse(line) {
            Action::Add(path) => assert_eq!(path, "a.torrent"),
            other => panic!("{:?}", other),
        }
    }
}

#[test]
fn ids_are_read_back() {
    for id in [0usize, 12, usize::MAX] {
        for command in ["remove", "r"] {
            match parse(&format!("{} {}", command, id)) {
                Action::Remove(n) => assert_eq!(n, id),
                other => panic!("{:?}", other),
            }
        }
        for command in ["download", "d"] {
            match parse(&format!("{} {}", command, id)) {
                Action::Download(n) => assert_eq!(n, id),
                other => panic!("{:?}", other),
            }
        }
    }
}

#[test]
fn id_has_to_be_a_number() {
    for line in ["remove x", "download -1", "d 18446744073709551616", "r 1.5"] {
        assert!(matches!(parse(line), Action::NotANumber));
    }
}

#[test]
fn usage_is_shown_for_the_wrong_number_of_words() {
    let cases = [
        ("add", "usage: add <torrent file>"),
        ("a b  c", "usage: add <torrent file>"),
        ("remove", "usage: remove <torrent number>"),
        ("list 1", "usage: list"),
        ("sf", "usage: showfiles <torrent id>"),
        ("d 1 2", "usage: download <torrent id>"),
        ("seed", "usage: seed <torrent id>"),
    ];
    for (line, expected) in cases {
        match parse(line) {
            Action::Usage(usage) => assert_eq!(usage, expected),
            other => panic!("{:?}", other),
        }
    }
}

#[test]
fn other_lines() {
    assert!(matches!(parse(""), Action::Nothing));
    assert!(matches!(parse("  \t "), Action::Nothing));
    assert!(matches!(parse("Help"), Action::Invalid));
    assert!(matches!(parse("exit"), Action::Invalid));
}

#[test]
fn ports_have_sixteen_bits() {
    assert_eq!(parse_port("6881"), Some(6881));
    assert_eq!(parse_port("65535"), Some(65535));
    assert_eq!(parse_port("65536"), None);
    assert_eq!(parse_port("x"), None);
}

#[test]
fn list_is_shown() {
    let list = vec![(0, "abc".to_owned()), (12, "d e".to_owned()), (345, String::new())];
    assert_eq!(
        show_list(&list),
        "ID  Torrent\n--  ----------------------------------------------\n\u{20}0  abc\n\
         12  d e\n345  \n",
    );
}

#[test]
fn help_names_the_commands() {
    let lines: Vec<&str> = help().split('\n').collect();
    assert_eq!(lines.len(), 8);
    assert_eq!(lines[0], "Commands:");
    assert_eq!(lines[7], "help/h                           - show this help");
}
