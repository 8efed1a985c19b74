//! The console: what a line that the user has entered asks for, and what is shown in return.

use vstd::prelude::*;
use vstd::string::*;

use crate::metainfo;
use crate::text;

verus! {

/// What a line of the console asks for.
#[derive(Debug)]
pub enum Action {
    /// Show the help.
    Help,
    /// Add the torrent of the metainfo file with this path.
    Add(String),
    /// Remove the torrent with this id.
    Remove(usize),
    /// Show the torrents.
    List,
    /// Show the files of a torrent.
    ShowFiles,
    /// Start the download of the torrent with this id.
    Download(usize),
    /// Seed a torrent.
    Seed,
    /// Nothing at all.
    Nothing,
    /// Show how the command is used.
    Usage(String),
    /// A command for a torrent, but what stands for its id is no number.
    NotANumber,
    /// There is no such command.
    Invalid,
}

/// What a line of the console asks for, in mathematical terms.
pub enum ActionView {
    Help,
    Add(Seq<char>),
    Remove(usize),
    List,
    ShowFiles,
    Download(usize),
    Seed,
    Nothing,
    Usage(Seq<char>),
    NotANumber,
    Invalid,
}

impl View for Action {
    type V = ActionView;

    open spec fn view(&self) -> ActionView {
        match self {
            Action::Help => ActionView::Help,
            Action::Add(path) => ActionView::Add(path@),
            Action::Remove(id) => ActionView::Remove(*id),
            Action::List => ActionView::List,
            Action::ShowFiles => ActionView::ShowFiles,
            Action::Download(id) => ActionView::Download(*id),
            Action::Seed => ActionView::Seed,
            Action::Nothing => ActionView::Nothing,
            Action::Usage(usage) => ActionView::Usage(usage@),
            Action::NotANumber => ActionView::NotANumber,
            Action::Invalid => ActionView::Invalid,
        }
    }
}

/// The id of a torrent that a word denotes, if it denotes one.
pub open spec fn id_of(word: Seq<char>) -> Option<usize> {
    match text::parsed(word, usize::MAX as nat) {
        Some(n) => Some(n as usize),
        None => None,
    }
}

/// The help, as it is shown.
pub open spec fn help_text() -> Seq<char> {
    "Commands:
add/a <torrent file path>        - add a new torrent file for tracking
remove/r <torrent id>            - remove given torrent from tracking list
list/l                           - list torrents being tracked
showfiles/sf <torrent id>        - show files in the torrent
download/d <torrent id>          - download this torrent
seed/s <torrent id>              - seed this torrent
help/h                           - show this help"@
}

/// The help: the commands of the console and what they do.
pub fn help() -> (r: &'static str)
    ensures
        r@ == help_text(),
{
    "Commands:
add/a <torrent file path>        - add a new torrent file for tracking
remove/r <torrent id>            - remove given torrent from tracking list
list/l                           - list torrents being tracked
showfiles/sf <torrent id>        - show files in the torrent
download/d <torrent id>          - download this torrent
seed/s <torrent id>              - seed this torrent
help/h                           - show this help"
}

/// What a line of words asks for.
pub open spec fn action_of(words: Seq<Seq<char>>) -> ActionView {
    let command = words[0];
    if command == "help"@ || command == "h"@ {
        ActionView::Help
    } else if command == "add"@ || command == "a"@ {
        if words.len() == 2 {
            ActionView::Add(words[1])
        } else {
            ActionView::Usage("usage: add <torrent file>"@)
        }
    } else if command == "remove"@ || command == "r"@ {
        if words.len() == 2 {
            match id_of(words[1]) {
                Some(id) => ActionView::Remove(id),
                None => ActionView::NotANumber,
            }
        } else {
            ActionView::Usage("usage: remove <torrent number>"@)
        }
    } else if command == "list"@ || command == "l"@ {
        if words.len() == 1 {
            ActionView::List
        } else {
            ActionView::Usage("usage: list"@)
        }
    } else if command == "showfiles"@ || command == "sf"@ {
        if words.len() == 2 {
            ActionView::ShowFiles
        } else {
            ActionView::Usage("usage: showfiles <torrent id>"@)
        }
    } else if command == "download"@ || command == "d"@ {
        if words.len() == 2 {
            match id_of(words[1]) {
                Some(id) => ActionView::Download(id),
                None => ActionView::NotANumber,
            }
        } else {
            ActionView::Usage("usage: download <torrent id>"@)
        }
    } else if command == "seed"@ || command == "s"@ {
        if words.len() == 2 {
            ActionView::Seed
        } else {
            ActionView::Usage("usage: seed <torrent id>"@)
        }
    } else if command == ""@ {
        ActionView::Nothing
    } else {
        ActionView::Invalid
    }
}

/// The id of a torrent that a word denotes, if it denotes one.
fn parse_id(word: &str) -> (r: Option<usize>)
    ensures
        r == id_of(word@),
{
    match text::parse_decimal(word, usize::MAX as u64) {
        Some(n) => Some(n as usize),
        None => None,
    }
}

/// Reads the port to listen on out of a text.
pub fn parse_port(text: &str) -> (r: Option<u16>)
    ensures
        r == (match text::parsed(text@, u16::MAX as nat) {
            Some(n) => Some(n as u16),
            None => None,
        }),
{
    match text::parse_decimal(text, u16::MAX as u64) {
        Some(n) => Some(n as u16),
        None => None,
    }
}

/// What a line asks for. White space around it does not count; its words are parted by single
/// spaces.
pub fn parse(line: &str) -> (r: Action)
    ensures
        r@ == action_of(text::words(text::trimmed(line@))),
{
    let words = text::split_words(text::trim(line));
    let ghost all = text::texts(words@);
    assert(all[0] == words@[0]@);
    let command: &str = words[0].as_str();
    if text::same(command, "help") || text::same(command, "h") {
        return Action::Help;
    }
    if text::same(command, "add") || text::same(command, "a") {
        return if words.len() == 2 {
            assert(all[1] == words@[1]@);
            Action::Add(words[1].clone())
        } else {
            Action::Usage("usage: add <torrent file>".to_owned())
        };
    }
    if text::same(command, "remove") || text::same(command, "r") {
        return if words.len() == 2 {
            assert(all[1] == words@[1]@);
            match parse_id(words[1].as_str()) {
                Some(id) => Action::Remove(id),
                None => Action::NotANumber,
            }
        } else {
            Action::Usage("usage: remove <torrent number>".to_owned())
        };
    }
    if text::same(command, "list") || text::same(command, "l") {
        return if words.len() == 1 {
            Action::List
        } else {
            Action::Usage("usage: list".to_owned())
        };
    }
    if text::same(command, "showfiles") || text::same(command, "sf") {
        return if words.len() == 2 {
            Action::ShowFiles
        } else {
            Action::Usage("usage: showfiles <torrent id>".to_owned())
        };
    }
    if text::same(command, "download") || text::same(command, "d") {
        return if words.len() == 2 {
            assert(all[1] == words@[1]@);
            match parse_id(words[1].as_str()) {
                Some(id) => Action::Download(id),
                None => Action::NotANumber,
            }
        } else {
            Action::Usage("usage: download <torrent id>".to_owned())
        };
    }
    if text::same(command, "seed") || text::same(command, "s") {
        return if words.len() == 2 {
            Action::Seed
        } else {
            Action::Usage("usage: seed <torrent id>".to_owned())
        };
    }
    if text::same(command, "") {
        Action::Nothing
    } else {
        Action::Invalid
    }
}

/// The lines of the first `n` torrents of a list.
pub open spec fn torrent_lines(list: Seq<(usize, String)>, n: int) -> Seq<char>
    decreases n,
{
    if n <= 0 {
        Seq::empty()
    } else {
        torrent_lines(list, n - 1) + metainfo::line(
            text::right_aligned(text::decimal(list[n - 1].0 as nat), 2) + "  "@,
            list[n - 1].1@,
        )
    }
}

/// A list of torrents, as it is shown.
pub open spec fn torrent_list(list: Seq<(usize, String)>) -> Seq<char> {
    metainfo::line("ID  Torrent"@, Seq::empty()) + metainfo::line(
        "--  ----------------------------------------------"@,
        Seq::empty(),
    ) + torrent_lines(list, list.len() as int)
}

/// A list of torrents, one to a line, under its title.
pub fn show_list(list: &Vec<(usize, String)>) -> (r: String)
    ensures
        r@ == torrent_list(list@),
{
    let mut out = String::new();
    metainfo::push_line(&mut out, "ID  Torrent", "");
    metainfo::push_line(&mut out, "--  ----------------------------------------------", "");
    proof {
        reveal_strlit("");
        assert(""@ =~= Seq::<char>::empty());
    }
    let ghost title = out@;
    assert(title + torrent_lines(list@, 0) =~= title);
    let mut i: usize = 0;
    while i < list.len()
        invariant
            i <= list@.len(),
            out@ == title + torrent_lines(list@, i as int),
        decreases list@.len() - i,
    {
        text::push_right_aligned(&mut out, text::decimal_text(list[i].0 as u64).as_str(), 2);
        metainfo::push_line(&mut out, "  ", list[i].1.as_str());
        assert(out@ =~= title + torrent_lines(list@, i + 1));
        i = i + 1;
    }
    assert(out@ =~= torrent_list(list@));
    out
}

/// The id of a torrent, as a list of torrents shows it, is read back as that id.
pub proof fn law_id_read_back(id: usize)
    ensures
        id_of(text::decimal(id as nat)) == Some(id),
        action_of(seq!["remove"@, text::decimal(id as nat)]) == ActionView::Remove(id),
        action_of(seq!["r"@, text::decimal(id as nat)]) == ActionView::Remove(id),
        action_of(seq!["download"@, text::decimal(id as nat)]) == ActionView::Download(id),
        action_of(seq!["d"@, text::decimal(id as nat)]) == ActionView::Download(id),
{
    text::law_decimal_read_back(id as nat, usize::MAX as nat);
    reveal_strlit("help");
    reveal_strlit("h");
    reveal_strlit("add");
    reveal_strlit("a");
    reveal_strlit("remove");
    reveal_strlit("r");
    reveal_strlit("list");
    reveal_strlit("l");
    reveal_strlit("showfiles");
    reveal_strlit("sf");
    reveal_strlit("download");
    reveal_strlit("d");
    assert("remove"@.len() == 6 && "remove"@[0] == 'r');
    assert("r"@.len() == 1 && "r"@[0] == 'r');
    assert("download"@.len() == 8 && "download"@[0] == 'd');
    assert("d"@.len() == 1 && "d"@[0] == 'd');
}

/// Whether a word is one of two.
pub open spec fn is_one_of(word: Seq<char>, long: Seq<char>, short: Seq<char>) -> bool {
    word == long || word == short
}

/// Each command has a long and a short form, and asks for one thing, with the word behind it where
/// it takes one. With the wrong number of words its usage is shown, and where an id is no number
/// that is told; a line without words asks for nothing, and any other command is not known.
pub proof fn law_commands(words: Seq<Seq<char>>)
    requires
        words.len() > 0,
    ensures
        ({
            let action = action_of(words);
            let one = words.len() == 1;
            let two = words.len() == 2;
            &&& is_one_of(words[0], "help"@, "h"@) <==> action == ActionView::Help
            &&& is_one_of(words[0], "add"@, "a"@) && two <==> action is Add
            &&& action matches ActionView::Add(path) ==> path == words[1]
            &&& is_one_of(words[0], "remove"@, "r"@) && two && text::parsed(
                words[1],
                usize::MAX as nat,
            ) is Some <==> action is Remove
            &&& action matches ActionView::Remove(id) ==> text::parsed(words[1], usize::MAX as nat)
                == Some(id as nat)
            &&& is_one_of(words[0], "download"@, "d"@) && two && text::parsed(
                words[1],
                usize::MAX as nat,
            ) is Some <==> action is Download
            &&& action matches ActionView::Download(id) ==> text::parsed(
                words[1],
                usize::MAX as nat,
            ) == Some(id as nat)
            &&& is_one_of(words[0], "list"@, "l"@) && one <==> action == ActionView::List
            &&& is_one_of(words[0], "showfiles"@, "sf"@) && two <==> action == ActionView::ShowFiles
            &&& is_one_of(words[0], "seed"@, "s"@) && two <==> action == ActionView::Seed
            &&& action is NotANumber <==> (is_one_of(words[0], "remove"@, "r"@) || is_one_of(
                words[0],
                "download"@,
                "d"@,
            )) && two && text::parsed(words[1], usize::MAX as nat) is None
            &&& is_one_of(words[0], "add"@, "a"@) && !two ==> action == ActionView::Usage(
                "usage: add <torrent file>"@,
            )
            &&& is_one_of(words[0], "remove"@, "r"@) && !two ==> action == ActionView::Usage(
                "usage: remove <torrent number>"@,
            )
            &&& is_one_of(words[0], "list"@, "l"@) && !one ==> action == ActionView::Usage(
                "usage: list"@,
            )
            &&& is_one_of(words[0], "showfiles"@, "sf"@) && !two ==> action == ActionView::Usage(
                "usage: showfiles <torrent id>"@,
            )
            &&& is_one_of(words[0], "download"@, "d"@) && !two ==> action == ActionView::Usage(
                "usage: download <torrent id>"@,
            )
            &&& is_one_of(words[0], "seed"@, "s"@) && !two ==> action == ActionView::Usage(
                "usage: seed <torrent id>"@,
            )
            &&& words[0].len() == 0 <==> action is Nothing
            &&& action is Invalid ==> words[0].len() > 0
            &&& action is Invalid <==> !(words[0].len() == 0 || is_one_of(words[0], "help"@, "h"@)
                || is_one_of(words[0], "add"@, "a"@) || is_one_of(words[0], "remove"@, "r"@)
                || is_one_of(words[0], "list"@, "l"@) || is_one_of(words[0], "showfiles"@, "sf"@)
                || is_one_of(words[0], "download"@, "d"@) || is_one_of(words[0], "seed"@, "s"@))
        }),
{
    reveal_strlit("help");
    reveal_strlit("h");
    reveal_strlit("add");
    reveal_strlit("a");
    reveal_strlit("remove");
    reveal_strlit("r");
    reveal_strlit("list");
    reveal_strlit("l");
    reveal_strlit("showfiles");
    reveal_strlit("sf");
    reveal_strlit("download");
    reveal_strlit("d");
    reveal_strlit("seed");
    reveal_strlit("s");
    reveal_strlit("");
    assert("help"@[0] == 'h' && "h"@[0] == 'h');
    assert("add"@[0] == 'a' && "a"@[0] == 'a');
    assert("remove"@[0] == 'r' && "r"@[0] == 'r');
    assert("list"@[0] == 'l' && "l"@[0] == 'l');
    assert("showfiles"@[0] == 's' && "showfiles"@.len() == 9);
    assert("sf"@[0] == 's' && "sf"@.len() == 2);
    assert("seed"@[0] == 's' && "seed"@.len() == 4);
    assert("s"@[0] == 's' && "s"@.len() == 1);
    assert("download"@[0] == 'd' && "d"@[0] == 'd');
    if words[0].len() == 0 {
        assert(words[0] =~= ""@);
    }
    if words.len() == 2 && text::parsed(words[1], usize::MAX as nat) is Some {
        assert(text::parsed(words[1], usize::MAX as nat)->Some_0 <= usize::MAX);
    }
}

/// The list of torrents has a title of two lines, and then one line for each torrent, in the order
/// of the list: the id, aligned to two characters, two spaces and the name.
pub proof fn law_torrent_list(list: Seq<(usize, String)>, i: int)
    requires
        0 <= i < list.len(),
    ensures
        torrent_list(list) == "ID  Torrent"@ + "\n"@
            + "--  ----------------------------------------------"@ + "\n"@ + torrent_lines(
            list,
            list.len() as int,
        ),
        torrent_lines(list, 0) == Seq::<char>::empty(),
        torrent_lines(list, i + 1) == torrent_lines(list, i) + text::right_aligned(
            text::decimal(list[i].0 as nat),
            2,
        ) + "  "@ + list[i].1@ + "\n"@,
{
    let title = "ID  Torrent"@ + "\n"@ + "--  ----------------------------------------------"@
        + "\n"@;
    assert(torrent_list(list) =~= title + torrent_lines(list, list.len() as int));
    assert(torrent_lines(list, i + 1) =~= torrent_lines(list, i) + text::right_aligned(
        text::decimal(list[i].0 as nat),
        2,
    ) + "  "@ + list[i].1@ + "\n"@);
}

} // verus!
