//! The commands of the program.
use vstd::prelude::*;
use crate::text::str_eq;

verus! {

/// A command of the program, named by its first argument.
#[derive(Debug, PartialEq, Eq, Structural)]
pub enum Command {
    Help,
    Version,
    Clear,
    Reset,
    Backup,
    Info,
    Check,
    Add,
    Remove,
    Preset,
    /// Not a command: the program says there is nothing to do.
    Nothing,
}

/// The command that the word `w` names.
pub open spec fn spec_command(w: Seq<char>) -> Command {
    if w == "help"@ || w == "h"@ || w == "--help"@ || w == "-h"@ {
        Command::Help
    } else if w == "version"@ || w == "v"@ || w == "--version"@ || w == "-v"@ {
        Command::Version
    } else if w == "clear"@ || w == "c"@ || w == "--clear"@ || w == "-c"@ {
        Command::Clear
    } else if w == "reset"@ || w == "r"@ || w == "--reset"@ || w == "-r"@ || w == "base"@ || w
        == "--base"@ || w == "ba"@ || w == "-ba"@ {
        Command::Reset
    } else if w == "backup"@ || w == "b"@ || w == "--backup"@ || w == "-b"@ {
        Command::Backup
    } else if w == "info"@ || w == "i"@ || w == "--info"@ || w == "-i"@ || w == "stat"@ || w
        == "zstat"@ {
        Command::Info
    } else if w == "check"@ || w == "ch"@ || w == "ck"@ || w == "--check"@ || w == "-ch"@ || w
        == "-ck"@ {
        Command::Check
    } else if w == "add"@ || w == "a"@ || w == "--add"@ || w == "-a"@ {
        Command::Add
    } else if w == "remove"@ || w == "rem"@ || w == "delete"@ || w == "d"@ || w == "rm"@ || w
        == "--remove"@ || w == "-rem"@ || w == "--delete"@ || w == "-d"@ || w == "-rm"@ {
        Command::Remove
    } else if w == "preset"@ || w == "p"@ || w == "--preset"@ || w == "-p"@ {
        Command::Preset
    } else {
        Command::Nothing
    }
}

/// The command that the program's first argument names (exact words).
pub fn command(w: &str) -> (r: Command)
    ensures
        r == spec_command(w@),
{
    if str_eq(w, "help") || str_eq(w, "h") || str_eq(w, "--help") || str_eq(w, "-h") {
        Command::Help
    } else if str_eq(w, "version") || str_eq(w, "v") || str_eq(w, "--version") || str_eq(w, "-v") {
        Command::Version
    } else if str_eq(w, "clear") || str_eq(w, "c") || str_eq(w, "--clear") || str_eq(w, "-c") {
        Command::Clear
    } else if str_eq(w, "reset") || str_eq(w, "r") || str_eq(w, "--reset") || str_eq(w, "-r")
        || str_eq(w, "base") || str_eq(w, "--base") || str_eq(w, "ba") || str_eq(w, "-ba") {
        Command::Reset
    } else if str_eq(w, "backup") || str_eq(w, "b") || str_eq(w, "--backup") || str_eq(w, "-b") {
        Command::Backup
    } else if str_eq(w, "info") || str_eq(w, "i") || str_eq(w, "--info") || str_eq(w, "-i")
        || str_eq(w, "stat") || str_eq(w, "zstat") {
        Command::Info
    } else if str_eq(w, "check") || str_eq(w, "ch") || str_eq(w, "ck") || str_eq(w, "--check")
        || str_eq(w, "-ch") || str_eq(w, "-ck") {
        Command::Check
    } else if str_eq(w, "add") || str_eq(w, "a") || str_eq(w, "--add") || str_eq(w, "-a") {
        Command::Add
    } else if str_eq(w, "remove") || str_eq(w, "rem") || str_eq(w, "delete") || str_eq(w, "d")
        || str_eq(w, "rm") || str_eq(w, "--remove") || str_eq(w, "-rem") || str_eq(w, "--delete")
        || str_eq(w, "-d") || str_eq(w, "-rm") {
        Command::Remove
    } else if str_eq(w, "preset") || str_eq(w, "p") || str_eq(w, "--preset") || str_eq(w, "-p") {
        Command::Preset
    } else {
        Command::Nothing
    }
}


/// The words that name each command (`Nothing` has none): its name, its
/// long option, and its short forms.
pub open spec fn command_words(c: Command) -> Seq<Seq<char>> {
    match c {
        Command::Help => seq!["help"@, "h"@, "--help"@, "-h"@],
        Command::Version => seq!["version"@, "v"@, "--version"@, "-v"@],
        Command::Clear => seq!["clear"@, "c"@, "--clear"@, "-c"@],
        Command::Reset => seq!["reset"@, "r"@, "--reset"@, "-r"@, "base"@, "--base"@, "ba"@, "-ba"@],
        Command::Backup => seq!["backup"@, "b"@, "--backup"@, "-b"@],
        Command::Info => seq!["info"@, "i"@, "--info"@, "-i"@, "stat"@, "zstat"@],
        Command::Check => seq!["check"@, "ch"@, "ck"@, "--check"@, "-ch"@, "-ck"@],
        Command::Add => seq!["add"@, "a"@, "--add"@, "-a"@],
        Command::Remove => seq!["remove"@, "rem"@, "delete"@, "d"@, "rm"@, "--remove"@, "-rem"@, "--delete"@, "-d"@, "-rm"@],
        Command::Preset => seq!["preset"@, "p"@, "--preset"@, "-p"@],
        Command::Nothing => seq![],
    }
}

/// Each of a command's words names that command.
pub proof fn lemma_command_words(c: Command)
    ensures
        forall|i: int| 0 <= i < command_words(c).len() ==> spec_command(#[trigger] command_words(c)[i]) == c,
{
    reveal_strlit("help");
    assert("help"@.len() == 4);
    assert("help"@[0] == 'h');
    assert("help"@[1] == 'e');
    assert("help"@[2] == 'l');
    assert("help"@[3] == 'p');
    reveal_strlit("h");
    assert("h"@.len() == 1);
    assert("h"@[0] == 'h');
    reveal_strlit("--help");
    assert("--help"@.len() == 6);
    assert("--help"@[0] == '-');
    assert("--help"@[1] == '-');
    assert("--help"@[2] == 'h');
    assert("--help"@[3] == 'e');
    assert("--help"@[4] == 'l');
    assert("--help"@[5] == 'p');
    reveal_strlit("-h");
    assert("-h"@.len() == 2);
    assert("-h"@[0] == '-');
    assert("-h"@[1] == 'h');
    reveal_strlit("version");
    assert("version"@.len() == 7);
    assert("version"@[0] == 'v');
    assert("version"@[1] == 'e');
    assert("version"@[2] == 'r');
    assert("version"@[3] == 's');
    assert("version"@[4] == 'i');
    assert("version"@[5] == 'o');
    assert("version"@[6] == 'n');
    reveal_strlit("v");
    assert("v"@.len() == 1);
    assert("v"@[0] == 'v');
    reveal_strlit("--version");
    assert("--version"@.len() == 9);
    assert("--version"@[0] == '-');
    assert("--version"@[1] == '-');
    assert("--version"@[2] == 'v');
    assert("--version"@[3] == 'e');
    assert("--version"@[4] == 'r');
    assert("--version"@[5] == 's');
    assert("--version"@[6] == 'i');
    assert("--version"@[7] == 'o');
    assert("--version"@[8] == 'n');
    reveal_strlit("-v");
    assert("-v"@.len() == 2);
    assert("-v"@[0] == '-');
    assert("-v"@[1] == 'v');
    reveal_strlit("clear");
    assert("clear"@.len() == 5);
    assert("clear"@[0] == 'c');
    assert("clear"@[1] == 'l');
    assert("clear"@[2] == 'e');
    assert("clear"@[3] == 'a');
    assert("clear"@[4] == 'r');
    reveal_strlit("c");
    assert("c"@.len() == 1);
    assert("c"@[0] == 'c');
    reveal_strlit("--clear");
    assert("--clear"@.len() == 7);
    assert("--clear"@[0] == '-');
    assert("--clear"@[1] == '-');
    assert("--clear"@[2] == 'c');
    assert("--clear"@[3] == 'l');
    assert("--clear"@[4] == 'e');
    assert("--clear"@[5] == 'a');
    assert("--clear"@[6] == 'r');
    reveal_strlit("-c");
    assert("-c"@.len() == 2);
    assert("-c"@[0] == '-');
    assert("-c"@[1] == 'c');
    reveal_strlit("reset");
    assert("reset"@.len() == 5);
    assert("reset"@[0] == 'r');
    assert("reset"@[1] == 'e');
    assert("reset"@[2] == 's');
    assert("reset"@[3] == 'e');
    assert("reset"@[4] == 't');
    reveal_strlit("r");
    assert("r"@.len() == 1);
    assert("r"@[0] == 'r');
    reveal_strlit("--reset");
    assert("--reset"@.len() == 7);
    assert("--reset"@[0] == '-');
    assert("--reset"@[1] == '-');
    assert("--reset"@[2] == 'r');
    assert("--reset"@[3] == 'e');
    assert("--reset"@[4] == 's');
    assert("--reset"@[5] == 'e');
    assert("--reset"@[6] == 't');
    reveal_strlit("-r");
    assert("-r"@.len() == 2);
    assert("-r"@[0] == '-');
    assert("-r"@[1] == 'r');
    reveal_strlit("base");
    assert("base"@.len() == 4);
    assert("base"@[0] == 'b');
    assert("base"@[1] == 'a');
    assert("base"@[2] == 's');
    assert("base"@[3] == 'e');
    reveal_strlit("--base");
    assert("--base"@.len() == 6);
    assert("--base"@[0] == '-');
    assert("--base"@[1] == '-');
    assert("--base"@[2] == 'b');
    assert("--base"@[3] == 'a');
    assert("--base"@[4] == 's');
    assert("--base"@[5] == 'e');
    reveal_strlit("ba");
    assert("ba"@.len() == 2);
    assert("ba"@[0] == 'b');
    assert("ba"@[1] == 'a');
    reveal_strlit("-ba");
    assert("-ba"@.len() == 3);
    assert("-ba"@[0] == '-');
    assert("-ba"@[1] == 'b');
    assert("-ba"@[2] == 'a');
    reveal_strlit("backup");
    assert("backup"@.len() == 6);
    assert("backup"@[0] == 'b');
    assert("backup"@[1] == 'a');
    assert("backup"@[2] == 'c');
    assert("backup"@[3] == 'k');
    assert("backup"@[4] == 'u');
    assert("backup"@[5] == 'p');
    reveal_strlit("b");
    assert("b"@.len() == 1);
    assert("b"@[0] == 'b');
    reveal_strlit("--backup");
    assert("--backup"@.len() == 8);
    assert("--backup"@[0] == '-');
    assert("--backup"@[1] == '-');
    assert("--backup"@[2] == 'b');
    assert("--backup"@[3] == 'a');
    assert("--backup"@[4] == 'c');
    assert("--backup"@[5] == 'k');
    assert("--backup"@[6] == 'u');
    assert("--backup"@[7] == 'p');
    reveal_strlit("-b");
    assert("-b"@.len() == 2);
    assert("-b"@[0] == '-');
    assert("-b"@[1] == 'b');
    reveal_strlit("info");
    assert("info"@.len() == 4);
    assert("info"@[0] == 'i');
    assert("info"@[1] == 'n');
    assert("info"@[2] == 'f');
    assert("info"@[3] == 'o');
    reveal_strlit("i");
    assert("i"@.len() == 1);
    assert("i"@[0] == 'i');
    reveal_strlit("--info");
    assert("--info"@.len() == 6);
    assert("--info"@[0] == '-');
    assert("--info"@[1] == '-');
    assert("--info"@[2] == 'i');
    assert("--info"@[3] == 'n');
    assert("--info"@[4] == 'f');
    assert("--info"@[5] == 'o');
    reveal_strlit("-i");
    assert("-i"@.len() == 2);
    assert("-i"@[0] == '-');
    assert("-i"@[1] == 'i');
    reveal_strlit("stat");
    assert("stat"@.len() == 4);
    assert("stat"@[0] == 's');
    assert("stat"@[1] == 't');
    assert("stat"@[2] == 'a');
    assert("stat"@[3] == 't');
    reveal_strlit("zstat");
    assert("zstat"@.len() == 5);
    assert("zstat"@[0] == 'z');
    assert("zstat"@[1] == 's');
    assert("zstat"@[2] == 't');
    assert("zstat"@[3] == 'a');
    assert("zstat"@[4] == 't');
    reveal_strlit("check");
    assert("check"@.len() == 5);
    assert("check"@[0] == 'c');
    assert("check"@[1] == 'h');
    assert("check"@[2] == 'e');
    assert("check"@[3] == 'c');
    assert("check"@[4] == 'k');
    reveal_strlit("ch");
    assert("ch"@.len() == 2);
    assert("ch"@[0] == 'c');
    assert("ch"@[1] == 'h');
    reveal_strlit("ck");
    assert("ck"@.len() == 2);
    assert("ck"@[0] == 'c');
    assert("ck"@[1] == 'k');
    reveal_strlit("--check");
    assert("--check"@.len() == 7);
    assert("--check"@[0] == '-');
    assert("--check"@[1] == '-');
    assert("--check"@[2] == 'c');
    assert("--check"@[3] == 'h');
    assert("--check"@[4] == 'e');
    assert("--check"@[5] == 'c');
    assert("--check"@[6] == 'k');
    reveal_strlit("-ch");
    assert("-ch"@.len() == 3);
    assert("-ch"@[0] == '-');
    assert("-ch"@[1] == 'c');
    assert("-ch"@[2] == 'h');
    reveal_strlit("-ck");
    assert("-ck"@.len() == 3);
    assert("-ck"@[0] == '-');
    assert("-ck"@[1] == 'c');
    assert("-ck"@[2] == 'k');
    reveal_strlit("add");
    assert("add"@.len() == 3);
    assert("add"@[0] == 'a');
    assert("add"@[1] == 'd');
    assert("add"@[2] == 'd');
    reveal_strlit("a");
    assert("a"@.len() == 1);
    assert("a"@[0] == 'a');
    reveal_strlit("--add");
    assert("--add"@.len() == 5);
    assert("--add"@[0] == '-');
    assert("--add"@[1] == '-');
    assert("--add"@[2] == 'a');
    assert("--add"@[3] == 'd');
    assert("--add"@[4] == 'd');
    reveal_strlit("-a");
    assert("-a"@.len() == 2);
    assert("-a"@[0] == '-');
    assert("-a"@[1] == 'a');
    reveal_strlit("remove");
    assert("remove"@.len() == 6);
    assert("remove"@[0] == 'r');
    assert("remove"@[1] == 'e');
    assert("remove"@[2] == 'm');
    assert("remove"@[3] == 'o');
    assert("remove"@[4] == 'v');
    assert("remove"@[5] == 'e');
    reveal_strlit("rem");
    assert("rem"@.len() == 3);
    assert("rem"@[0] == 'r');
    assert("rem"@[1] == 'e');
    assert("rem"@[2] == 'm');
    reveal_strlit("delete");
    assert("delete"@.len() == 6);
    assert("delete"@[0] == 'd');
    assert("delete"@[1] == 'e');
    assert("delete"@[2] == 'l');
    assert("delete"@[3] == 'e');
    assert("delete"@[4] == 't');
    assert("delete"@[5] == 'e');
    reveal_strlit("d");
    assert("d"@.len() == 1);
    assert("d"@[0] == 'd');
    reveal_strlit("rm");
    assert("rm"@.len() == 2);
    assert("rm"@[0] == 'r');
    assert("rm"@[1] == 'm');
    reveal_strlit("--remove");
    assert("--remove"@.len() == 8);
    assert("--remove"@[0] == '-');
    assert("--remove"@[1] == '-');
    assert("--remove"@[2] == 'r');
    assert("--remove"@[3] == 'e');
    assert("--remove"@[4] == 'm');
    assert("--remove"@[5] == 'o');
    assert("--remove"@[6] == 'v');
    assert("--remove"@[7] == 'e');
    reveal_strlit("-rem");
    assert("-rem"@.len() == 4);
    assert("-rem"@[0] == '-');
    assert("-rem"@[1] == 'r');
    assert("-rem"@[2] == 'e');
    assert("-rem"@[3] == 'm');
    reveal_strlit("--delete");
    assert("--delete"@.len() == 8);
    assert("--delete"@[0] == '-');
    assert("--delete"@[1] == '-');
    assert("--delete"@[2] == 'd');
    assert("--delete"@[3] == 'e');
    assert("--delete"@[4] == 'l');
    assert("--delete"@[5] == 'e');
    assert("--delete"@[6] == 't');
    assert("--delete"@[7] == 'e');
    reveal_strlit("-d");
    assert("-d"@.len() == 2);
    assert("-d"@[0] == '-');
    assert("-d"@[1] == 'd');
    reveal_strlit("-rm");
    assert("-rm"@.len() == 3);
    assert("-rm"@[0] == '-');
    assert("-rm"@[1] == 'r');
    assert("-rm"@[2] == 'm');
    reveal_strlit("preset");
    assert("preset"@.len() == 6);
    assert("preset"@[0] == 'p');
    assert("preset"@[1] == 'r');
    assert("preset"@[2] == 'e');
    assert("preset"@[3] == 's');
    assert("preset"@[4] == 'e');
    assert("preset"@[5] == 't');
    reveal_strlit("p");
    assert("p"@.len() == 1);
    assert("p"@[0] == 'p');
    reveal_strlit("--preset");
    assert("--preset"@.len() == 8);
    assert("--preset"@[0] == '-');
    assert("--preset"@[1] == '-');
    assert("--preset"@[2] == 'p');
    assert("--preset"@[3] == 'r');
    assert("--preset"@[4] == 'e');
    assert("--preset"@[5] == 's');
    assert("--preset"@[6] == 'e');
    assert("--preset"@[7] == 't');
    reveal_strlit("-p");
    assert("-p"@.len() == 2);
    assert("-p"@[0] == '-');
    assert("-p"@[1] == 'p');
    match c {
        Command::Help => {
            assert(command_words(c)[0] == "help"@);
            assert(command_words(c)[1] == "h"@);
            assert(command_words(c)[2] == "--help"@);
            assert(command_words(c)[3] == "-h"@);
        },
        Command::Version => {
            assert(command_words(c)[0] == "version"@);
            assert(command_words(c)[1] == "v"@);
            assert(command_words(c)[2] == "--version"@);
            assert(command_words(c)[3] == "-v"@);
        },
        Command::Clear => {
            assert(command_words(c)[0] == "clear"@);
            assert(command_words(c)[1] == "c"@);
            assert(command_words(c)[2] == "--clear"@);
            assert(command_words(c)[3] == "-c"@);
        },
        Command::Reset => {
            assert(command_words(c)[0] == "reset"@);
            assert(command_words(c)[1] == "r"@);
            assert(command_words(c)[2] == "--reset"@);
            assert(command_words(c)[3] == "-r"@);
            assert(command_words(c)[4] == "base"@);
            assert(command_words(c)[5] == "--base"@);
            assert(command_words(c)[6] == "ba"@);
            assert(command_words(c)[7] == "-ba"@);
        },
        Command::Backup => {
            assert(command_words(c)[0] == "backup"@);
            assert(command_words(c)[1] == "b"@);
            assert(command_words(c)[2] == "--backup"@);
            assert(command_words(c)[3] == "-b"@);
        },
        Command::Info => {
            assert(command_words(c)[0] == "info"@);
            assert(command_words(c)[1] == "i"@);
            assert(command_words(c)[2] == "--info"@);
            assert(command_words(c)[3] == "-i"@);
            assert(command_words(c)[4] == "stat"@);
            assert(command_words(c)[5] == "zstat"@);
        },
        Command::Check => {
            assert(command_words(c)[0] == "check"@);
            assert(command_words(c)[1] == "ch"@);
            assert(command_words(c)[2] == "ck"@);
            assert(command_words(c)[3] == "--check"@);
            assert(command_words(c)[4] == "-ch"@);
            assert(command_words(c)[5] == "-ck"@);
        },
        Command::Add => {
            assert(command_words(c)[0] == "add"@);
            assert(command_words(c)[1] == "a"@);
            assert(command_words(c)[2] == "--add"@);
            assert(command_words(c)[3] == "-a"@);
        },
        Command::Remove => {
            assert(command_words(c)[0] == "remove"@);
            assert(command_words(c)[1] == "rem"@);
            assert(command_words(c)[2] == "delete"@);
            assert(command_words(c)[3] == "d"@);
            assert(command_words(c)[4] == "rm"@);
            assert(command_words(c)[5] == "--remove"@);
            assert(command_words(c)[6] == "-rem"@);
            assert(command_words(c)[7] == "--delete"@);
            assert(command_words(c)[8] == "-d"@);
            assert(command_words(c)[9] == "-rm"@);
        },
        Command::Preset => {
            assert(command_words(c)[0] == "preset"@);
            assert(command_words(c)[1] == "p"@);
            assert(command_words(c)[2] == "--preset"@);
            assert(command_words(c)[3] == "-p"@);
        },
        Command::Nothing => {},
    }
}

} // verus!
