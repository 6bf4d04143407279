//! Backups of the hosts file: their names, their file format, and the
//! actions of the `backup` command.
use std::fmt::Write;
use vstd::prelude::*;
use crate::chars::{str_to_lowercase, to_lowercase, ascii_lower, all_ascii, push_char, spec_ascii_digit, is_numeric};
use crate::error::HsfError;
use crate::sysfiles::{
    utf8_len, spec_count_rules, count_rules, counts_of, text_stats, TextStats,
};
use crate::text::{
    Class, in_class, trim_of, trim_start_of, trim_end_of, decimal, int_decimal, all_digits, digits_value, chars_of, trim_bounds, push_i64,
    push_str, push_chars, str_eq, string_of, contains_str, contains_of,
};

verus! {

/// A character that may not stand in a backup name: a control character
/// (including NUL and DEL), `/`, `\`, `:`, `*`, `?`, `"`, `<`, `>` or `|`.
pub open spec fn forbidden_in_name(c: char) -> bool {
    (c as u32) < 32 || (c as u32) == 127 || c == '/' || c == '\\' || c == ':' || c == '*' || c == '?'
        || c == '"' || c == '<' || c == '>' || c == '|'
}

/// A backup name: 1 to 255 bytes; not `src`, `target`, `.` or `..` in any
/// case; no forbidden character; not starting with `-`.
pub open spec fn spec_is_valid_name(name: Seq<char>) -> bool {
    let lower = str_to_lowercase(name);
    &&& 0 < name.len()
    &&& utf8_len(name) <= 255
    &&& lower != "src"@ && lower != "target"@ && lower != "."@ && lower != ".."@
    &&& forall|i: int| 0 <= i < name.len() ==> !forbidden_in_name(#[trigger] name[i])
    &&& name[0] != '-'
}

/// Whether `c` may not stand in a backup name.
fn forbidden_char(c: char) -> (r: bool)
    ensures
        r == forbidden_in_name(c),
{
    (c as u32) < 32 || (c as u32) == 127 || c == '/' || c == '\\' || c == ':' || c == '*' || c
        == '?' || c == '"' || c == '<' || c == '>' || c == '|'
}

/// Check is valid backup name or no
pub fn is_valid_name(name: &str) -> (r: bool)
    ensures
        r == spec_is_valid_name(name@),
{
    let n = name.as_bytes().len();
    if name.is_empty() || n > 255 {
        return false;
    }
    let lower = to_lowercase(name);
    let l = lower.as_str();
    if str_eq(l, "src") || str_eq(l, "target") || str_eq(l, ".") || str_eq(l, "..") {
        return false;
    }
    let cs = chars_of(name);
    let mut i: usize = 0;
    while i < cs.len()
        invariant
            cs@ == name@,
            0 <= i <= cs.len(),
            forall|j: int| 0 <= j < i ==> !forbidden_in_name(#[trigger] cs@[j]),
        decreases cs.len() - i,
    {
        if forbidden_char(cs[i]) {
            return false;
        }
        i += 1;
    }
    cs[0] != '-'
}

/// The name of the file that holds the backup `name`.
pub fn backup_file_name(name: &str) -> (r: String)
    ensures
        r@ == name@ + ".hosts"@,
{
    let mut r = String::new();
    push_str(&mut r, name);
    push_str(&mut r, ".hosts");
    r
}

/// Whether a backup named `name` is listed for the search `search`: the
/// search is empty, or occurs in the name, both lower-cased.
pub open spec fn spec_backup_matches(name: Seq<char>, search: Seq<char>) -> bool {
    search.len() == 0 || contains_str(str_to_lowercase(name), str_to_lowercase(search))
}

/// Whether `list` shows the backup `name` for the search `search`.
pub fn backup_matches(name: &str, search: &str) -> (r: bool)
    ensures
        r == spec_backup_matches(name@, search@),
{
    if search.is_empty() {
        return true;
    }
    let n = to_lowercase(name);
    let s = to_lowercase(search);
    let nc = chars_of(n.as_str());
    let sc = chars_of(s.as_str());
    contains_of(&nc, &sc)
}

/// An action of the `backup` command.
#[derive(Debug, PartialEq, Eq, Structural)]
pub enum BackupAction {
    /// Save the hosts file as a backup.
    New,
    /// Replace the hosts file with a backup.
    From,
    /// Delete a backup.
    Delete,
    /// List the backups.
    List,
    /// Show a backup's time and sizes.
    Info,
}

/// The action that a lower-cased action word names.
pub open spec fn spec_backup_action(a: Seq<char>) -> Option<BackupAction> {
    if a == "new"@ || a == "n"@ || a == "--new"@ || a == "-n"@ {
        Some(BackupAction::New)
    } else if a == "from"@ || a == "f"@ || a == "--from"@ || a == "-f"@ {
        Some(BackupAction::From)
    } else if a == "del"@ || a == "d"@ || a == "delete"@ || a == "--delete"@ || a == "--del"@ || a
        == "-d"@ || a == "rm"@ {
        Some(BackupAction::Delete)
    } else if a == "list"@ || a == "l"@ || a == "--list"@ || a == "-l"@ || a == "ls"@ || a
        == "-ls"@ {
        Some(BackupAction::List)
    } else if a == "info"@ || a == "i"@ || a == "--info"@ || a == "-i"@ || a == "stat"@ || a
        == "zstat "@ {
        Some(BackupAction::Info)
    } else {
        None
    }
}

/// The words that name each backup action, in lower case: its name, its
/// long option, and its short forms.
pub open spec fn action_words(a: BackupAction) -> Seq<Seq<char>> {
    match a {
        BackupAction::New => seq!["new"@, "n"@, "--new"@, "-n"@],
        BackupAction::From => seq!["from"@, "f"@, "--from"@, "-f"@],
        BackupAction::Delete => seq!["del"@, "d"@, "delete"@, "--delete"@, "--del"@, "-d"@, "rm"@],
        BackupAction::List => seq!["list"@, "l"@, "--list"@, "-l"@, "ls"@, "-ls"@],
        BackupAction::Info => seq!["info"@, "i"@, "--info"@, "-i"@, "stat"@, "zstat "@],
    }
}

/// The lower case of an ASCII text: `A-Z` become `a-z`.
pub open spec fn ascii_lowered(s: Seq<char>) -> Seq<char> {
    s.map_values(|c: char| ascii_lower(c))
}

/// Each of an action's words names that action, and is its own lower case
/// (so with [`parse_backup`], any ASCII capitalisation of it names the
/// action too).
pub proof fn lemma_action_words(a: BackupAction)
    ensures
        forall|i: int|
            0 <= i < action_words(a).len() ==> spec_backup_action(#[trigger] action_words(a)[i])
                == Some(a) && ascii_lowered(action_words(a)[i]) == action_words(a)[i],
{
    reveal_strlit("new");
    assert("new"@.len() == 3);
    assert("new"@[0] == 'n');
    assert("new"@[1] == 'e');
    assert("new"@[2] == 'w');
    reveal_strlit("n");
    assert("n"@.len() == 1);
    assert("n"@[0] == 'n');
    reveal_strlit("--new");
    assert("--new"@.len() == 5);
    assert("--new"@[0] == '-');
    assert("--new"@[1] == '-');
    assert("--new"@[2] == 'n');
    assert("--new"@[3] == 'e');
    assert("--new"@[4] == 'w');
    reveal_strlit("-n");
    assert("-n"@.len() == 2);
    assert("-n"@[0] == '-');
    assert("-n"@[1] == 'n');
    reveal_strlit("from");
    assert("from"@.len() == 4);
    assert("from"@[0] == 'f');
    assert("from"@[1] == 'r');
    assert("from"@[2] == 'o');
    assert("from"@[3] == 'm');
    reveal_strlit("f");
    assert("f"@.len() == 1);
    assert("f"@[0] == 'f');
    reveal_strlit("--from");
    assert("--from"@.len() == 6);
    assert("--from"@[0] == '-');
    assert("--from"@[1] == '-');
    assert("--from"@[2] == 'f');
    assert("--from"@[3] == 'r');
    assert("--from"@[4] == 'o');
    assert("--from"@[5] == 'm');
    reveal_strlit("-f");
    assert("-f"@.len() == 2);
    assert("-f"@[0] == '-');
    assert("-f"@[1] == 'f');
    reveal_strlit("del");
    assert("del"@.len() == 3);
    assert("del"@[0] == 'd');
    assert("del"@[1] == 'e');
    assert("del"@[2] == 'l');
    reveal_strlit("d");
    assert("d"@.len() == 1);
    assert("d"@[0] == 'd');
    reveal_strlit("delete");
    assert("delete"@.len() == 6);
    assert("delete"@[0] == 'd');
    assert("delete"@[1] == 'e');
    assert("delete"@[2] == 'l');
    assert("delete"@[3] == 'e');
    assert("delete"@[4] == 't');
    assert("delete"@[5] == 'e');
    reveal_strlit("--delete");
    assert("--delete"@.len() == 8);
    assert("--delete"@[0] == '-');
    assert("--delete"@[1] == '-');
    assert("--delete"@[2] == 'd');
    assert("--delete"@[3] == 'e');
    assert("--delete"@[4] == 'l');
    assert("--delete"@[5] == 'e');
    assert("--delete"@[6] == 't');
    assert("--delete"@[7] == 'e');
    reveal_strlit("--del");
    assert("--del"@.len() == 5);
    assert("--del"@[0] == '-');
    assert("--del"@[1] == '-');
    assert("--del"@[2] == 'd');
    assert("--del"@[3] == 'e');
    assert("--del"@[4] == 'l');
    reveal_strlit("-d");
    assert("-d"@.len() == 2);
    assert("-d"@[0] == '-');
    assert("-d"@[1] == 'd');
    reveal_strlit("rm");
    assert("rm"@.len() == 2);
    assert("rm"@[0] == 'r');
    assert("rm"@[1] == 'm');
    reveal_strlit("list");
    assert("list"@.len() == 4);
    assert("list"@[0] == 'l');
    assert("list"@[1] == 'i');
    assert("list"@[2] == 's');
    assert("list"@[3] == 't');
    reveal_strlit("l");
    assert("l"@.len() == 1);
    assert("l"@[0] == 'l');
    reveal_strlit("--list");
    assert("--list"@.len() == 6);
    assert("--list"@[0] == '-');
    assert("--list"@[1] == '-');
    assert("--list"@[2] == 'l');
    assert("--list"@[3] == 'i');
    assert("--list"@[4] == 's');
    assert("--list"@[5] == 't');
    reveal_strlit("-l");
    assert("-l"@.len() == 2);
    assert("-l"@[0] == '-');
    assert("-l"@[1] == 'l');
    reveal_strlit("ls");
    assert("ls"@.len() == 2);
    assert("ls"@[0] == 'l');
    assert("ls"@[1] == 's');
    reveal_strlit("-ls");
    assert("-ls"@.len() == 3);
    assert("-ls"@[0] == '-');
    assert("-ls"@[1] == 'l');
    assert("-ls"@[2] == 's');
    reveal_strlit("info");
    assert("info"@.len() == 4);
    assert("info"@[0] == 'i');
    assert("info"@[1] == 'n');
    assert("info"@[2] == 'f');
    assert("info"@[3] == 'o');
    reveal_strlit("i");
    assert("i"@.len() == 1);
    assert("i"@[0] == 'i');
    reveal_strlit("--info");
    assert("--info"@.len() == 6);
    assert("--info"@[0] == '-');
    assert("--info"@[1] == '-');
    assert("--info"@[2] == 'i');
    assert("--info"@[3] == 'n');
    assert("--info"@[4] == 'f');
    assert("--info"@[5] == 'o');
    reveal_strlit("-i");
    assert("-i"@.len() == 2);
    assert("-i"@[0] == '-');
    assert("-i"@[1] == 'i');
    reveal_strlit("stat");
    assert("stat"@.len() == 4);
    assert("stat"@[0] == 's');
    assert("stat"@[1] == 't');
    assert("stat"@[2] == 'a');
    assert("stat"@[3] == 't');
    reveal_strlit("zstat ");
    assert("zstat "@.len() == 6);
    assert("zstat "@[0] == 'z');
    assert("zstat "@[1] == 's');
    assert("zstat "@[2] == 't');
    assert("zstat "@[3] == 'a');
    assert("zstat "@[4] == 't');
    assert("zstat "@[5] == ' ');
    match a {
        BackupAction::New => {
            assert(action_words(a)[0] == "new"@);
            assert(ascii_lowered("new"@) =~= "new"@);
            assert(action_words(a)[1] == "n"@);
            assert(ascii_lowered("n"@) =~= "n"@);
            assert(action_words(a)[2] == "--new"@);
            assert(ascii_lowered("--new"@) =~= "--new"@);
            assert(action_words(a)[3] == "-n"@);
            assert(ascii_lowered("-n"@) =~= "-n"@);
        },
        BackupAction::From => {
            assert(action_words(a)[0] == "from"@);
            assert(ascii_lowered("from"@) =~= "from"@);
            assert(action_words(a)[1] == "f"@);
            assert(ascii_lowered("f"@) =~= "f"@);
            assert(action_words(a)[2] == "--from"@);
            assert(ascii_lowered("--from"@) =~= "--from"@);
            assert(action_words(a)[3] == "-f"@);
            assert(ascii_lowered("-f"@) =~= "-f"@);
        },
        BackupAction::Delete => {
            assert(action_words(a)[0] == "del"@);
            assert(ascii_lowered("del"@) =~= "del"@);
            assert(action_words(a)[1] == "d"@);
            assert(ascii_lowered("d"@) =~= "d"@);
            assert(action_words(a)[2] == "delete"@);
            assert(ascii_lowered("delete"@) =~= "delete"@);
            assert(action_words(a)[3] == "--delete"@);
            assert(ascii_lowered("--delete"@) =~= "--delete"@);
            assert(action_words(a)[4] == "--del"@);
            assert(ascii_lowered("--del"@) =~= "--del"@);
            assert(action_words(a)[5] == "-d"@);
            assert(ascii_lowered("-d"@) =~= "-d"@);
            assert(action_words(a)[6] == "rm"@);
            assert(ascii_lowered("rm"@) =~= "rm"@);
        },
        BackupAction::List => {
            assert(action_words(a)[0] == "list"@);
            assert(ascii_lowered("list"@) =~= "list"@);
            assert(action_words(a)[1] == "l"@);
            assert(ascii_lowered("l"@) =~= "l"@);
            assert(action_words(a)[2] == "--list"@);
            assert(ascii_lowered("--list"@) =~= "--list"@);
            assert(action_words(a)[3] == "-l"@);
            assert(ascii_lowered("-l"@) =~= "-l"@);
            assert(action_words(a)[4] == "ls"@);
            assert(ascii_lowered("ls"@) =~= "ls"@);
            assert(action_words(a)[5] == "-ls"@);
            assert(ascii_lowered("-ls"@) =~= "-ls"@);
        },
        BackupAction::Info => {
            assert(action_words(a)[0] == "info"@);
            assert(ascii_lowered("info"@) =~= "info"@);
            assert(action_words(a)[1] == "i"@);
            assert(ascii_lowered("i"@) =~= "i"@);
            assert(action_words(a)[2] == "--info"@);
            assert(ascii_lowered("--info"@) =~= "--info"@);
            assert(action_words(a)[3] == "-i"@);
            assert(ascii_lowered("-i"@) =~= "-i"@);
            assert(action_words(a)[4] == "stat"@);
            assert(ascii_lowered("stat"@) =~= "stat"@);
            assert(action_words(a)[5] == "zstat "@);
            assert(ascii_lowered("zstat "@) =~= "zstat "@);
        },
    }
}

/// Entry point for arguments
///
/// The action that `action` names, in any case; an unknown action is an
/// error that holds it.
pub fn parse_backup(action: &str) -> (r: Result<BackupAction, HsfError>)
    ensures
        spec_backup_action(str_to_lowercase(action@)) matches Some(a) ==> r == Ok::<
            BackupAction,
            HsfError,
        >(a),
        spec_backup_action(str_to_lowercase(action@)) is None ==> (r matches Err(
            HsfError::UnknownAction(s),
        ) && s@ == action@),
        all_ascii(action@) ==> str_to_lowercase(action@) == ascii_lowered(action@),
{
    let lower = to_lowercase(action);
    let a = lower.as_str();
    if str_eq(a, "new") || str_eq(a, "n") || str_eq(a, "--new") || str_eq(a, "-n") {
        Ok(BackupAction::New)
    } else if str_eq(a, "from") || str_eq(a, "f") || str_eq(a, "--from") || str_eq(a, "-f") {
        Ok(BackupAction::From)
    } else if str_eq(a, "del") || str_eq(a, "d") || str_eq(a, "delete") || str_eq(a, "--delete")
        || str_eq(a, "--del") || str_eq(a, "-d") || str_eq(a, "rm") {
        Ok(BackupAction::Delete)
    } else if str_eq(a, "list") || str_eq(a, "l") || str_eq(a, "--list") || str_eq(a, "-l")
        || str_eq(a, "ls") || str_eq(a, "-ls") {
        Ok(BackupAction::List)
    } else if str_eq(a, "info") || str_eq(a, "i") || str_eq(a, "--info") || str_eq(a, "-i")
        || str_eq(a, "stat") || str_eq(a, "zstat ") {
        Ok(BackupAction::Info)
    } else {
        let mut s = String::new();
        push_str(&mut s, action);
        Err(HsfError::UnknownAction(s))
    }
}

/// The first line of a backup file (empty when the file has no newline).
pub open spec fn backup_head(raw: Seq<char>) -> Seq<char> {
    if raw.contains('\n') {
        crate::text::before_char(raw, '\n')
    } else {
        seq![]
    }
}

/// What follows the first line of a backup file (all of it when the file
/// has no newline).
pub open spec fn backup_body(raw: Seq<char>) -> Seq<char> {
    if raw.contains('\n') {
        raw.skip(crate::text::before_char(raw, '\n').len() + 1int)
    } else {
        raw
    }
}

/// The time read from a backup's first line: the part from its first to its
/// last numeric character, as an `i64`, or 0 when that is not a number that
/// fits.
pub open spec fn spec_parse_time(head: Seq<char>) -> i64 {
    let d = trim_of(head, Class::NonNumeric);
    if d.len() > 0 && all_digits(d) && digits_value(d) <= i64::MAX {
        digits_value(d) as i64
    } else {
        0
    }
}

/// The text of a backup file: `# <time> `, a newline, then the content.
pub open spec fn spec_backup_text(create_time: int, content: Seq<char>) -> Seq<char> {
    seq!['#', ' '] + int_decimal(create_time) + seq![' ', '\n'] + content
}

/// Struct for storage backups
pub struct HostsBackup {
    /// When the backup was made, in seconds since the Unix epoch.
    pub create_time: i64,
    /// The saved hosts file.
    pub content: String,
}

/// The value of the decimal digits `d[from..to]`, or 0 when there are
/// none, one is not a digit, or the value does not fit an `i64`.
fn parse_digits(d: &Vec<char>, from: usize, to: usize) -> (r: i64)
    requires
        from <= to <= d.len(),
    ensures
        r == spec_parse_time_digits(d@.subrange(from as int, to as int)),
{
    let ghost s = d@.subrange(from as int, to as int);
    if from == to {
        return 0;
    }
    let mut acc: u64 = 0;
    let mut over = false;
    let mut k: usize = from;
    while k < to
        invariant
            from <= k <= to <= d.len(),
            s == d@.subrange(from as int, to as int),
            all_digits(s.take(k - from)),
            !over ==> acc == digits_value(s.take(k - from)) && acc <= i64::MAX,
            over ==> digits_value(s.take(k - from)) > i64::MAX,
        decreases to - k,
    {
        let c = d[k];
        if !('0' <= c && c <= '9') {
            assert(!all_digits(s)) by {
                assert(s[k - from] == c);
            }
            return 0;
        }
        let ghost pre = s.take(k - from);
        let ghost next = s.take(k - from + 1);
        assert(next.drop_last() =~= pre);
        assert(next.last() == c);
        let v: u64 = ((c as u32) - 48) as u64;
        if !over {
            if acc > (9223372036854775807u64 - v) / 10 {
                over = true;
                assert(digits_value(next) > i64::MAX) by (nonlinear_arith)
                    requires
                        digits_value(next) == digits_value(pre) * 10 + v,
                        acc == digits_value(pre),
                        acc > (9223372036854775807u64 - v) / 10,
                        v < 10,
                ;
            } else {
                assert(acc * 10 + v <= 9223372036854775807u64) by (nonlinear_arith)
                    requires
                        acc <= (9223372036854775807u64 - v) / 10,
                        v < 10,
                ;
                acc = acc * 10 + v;
            }
        } else {
            assert(digits_value(next) >= digits_value(pre)) by (nonlinear_arith)
                requires
                    digits_value(next) == digits_value(pre) * 10 + v,
            ;
        }
        assert(all_digits(next)) by {
            assert forall|j: int| 0 <= j < next.len() implies spec_ascii_digit(#[trigger] next[j]) by {
                if j < pre.len() {
                    assert(next[j] == pre[j]);
                }
            }
        }
        k += 1;
    }
    assert(s.take(to - from) =~= s);
    if over {
        0
    } else {
        acc as i64
    }
}

/// [`spec_parse_time`] once the non-numeric ends are trimmed.
pub open spec fn spec_parse_time_digits(d: Seq<char>) -> i64 {
    if d.len() > 0 && all_digits(d) && digits_value(d) <= i64::MAX {
        digits_value(d) as i64
    } else {
        0
    }
}

impl HostsBackup {
    /// The text that the backup is saved as.
    pub fn to_string(&self) -> (r: String)
        ensures
            r@ == spec_backup_text(self.create_time as int, self.content@),
    {
        let mut r = String::new();
        push_char(&mut r, '#');
        push_char(&mut r, ' ');
        push_i64(&mut r, self.create_time);
        push_char(&mut r, ' ');
        push_char(&mut r, '\n');
        push_str(&mut r, self.content.as_str());
        r
    }

    /// Reads a backup from the text of its file.
    pub fn from(raw: &str) -> (r: HostsBackup)
        ensures
            r.create_time == spec_parse_time(backup_head(raw@)),
            r.content@ == backup_body(raw@),
    {
        let cs = chars_of(raw);
        let mut i: usize = 0;
        assert(cs@.skip(0) =~= cs@);
        while i < cs.len() && cs[i] != '\n'
            invariant
                cs@ == raw@,
                0 <= i <= cs.len(),
                forall|j: int| 0 <= j < i ==> cs@[j] != '\n',
                crate::text::before_char(cs@, '\n') == cs@.take(i as int) + crate::text::before_char(
                    cs@.skip(i as int),
                    '\n',
                ),
            decreases cs.len() - i,
        {
            assert(cs@.skip(i as int).drop_first() =~= cs@.skip(i + 1));
            assert(cs@.take(i + 1) =~= cs@.take(i as int) + seq![cs@[i as int]]);
            i += 1;
        }
        if i == cs.len() {
            assert(!raw@.contains('\n'));
            let create_time: i64 = 0;
            assert(trim_of(seq![], Class::NonNumeric) =~= seq![]);
            let content = string_of(&cs);
            return HostsBackup { create_time, content };
        }
        assert(raw@.contains('\n')) by {
            assert(raw@[i as int] == '\n');
        }
        assert(crate::text::before_char(cs@, '\n') =~= cs@.take(i as int));
        let head = crate::text::slice_of(&cs, 0, i);
        assert(cs@.subrange(0, i as int) =~= cs@.take(i as int));
        let (a, b) = trim_bounds(&head, Class::NonNumeric);
        let create_time = parse_digits(&head, a, b);
        let mut content = String::new();
        push_chars(&mut content, &cs, i + 1, cs.len());
        assert(cs@.subrange(i + 1, cs.len() as int) =~= cs@.skip(i + 1));
        HostsBackup { create_time, content }
    }
}

/// Calls `chrono::Local::now().timestamp()`: the current time, in seconds
/// since the Unix epoch. Nothing is claimed of it; it is the clock's. (chrono
/// panics when the machine's time zone data cannot place the instant.)
#[verifier::external_body]
fn now_timestamp() -> (r: i64) {
    chrono::Local::now().timestamp()
}

/// Calls chrono to write the instant `secs` seconds after the Unix epoch
/// (the epoch itself when chrono cannot represent it) in the machine's local
/// time zone, with the strftime-style `format`; `None` when chrono reports an
/// error in the format. Nothing is claimed of the text, which depends on the
/// machine's time zone. (chrono panics when the machine's time zone data
/// cannot place the instant.)
#[verifier::external_body]
fn format_local_time(secs: i64, format: &str) -> (r: Option<String>) {
    let utc = chrono::DateTime::from_timestamp_secs(secs).unwrap_or_default();
    let local = utc.with_timezone(&chrono::Local);
    let mut out = String::new();
    match write!(out, "{}", local.format(format)) {
        Ok(()) => Some(out),
        Err(_) => None,
    }
}

impl HostsBackup {
    /// A backup of `content` made now.
    pub fn taken_now(content: String) -> (r: HostsBackup)
        ensures
            r.content@ == content@,
    {
        HostsBackup { create_time: now_timestamp(), content }
    }
}

/// What `backup info` shows of a backup file.
pub struct BackupInfo {
    /// When the backup was made, as the time format writes it.
    pub created: String,
    /// The number of rules in the file.
    pub rules: usize,
    /// The sizes of the whole file.
    pub storage: TextStats,
    /// The sizes of the saved hosts file in it.
    pub content: TextStats,
}

/// The information on the backup file `file`, given how its time is
/// written (`created`).
pub fn backup_info(file: &str, created: String) -> (r: BackupInfo)
    ensures
        r.created@ == created@,
        r.rules == spec_count_rules(file@),
        counts_of(r.storage, file@),
        counts_of(r.content, backup_body(file@)),
{
    let b = HostsBackup::from(file);
    BackupInfo {
        created,
        rules: count_rules(file),
        storage: text_stats(file),
        content: text_stats(b.content.as_str()),
    }
}

/// Print statistics about backup
///
/// The information on the backup file `file`, its time written in the local
/// time zone with `time_format`; `None` when chrono refuses the format.
pub fn info_backup(file: &str, time_format: &str) -> (r: Option<BackupInfo>)
    ensures
        r matches Some(i) ==> i.rules == spec_count_rules(file@) && counts_of(i.storage, file@)
            && counts_of(i.content, backup_body(file@)),
{
    let b = HostsBackup::from(file);
    match format_local_time(b.create_time, time_format) {
        Some(created) => Some(backup_info(file, created)),
        None => None,
    }
}

/// Reading back a saved backup gives the content it was saved with, and the
/// time it was saved with when that time is not negative.
pub proof fn lemma_backup_roundtrip(create_time: i64, content: Seq<char>)
    ensures
        backup_body(spec_backup_text(create_time as int, content)) == content,
        create_time >= 0 ==> spec_parse_time(
            backup_head(spec_backup_text(create_time as int, content)),
        ) == create_time,
{
    let raw = spec_backup_text(create_time as int, content);
    let n: nat = if create_time < 0 {
        (-(create_time as int)) as nat
    } else {
        create_time as nat
    };
    let d = decimal(n);
    crate::text::lemma_decimal(n);
    let x = int_decimal(create_time as int);
    assert(create_time < 0 ==> x == seq!['-'] + d);
    assert(create_time >= 0 ==> x == d);
    let p = seq!['#', ' '] + x + seq![' '];
    assert(raw =~= p + seq!['\n'] + content);
    assert(!p.contains('\n')) by {
        if p.contains('\n') {
            let j = choose|j: int| 0 <= j < p.len() && p[j] == '\n';
            if 2 <= j < 2 + x.len() {
                assert(p[j] == x[j - 2]);
                if create_time < 0 {
                    if j > 2 {
                        assert(x[j - 2] == d[j - 3]);
                        assert(spec_ascii_digit(d[j - 3]));
                    }
                } else {
                    assert(spec_ascii_digit(d[j - 2]));
                }
            }
        }
    }
    crate::text::lemma_before_char_concat(p, content, '\n');
    assert(raw.contains('\n')) by {
        assert(raw[p.len() as int] == '\n');
    }
    assert(backup_head(raw) == p);
    assert(raw.skip(p.len() + 1int) =~= content);
    if create_time >= 0 {
        // Trimming the non-numeric ends of `# <digits> ` leaves the digits.
        let k = Class::NonNumeric;
        assert(spec_ascii_digit(d[0]));
        assert(spec_ascii_digit(d.last()));
        assert(p.drop_first() =~= seq![' '] + d + seq![' ']);
        assert(p.drop_first().drop_first() =~= d + seq![' ']);
        assert((d + seq![' ']).drop_last() =~= d);
        assert((d + seq![' '])[0] == d[0]);
        assert(trim_start_of(d + seq![' '], k) == d + seq![' ']);
        assert(p[0] == '#');
        assert(in_class(k, '#'));
        assert(p.drop_first()[0] == ' ');
        assert(in_class(k, ' '));
        assert(trim_start_of(p.drop_first(), k) == trim_start_of(p.drop_first().drop_first(), k));
        assert(trim_start_of(p, k) == trim_start_of(p.drop_first(), k));
        assert(trim_start_of(p, k) == d + seq![' ']);
        assert(trim_end_of(d, k) == d);
        assert(trim_end_of(d + seq![' '], k) == d);
        assert(trim_of(p, k) == d);
    }
}

} // verus!
