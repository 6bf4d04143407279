//! Presets: the `preset` command, and the checks on a formatted preset.
use vstd::prelude::*;
use crate::error::HsfError;
use crate::sysfiles::{
    utf8_len, spec_is_valid_hosts_content, hosts_line_ok,
    is_first_bad_line, first_invalid_hosts_line,
};
use vstd::utf8::{encode_utf8, encode_scalar, has_width_1_encoding};
use crate::text::{
    lines, strip_cr, before_char, trim, lemma_before_char_split, lemma_before_char_push,
    lemma_lines_segment, lemma_lines_single, lemma_trim_strip_cr,
};
use crate::text::{replace_all, starts_with, contains_str, chars_of, replace_of, string_of, str_eq, contains_of, starts_with_of, push_str};

verus! {

/// The largest preset content, in bytes (7 MB).
pub const MAX_SIZE: u64 = 7 * 1024 * 1024;

/// What the `preset` command does.
#[derive(Debug, PartialEq, Eq)]
pub enum PresetCommand {
    /// Apply the preset with this name or path.
    Load(String),
    /// List the installed presets whose names hold this text.
    List(String),
    /// Print the formatted preset at this path.
    Format(String),
}

/// The word `action` names loading a preset.
pub open spec fn is_load_word(a: Seq<char>) -> bool {
    a == "load"@ || a == "from"@ || a == "apply"@ || a == "--load"@ || a == "--from"@ || a
        == "--apply"@ || a == "lo"@ || a == "f"@ || a == "ld"@ || a == "a"@ || a == "-lo"@ || a
        == "-f"@ || a == "-ld"@ || a == "-a"@
}

/// The word `action` names listing presets.
pub open spec fn is_list_word(a: Seq<char>) -> bool {
    a == "list"@ || a == "l"@ || a == "--list"@ || a == "-l"@ || a == "search"@ || a == "s"@ || a
        == "--search"@ || a == "-s"@
}

/// The word `action` names formatting a preset.
pub open spec fn is_format_word(a: Seq<char>) -> bool {
    a == "format"@ || a == "fo"@ || a == "fr"@ || a == "--format"@ || a == "-fo"@ || a == "-fr"@
        || a == "result"@ || a == "--result"@ || a == "r"@ || a == "-r"@
}

/// The words that choose each kind of preset command: its name, its long
/// option, and its short forms.
pub open spec fn preset_words(c: PresetCommand) -> Seq<Seq<char>> {
    match c {
        PresetCommand::Load(_) => seq!["load"@, "from"@, "apply"@, "--load"@, "--from"@, "--apply"@, "lo"@, "f"@, "ld"@, "a"@, "-lo"@, "-f"@, "-ld"@, "-a"@],
        PresetCommand::List(_) => seq!["list"@, "l"@, "--list"@, "-l"@, "search"@, "s"@, "--search"@, "-s"@],
        PresetCommand::Format(_) => seq!["format"@, "fo"@, "fr"@, "--format"@, "-fo"@, "-fr"@, "result"@, "--result"@, "r"@, "-r"@],
    }
}

/// `preset <word> <arg>` does what the word names: each of a kind's words
/// chooses that kind (with `<arg>`), never an earlier one.
pub proof fn lemma_preset_words(c: PresetCommand)
    ensures
        forall|i: int| 0 <= i < preset_words(c).len() ==> {
            let w = #[trigger] preset_words(c)[i];
            match c {
                PresetCommand::Load(_) => is_load_word(w),
                PresetCommand::List(_) => !is_load_word(w) && is_list_word(w),
                PresetCommand::Format(_) => !is_load_word(w) && !is_list_word(w) && is_format_word(
                    w,
                ),
            }
        },
{
    reveal_strlit("load");
    assert("load"@.len() == 4);
    assert("load"@[0] == 'l');
    assert("load"@[1] == 'o');
    assert("load"@[2] == 'a');
    assert("load"@[3] == 'd');
    reveal_strlit("from");
    assert("from"@.len() == 4);
    assert("from"@[0] == 'f');
    assert("from"@[1] == 'r');
    assert("from"@[2] == 'o');
    assert("from"@[3] == 'm');
    reveal_strlit("apply");
    assert("apply"@.len() == 5);
    assert("apply"@[0] == 'a');
    assert("apply"@[1] == 'p');
    assert("apply"@[2] == 'p');
    assert("apply"@[3] == 'l');
    assert("apply"@[4] == 'y');
    reveal_strlit("--load");
    assert("--load"@.len() == 6);
    assert("--load"@[0] == '-');
    assert("--load"@[1] == '-');
    assert("--load"@[2] == 'l');
    assert("--load"@[3] == 'o');
    assert("--load"@[4] == 'a');
    assert("--load"@[5] == 'd');
    reveal_strlit("--from");
    assert("--from"@.len() == 6);
    assert("--from"@[0] == '-');
    assert("--from"@[1] == '-');
    assert("--from"@[2] == 'f');
    assert("--from"@[3] == 'r');
    assert("--from"@[4] == 'o');
    assert("--from"@[5] == 'm');
    reveal_strlit("--apply");
    assert("--apply"@.len() == 7);
    assert("--apply"@[0] == '-');
    assert("--apply"@[1] == '-');
    assert("--apply"@[2] == 'a');
    assert("--apply"@[3] == 'p');
    assert("--apply"@[4] == 'p');
    assert("--apply"@[5] == 'l');
    assert("--apply"@[6] == 'y');
    reveal_strlit("lo");
    assert("lo"@.len() == 2);
    assert("lo"@[0] == 'l');
    assert("lo"@[1] == 'o');
    reveal_strlit("f");
    assert("f"@.len() == 1);
    assert("f"@[0] == 'f');
    reveal_strlit("ld");
    assert("ld"@.len() == 2);
    assert("ld"@[0] == 'l');
    assert("ld"@[1] == 'd');
    reveal_strlit("a");
    assert("a"@.len() == 1);
    assert("a"@[0] == 'a');
    reveal_strlit("-lo");
    assert("-lo"@.len() == 3);
    assert("-lo"@[0] == '-');
    assert("-lo"@[1] == 'l');
    assert("-lo"@[2] == 'o');
    reveal_strlit("-f");
    assert("-f"@.len() == 2);
    assert("-f"@[0] == '-');
    assert("-f"@[1] == 'f');
    reveal_strlit("-ld");
    assert("-ld"@.len() == 3);
    assert("-ld"@[0] == '-');
    assert("-ld"@[1] == 'l');
    assert("-ld"@[2] == 'd');
    reveal_strlit("-a");
    assert("-a"@.len() == 2);
    assert("-a"@[0] == '-');
    assert("-a"@[1] == 'a');
    reveal_strlit("list");
    assert("list"@.len() == 4);
    assert("list"@[0] == 'l');
    assert("list"@[1] == 'i');
    assert("list"@[2] == 's');
    assert("list"@[3] == 't');
    reveal_strlit("l");
    assert("l"@.len() == 1);
    assert("l"@[0] == 'l');
    reveal_strlit("--list");
    assert("--list"@.len() == 6);
    assert("--list"@[0] == '-');
    assert("--list"@[1] == '-');
    assert("--list"@[2] == 'l');
    assert("--list"@[3] == 'i');
    assert("--list"@[4] == 's');
    assert("--list"@[5] == 't');
    reveal_strlit("-l");
    assert("-l"@.len() == 2);
    assert("-l"@[0] == '-');
    assert("-l"@[1] == 'l');
    reveal_strlit("search");
    assert("search"@.len() == 6);
    assert("search"@[0] == 's');
    assert("search"@[1] == 'e');
    assert("search"@[2] == 'a');
    assert("search"@[3] == 'r');
    assert("search"@[4] == 'c');
    assert("search"@[5] == 'h');
    reveal_strlit("s");
    assert("s"@.len() == 1);
    assert("s"@[0] == 's');
    reveal_strlit("--search");
    assert("--search"@.len() == 8);
    assert("--search"@[0] == '-');
    assert("--search"@[1] == '-');
    assert("--search"@[2] == 's');
    assert("--search"@[3] == 'e');
    assert("--search"@[4] == 'a');
    assert("--search"@[5] == 'r');
    assert("--search"@[6] == 'c');
    assert("--search"@[7] == 'h');
    reveal_strlit("-s");
    assert("-s"@.len() == 2);
    assert("-s"@[0] == '-');
    assert("-s"@[1] == 's');
    reveal_strlit("format");
    assert("format"@.len() == 6);
    assert("format"@[0] == 'f');
    assert("format"@[1] == 'o');
    assert("format"@[2] == 'r');
    assert("format"@[3] == 'm');
    assert("format"@[4] == 'a');
    assert("format"@[5] == 't');
    reveal_strlit("fo");
    assert("fo"@.len() == 2);
    assert("fo"@[0] == 'f');
    assert("fo"@[1] == 'o');
    reveal_strlit("fr");
    assert("fr"@.len() == 2);
    assert("fr"@[0] == 'f');
    assert("fr"@[1] == 'r');
    reveal_strlit("--format");
    assert("--format"@.len() == 8);
    assert("--format"@[0] == '-');
    assert("--format"@[1] == '-');
    assert("--format"@[2] == 'f');
    assert("--format"@[3] == 'o');
    assert("--format"@[4] == 'r');
    assert("--format"@[5] == 'm');
    assert("--format"@[6] == 'a');
    assert("--format"@[7] == 't');
    reveal_strlit("-fo");
    assert("-fo"@.len() == 3);
    assert("-fo"@[0] == '-');
    assert("-fo"@[1] == 'f');
    assert("-fo"@[2] == 'o');
    reveal_strlit("-fr");
    assert("-fr"@.len() == 3);
    assert("-fr"@[0] == '-');
    assert("-fr"@[1] == 'f');
    assert("-fr"@[2] == 'r');
    reveal_strlit("result");
    assert("result"@.len() == 6);
    assert("result"@[0] == 'r');
    assert("result"@[1] == 'e');
    assert("result"@[2] == 's');
    assert("result"@[3] == 'u');
    assert("result"@[4] == 'l');
    assert("result"@[5] == 't');
    reveal_strlit("--result");
    assert("--result"@.len() == 8);
    assert("--result"@[0] == '-');
    assert("--result"@[1] == '-');
    assert("--result"@[2] == 'r');
    assert("--result"@[3] == 'e');
    assert("--result"@[4] == 's');
    assert("--result"@[5] == 'u');
    assert("--result"@[6] == 'l');
    assert("--result"@[7] == 't');
    reveal_strlit("r");
    assert("r"@.len() == 1);
    assert("r"@[0] == 'r');
    reveal_strlit("-r");
    assert("-r"@.len() == 2);
    assert("-r"@[0] == '-');
    assert("-r"@[1] == 'r');
    match c {
        PresetCommand::Load(_) => {
            assert(preset_words(c)[0] == "load"@);
            assert(preset_words(c)[1] == "from"@);
            assert(preset_words(c)[2] == "apply"@);
            assert(preset_words(c)[3] == "--load"@);
            assert(preset_words(c)[4] == "--from"@);
            assert(preset_words(c)[5] == "--apply"@);
            assert(preset_words(c)[6] == "lo"@);
            assert(preset_words(c)[7] == "f"@);
            assert(preset_words(c)[8] == "ld"@);
            assert(preset_words(c)[9] == "a"@);
            assert(preset_words(c)[10] == "-lo"@);
            assert(preset_words(c)[11] == "-f"@);
            assert(preset_words(c)[12] == "-ld"@);
            assert(preset_words(c)[13] == "-a"@);
        },
        PresetCommand::List(_) => {
            assert(preset_words(c)[0] == "list"@);
            assert(preset_words(c)[1] == "l"@);
            assert(preset_words(c)[2] == "--list"@);
            assert(preset_words(c)[3] == "-l"@);
            assert(preset_words(c)[4] == "search"@);
            assert(preset_words(c)[5] == "s"@);
            assert(preset_words(c)[6] == "--search"@);
            assert(preset_words(c)[7] == "-s"@);
        },
        PresetCommand::Format(_) => {
            assert(preset_words(c)[0] == "format"@);
            assert(preset_words(c)[1] == "fo"@);
            assert(preset_words(c)[2] == "fr"@);
            assert(preset_words(c)[3] == "--format"@);
            assert(preset_words(c)[4] == "-fo"@);
            assert(preset_words(c)[5] == "-fr"@);
            assert(preset_words(c)[6] == "result"@);
            assert(preset_words(c)[7] == "--result"@);
            assert(preset_words(c)[8] == "r"@);
            assert(preset_words(c)[9] == "-r"@);
        },
    }
}

/// The command that `preset <action> <arg>` runs: load, list or format with
/// `arg`, or, for any other word, load the preset named `action`.
pub fn preset_command(action: &str, arg: &str) -> (r: PresetCommand)
    ensures
        is_load_word(action@) ==> (r matches PresetCommand::Load(s) && s@ == arg@),
        !is_load_word(action@) && is_list_word(action@) ==> (r matches PresetCommand::List(s)
            && s@ == arg@),
        !is_load_word(action@) && !is_list_word(action@) && is_format_word(action@) ==> (r matches PresetCommand::Format(s) && s@ == arg@),
        !is_load_word(action@) && !is_list_word(action@) && !is_format_word(action@) ==> (r matches PresetCommand::Load(s) && s@ == action@),
{
    let a = action;
    let mut s = String::new();
    if str_eq(a, "load") || str_eq(a, "from") || str_eq(a, "apply") || str_eq(a, "--load")
        || str_eq(a, "--from") || str_eq(a, "--apply") || str_eq(a, "lo") || str_eq(a, "f")
        || str_eq(a, "ld") || str_eq(a, "a") || str_eq(a, "-lo") || str_eq(a, "-f") || str_eq(
        a,
        "-ld",
    ) || str_eq(a, "-a") {
        push_str(&mut s, arg);
        PresetCommand::Load(s)
    } else if str_eq(a, "list") || str_eq(a, "l") || str_eq(a, "--list") || str_eq(a, "-l")
        || str_eq(a, "search") || str_eq(a, "s") || str_eq(a, "--search") || str_eq(a, "-s") {
        push_str(&mut s, arg);
        PresetCommand::List(s)
    } else if str_eq(a, "format") || str_eq(a, "fo") || str_eq(a, "fr") || str_eq(a, "--format")
        || str_eq(a, "-fo") || str_eq(a, "-fr") || str_eq(a, "result") || str_eq(a, "--result")
        || str_eq(a, "r") || str_eq(a, "-r") {
        push_str(&mut s, arg);
        PresetCommand::Format(s)
    } else {
        push_str(&mut s, action);
        PresetCommand::Load(s)
    }
}

/// Whether the preset file `name` is listed for the search `search`: the
/// search is empty or occurs in the name.
pub fn preset_matches(name: &str, search: &str) -> (r: bool)
    ensures
        r == (search@.len() == 0 || contains_str(name@, search@)),
{
    if search.is_empty() {
        return true;
    }
    let n = chars_of(name);
    let s = chars_of(search);
    contains_of(&n, &s)
}

/// The preset once its host name placeholders are filled in: every
/// `%HOSTNAME%` replaced by `hostname`.
pub open spec fn spec_fill_hostname(content: Seq<char>, hostname: Seq<char>) -> Seq<char> {
    replace_all(content, "%HOSTNAME%"@, hostname)
}

/// The last step of formatting a preset: fills in the host name, then
/// refuses content over [`MAX_SIZE`] bytes and content that is not a well
/// formed hosts file.
pub fn format_result(preprocessed: &str, hostname: &str) -> (r: Result<String, HsfError>)
    ensures
        ({
            let c = spec_fill_hostname(preprocessed@, hostname@);
            &&& utf8_len(c) > MAX_SIZE ==> r == Err::<String, HsfError>(HsfError::ContentLimit)
            &&& utf8_len(c) <= MAX_SIZE && !spec_is_valid_hosts_content(c) ==> (r matches Err(
                HsfError::IncorrectHostsFormat { line },
            ) && is_first_bad_line(lines(c), line as int))
            &&& utf8_len(c) <= MAX_SIZE && spec_is_valid_hosts_content(c) ==> (r matches Ok(s)
                && s@ == c)
        }),
{
    let t = chars_of(preprocessed);
    let pat = chars_of("%HOSTNAME%");
    let rep = chars_of(hostname);
    proof {
        reveal_strlit("%HOSTNAME%");
    }
    let out = replace_of(&t, &pat, &rep);
    let processed = string_of(&out);
    if processed.as_str().as_bytes().len() as u64 > MAX_SIZE {
        return Err(HsfError::ContentLimit);
    }
    match first_invalid_hosts_line(processed.as_str()) {
        Some(line) => Err(HsfError::IncorrectHostsFormat { line }),
        None => Ok(processed),
    }
}

/// What to do with the output of the preset formatter.
#[derive(Debug, PartialEq, Eq)]
pub enum FormatterOutcome {
    /// The formatter was stopped by the time limit.
    Timeout,
    /// The formatter failed; its output explains why.
    Failed,
    /// The output is a well formed hosts file: write it.
    Write,
}

/// The formatter reported an error: its output starts with `E:` or `e:`.
pub open spec fn reports_error(output: Seq<char>) -> bool {
    starts_with(output, "E:"@) || starts_with(output, "e:"@)
}

/// Decides what to do with the formatter's exit code and output: exit code
/// 124 is the time limit; another failure, or an output that reports an
/// error, is shown; otherwise the output is written if it is at most
/// [`MAX_SIZE`] bytes of a well formed hosts file, and refused if not.
pub fn formatter_outcome(code: i32, output: &str) -> (r: Result<FormatterOutcome, HsfError>)
    ensures
        (code != 0 || reports_error(output@)) && code == 124 ==> r == Ok::<
            FormatterOutcome,
            HsfError,
        >(FormatterOutcome::Timeout),
        (code != 0 || reports_error(output@)) && code != 124 ==> r == Ok::<
            FormatterOutcome,
            HsfError,
        >(FormatterOutcome::Failed),
        !(code != 0 || reports_error(output@)) && utf8_len(output@) > MAX_SIZE ==> r == Err::<
            FormatterOutcome,
            HsfError,
        >(HsfError::IncorrectHostsInput { bad_line: None }),
        !(code != 0 || reports_error(output@)) && utf8_len(output@) <= MAX_SIZE ==> if spec_is_valid_hosts_content(output@) {
            r == Ok::<FormatterOutcome, HsfError>(FormatterOutcome::Write)
        } else {
            r matches Err(HsfError::IncorrectHostsInput { bad_line: Some(line) }) && is_first_bad_line(
                lines(output@),
                line as int,
            )
        },
{
    let o = chars_of(output);
    let upper = chars_of("E:");
    let lower = chars_of("e:");
    let has_errors = starts_with_of(&o, &upper) || starts_with_of(&o, &lower);
    if code != 0 || has_errors {
        if code == 124 {
            Ok(FormatterOutcome::Timeout)
        } else {
            Ok(FormatterOutcome::Failed)
        }
    } else if output.as_bytes().len() as u64 > MAX_SIZE {
        Err(HsfError::IncorrectHostsInput { bad_line: None })
    } else {
        match first_invalid_hosts_line(output) {
            Some(line) => Err(HsfError::IncorrectHostsInput { bad_line: Some(line) }),
            None => Ok(FormatterOutcome::Write),
        }
    }
}

/// Removing a final `\r` does not change whether a hosts line is well
/// formed.
proof fn lemma_hosts_line_strip_cr(x: Seq<char>)
    ensures
        hosts_line_ok(strip_cr(x)) == hosts_line_ok(x),
{
    if x.len() > 0 && x.last() == '\r' {
        let y = x.drop_last();
        assert(y.push('\r') =~= x);
        lemma_before_char_push(y, '#', '\r');
        if !y.contains('#') {
            lemma_before_char_split(y, '#');
            lemma_trim_strip_cr(x);
        }
    }
}

/// Ending a text with one more newline keeps it a well formed hosts file.
proof fn lemma_valid_push_newline(s: Seq<char>)
    requires
        spec_is_valid_hosts_content(s),
    ensures
        spec_is_valid_hosts_content(s + seq!['\n']),
    decreases s.len(),
{
    lemma_before_char_split(s, '\n');
    let a = before_char(s, '\n');
    let e = Seq::<char>::empty();
    assert(lines(e) =~= Seq::<Seq<char>>::empty());
    if !s.contains('\n') {
        lemma_lines_segment(seq![], s, e);
        assert(s + seq!['\n'] =~= s + seq!['\n'] + e);
        assert(e + s =~= s);
        let l2 = lines(s + seq!['\n']);
        assert(l2 =~= seq![strip_cr(s)]);
        if s.len() > 0 {
            lemma_lines_single(e, s);
            assert(lines(s)[0] == s);
            lemma_hosts_line_strip_cr(s);
        } else {
            assert(strip_cr(s).len() == 0);
            assert(before_char(strip_cr(s), '#') =~= e);
        }
        assert(hosts_line_ok(l2[0]));
    } else {
        let b = s.skip(a.len() + 1int);
        assert(s =~= a + seq!['\n'] + b);
        assert(s + seq!['\n'] =~= a + seq!['\n'] + (b + seq!['\n']));
        lemma_lines_segment(seq![], a, b);
        lemma_lines_segment(seq![], a, b + seq!['\n']);
        assert(e + a =~= a);
        let l1 = lines(s);
        let l2 = lines(s + seq!['\n']);
        assert(l1 == seq![strip_cr(a)] + lines(b));
        assert(l2 == seq![strip_cr(a)] + lines(b + seq!['\n']));
        assert(spec_is_valid_hosts_content(b)) by {
            assert forall|j: int| 0 <= j < lines(b).len() implies hosts_line_ok(
                #[trigger] lines(b)[j],
            ) by {
                assert(l1[j + 1] == lines(b)[j]);
            }
        }
        lemma_valid_push_newline(b);
        assert forall|j: int| 0 <= j < l2.len() implies hosts_line_ok(#[trigger] l2[j]) by {
            if j == 0 {
                assert(l2[0] == l1[0]);
            } else {
                assert(l2[j] == lines(b + seq!['\n'])[j - 1]);
            }
        }
    }
}

/// One more ASCII character adds one UTF-8 byte.
proof fn lemma_utf8_len_push(s: Seq<char>, c: char)
    requires
        (c as u32) < 128,
    ensures
        utf8_len(s.push(c)) == utf8_len(s) + 1,
    decreases s.len(),
{
    if s.len() == 0 {
        assert(s.push(c) =~= seq![c]);
        assert(seq![c].drop_first() =~= Seq::<char>::empty());
        assert(has_width_1_encoding(c as u32));
        assert(encode_scalar(c as u32).len() == 1);
        assert(encode_utf8(seq![c]) == encode_scalar(seq![c][0] as u32) + encode_utf8(
            Seq::<char>::empty(),
        ));
        assert(encode_utf8(s) == Seq::<u8>::empty());
    } else {
        assert(s.push(c)[0] == s[0]);
        assert(s.push(c).drop_first() =~= s.drop_first().push(c));
        lemma_utf8_len_push(s.drop_first(), c);
        assert(encode_utf8(s.push(c)) == encode_scalar(s[0] as u32) + encode_utf8(
            s.drop_first().push(c),
        ));
        assert(encode_utf8(s) == encode_scalar(s[0] as u32) + encode_utf8(s.drop_first()));
    }
}

/// What `preset format` prints is what `preset load` writes: a formatted
/// preset, printed with its final newline, is accepted by the loader (when it
/// is under the size limit by at least the newline, and the printed text does
/// not start like an error report).
pub proof fn lemma_formatted_preset_loads(s: Seq<char>)
    requires
        spec_is_valid_hosts_content(s),
        utf8_len(s) < MAX_SIZE,
        !reports_error(s + seq!['\n']),
    ensures
        utf8_len(s + seq!['\n']) <= MAX_SIZE,
        spec_is_valid_hosts_content(s + seq!['\n']),
{
    lemma_valid_push_newline(s);
    assert(s + seq!['\n'] =~= s.push('\n'));
    lemma_utf8_len_push(s, '\n');
}

} // verus!
