//! Editing a hosts file (check, add, remove, clear, reset) and reading the
//! user's answers.
use vstd::prelude::*;
use crate::chars::{str_to_lowercase, to_lowercase};
use crate::error::HsfError;
use crate::sysfiles::{
    spec_is_ip_addr, is_address_shaped, is_rule_line, count_rule_lines, spec_count_rules, is_address_char, spec_is_valid_domain, is_valid_ip, is_valid_domain, spec_is_valid_hostname,
    is_valid_hostname,
};
use crate::text::{
    is_word, ws, strip_cr, lemma_before_char_split, lemma_lines_segment, lemma_lines_single,
    lemma_trim_strip_cr, lemma_trim_append, lemma_trim_end_split, lemma_lines_concat,
    lemma_lines_join, lemma_lines_no_newline, lemma_words_are_words, lemma_join_words,
    lemma_words_split, lemma_words_of_word, lemma_trim_plain, before_char, lines_from,
    Class, trim, trim_start_of, trim_end, trim_end_of, words, lines, join, views, replace_all, chars_of, lines_of,
    words_of, trim_bounds, trim_end_len, slice_of, extend_chars, join_of, chars_eq, string_of,
    str_eq, push_chars, replace_of, trimmed, push_str,
};

verus! {

/// A line that names the domain `d`: its trimmed form is a rule (not blank,
/// not a `#` comment) with at least two words, and `d` is one of the words
/// after the first.
pub open spec fn names_domain(l: Seq<char>, d: Seq<char>) -> bool {
    let t = trim(l);
    &&& t.len() > 0
    &&& t[0] != '#'
    &&& words(t).len() >= 2
    &&& words(t).skip(1).contains(d)
}

/// The address of a rule line: its first word.
pub open spec fn address_of(l: Seq<char>) -> Seq<char> {
    words(trim(l))[0]
}

/// `i` is the first of the lines `ls` that names `d`.
pub open spec fn is_first_naming(ls: Seq<Seq<char>>, d: Seq<char>, i: int) -> bool {
    &&& 0 <= i < ls.len()
    &&& names_domain(ls[i], d)
    &&& forall|j: int| 0 <= j < i ==> !names_domain(#[trigger] ls[j], d)
}

/// None of the lines `ls` names `d`.
pub open spec fn names_none(ls: Seq<Seq<char>>, d: Seq<char>) -> bool {
    forall|j: int| 0 <= j < ls.len() ==> !names_domain(#[trigger] ls[j], d)
}

/// Whether the line `l` names the domain `d`; when it does, also returns the
/// words of its trimmed form.
fn line_names(l: &Vec<char>, d: &Vec<char>) -> (r: (bool, Vec<Vec<char>>))
    ensures
        r.0 == names_domain(l@, d@),
        views(r.1@) == words(trim(l@)),
{
    let (from, to) = trim_bounds(l, Class::Space);
    let t = slice_of(l, from, to);
    let parts = words_of(&t);
    if from == to || t[0] == '#' || parts.len() < 2 {
        return (false, parts);
    }
    let mut k: usize = 1;
    while k < parts.len()
        invariant
            views(parts@) == words(t@),
            t@ == trim(l@),
            t@.len() > 0,
            t@[0] != '#',
            parts.len() >= 2,
            1 <= k <= parts.len(),
            forall|j: int| 1 <= j < k ==> views(parts@)[j] != d@,
        decreases parts.len() - k,
    {
        assert(views(parts@)[k as int] == parts@[k as int]@);
        if chars_eq(&parts[k], d) {
            assert(views(parts@).skip(1)[k - 1] == d@);
            return (true, parts);
        }
        k += 1;
    }
    assert(!views(parts@).skip(1).contains(d@)) by {
        if views(parts@).skip(1).contains(d@) {
            let j = choose|j: int| 0 <= j < views(parts@).skip(1).len() && views(parts@).skip(1)[j] == d@;
            assert(views(parts@)[j + 1] == d@);
        }
    }
    (false, parts)
}

/// Finds the first line of `ls` that names `d`, with its index and address.
fn find_in_lines(ls: &Vec<Vec<char>>, d: &Vec<char>) -> (r: Option<(usize, Vec<char>)>)
    ensures
        r matches Some((i, ip)) ==> is_first_naming(views(ls@), d@, i as int) && ip@
            == address_of(views(ls@)[i as int]),
        r is None ==> names_none(views(ls@), d@),
{
    let mut i: usize = 0;
    while i < ls.len()
        invariant
            0 <= i <= ls.len(),
            forall|j: int| 0 <= j < i ==> !names_domain(#[trigger] views(ls@)[j], d@),
        decreases ls.len() - i,
    {
        assert(views(ls@)[i as int] == ls@[i as int]@);
        let (hit, parts) = line_names(&ls[i], d);
        if hit {
            assert(views(parts@)[0] == parts@[0]@);
            let ip = slice_of(&parts[0], 0, parts[0].len());
            assert(parts@[0]@.subrange(0, parts@[0]@.len() as int) =~= parts@[0]@);
            return Some((i, ip));
        }
        i += 1;
    }
    None
}

/// Looks up the address that the hosts `content` gives `domain`: the address
/// of the first rule line that names it (`check` prints it).
pub fn check(content: &str, domain: &str) -> (r: Result<Option<String>, HsfError>)
    ensures
        !spec_is_valid_domain(domain@) <==> r == Err::<Option<String>, HsfError>(
            HsfError::EmptyDomain,
        ),
        spec_is_valid_domain(domain@) ==> r is Ok,
        r matches Ok(Some(ip)) ==> exists|i: int|
            is_first_naming(lines(content@), domain@, i) && ip@ == address_of(lines(content@)[i]),
        r matches Ok(None) ==> names_none(lines(content@), domain@),
{
    if !is_valid_domain(domain) {
        return Err(HsfError::EmptyDomain);
    }
    let cs = chars_of(content);
    let ls = lines_of(&cs);
    let d = chars_of(domain);
    match find_in_lines(&ls, &d) {
        Some((_, ip)) => Ok(Some(string_of(&ip))),
        None => Ok(None),
    }
}

/// The words `ws` without every copy of `d` (`Vec::retain`).
pub open spec fn without_word(ws: Seq<Seq<char>>, d: Seq<char>) -> Seq<Seq<char>>
    decreases ws.len(),
{
    if ws.len() == 0 {
        seq![]
    } else {
        without_word(ws.drop_last(), d) + if ws.last() == d {
            Seq::<Seq<char>>::empty()
        } else {
            seq![ws.last()]
        }
    }
}

/// What becomes of a line with the words `parts` once `d` is taken out of
/// it: the remaining words joined by single spaces when more than one
/// remains, and no line otherwise.
pub open spec fn edited_line(parts: Seq<Seq<char>>, d: Seq<char>) -> Seq<Seq<char>> {
    let kept = without_word(parts, d);
    if kept.len() > 1 {
        seq![join(kept, seq![' '])]
    } else {
        seq![]
    }
}

/// The hosts entry `ip domain`.
pub open spec fn entry(ip: Seq<char>, d: Seq<char>) -> Seq<char> {
    ip + seq![' '] + d
}

/// The lines `ls` once line `k` has lost the domain `d`.
pub open spec fn replaced_lines(ls: Seq<Seq<char>>, k: int, d: Seq<char>) -> Seq<Seq<char>>
    decreases ls.len(),
{
    if ls.len() == 0 {
        seq![]
    } else {
        replaced_lines(ls.drop_last(), k, d) + if ls.len() - 1 == k {
            edited_line(words(ls.last()), d)
        } else {
            seq![ls.last()]
        }
    }
}

/// The content after `add` moved `d` from line `k` to a new entry for `ip`:
/// the edited lines joined by newlines, trimmed at the end, then the new
/// entry on a line of its own.
pub open spec fn spec_replaced(c: Seq<char>, k: int, ip: Seq<char>, d: Seq<char>) -> Seq<char> {
    trim_end(join(replaced_lines(lines(c), k, d), seq!['\n'])) + seq!['\n'] + entry(ip, d)
        + seq!['\n']
}

/// The content after `add` appended a new entry for `ip` and `d`.
pub open spec fn spec_appended(c: Seq<char>, ip: Seq<char>, d: Seq<char>) -> Seq<char> {
    trim_end(c) + seq!['\n'] + entry(ip, d) + seq!['\n']
}

/// The lines `ls` once every line that names `d` has lost it.
pub open spec fn removed_lines(ls: Seq<Seq<char>>, d: Seq<char>) -> Seq<Seq<char>>
    decreases ls.len(),
{
    if ls.len() == 0 {
        seq![]
    } else {
        removed_lines(ls.drop_last(), d) + if names_domain(ls.last(), d) {
            edited_line(words(trim(ls.last())), d)
        } else {
            seq![ls.last()]
        }
    }
}

/// The content after `remove` took `d` out of every line that names it.
pub open spec fn spec_removed(c: Seq<char>, d: Seq<char>) -> Seq<char> {
    join(removed_lines(lines(c), d), seq!['\n']) + seq!['\n']
}

/// What `add` does to a hosts file.
#[derive(Debug, PartialEq, Eq)]
pub enum AddOutcome {
    /// The domain already points to the address, on this line (counted
    /// from 1); nothing changes.
    Present { line: usize },
    /// The domain points elsewhere; if the user agrees, the file becomes
    /// `content`, with the domain moved to a new entry.
    Replace { content: String },
    /// The domain is not there; the file becomes `content`, with a new entry.
    Append { content: String },
}

/// A copy of `v`.
fn copy_chars(v: &Vec<char>) -> (r: Vec<char>)
    ensures
        r@ == v@,
{
    let r = slice_of(v, 0, v.len());
    assert(v@.subrange(0, v.len() as int) =~= v@);
    r
}

/// Appends copies of the lines `more` to `out`.
fn extend_lines(out: &mut Vec<Vec<char>>, more: &Vec<Vec<char>>)
    ensures
        views(final(out)@) == views(old(out)@) + views(more@),
{
    let mut m: usize = 0;
    while m < more.len()
        invariant
            0 <= m <= more.len(),
            views(out@) == views(old(out)@) + views(more@).take(m as int),
        decreases more.len() - m,
    {
        let ghost cur = views(out@);
        let w = copy_chars(&more[m]);
        out.push(w);
        assert(views(out@) =~= cur + seq![w@]);
        assert(views(more@).take(m + 1) =~= views(more@).take(m as int) + seq![more@[m as int]@]);
        m += 1;
    }
    assert(views(more@).take(more.len() as int) =~= views(more@));
}

/// Line `k`'s replacement: the words without `d`, joined, if more than one
/// remains.
fn edit_line(parts: &Vec<Vec<char>>, d: &Vec<char>) -> (r: Vec<Vec<char>>)
    ensures
        views(r@) == edited_line(views(parts@), d@),
{
    let mut kept: Vec<Vec<char>> = Vec::new();
    let mut i: usize = 0;
    while i < parts.len()
        invariant
            0 <= i <= parts.len(),
            views(kept@) == without_word(views(parts@).take(i as int), d@),
        decreases parts.len() - i,
    {
        let ghost before = views(kept@);
        assert(views(parts@).take(i + 1).drop_last() =~= views(parts@).take(i as int));
        assert(views(parts@).take(i + 1).last() == parts@[i as int]@);
        if !chars_eq(&parts[i], d) {
            let w = slice_of(&parts[i], 0, parts[i].len());
            assert(parts@[i as int]@.subrange(0, parts@[i as int]@.len() as int) =~= parts@[i as int]@);
            kept.push(w);
            assert(views(kept@) =~= before + seq![w@]);
        } else {
            assert(before + Seq::<Seq<char>>::empty() =~= before);
        }
        i += 1;
    }
    assert(views(parts@).take(parts.len() as int) =~= views(parts@));
    let mut r: Vec<Vec<char>> = Vec::new();
    if kept.len() > 1 {
        let sep = vec![' '];
        assert(sep@ =~= seq![' ']);
        let line = join_of(&kept, &sep);
        r.push(line);
        assert(views(r@) =~= seq![line@]);
    } else {
        assert(views(r@) =~= seq![]);
    }
    r
}

/// `ip domain` followed by a newline, appended to `out`.
fn push_entry(out: &mut Vec<char>, ip: &Vec<char>, d: &Vec<char>)
    ensures
        final(out)@ == old(out)@ + seq!['\n'] + entry(ip@, d@) + seq!['\n'],
{
    out.push('\n');
    extend_chars(out, ip);
    out.push(' ');
    extend_chars(out, d);
    out.push('\n');
    assert(final(out)@ =~= old(out)@ + seq!['\n'] + entry(ip@, d@) + seq!['\n']);
}

/// Adds domain to hosts
///
/// Returns what adding the entry `ip domain` does to the hosts `content`.
pub fn add(content: &str, ip: &str, domain: &str) -> (r: Result<AddOutcome, HsfError>)
    ensures
        !(spec_is_ip_addr(ip@) && spec_is_valid_domain(domain@)) <==> r == Err::<
            AddOutcome,
            HsfError,
        >(HsfError::EmptyIpOrDomain),
        spec_is_ip_addr(ip@) && spec_is_valid_domain(domain@) ==> r is Ok,
        r is Ok ==> is_address_shaped(ip@) && is_word(trim(domain@)),
        r matches Ok(AddOutcome::Present { line }) ==> is_first_naming(
            lines(content@),
            domain@,
            line - 1,
        ) && address_of(lines(content@)[line - 1]) == ip@,
        r matches Ok(AddOutcome::Replace { content: c }) ==> exists|k: int|
            is_first_naming(lines(content@), domain@, k) && address_of(lines(content@)[k]) != ip@
                && c@ == spec_replaced(content@, k, ip@, domain@),
        r matches Ok(AddOutcome::Append { content: c }) ==> names_none(lines(content@), domain@)
            && c@ == spec_appended(content@, ip@, domain@),
{
    if !is_valid_ip(ip) || !is_valid_domain(domain) {
        return Err(HsfError::EmptyIpOrDomain);
    }
    let cs = chars_of(content);
    let ls = lines_of(&cs);
    let d = chars_of(domain);
    let ipc = chars_of(ip);
    match find_in_lines(&ls, &d) {
        Some((k, found_ip)) => {
            let nlines = ls.len();
            assert(views(ls@).len() == ls@.len());
            assert(k < nlines);
            if chars_eq(&found_ip, &ipc) {
                return Ok(AddOutcome::Present { line: k + 1 });
            }
            let mut new_lines: Vec<Vec<char>> = Vec::new();
            let mut i: usize = 0;
            while i < ls.len()
                invariant
                    0 <= i <= ls.len(),
                    views(new_lines@) == replaced_lines(views(ls@).take(i as int), k as int, d@),
                decreases ls.len() - i,
            {
                let ghost before = views(new_lines@);
                let ghost pre = views(ls@).take(i + 1);
                assert(pre.drop_last() =~= views(ls@).take(i as int));
                assert(pre.last() == ls@[i as int]@);
                if i == k {
                    let parts = words_of(&ls[i]);
                    let edited = edit_line(&parts, &d);
                    extend_lines(&mut new_lines, &edited);
                } else {
                    let w = slice_of(&ls[i], 0, ls[i].len());
                    assert(ls@[i as int]@.subrange(0, ls@[i as int]@.len() as int) =~= ls@[i as int]@);
                    new_lines.push(w);
                    assert(views(new_lines@) =~= before + seq![w@]);
                }
                i += 1;
            }
            assert(views(ls@).take(ls.len() as int) =~= views(ls@));
            let nl = vec!['\n'];
            assert(nl@ =~= seq!['\n']);
            let joined = join_of(&new_lines, &nl);
            let n = trim_end_len(&joined, Class::Space);
            let mut out = slice_of(&joined, 0, n);
            assert(joined@.subrange(0, n as int) =~= joined@.take(n as int));
            push_entry(&mut out, &ipc, &d);
            Ok(AddOutcome::Replace { content: string_of(&out) })
        },
        None => {
            let n = trim_end_len(&cs, Class::Space);
            let mut out = slice_of(&cs, 0, n);
            assert(cs@.subrange(0, n as int) =~= cs@.take(n as int));
            push_entry(&mut out, &ipc, &d);
            Ok(AddOutcome::Append { content: string_of(&out) })
        },
    }
}

/// Removes domain from hosts file
///
/// Returns the hosts `content` with `domain` taken out of every rule line
/// that names it, or `None` when no line does.
pub fn remove(content: &str, domain: &str) -> (r: Result<Option<String>, HsfError>)
    ensures
        !spec_is_valid_domain(domain@) <==> r == Err::<Option<String>, HsfError>(
            HsfError::IncorrectDomain,
        ),
        spec_is_valid_domain(domain@) ==> r is Ok,
        r matches Ok(Some(c)) ==> !names_none(lines(content@), domain@) && c@ == spec_removed(
            content@,
            domain@,
        ),
        r matches Ok(None) ==> names_none(lines(content@), domain@),
{
    if !is_valid_domain(domain) {
        return Err(HsfError::IncorrectDomain);
    }
    let cs = chars_of(content);
    let ls = lines_of(&cs);
    let d = chars_of(domain);
    let mut new_lines: Vec<Vec<char>> = Vec::new();
    let mut removed = false;
    let mut i: usize = 0;
    while i < ls.len()
        invariant
            0 <= i <= ls.len(),
            views(new_lines@) == removed_lines(views(ls@).take(i as int), d@),
            removed <==> !names_none(views(ls@).take(i as int), d@),
        decreases ls.len() - i,
    {
        let ghost before = views(new_lines@);
        let ghost pre = views(ls@).take(i + 1);
        assert(pre.drop_last() =~= views(ls@).take(i as int));
        assert(pre.last() == ls@[i as int]@);
        let (hit, parts) = line_names(&ls[i], &d);
        if hit {
            removed = true;
            let edited = edit_line(&parts, &d);
            extend_lines(&mut new_lines, &edited);
        } else {
            let w = slice_of(&ls[i], 0, ls[i].len());
            assert(ls@[i as int]@.subrange(0, ls@[i as int]@.len() as int) =~= ls@[i as int]@);
            new_lines.push(w);
            assert(views(new_lines@) =~= before + seq![w@]);
        }
        assert(removed <==> !names_none(pre, d@)) by {
            if !names_none(pre, d@) {
                let j = choose|j: int| 0 <= j < pre.len() && names_domain(#[trigger] pre[j], d@);
                if j < i {
                    assert(views(ls@).take(i as int)[j] == pre[j]);
                }
            }
            if !names_none(views(ls@).take(i as int), d@) {
                let j = choose|j: int|
                    0 <= j < i && names_domain(#[trigger] views(ls@).take(i as int)[j], d@);
                assert(pre[j] == views(ls@).take(i as int)[j]);
            }
        }
        i += 1;
    }
    assert(views(ls@).take(ls.len() as int) =~= views(ls@));
    if !removed {
        return Ok(None);
    }
    let nl = vec!['\n'];
    assert(nl@ =~= seq!['\n']);
    let mut out = join_of(&new_lines, &nl);
    out.push('\n');
    Ok(Some(string_of(&out)))
}

/// The characters of an optional text.
pub open spec fn text_of(o: Option<&str>) -> Option<Seq<char>> {
    match o {
        Some(t) => Some(t@),
        None => None,
    }
}

/// The time format used when no configuration gives one.
pub open spec fn default_time_format() -> Seq<char> {
    "%Y-%m-%dT%H:%M:%SZ"@
}

/// The time format that the configuration files give: the first of the
/// user's and the system's file contents (`None` when the file could not be
/// read) that is not blank, trimmed; otherwise the default.
pub open spec fn spec_time_format(user: Option<Seq<char>>, system: Option<Seq<char>>) -> Seq<
    char,
> {
    if user is Some && trim(user->0).len() > 0 {
        trim(user->0)
    } else if system is Some && trim(system->0).len() > 0 {
        trim(system->0)
    } else {
        default_time_format()
    }
}

/// Return date format from config
///
/// Chooses the time format from the contents of the user's and the system's
/// configuration files (`None` for a file that could not be read).
pub fn time_format(user: Option<&str>, system: Option<&str>) -> (r: String)
    ensures
        r@ == spec_time_format(text_of(user), text_of(system)),
{
    if let Some(u) = user {
        let t = trimmed(u);
        if !t.as_str().is_empty() {
            return t;
        }
    }
    if let Some(y) = system {
        let t = trimmed(y);
        if !t.as_str().is_empty() {
            return t;
        }
    }
    let mut r = String::new();
    push_str(&mut r, "%Y-%m-%dT%H:%M:%SZ");
    proof {
        reveal_strlit("%Y-%m-%dT%H:%M:%SZ");
    }
    r
}

/// The user agreed: the answer, lower-cased, is `y`.
pub open spec fn spec_is_confirmed(answer: Seq<char>) -> bool {
    str_to_lowercase(answer) == "y"@
}

/// Whether the user's answer agrees to a `[y/N]` question.
pub fn is_confirmed(answer: &str) -> (r: bool)
    ensures
        r == spec_is_confirmed(answer@),
{
    let lower = to_lowercase(answer);
    str_eq(lower.as_str(), "y")
}

/// `s` without every trailing `c` (`str::trim_end_matches`).
pub open spec fn strip_end(s: Seq<char>, c: char) -> Seq<char>
    decreases s.len(),
{
    if s.len() > 0 && s.last() == c {
        strip_end(s.drop_last(), c)
    } else {
        s
    }
}

/// The answer in a line read from the terminal: without trailing `\n`, then
/// without trailing `\r`.
pub open spec fn spec_line_answer(line: Seq<char>) -> Seq<char> {
    strip_end(strip_end(line, '\n'), '\r')
}

fn strip_end_len(v: &Vec<char>, n: usize, c: char) -> (r: usize)
    requires
        n <= v.len(),
    ensures
        r <= n,
        v@.take(r as int) == strip_end(v@.take(n as int), c),
{
    let mut j: usize = n;
    while j > 0 && v[j - 1] == c
        invariant
            j <= n <= v.len(),
            strip_end(v@.take(n as int), c) == strip_end(v@.take(j as int), c),
        decreases j,
    {
        assert(v@.take(j as int).drop_last() =~= v@.take(j - 1));
        j -= 1;
    }
    j
}

/// The user's answer in the line `line` read from the terminal (what
/// `input` returns).
pub fn line_answer(line: &str) -> (r: String)
    ensures
        r@ == spec_line_answer(line@),
{
    let cs = chars_of(line);
    assert(cs@.take(cs.len() as int) =~= cs@);
    let a = strip_end_len(&cs, cs.len(), '\n');
    let b = strip_end_len(&cs, a, '\r');
    let mut r = String::new();
    push_chars(&mut r, &cs, 0, b);
    assert(cs@.subrange(0, b as int) =~= cs@.take(b as int));
    r
}

/// Clears hosts file to empty
///
/// Given the user's answer to the confirmation, returns the new content of
/// the hosts file (empty) when they agreed, and `None` otherwise.
pub fn clear(answer: &str) -> (r: Option<String>)
    ensures
        spec_is_confirmed(answer@) ==> (r matches Some(c) && c@.len() == 0),
        !spec_is_confirmed(answer@) ==> r is None,
{
    if is_confirmed(answer) {
        Some(String::new())
    } else {
        None
    }
}

/// Writed to hosts file normal state
///
/// The base hosts file: `template` with every `%HOSTNAME%` replaced by
/// `hostname`.
pub fn reset(template: &str, hostname: &str) -> (r: String)
    ensures
        r@ == replace_all(template@, "%HOSTNAME%"@, hostname@),
{
    let t = chars_of(template);
    let pat = chars_of("%HOSTNAME%");
    let rep = chars_of(hostname);
    proof {
        reveal_strlit("%HOSTNAME%");
    }
    let out = replace_of(&t, &pat, &rep);
    string_of(&out)
}

/// A question that the host name dialog asks, or its end.
#[derive(Debug, PartialEq, Eq)]
pub enum HostnameAsk {
    /// There is no host name on file: ask for one; `complain` says that the
    /// last answer was not a valid host name.
    New { complain: bool },
    /// There is a host name on file: ask for another one, or an empty answer
    /// to keep it; `complain` says that the last answer was not valid.
    Override { complain: bool },
    /// Ask whether `hostname` should be written to the host name file.
    Edit { hostname: String },
    /// The dialog is over with `hostname`; `write` says to write it to the
    /// host name file first.
    Done { hostname: String, write: bool },
}

/// The dialog asks for a host name where none is on file.
pub open spec fn asks_new(r: HostnameAsk, complain: bool) -> bool {
    r matches HostnameAsk::New { complain: c } && c == complain
}

/// The dialog asks for a host name other than the one on file.
pub open spec fn asks_override(r: HostnameAsk, complain: bool) -> bool {
    r matches HostnameAsk::Override { complain: c } && c == complain
}

/// The dialog asks whether to write `h` to the host name file.
pub open spec fn asks_edit(r: HostnameAsk, h: Seq<char>) -> bool {
    r matches HostnameAsk::Edit { hostname } && hostname@ == h
}

/// The dialog is over with the host name `h`.
pub open spec fn is_done(r: HostnameAsk, h: Seq<char>, write: bool) -> bool {
    r matches HostnameAsk::Done { hostname, write: w } && hostname@ == h && w == write
}

/// Where the host name dialog stands.
#[derive(PartialEq, Eq, Structural)]
pub enum DialogPhase {
    /// Asking for a host name, none being on file.
    New,
    /// Asking for a host name other than the one on file.
    Override,
    /// Asking whether to write the chosen host name to the file.
    Edit,
    /// Over.
    Done,
}

/// The dialog that settles the host name a preset or the base file uses.
pub struct HostnameDialog {
    file_hostname: String,
    candidate: String,
    write: bool,
    phase: DialogPhase,
}

impl HostnameDialog {
    /// The host name on file (empty when there is none).
    pub closed spec fn file(&self) -> Seq<char> {
        self.file_hostname@
    }

    /// The host name chosen so far.
    pub closed spec fn chosen(&self) -> Seq<char> {
        self.candidate@
    }

    /// Once the dialog is over: whether the chosen host name is to be
    /// written to the host name file.
    pub closed spec fn writes(&self) -> bool {
        self.write
    }

    /// Where the dialog stands.
    pub closed spec fn stage(&self) -> DialogPhase {
        self.phase
    }

    #[verifier::type_invariant]
    closed spec fn inv(&self) -> bool {
        &&& self.phase == DialogPhase::Edit ==> spec_is_valid_hostname(self.candidate@)
        &&& self.phase == DialogPhase::Done && self.write ==> spec_is_valid_hostname(
            self.candidate@,
        )
        &&& self.phase == DialogPhase::Done ==> spec_is_valid_hostname(self.candidate@)
            || self.candidate@ == self.file_hostname@
    }

    /// Starts the dialog, given the host name on file (empty when there is
    /// none), and returns the first question.
    pub fn start(file_hostname: String) -> (r: (HostnameDialog, HostnameAsk))
        ensures
            r.0.file() == file_hostname@,
            file_hostname@.len() == 0 ==> r.0.stage() == DialogPhase::New && asks_new(r.1, false),
            file_hostname@.len() > 0 ==> r.0.stage() == DialogPhase::Override && asks_override(
                r.1,
                false,
            ),
    {
        if file_hostname.as_str().is_empty() {
            (
                HostnameDialog {
                    file_hostname,
                    candidate: String::new(),
                    write: false,
                    phase: DialogPhase::New,
                },
                HostnameAsk::New { complain: false },
            )
        } else {
            (
                HostnameDialog {
                    file_hostname,
                    candidate: String::new(),
                    write: false,
                    phase: DialogPhase::Override,
                },
                HostnameAsk::Override { complain: false },
            )
        }
    }

    /// Takes the user's answer to the last question and returns the next.
    /// Once the dialog is over, it stays over and gives the same end.
    pub fn answer(&mut self, answer: String) -> (r: HostnameAsk)
        ensures
            final(self).file() == old(self).file(),
            old(self).stage() == DialogPhase::New ==> if answer@.len() > 0 && spec_is_valid_hostname(
                answer@,
            ) {
                final(self).stage() == DialogPhase::Edit && final(self).chosen() == answer@
                    && asks_edit(r, answer@)
            } else {
                final(self).stage() == DialogPhase::New && asks_new(r, answer@.len() > 0)
            },
            old(self).stage() == DialogPhase::Override ==> if answer@.len() == 0 {
                final(self).stage() == DialogPhase::Done && final(self).chosen() == old(self).file()
                    && !final(self).writes() && is_done(r, old(self).file(), false)
            } else if spec_is_valid_hostname(answer@) {
                final(self).stage() == DialogPhase::Edit && final(self).chosen() == answer@
                    && asks_edit(r, answer@)
            } else {
                final(self).stage() == DialogPhase::Override && asks_override(r, true)
            },
            old(self).stage() == DialogPhase::Edit ==> final(self).stage() == DialogPhase::Done
                && final(self).chosen() == old(self).chosen() && final(self).writes() == (
                answer@.len() == 0) && is_done(r, old(self).chosen(), answer@.len() == 0),
            old(self).stage() == DialogPhase::Done ==> final(self).stage() == DialogPhase::Done
                && final(self).chosen() == old(self).chosen() && final(self).writes() == old(
                self,
            ).writes() && is_done(r, old(self).chosen(), old(self).writes()),
            r matches HostnameAsk::Done { hostname, write } ==> (write ==> spec_is_valid_hostname(
                hostname@,
            )) && (spec_is_valid_hostname(hostname@) || hostname@ == old(self).file()),
    {
        proof {
            use_type_invariant(&*self);
        }
        match self.phase {
            DialogPhase::New => {
                if !answer.as_str().is_empty() && is_valid_hostname(answer.as_str()) {
                    let h = answer.clone();
                    self.candidate = answer;
                    self.phase = DialogPhase::Edit;
                    HostnameAsk::Edit { hostname: h }
                } else {
                    let complain = !answer.as_str().is_empty();
                    HostnameAsk::New { complain }
                }
            },
            DialogPhase::Override => {
                if answer.as_str().is_empty() {
                    self.write = false;
                    self.candidate = self.file_hostname.clone();
                    self.phase = DialogPhase::Done;
                    HostnameAsk::Done { hostname: self.file_hostname.clone(), write: false }
                } else if is_valid_hostname(answer.as_str()) {
                    let h = answer.clone();
                    self.candidate = answer;
                    self.phase = DialogPhase::Edit;
                    HostnameAsk::Edit { hostname: h }
                } else {
                    HostnameAsk::Override { complain: true }
                }
            },
            DialogPhase::Edit => {
                let write = answer.as_str().is_empty();
                self.write = write;
                self.phase = DialogPhase::Done;
                HostnameAsk::Done { hostname: self.candidate.clone(), write }
            },
            DialogPhase::Done => HostnameAsk::Done {
                hostname: self.candidate.clone(),
                write: self.write,
            },
        }
    }
}

/// What follows a text's last non-blank character does not make its lines
/// name a domain: if the lines of `t + w` (`w` blank) name no `d`, neither do
/// those of `t` followed by a newline.
#[verifier::spinoff_prover]
proof fn lemma_names_before_blank(t: Seq<char>, w: Seq<char>, d: Seq<char>)
    requires
        t.len() == 0 || !ws(t.last()),
        forall|i: int| 0 <= i < w.len() ==> ws(#[trigger] w[i]),
        names_none(lines(t + w), d),
    ensures
        names_none(lines(t + seq!['\n']), d),
    decreases t.len(),
{
    lemma_before_char_split(t, '\n');
    let a = before_char(t, '\n');
    if !t.contains('\n') {
        lemma_lines_segment(seq![], t, seq![]);
        assert(t + seq!['\n'] =~= t + seq!['\n'] + Seq::<char>::empty());
        assert(Seq::<char>::empty() + t =~= t);
        assert(lines(Seq::<char>::empty()) =~= Seq::<Seq<char>>::empty());
        assert(lines(t + seq!['\n']) =~= seq![strip_cr(t)]);
        if t.len() == 0 {
            assert(trim(strip_cr(t)).len() == 0);
        } else {
            assert(strip_cr(t) == t);
            lemma_before_char_split(w, '\n');
            let w1 = before_char(w, '\n');
            assert forall|i: int| 0 <= i < w1.len() implies ws(#[trigger] w1[i]) by {
                assert(w1[i] == w[i]);
            }
            lemma_trim_append(t, w1, Class::Space);
            if w.contains('\n') {
                let w2 = w.skip(w1.len() + 1int);
                assert(w =~= w1 + seq!['\n'] + w2);
                assert(t + w =~= (t + w1) + seq!['\n'] + w2);
                assert(!(t + w1).contains('\n')) by {
                    if (t + w1).contains('\n') {
                        let i = choose|i: int| 0 <= i < (t + w1).len() && (t + w1)[i] == '\n';
                        if i < t.len() {
                            assert(t[i] == '\n');
                        } else {
                            assert(w1[i - t.len()] == '\n');
                        }
                    }
                }
                lemma_lines_segment(seq![], t + w1, w2);
                assert(Seq::<char>::empty() + (t + w1) =~= t + w1);
                assert(lines(t + w)[0] == strip_cr(t + w1));
                lemma_trim_strip_cr(t + w1);
                assert(!names_domain(lines(t + w)[0], d));
            } else {
                assert(w1 == w);
                assert(!(t + w).contains('\n')) by {
                    if (t + w).contains('\n') {
                        let i = choose|i: int| 0 <= i < (t + w).len() && (t + w)[i] == '\n';
                        if i < t.len() {
                            assert(t[i] == '\n');
                        } else {
                            assert(w[i - t.len()] == '\n');
                        }
                    }
                }
                lemma_lines_single(seq![], t + w);
                assert(Seq::<char>::empty() + (t + w) =~= t + w);
                assert(lines(t + w)[0] == t + w);
                assert(!names_domain(lines(t + w)[0], d));
            }
        }
    } else {
        let b = t.skip(a.len() + 1int);
        assert(t =~= a + seq!['\n'] + b);
        if b.len() == 0 {
            assert(t.last() == '\n');
        }
        assert(b.last() == t.last());
        assert(t + seq!['\n'] =~= a + seq!['\n'] + (b + seq!['\n']));
        assert(t + w =~= a + seq!['\n'] + (b + w));
        lemma_lines_segment(seq![], a, b + seq!['\n']);
        lemma_lines_segment(seq![], a, b + w);
        assert(Seq::<char>::empty() + a =~= a);
        let lw = lines(t + w);
        assert(lw == seq![strip_cr(a)] + lines(b + w));
        assert(names_none(lines(b + w), d)) by {
            assert forall|j: int| 0 <= j < lines(b + w).len() implies !names_domain(
                #[trigger] lines(b + w)[j],
                d,
            ) by {
                assert(lw[j + 1] == lines(b + w)[j]);
            }
        }
        lemma_names_before_blank(b, w, d);
        let l2 = lines(t + seq!['\n']);
        assert(l2 == seq![strip_cr(a)] + lines(b + seq!['\n']));
        assert forall|j: int| 0 <= j < l2.len() implies !names_domain(#[trigger] l2[j], d) by {
            if j == 0 {
                assert(l2[0] == lw[0]);
            } else {
                assert(l2[j] == lines(b + seq!['\n'])[j - 1]);
            }
        }
    }
}

/// Trimming the end of a text and ending it with a newline makes no line
/// name a domain that no line named.
proof fn lemma_names_trim_end(c: Seq<char>, d: Seq<char>)
    requires
        names_none(lines(c), d),
    ensures
        names_none(lines(trim_end(c) + seq!['\n']), d),
{
    lemma_trim_end_split(c, Class::Space);
    let t = trim_end(c);
    let w = c.skip(t.len() as int);
    assert forall|i: int| 0 <= i < w.len() implies ws(#[trigger] w[i]) by {
        assert(w[i] == c[t.len() + i]);
    }
    lemma_names_before_blank(t, w, d);
}

/// The entry `ip d` is a line that names `d`, with address `ip`.
proof fn lemma_entry(ip: Seq<char>, d: Seq<char>)
    requires
        is_word(ip),
        is_word(d),
        ip[0] != '#',
    ensures
        names_domain(entry(ip, d), d),
        address_of(entry(ip, d)) == ip,
        lines(entry(ip, d) + seq!['\n']) == seq![entry(ip, d)],
{
    let e = entry(ip, d);
    assert(e[0] == ip[0]);
    assert(e.last() == d.last());
    assert(!ws(e[0]));
    lemma_trim_plain(e);
    assert(ws(' '));
    lemma_words_split(seq![], ip, ' ', d);
    lemma_words_of_word(ip);
    lemma_words_of_word(d);
    assert(words(e) =~= seq![ip, d]);
    assert(words(e).skip(1)[0] == d);
    assert(!e.contains('\n')) by {
        if e.contains('\n') {
            let i = choose|i: int| 0 <= i < e.len() && e[i] == '\n';
            if i < ip.len() {
                assert(e[i] == ip[i]);
            } else if i > ip.len() {
                assert(e[i] == d[i - ip.len() - 1]);
            }
        }
    }
    lemma_lines_segment(seq![], e, seq![]);
    assert(e + seq!['\n'] =~= e + seq!['\n'] + Seq::<char>::empty());
    assert(Seq::<char>::empty() + e =~= e);
    assert(lines(Seq::<char>::empty()) =~= Seq::<Seq<char>>::empty());
    assert(strip_cr(e) == e);
}

/// `check` and `add` look at the same entry: a domain has at most one first
/// line that names it, so the address `check` reports is the one `add`
/// compares with (and `add` reports an entry present exactly when `check`
/// gives its address).
pub proof fn lemma_first_naming_unique(ls: Seq<Seq<char>>, d: Seq<char>, i: int, j: int)
    requires
        is_first_naming(ls, d, i),
        is_first_naming(ls, d, j),
    ensures
        i == j,
        address_of(ls[i]) == address_of(ls[j]),
{
    if i < j {
        assert(!names_domain(ls[i], d));
    } else if j < i {
        assert(!names_domain(ls[j], d));
    }
}

/// Text shaped like an IP address is one word that does not start a
/// comment.
proof fn lemma_shaped_word(ip: Seq<char>)
    requires
        is_address_shaped(ip),
    ensures
        is_word(ip),
        ip[0] != '#',
{
    assert forall|i: int| 0 <= i < ip.len() implies !ws(#[trigger] ip[i]) by {
        assert(is_address_char(ip[i]));
    }
    assert(is_address_char(ip[0]));
}

/// After `add` appends an entry for a domain that no line named, the domain
/// points to the new address: the new last line is the first that names it.
/// (The address is shaped like one and the domain is a single word, as `add`
/// ensures of an accepted address and of an accepted domain given without
/// white space around it.)
pub proof fn lemma_append_points(content: Seq<char>, ip: Seq<char>, d: Seq<char>)
    requires
        names_none(lines(content), d),
        is_address_shaped(ip),
        is_word(d),
    ensures
        lines(spec_appended(content, ip, d)).len() > 0,
        is_first_naming(
            lines(spec_appended(content, ip, d)),
            d,
            lines(spec_appended(content, ip, d)).len() - 1,
        ),
        address_of(lines(spec_appended(content, ip, d)).last()) == ip,
{
    lemma_shaped_word(ip);
    let t = trim_end(content);
    let e = entry(ip, d);
    lemma_names_trim_end(content, d);
    lemma_entry(ip, d);
    assert(spec_appended(content, ip, d) =~= t + seq!['\n'] + (e + seq!['\n']));
    lemma_lines_concat(t, e + seq!['\n']);
    let x = lines(t + seq!['\n']);
    let all = lines(spec_appended(content, ip, d));
    assert(all == x + seq![e]);
    assert forall|j: int| 0 <= j < all.len() - 1 implies !names_domain(#[trigger] all[j], d) by {
        assert(all[j] == x[j]);
    }
}

/// The words `ws` without `d` are among `ws` and none is `d`.
proof fn lemma_without_word(ws_: Seq<Seq<char>>, d: Seq<char>)
    ensures
        forall|j: int|
            0 <= j < without_word(ws_, d).len() ==> #[trigger] without_word(ws_, d)[j] != d
                && exists|i: int| 0 <= i < ws_.len() && without_word(ws_, d)[j] == ws_[i],
    decreases ws_.len(),
{
    if ws_.len() > 0 {
        lemma_without_word(ws_.drop_last(), d);
        let r = without_word(ws_, d);
        let p = without_word(ws_.drop_last(), d);
        assert forall|j: int| 0 <= j < r.len() implies #[trigger] r[j] != d && exists|i: int|
            0 <= i < ws_.len() && r[j] == ws_[i] by {
            if j < p.len() {
                assert(r[j] == p[j]);
                let i = choose|i: int| 0 <= i < ws_.drop_last().len() && p[j] == ws_.drop_last()[i];
                assert(ws_[i] == ws_.drop_last()[i]);
            } else {
                assert(r[j] == ws_.last());
                assert(ws_[ws_.len() - 1] == ws_.last());
            }
        }
    }
}

/// A line that lost the domain `d` names no `d` and holds no newline.
proof fn lemma_edited_clean(parts: Seq<Seq<char>>, d: Seq<char>)
    requires
        forall|j: int| 0 <= j < parts.len() ==> is_word(#[trigger] parts[j]),
    ensures
        forall|j: int|
            0 <= j < edited_line(parts, d).len() ==> !(#[trigger] edited_line(parts, d)[j]).contains(
                '\n',
            ) && !names_domain(edited_line(parts, d)[j], d),
{
    let kept = without_word(parts, d);
    lemma_without_word(parts, d);
    if kept.len() > 1 {
        assert forall|j: int| 0 <= j < kept.len() implies is_word(#[trigger] kept[j]) by {
            let i = choose|i: int| 0 <= i < parts.len() && kept[j] == parts[i];
        }
        lemma_join_words(kept);
        let l = join(kept, seq![' ']);
        assert(kept[0].len() > 0 && !ws(kept[0][0]));
        assert(kept.last() == kept[kept.len() - 1]);
        assert(!ws(kept.last().last()));
        lemma_trim_plain(l);
        assert(!words(trim(l)).skip(1).contains(d)) by {
            if words(trim(l)).skip(1).contains(d) {
                let i = choose|i: int| 0 <= i < kept.skip(1).len() && kept.skip(1)[i] == d;
                assert(kept[i + 1] == d);
            }
        }
        assert(edited_line(parts, d) =~= seq![l]);
    } else {
        assert(edited_line(parts, d) =~= Seq::<Seq<char>>::empty());
    }
}

/// The lines `ls` once every line that names `d` has lost it hold no
/// newline, and none names `d`.
proof fn lemma_removed_clean(ls: Seq<Seq<char>>, d: Seq<char>)
    requires
        forall|j: int| 0 <= j < ls.len() ==> !(#[trigger] ls[j]).contains('\n'),
    ensures
        forall|j: int|
            0 <= j < removed_lines(ls, d).len() ==> !(#[trigger] removed_lines(ls, d)[j]).contains(
                '\n',
            ) && !names_domain(removed_lines(ls, d)[j], d),
    decreases ls.len(),
{
    if ls.len() > 0 {
        let last = ls.last();
        assert(ls[ls.len() - 1] == last);
        lemma_removed_clean(ls.drop_last(), d);
        let p = removed_lines(ls.drop_last(), d);
        let r = removed_lines(ls, d);
        if names_domain(last, d) {
            lemma_words_are_words(seq![], trim(last));
            lemma_edited_clean(words(trim(last)), d);
            let e = edited_line(words(trim(last)), d);
            assert(r == p + e);
            assert forall|j: int| 0 <= j < r.len() implies !(#[trigger] r[j]).contains('\n')
                && !names_domain(r[j], d) by {
                if j < p.len() {
                    assert(r[j] == p[j]);
                } else {
                    assert(r[j] == e[j - p.len()]);
                }
            }
        } else {
            assert(r == p + seq![last]);
            assert forall|j: int| 0 <= j < r.len() implies !(#[trigger] r[j]).contains('\n')
                && !names_domain(r[j], d) by {
                if j < p.len() {
                    assert(r[j] == p[j]);
                }
            }
        }
    }
}

/// Lines without a final `\r` name the same domains.
proof fn lemma_names_strip_cr(xs: Seq<Seq<char>>, d: Seq<char>)
    requires
        names_none(xs, d),
    ensures
        names_none(xs.map_values(|x: Seq<char>| strip_cr(x)), d),
{
    let ys = xs.map_values(|x: Seq<char>| strip_cr(x));
    assert forall|j: int| 0 <= j < ys.len() implies !names_domain(#[trigger] ys[j], d) by {
        lemma_trim_strip_cr(xs[j]);
    }
}

/// The lines of lines joined by newlines, with a final newline, name none of
/// the domains those lines name none of.
proof fn lemma_names_join(xs: Seq<Seq<char>>, d: Seq<char>)
    requires
        forall|j: int| 0 <= j < xs.len() ==> !(#[trigger] xs[j]).contains('\n'),
        names_none(xs, d),
    ensures
        names_none(lines(join(xs, seq!['\n']) + seq!['\n']), d),
{
    if xs.len() > 0 {
        lemma_lines_join(xs);
        lemma_names_strip_cr(xs, d);
    } else {
        assert(join(xs, seq!['\n']) + seq!['\n'] =~= Seq::<char>::empty() + seq!['\n'] + Seq::<
            char,
        >::empty());
        lemma_lines_segment(seq![], Seq::<char>::empty(), Seq::<char>::empty());
        assert(lines(Seq::<char>::empty()) =~= Seq::<Seq<char>>::empty());
        let l = lines(join(xs, seq!['\n']) + seq!['\n']);
        assert(l =~= seq![strip_cr(Seq::<char>::empty() + Seq::<char>::empty())]);
        assert(trim(l[0]).len() == 0);
    }
}

/// The rule count of two runs of lines is the sum of theirs.
proof fn lemma_count_concat(a: Seq<Seq<char>>, b: Seq<Seq<char>>)
    ensures
        count_rule_lines(a + b) == count_rule_lines(a) + count_rule_lines(b),
    decreases b.len(),
{
    if b.len() == 0 {
        assert(a + b =~= a);
    } else {
        lemma_count_concat(a, b.drop_last());
        assert((a + b).drop_last() =~= a + b.drop_last());
        assert((a + b).last() == b.last());
    }
}

/// One line counts as a rule exactly when it holds one.
proof fn lemma_count_single(x: Seq<char>)
    ensures
        count_rule_lines(seq![x]) == if is_rule_line(x) {
            1int
        } else {
            0int
        },
{
    assert(seq![x].drop_last() =~= Seq::<Seq<char>>::empty());
    assert(count_rule_lines(Seq::<Seq<char>>::empty()) == 0);
    assert(seq![x].last() == x);
}

/// Text made of white space trims to nothing.
proof fn lemma_trim_blank(s: Seq<char>)
    requires
        forall|i: int| 0 <= i < s.len() ==> ws(#[trigger] s[i]),
    ensures
        trim(s).len() == 0,
    decreases s.len(),
{
    if s.len() > 0 {
        assert(ws(s[0]));
        assert forall|i: int| 0 <= i < s.drop_first().len() implies ws(
            #[trigger] s.drop_first()[i],
        ) by {
            assert(s.drop_first()[i] == s[i + 1]);
        }
        lemma_trim_blank(s.drop_first());
        assert(trim_start_of(s, Class::Space) == trim_start_of(s.drop_first(), Class::Space));
    }
}

/// The lines of white space that follow an unfinished line of white space
/// hold no rule.
proof fn lemma_blank_lines(cur: Seq<char>, w: Seq<char>)
    requires
        forall|i: int| 0 <= i < cur.len() ==> ws(#[trigger] cur[i]),
        forall|i: int| 0 <= i < w.len() ==> ws(#[trigger] w[i]),
    ensures
        count_rule_lines(lines_from(cur, w)) == 0,
    decreases w.len(),
{
    if w.len() == 0 {
        if cur.len() > 0 {
            lemma_trim_blank(cur);
            lemma_count_single(cur);
        } else {
            assert(lines_from(cur, w) =~= Seq::<Seq<char>>::empty());
        }
    } else {
        assert forall|i: int| 0 <= i < w.drop_first().len() implies ws(
            #[trigger] w.drop_first()[i],
        ) by {
            assert(w.drop_first()[i] == w[i + 1]);
        }
        if w[0] == '\n' {
            let x = strip_cr(cur);
            assert forall|i: int| 0 <= i < x.len() implies ws(#[trigger] x[i]) by {
                assert(x[i] == cur[i]);
            }
            lemma_trim_blank(x);
            lemma_count_single(x);
            lemma_blank_lines(seq![], w.drop_first());
            lemma_count_concat(seq![x], lines_from(seq![], w.drop_first()));
        } else {
            let c2 = cur.push(w[0]);
            assert forall|i: int| 0 <= i < c2.len() implies ws(#[trigger] c2[i]) by {
                if i < cur.len() {
                    assert(c2[i] == cur[i]);
                } else {
                    assert(c2[i] == w[0]);
                }
            }
            lemma_blank_lines(c2, w.drop_first());
        }
    }
}

/// What follows a text's last non-blank character adds no rule: the lines of
/// `t + w` (`w` blank) hold as many rules as those of `t` followed by a
/// newline.
#[verifier::spinoff_prover]
proof fn lemma_count_before_blank(t: Seq<char>, w: Seq<char>)
    requires
        t.len() == 0 || !ws(t.last()),
        forall|i: int| 0 <= i < w.len() ==> ws(#[trigger] w[i]),
    ensures
        count_rule_lines(lines(t + seq!['\n'])) == count_rule_lines(lines(t + w)),
    decreases t.len(),
{
    lemma_before_char_split(t, '\n');
    let a = before_char(t, '\n');
    let e = Seq::<char>::empty();
    if !t.contains('\n') {
        lemma_lines_segment(seq![], t, seq![]);
        assert(t + seq!['\n'] =~= t + seq!['\n'] + e);
        assert(e + t =~= t);
        assert(lines(e) =~= Seq::<Seq<char>>::empty());
        assert(lines(t + seq!['\n']) =~= seq![strip_cr(t)]);
        lemma_count_single(strip_cr(t));
        if t.len() == 0 {
            assert(t + w =~= w);
            lemma_blank_lines(seq![], w);
            assert(trim(strip_cr(t)).len() == 0);
        } else {
            assert(strip_cr(t) == t);
            lemma_before_char_split(w, '\n');
            let w1 = before_char(w, '\n');
            assert forall|i: int| 0 <= i < w1.len() implies ws(#[trigger] w1[i]) by {
                assert(w1[i] == w[i]);
            }
            lemma_trim_append(t, w1, Class::Space);
            if w.contains('\n') {
                let w2 = w.skip(w1.len() + 1int);
                assert(w =~= w1 + seq!['\n'] + w2);
                assert(t + w =~= (t + w1) + seq!['\n'] + w2);
                assert(!(t + w1).contains('\n')) by {
                    if (t + w1).contains('\n') {
                        let i = choose|i: int| 0 <= i < (t + w1).len() && (t + w1)[i] == '\n';
                        if i < t.len() {
                            assert(t[i] == '\n');
                        } else {
                            assert(w1[i - t.len()] == '\n');
                        }
                    }
                }
                lemma_lines_segment(seq![], t + w1, w2);
                assert(e + (t + w1) =~= t + w1);
                let x = strip_cr(t + w1);
                assert(lines(t + w) == seq![x] + lines(w2));
                lemma_trim_strip_cr(t + w1);
                lemma_count_single(x);
                assert forall|i: int| 0 <= i < w2.len() implies ws(#[trigger] w2[i]) by {
                    assert(w2[i] == w[w1.len() + 1 + i]);
                }
                lemma_blank_lines(seq![], w2);
                lemma_count_concat(seq![x], lines(w2));
            } else {
                assert(w1 == w);
                assert(!(t + w).contains('\n')) by {
                    if (t + w).contains('\n') {
                        let i = choose|i: int| 0 <= i < (t + w).len() && (t + w)[i] == '\n';
                        if i < t.len() {
                            assert(t[i] == '\n');
                        } else {
                            assert(w[i - t.len()] == '\n');
                        }
                    }
                }
                lemma_lines_single(seq![], t + w);
                assert(e + (t + w) =~= t + w);
                assert(lines(t + w) =~= seq![t + w]);
                lemma_count_single(t + w);
            }
        }
    } else {
        let b = t.skip(a.len() + 1int);
        assert(t =~= a + seq!['\n'] + b);
        if b.len() == 0 {
            assert(t.last() == '\n');
        }
        assert(b.len() == 0 || b.last() == t.last());
        assert(t + seq!['\n'] =~= a + seq!['\n'] + (b + seq!['\n']));
        assert(t + w =~= a + seq!['\n'] + (b + w));
        lemma_lines_segment(seq![], a, b + seq!['\n']);
        lemma_lines_segment(seq![], a, b + w);
        assert(e + a =~= a);
        lemma_count_before_blank(b, w);
        lemma_count_concat(seq![strip_cr(a)], lines(b + seq!['\n']));
        lemma_count_concat(seq![strip_cr(a)], lines(b + w));
    }
}

/// After `add` appends an entry, the hosts file holds one more rule than
/// before (the address is shaped like one and the domain a single word, as
/// `add` ensures of what it accepts).
pub proof fn lemma_append_adds_rule(content: Seq<char>, ip: Seq<char>, d: Seq<char>)
    requires
        is_address_shaped(ip),
        is_word(d),
    ensures
        spec_count_rules(spec_appended(content, ip, d)) == spec_count_rules(content) + 1,
{
    lemma_shaped_word(ip);
    lemma_trim_end_split(content, Class::Space);
    let t = trim_end(content);
    let w = content.skip(t.len() as int);
    assert forall|i: int| 0 <= i < w.len() implies ws(#[trigger] w[i]) by {
        assert(w[i] == content[t.len() + i]);
    }
    lemma_count_before_blank(t, w);
    let en = entry(ip, d);
    lemma_entry(ip, d);
    assert(spec_appended(content, ip, d) =~= t + seq!['\n'] + (en + seq!['\n']));
    lemma_lines_concat(t, en + seq!['\n']);
    lemma_count_concat(lines(t + seq!['\n']), seq![en]);
    lemma_count_single(en);
    assert(is_rule_line(en));
}

/// After `remove`, no line names the removed domain: `check` no longer
/// finds it.
pub proof fn lemma_remove_forgets(content: Seq<char>, d: Seq<char>)
    ensures
        names_none(lines(spec_removed(content, d)), d),
{
    lemma_lines_no_newline(seq![], content);
    lemma_removed_clean(lines(content), d);
    let r = removed_lines(lines(content), d);
    lemma_names_join(r, d);
}

/// The lines `ls` once line `k` has lost `d` hold no newline, and none names
/// `d` when no other line did.
proof fn lemma_replaced_clean(ls: Seq<Seq<char>>, k: int, d: Seq<char>)
    requires
        forall|j: int| 0 <= j < ls.len() ==> !(#[trigger] ls[j]).contains('\n'),
        forall|j: int| 0 <= j < ls.len() && j != k ==> !names_domain(#[trigger] ls[j], d),
    ensures
        forall|j: int|
            0 <= j < replaced_lines(ls, k, d).len() ==> !(#[trigger] replaced_lines(
                ls,
                k,
                d,
            )[j]).contains('\n') && !names_domain(replaced_lines(ls, k, d)[j], d),
    decreases ls.len(),
{
    if ls.len() > 0 {
        let last = ls.last();
        assert(ls[ls.len() - 1] == last);
        assert forall|j: int| 0 <= j < ls.drop_last().len() && j != k implies !names_domain(
            #[trigger] ls.drop_last()[j],
            d,
        ) by {
            assert(ls.drop_last()[j] == ls[j]);
        }
        lemma_replaced_clean(ls.drop_last(), k, d);
        let p = replaced_lines(ls.drop_last(), k, d);
        let r = replaced_lines(ls, k, d);
        if ls.len() - 1 == k {
            lemma_words_are_words(seq![], last);
            lemma_edited_clean(words(last), d);
            let e = edited_line(words(last), d);
            assert(r == p + e);
            assert forall|j: int| 0 <= j < r.len() implies !(#[trigger] r[j]).contains('\n')
                && !names_domain(r[j], d) by {
                if j < p.len() {
                    assert(r[j] == p[j]);
                } else {
                    assert(r[j] == e[j - p.len()]);
                }
            }
        } else {
            assert(r == p + seq![last]);
            assert forall|j: int| 0 <= j < r.len() implies !(#[trigger] r[j]).contains('\n')
                && !names_domain(r[j], d) by {
                if j < p.len() {
                    assert(r[j] == p[j]);
                }
            }
        }
    }
}

/// After `add` moves a domain from the first line that names it to a new
/// entry, the domain points to the new address: the new last line is the
/// first that names it. This holds when no later line named the domain too
/// (and the address is shaped like one, the domain a single word, as `add`
/// ensures of what it accepts).
pub proof fn lemma_replace_points(content: Seq<char>, k: int, ip: Seq<char>, d: Seq<char>)
    requires
        is_first_naming(lines(content), d, k),
        forall|j: int| k < j < lines(content).len() ==> !names_domain(#[trigger] lines(content)[j], d),
        is_address_shaped(ip),
        is_word(d),
    ensures
        lines(spec_replaced(content, k, ip, d)).len() > 0,
        is_first_naming(
            lines(spec_replaced(content, k, ip, d)),
            d,
            lines(spec_replaced(content, k, ip, d)).len() - 1,
        ),
        address_of(lines(spec_replaced(content, k, ip, d)).last()) == ip,
{
    lemma_shaped_word(ip);
    let ls = lines(content);
    lemma_lines_no_newline(seq![], content);
    assert forall|j: int| 0 <= j < ls.len() && j != k implies !names_domain(#[trigger] ls[j], d) by {
        if j < k {
        }
    }
    lemma_replaced_clean(ls, k, d);
    let r = replaced_lines(ls, k, d);
    let jn = join(r, seq!['\n']);
    lemma_names_join(r, d);
    assert((jn + seq!['\n']).drop_last() =~= jn);
    assert(trim_end(jn + seq!['\n']) == trim_end(jn));
    assert(spec_replaced(content, k, ip, d) == spec_appended(jn + seq!['\n'], ip, d));
    lemma_append_points(jn + seq!['\n'], ip, d);
}

} // verus!
