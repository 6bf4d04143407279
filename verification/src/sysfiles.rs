//! The rules for host names, domains, URLs, IP addresses and file names,
//! and the reading of hosts files (rules, validity, sizes).
use vstd::prelude::*;
use vstd::utf8::{encode_utf8, is_ascii_chars, is_ascii_chars_encode_utf8};
use crate::chars::{
    all_ascii, is_ascii_char, spec_ascii_graphic, spec_ascii_alnum, spec_lower_alnum, char_is_alphanumeric, is_alphanumeric, is_ascii_alnum,
    is_lower_alnum,
};
use crate::text::{
    Class, in_class, trim_start_of, trim_end_of, trim, trim_of, trim_bounds, is_word, ws,
    lemma_trim_plain, lemma_trim_ends, join, lemma_join_words, lemma_before_char_split, lemma_words_of_word, lemma_trim_idempotent, lemma_trim_append, lemma_trim_start_prefix, starts_with, before_char, contains_str, lines, words,
    views, chars_of, lines_of, words_of, before_char_of, starts_with_of, contains_of, string_of,
    push_chars,
};

verus! {

/// The length of `s` in UTF-8 bytes (what `str::len` gives).
pub open spec fn utf8_len(s: Seq<char>) -> nat {
    encode_utf8(s).len()
}

/// A string of ASCII characters is as long in bytes as in characters.
pub proof fn lemma_ascii_utf8_len(s: Seq<char>)
    requires
        is_ascii_chars(s),
    ensures
        utf8_len(s) == s.len(),
{
    is_ascii_chars_encode_utf8(s);
}

/// A host name: 1 to 63 characters among `a-z`, `0-9` and `-`, neither
/// starting nor ending with `-`.
pub open spec fn spec_is_valid_hostname(s: Seq<char>) -> bool {
    &&& 0 < s.len()
    &&& utf8_len(s) <= 63
    &&& forall|i: int| 0 <= i < s.len() ==> spec_lower_alnum(#[trigger] s[i]) || s[i] == '-'
    &&& s[0] != '-'
    &&& s.last() != '-'
}

/// Checks if the hostname contains only valid characters (a-z, 0-9, -)
pub fn is_valid_hostname(hostname: &str) -> (r: bool)
    ensures
        r == spec_is_valid_hostname(hostname@),
{
    let n = hostname.as_bytes().len();
    if hostname.is_empty() || n > 63 {
        return false;
    }
    let cs = chars_of(hostname);
    let mut i: usize = 0;
    while i < cs.len()
        invariant
            cs@ == hostname@,
            n == utf8_len(hostname@),
            0 <= i <= cs.len(),
            forall|j: int|
                0 <= j < i ==> spec_lower_alnum(#[trigger] cs@[j]) || (cs@[j] == '-' && j != 0
                    && j != n - 1),
        decreases cs.len() - i,
    {
        let c = cs[i];
        if !is_lower_alnum(c) {
            if c == '-' {
                if i == 0 || i == n - 1 {
                    proof {
                        if spec_is_valid_hostname(hostname@) {
                            lemma_ascii_utf8_len(hostname@);
                        }
                    }
                    return false;
                }
            } else {
                return false;
            }
        }
        i += 1;
    }
    proof {
        assert(is_ascii_chars(hostname@));
        lemma_ascii_utf8_len(hostname@);
    }
    true
}

/// The rule for a domain that has already been trimmed: 1 to 253 bytes of
/// alphanumeric characters, `-` and `.`, not starting or ending with `-` or
/// `.`, and without `..`.
pub open spec fn spec_domain_ok(d: Seq<char>) -> bool {
    &&& 0 < d.len()
    &&& utf8_len(d) <= 253
    &&& d[0] != '-' && d.last() != '-'
    &&& d[0] != '.' && d.last() != '.'
    &&& !contains_str(d, seq!['.', '.'])
    &&& forall|i: int|
        0 <= i < d.len() ==> char_is_alphanumeric(#[trigger] d[i]) || d[i] == '-' || d[i] == '.'
}

/// A domain: its trimmed form obeys [`spec_domain_ok`].
pub open spec fn spec_is_valid_domain(s: Seq<char>) -> bool {
    spec_domain_ok(trim(s))
}

fn domain_ok(d: &Vec<char>, from: usize, to: usize, nbytes: usize) -> (r: bool)
    requires
        from <= to <= d.len(),
        nbytes == utf8_len(d@.subrange(from as int, to as int)),
    ensures
        r == spec_domain_ok(d@.subrange(from as int, to as int)),
        r ==> is_word(d@.subrange(from as int, to as int)),
{
    let ghost s = d@.subrange(from as int, to as int);
    if from == to || nbytes > 253 {
        return false;
    }
    let first = d[from];
    let last = d[to - 1];
    if first == '-' || last == '-' || first == '.' || last == '.' {
        return false;
    }
    let mut i: usize = from;
    while i < to
        invariant
            from <= i <= to <= d.len(),
            s == d@.subrange(from as int, to as int),
            forall|j: int|
                0 <= j < i - from ==> char_is_alphanumeric(#[trigger] s[j]) || s[j] == '-'
                    || s[j] == '.',
            forall|j: int| 0 <= j < i - from - 1 ==> !(#[trigger] s[j] == '.' && s[j + 1] == '.'),
            forall|j: int| 0 <= j < i - from ==> !ws(#[trigger] s[j]),
        decreases to - i,
    {
        let c = d[i];
        assert(s[i - from] == c);
        if !(is_alphanumeric(c) || c == '-' || c == '.') {
            assert(s[i - from] == c);
            return false;
        }
        if i > from && c == '.' && d[i - 1] == '.' {
            assert(s.subrange(i - from - 1, i - from + 1) =~= seq!['.', '.']);
            assert(occurs_at_witness(s, (i - from - 1) as int));
            return false;
        }
        i += 1;
    }
    assert forall|k: int| !crate::text::occurs_at(s, seq!['.', '.'], k) by {
        if crate::text::occurs_at(s, seq!['.', '.'], k) {
            assert(s.subrange(k, k + 2)[0] == s[k]);
            assert(s.subrange(k, k + 2)[1] == s[k + 1]);
        }
    }
    true
}

spec fn occurs_at_witness(s: Seq<char>, k: int) -> bool {
    crate::text::occurs_at(s, seq!['.', '.'], k)
}

/// The domain check ignores white space around the domain: trimming first
/// changes nothing, and neither does adding white space on either side.
pub proof fn lemma_domain_ignores_space(d: Seq<char>, p: Seq<char>, q: Seq<char>)
    requires
        forall|i: int| 0 <= i < p.len() ==> ws(#[trigger] p[i]),
        forall|i: int| 0 <= i < q.len() ==> ws(#[trigger] q[i]),
    ensures
        spec_is_valid_domain(trim(d)) == spec_is_valid_domain(d),
        spec_is_valid_domain(p + d + q) == spec_is_valid_domain(d),
{
    lemma_trim_idempotent(d);
    lemma_trim_append(p + d, q, Class::Space);
    lemma_trim_start_prefix(p, d, Class::Space);
}

/// Inner hyphens are allowed: two valid domains joined by `-` make a valid
/// domain, as long as the result is at most 253 bytes.
pub proof fn lemma_domain_hyphen(x: Seq<char>, y: Seq<char>)
    requires
        spec_is_valid_domain(x),
        spec_is_valid_domain(y),
        utf8_len(trim(x) + seq!['-'] + trim(y)) <= 253,
    ensures
        spec_is_valid_domain(trim(x) + seq!['-'] + trim(y)),
{
    let a = trim(x);
    let b = trim(y);
    let d = a + seq!['-'] + b;
    lemma_trim_ends(x);
    lemma_trim_ends(y);
    assert(d[0] == a[0]);
    assert(d.last() == b.last());
    assert forall|i: int| 0 <= i < d.len() implies char_is_alphanumeric(#[trigger] d[i]) || d[i]
        == '-' || d[i] == '.' by {
        if i < a.len() {
            assert(d[i] == a[i]);
        } else if i > a.len() {
            assert(d[i] == b[i - a.len() - 1]);
        }
    }
    assert(!contains_str(d, seq!['.', '.'])) by {
        if contains_str(d, seq!['.', '.']) {
            let k = choose|k: int| crate::text::occurs_at(d, seq!['.', '.'], k);
            assert(d.subrange(k, k + 2)[0] == d[k]);
            assert(d.subrange(k, k + 2)[1] == d[k + 1]);
            if k + 1 < a.len() {
                assert(a.subrange(k, k + 2) =~= seq!['.', '.']);
                assert(crate::text::occurs_at(a, seq!['.', '.'], k));
            } else if k + 1 == a.len() {
                assert(d[k + 1] == '-');
            } else if k == a.len() {
                assert(d[k] == '-');
            } else {
                let j = k - a.len() - 1;
                assert(d[k] == b[j]);
                assert(d[k + 1] == b[j + 1]);
                assert(b.subrange(j, j + 2) =~= seq!['.', '.']);
                assert(crate::text::occurs_at(b, seq!['.', '.'], j));
            }
        }
    }
    lemma_trim_plain(d);
}

/// What the domain rule refuses, around valid domains `x` and `y`: a `-` or
/// `.` at either end, `..` inside, and a character that is not alphanumeric,
/// `-` or `.` (such as `_`) inside.
pub proof fn lemma_domain_refusals(x: Seq<char>, y: Seq<char>)
    requires
        spec_is_valid_domain(x),
        spec_is_valid_domain(y),
    ensures
        !spec_is_valid_domain(seq!['-'] + trim(x)),
        !spec_is_valid_domain(trim(x) + seq!['-']),
        !spec_is_valid_domain(seq!['.'] + trim(x)),
        !spec_is_valid_domain(trim(x) + seq!['.']),
        !spec_is_valid_domain(trim(x) + seq!['.', '.'] + trim(y)),
        !spec_is_valid_domain(trim(x) + seq!['_'] + trim(y)),
{
    let a = trim(x);
    let b = trim(y);
    lemma_trim_ends(x);
    lemma_trim_ends(y);
    let d1 = seq!['-'] + a;
    assert(d1[0] == '-' && d1.last() == a.last());
    lemma_trim_plain(d1);
    let d2 = a + seq!['-'];
    assert(d2[0] == a[0] && d2.last() == '-');
    lemma_trim_plain(d2);
    let d3 = seq!['.'] + a;
    assert(d3[0] == '.' && d3.last() == a.last());
    lemma_trim_plain(d3);
    let d4 = a + seq!['.'];
    assert(d4[0] == a[0] && d4.last() == '.');
    lemma_trim_plain(d4);
    let d5 = a + seq!['.', '.'] + b;
    assert(d5[0] == a[0] && d5.last() == b.last());
    lemma_trim_plain(d5);
    assert(d5.subrange(a.len() as int, a.len() + 2int) =~= seq!['.', '.']);
    assert(crate::text::occurs_at(d5, seq!['.', '.'], a.len() as int));
    let d6 = a + seq!['_'] + b;
    assert(d6[0] == a[0] && d6.last() == b.last());
    lemma_trim_plain(d6);
    assert(d6[a.len() as int] == '_');
    assert(is_ascii_char('_'));
}

/// Check domain is correct or no
pub fn is_valid_domain(domain: &str) -> (r: bool)
    ensures
        r == spec_is_valid_domain(domain@),
        r ==> is_word(trim(domain@)),
{
    let cs = chars_of(domain);
    let (from, to) = trim_bounds(&cs, Class::Space);
    let t = string_of_range(&cs, from, to);
    let nbytes = t.as_str().as_bytes().len();
    domain_ok(&cs, from, to, nbytes)
}

/// A string holding `v[from..to]`.
fn string_of_range(v: &Vec<char>, from: usize, to: usize) -> (r: String)
    requires
        from <= to <= v.len(),
    ensures
        r@ == v@.subrange(from as int, to as int),
{
    let mut r = String::new();
    push_chars(&mut r, v, from, to);
    r
}

/// `s` with every leading copy of `p` removed (`str::trim_start_matches`).
pub open spec fn strip_all(s: Seq<char>, p: Seq<char>) -> Seq<char>
    decreases s.len(),
{
    if p.len() > 0 && starts_with(s, p) {
        strip_all(s.skip(p.len() as int), p)
    } else {
        s
    }
}

/// The host part of a URL: for a trimmed URL that starts with `https://` or
/// `http://`, the part after all leading `https://` and then all leading
/// `http://`, up to the first `/`; `None` for any other URL.
pub open spec fn spec_trim_protocol(url: Seq<char>) -> Option<Seq<char>> {
    let t = trim(url);
    if starts_with(t, "https://"@) || starts_with(t, "http://"@) {
        Some(before_char(strip_all(strip_all(t, "https://"@), "http://"@), '/'))
    } else {
        None
    }
}

fn strip_all_of(s0: Vec<char>, p: &Vec<char>) -> (r: Vec<char>)
    ensures
        r@ == strip_all(s0@, p@),
{
    let mut s = s0;
    while p.len() > 0 && starts_with_of(&s, p)
        invariant
            strip_all(s@, p@) == strip_all(s0@, p@),
        decreases s.len(),
    {
        let ghost before = s@;
        let mut rest: Vec<char> = Vec::new();
        let mut i: usize = p.len();
        while i < s.len()
            invariant
                p.len() <= i <= s.len(),
                rest@ == s@.subrange(p.len() as int, i as int),
            decreases s.len() - i,
        {
            rest.push(s[i]);
            i += 1;
            assert(rest@ =~= s@.subrange(p.len() as int, i as int));
        }
        assert(rest@ =~= before.skip(p.len() as int));
        s = rest;
    }
    s
}

/// Trims protocol and path from the URL
pub fn trim_protocol(url: &str) -> (r: Option<String>)
    ensures
        r matches Some(h) ==> spec_trim_protocol(url@) == Some(h@),
        r is None ==> spec_trim_protocol(url@) is None,
{
    let cs = chars_of(url);
    let (from, to) = trim_bounds(&cs, Class::Space);
    let mut t: Vec<char> = Vec::new();
    let mut i: usize = from;
    while i < to
        invariant
            from <= i <= to <= cs.len(),
            t@ == cs@.subrange(from as int, i as int),
        decreases to - i,
    {
        t.push(cs[i]);
        i += 1;
        assert(t@ =~= cs@.subrange(from as int, i as int));
    }
    let https = chars_of("https://");
    let http = chars_of("http://");
    if starts_with_of(&t, &https) || starts_with_of(&t, &http) {
        let a = strip_all_of(t, &https);
        let b = strip_all_of(a, &http);
        let host = before_char_of(&b, '/');
        Some(string_of(&host))
    } else {
        None
    }
}

/// What `IpAddr::from_str` accepts (an IPv4 or IPv6 address).
pub uninterp spec fn spec_is_ip_addr(s: Seq<char>) -> bool;

/// A character of an IP address in text form: a hexadecimal digit, `.` or
/// `:`.
pub open spec fn is_address_char(c: char) -> bool {
    ('0' <= c && c <= '9') || ('a' <= c && c <= 'f') || ('A' <= c && c <= 'F') || c == '.' || c
        == ':'
}

/// Text shaped like an IP address: not empty, and made of hexadecimal
/// digits, `.` and `:` only.
pub open spec fn is_address_shaped(s: Seq<char>) -> bool {
    s.len() > 0 && forall|i: int| 0 <= i < s.len() ==> is_address_char(#[trigger] s[i])
}

/// Checks ip is correct or no
///
/// Calls `str::parse::<IpAddr>` and claims that the result is the named
/// `spec_is_ip_addr(ip@)`, a function of the string alone, and that an
/// accepted string is shaped like an address: dotted decimal (IPv4) or
/// hexadecimal groups separated by `:`, possibly ending in dotted decimal
/// (IPv6), so only hexadecimal digits, `.` and `:`. The full grammar is left
/// unstated.
#[verifier::external_body]
pub fn is_valid_ip(ip: &str) -> (r: bool)
    ensures
        r == spec_is_ip_addr(ip@),
        r ==> is_address_shaped(ip@),
{
    ip.parse::<core::net::IpAddr>().is_ok()
}

/// An `http://` or `https://` URL whose host is an IP address.
pub open spec fn spec_is_valid_ip_with_protocol(url: Seq<char>) -> bool {
    match spec_trim_protocol(url) {
        Some(h) => spec_is_ip_addr(h),
        None => false,
    }
}

/// An `http://` or `https://` URL whose host obeys the domain rule.
pub open spec fn spec_is_valid_domain_with_protocol(url: Seq<char>) -> bool {
    match spec_trim_protocol(url) {
        Some(h) => spec_domain_ok(h),
        None => false,
    }
}

/// Checks if IP is correct (supports http/https)
pub fn is_valid_ip_with_protocol(url: &str) -> (r: bool)
    ensures
        r == spec_is_valid_ip_with_protocol(url@),
{
    match trim_protocol(url) {
        Some(h) => is_valid_ip(h.as_str()),
        None => false,
    }
}

/// Checks if domain is correct (supports http/https)
///
/// The URL passes exactly when its host has nothing to trim around it and
/// passes the domain check.
pub fn is_valid_domain_with_protocol(url: &str) -> (r: bool)
    ensures
        r == spec_is_valid_domain_with_protocol(url@),
        r == (spec_trim_protocol(url@) matches Some(h) && h == trim(h) && spec_is_valid_domain(h)),
{
    match trim_protocol(url) {
        Some(h) => {
            let cs = chars_of(h.as_str());
            let nbytes = h.as_str().as_bytes().len();
            assert(cs@.subrange(0, cs.len() as int) =~= cs@);
            let r = domain_ok(&cs, 0, cs.len(), nbytes);
            proof {
                if r {
                    lemma_trim_plain(h@);
                }
            }
            r
        },
        None => false,
    }
}

/// A file name: 1 to 255 bytes of ASCII letters, digits, `_`, `-` and `.`,
/// other than `.` and `..`.
pub open spec fn spec_is_valid_filename(s: Seq<char>) -> bool {
    &&& 0 < s.len()
    &&& utf8_len(s) <= 255
    &&& s != seq!['.'] && s != seq!['.', '.']
    &&& forall|i: int|
        0 <= i < s.len() ==> spec_ascii_alnum(#[trigger] s[i]) || s[i] == '_' || s[i] == '-' || s[i]
            == '.'
}

/// Checks filename for correct
pub fn _is_valid_filename(name: &str) -> (r: bool)
    ensures
        r == spec_is_valid_filename(name@),
{
    let n = name.as_bytes().len();
    if name.is_empty() || n > 255 {
        return false;
    }
    let cs = chars_of(name);
    if cs.len() == 1 && cs[0] == '.' {
        assert(name@ =~= seq!['.']);
        return false;
    }
    if cs.len() == 2 && cs[0] == '.' && cs[1] == '.' {
        assert(name@ =~= seq!['.', '.']);
        return false;
    }
    let mut i: usize = 0;
    while i < cs.len()
        invariant
            cs@ == name@,
            0 <= i <= cs.len(),
            forall|j: int|
                0 <= j < i ==> spec_ascii_alnum(#[trigger] cs@[j]) || cs@[j] == '_' || cs@[j]
                    == '-' || cs@[j] == '.',
        decreases cs.len() - i,
    {
        let c = cs[i];
        if !(is_ascii_alnum(c) || c == '_' || c == '-' || c == '.') {
            return false;
        }
        i += 1;
    }
    true
}

/// A line that holds a rule: its trimmed form is neither empty nor a `#`
/// comment.
pub open spec fn is_rule_line(l: Seq<char>) -> bool {
    trim(l).len() > 0 && trim(l)[0] != '#'
}

/// The number of lines among `ls` that hold a rule.
pub open spec fn count_rule_lines(ls: Seq<Seq<char>>) -> nat
    decreases ls.len(),
{
    if ls.len() == 0 {
        0
    } else {
        count_rule_lines(ls.drop_last()) + if is_rule_line(ls.last()) {
            1nat
        } else {
            0nat
        }
    }
}

/// The number of lines of `content` that hold a rule.
pub open spec fn spec_count_rules(content: Seq<char>) -> nat {
    count_rule_lines(lines(content))
}

/// Whether the line `l` holds a rule.
pub fn rule_line(l: &Vec<char>) -> (r: bool)
    ensures
        r == is_rule_line(l@),
{
    let (from, to) = trim_bounds(l, Class::Space);
    from < to && l[from] != '#'
}

/// Count rules in hosts, need it content
pub fn count_rules(content: &str) -> (r: usize)
    ensures
        r == spec_count_rules(content@),
{
    let cs = chars_of(content);
    let ls = lines_of(&cs);
    let mut n: usize = 0;
    let mut i: usize = 0;
    while i < ls.len()
        invariant
            views(ls@) == lines(content@),
            0 <= i <= ls.len(),
            n <= i,
            n == count_rule_lines(views(ls@).take(i as int)),
        decreases ls.len() - i,
    {
        assert(views(ls@).take(i + 1).drop_last() =~= views(ls@).take(i as int));
        assert(views(ls@).take(i + 1).last() == ls@[i as int]@);
        if rule_line(&ls[i]) {
            n += 1;
        }
        i += 1;
    }
    assert(views(ls@).take(ls.len() as int) =~= views(ls@));
    n
}

/// Sizes of a text, as the program reports them.
#[derive(Debug, PartialEq, Eq)]
pub struct TextStats {
    /// The number of lines (`str::lines`).
    pub lines: usize,
    /// The number of characters.
    pub chars: usize,
    /// The number of UTF-8 bytes.
    pub bytes: usize,
}

/// `t` counts the lines, characters and UTF-8 bytes of `s`.
pub open spec fn counts_of(t: TextStats, s: Seq<char>) -> bool {
    t.lines == lines(s).len() && t.chars == s.len() && t.bytes == utf8_len(s)
}

/// Counts the lines, characters and bytes of `content`.
pub fn text_stats(content: &str) -> (r: TextStats)
    ensures
        r.lines == lines(content@).len(),
        r.chars == content@.len(),
        r.bytes == utf8_len(content@),
{
    let cs = chars_of(content);
    let ls = lines_of(&cs);
    assert(views(ls@).len() == ls@.len());
    TextStats { lines: ls.len(), chars: cs.len(), bytes: content.as_bytes().len() }
}

/// The address field of a hosts line that is not blank: the first word, up
/// to any `%` zone suffix, without the characters around it that are not
/// ASCII graphic.
pub open spec fn address_field(t: Seq<char>) -> Seq<char> {
    trim_of(before_char(words(t)[0], '%'), Class::NonGraphic)
}

/// A hosts line is well formed: once the `#` comment is cut off and the rest
/// trimmed, it is blank, or it holds an IP address followed by at least one
/// more word.
pub open spec fn hosts_line_ok(l: Seq<char>) -> bool {
    let t = trim(before_char(l, '#'));
    t.len() == 0 || words(t).len() == 0 || (spec_is_ip_addr(address_field(t)) && words(t).len()
        >= 2)
}

/// Words joined by spaces hold a character `c` (not a space) only if one of
/// the words does.
proof fn lemma_join_lacks(xs: Seq<Seq<char>>, c: char)
    requires
        c != ' ',
        forall|j: int| 0 <= j < xs.len() ==> !(#[trigger] xs[j]).contains(c),
    ensures
        !join(xs, seq![' ']).contains(c),
    decreases xs.len(),
{
    if xs.len() >= 2 {
        let p = xs.drop_last();
        assert forall|j: int| 0 <= j < p.len() implies !(#[trigger] p[j]).contains(c) by {
            assert(p[j] == xs[j]);
        }
        lemma_join_lacks(p, c);
        let head = join(p, seq![' ']);
        let l = xs.last();
        assert(!l.contains(c)) by {
            assert(l == xs[xs.len() - 1]);
        }
        let whole = head + seq![' '] + l;
        assert(join(xs, seq![' ']) == whole);
        if whole.contains(c) {
            let i = choose|i: int| 0 <= i < whole.len() && whole[i] == c;
            if i < head.len() {
                assert(head[i] == c);
            } else if i > head.len() {
                assert(l[i - head.len() - 1] == c);
            }
        }
    } else if xs.len() == 1 {
        assert(!xs[0].contains(c));
    }
}

/// A rule line with an address and any number (at least one) of names is
/// well formed: an IP address (as the address check accepts it, and so
/// shaped like one) followed by one or more names, words without `#`,
/// separated by spaces.
pub proof fn lemma_hosts_line_names(a: Seq<char>, ns: Seq<Seq<char>>)
    requires
        spec_is_ip_addr(a),
        is_address_shaped(a),
        ns.len() >= 1,
        forall|j: int| 0 <= j < ns.len() ==> is_word(#[trigger] ns[j]) && !ns[j].contains('#'),
    ensures
        hosts_line_ok(join(seq![a] + ns, seq![' '])),
{
    let xs = seq![a] + ns;
    let l = join(xs, seq![' ']);
    assert(xs[0] == a);
    assert forall|i: int| 0 <= i < a.len() implies !ws(#[trigger] a[i]) && a[i] != '#' && a[i]
        != '%' && spec_ascii_graphic(a[i]) by {
        assert(is_address_char(a[i]));
    }
    assert forall|j: int| 0 <= j < xs.len() implies is_word(#[trigger] xs[j]) && !xs[j].contains(
        '#',
    ) by {
        if j == 0 {
            assert(xs[0] == a);
            if a.contains('#') {
                let i = choose|i: int| 0 <= i < a.len() && a[i] == '#';
            }
        } else {
            assert(xs[j] == ns[j - 1]);
        }
    }
    lemma_join_words(xs);
    lemma_join_lacks(xs, '#');
    lemma_before_char_split(l, '#');
    assert(xs.last() == ns.last());
    lemma_trim_plain(l);
    assert(words(trim(before_char(l, '#')))[0] == a);
    assert(!a.contains('%')) by {
        if a.contains('%') {
            let i = choose|i: int| 0 <= i < a.len() && a[i] == '%';
        }
    }
    lemma_before_char_split(a, '%');
    let k = Class::NonGraphic;
    assert(!in_class(k, a[0]));
    assert(trim_start_of(a, k) == a);
    assert(!in_class(k, a.last()));
    assert(trim_end_of(a, k) == a);
    assert(address_field(trim(before_char(l, '#'))) == a);
}

/// A rule line needs a name: a line of a single word (without `#`), an
/// address or anything else, is not well formed.
pub proof fn lemma_hosts_line_needs_name(w: Seq<char>)
    requires
        is_word(w),
        !w.contains('#'),
    ensures
        !hosts_line_ok(w),
{
    lemma_before_char_split(w, '#');
    lemma_trim_plain(w);
    lemma_words_of_word(w);
}

/// Whether the hosts line `l` is well formed.
pub fn hosts_line_valid(l: &Vec<char>) -> (r: bool)
    ensures
        r == hosts_line_ok(l@),
{
    let code = before_char_of(l, '#');
    let (from, to) = trim_bounds(&code, Class::Space);
    if from == to {
        return true;
    }
    let mut t: Vec<char> = Vec::new();
    let mut i: usize = from;
    while i < to
        invariant
            from <= i <= to <= code.len(),
            t@ == code@.subrange(from as int, i as int),
        decreases to - i,
    {
        t.push(code[i]);
        i += 1;
        assert(t@ =~= code@.subrange(from as int, i as int));
    }
    let parts = words_of(&t);
    if parts.len() == 0 {
        return true;
    }
    assert(views(parts@)[0] == parts@[0]@);
    let ip_part = before_char_of(&parts[0], '%');
    let (a, b) = trim_bounds(&ip_part, Class::NonGraphic);
    let clean = string_of_range(&ip_part, a, b);
    if !is_valid_ip(clean.as_str()) {
        return false;
    }
    parts.len() >= 2
}

/// `i` is the first line of `ls` that is not a well formed hosts line.
pub open spec fn is_first_bad_line(ls: Seq<Seq<char>>, i: int) -> bool {
    &&& 0 <= i < ls.len()
    &&& !hosts_line_ok(ls[i])
    &&& forall|j: int| 0 <= j < i ==> hosts_line_ok(#[trigger] ls[j])
}

/// Finds the first line of `content` that is not a well formed hosts line,
/// counting lines from 0 (the line the program reports).
pub fn first_invalid_hosts_line(content: &str) -> (r: Option<usize>)
    ensures
        r matches Some(i) ==> is_first_bad_line(lines(content@), i as int),
        r is None ==> forall|j: int|
            0 <= j < lines(content@).len() ==> hosts_line_ok(#[trigger] lines(content@)[j]),
{
    let cs = chars_of(content);
    let ls = lines_of(&cs);
    let mut i: usize = 0;
    while i < ls.len()
        invariant
            views(ls@) == lines(content@),
            0 <= i <= ls.len(),
            forall|j: int| 0 <= j < i ==> hosts_line_ok(#[trigger] lines(content@)[j]),
        decreases ls.len() - i,
    {
        assert(views(ls@)[i as int] == ls@[i as int]@);
        if !hosts_line_valid(&ls[i]) {
            return Some(i);
        }
        i += 1;
    }
    None
}

/// A hosts file's content is well formed: every line is.
pub open spec fn spec_is_valid_hosts_content(content: Seq<char>) -> bool {
    forall|j: int| 0 <= j < lines(content).len() ==> hosts_line_ok(#[trigger] lines(content)[j])
}

/// Checks valid content of hosts file
pub fn is_valid_hosts_content(content: &str) -> (r: bool)
    ensures
        r == spec_is_valid_hosts_content(content@),
{
    first_invalid_hosts_line(content).is_none()
}

} // verus!
