//! Text as sequences of characters: lines, trimming, words, joining.
//!
//! Each operation is stated as a spec function over `Seq<char>` that follows
//! the standard library's definition (`str::lines`, `str::trim_matches`,
//! `str::split_whitespace`, `[T]::join`), and implemented over `Vec<char>`.
use vstd::prelude::*;
use crate::chars::{spec_ascii_digit, char_is_whitespace, char_is_numeric, spec_ascii_graphic, is_whitespace, is_numeric, is_ascii_graphic, push_char};

verus! {

/// The character classes that the rules trim by.
#[derive(Clone, Copy, PartialEq, Eq)]
pub enum Class {
    /// Unicode white space (`char::is_whitespace`).
    Space,
    /// Not numeric (`!char::is_numeric`).
    NonNumeric,
    /// Not an ASCII graphic character (`!char::is_ascii_graphic`).
    NonGraphic,
}

/// `c` belongs to the class `k`.
pub open spec fn in_class(k: Class, c: char) -> bool {
    match k {
        Class::Space => char_is_whitespace(c),
        Class::NonNumeric => !char_is_numeric(c),
        Class::NonGraphic => !spec_ascii_graphic(c),
    }
}

/// Whether `c` belongs to the class `k`.
pub fn char_in_class(k: Class, c: char) -> (r: bool)
    ensures
        r == in_class(k, c),
{
    match k {
        Class::Space => is_whitespace(c),
        Class::NonNumeric => !is_numeric(c),
        Class::NonGraphic => !is_ascii_graphic(c),
    }
}

/// `c` is white space (`char::is_whitespace`).
pub open spec fn ws(c: char) -> bool {
    char_is_whitespace(c)
}

/// `s` without its leading characters of class `k`.
pub open spec fn trim_start_of(s: Seq<char>, k: Class) -> Seq<char>
    decreases s.len(),
{
    if s.len() > 0 && in_class(k, s[0]) {
        trim_start_of(s.drop_first(), k)
    } else {
        s
    }
}

/// `s` without its trailing characters of class `k`.
pub open spec fn trim_end_of(s: Seq<char>, k: Class) -> Seq<char>
    decreases s.len(),
{
    if s.len() > 0 && in_class(k, s.last()) {
        trim_end_of(s.drop_last(), k)
    } else {
        s
    }
}

/// `str::trim_matches` with the class `k`.
pub open spec fn trim_of(s: Seq<char>, k: Class) -> Seq<char> {
    trim_end_of(trim_start_of(s, k), k)
}

/// `str::trim`.
pub open spec fn trim(s: Seq<char>) -> Seq<char> {
    trim_of(s, Class::Space)
}

/// `str::trim_end`.
pub open spec fn trim_end(s: Seq<char>) -> Seq<char> {
    trim_end_of(s, Class::Space)
}

/// Removes one `'\r'` at the end, if there is one.
pub open spec fn strip_cr(s: Seq<char>) -> Seq<char> {
    if s.len() > 0 && s.last() == '\r' {
        s.drop_last()
    } else {
        s
    }
}

/// The lines of `s` that follow the unfinished line `cur`: `'\n'` ends a line
/// (and a `'\r'` just before it), and an unfinished line at the end counts
/// only when it is not empty.
pub open spec fn lines_from(cur: Seq<char>, s: Seq<char>) -> Seq<Seq<char>>
    decreases s.len(),
{
    if s.len() == 0 {
        if cur.len() == 0 {
            seq![]
        } else {
            seq![cur]
        }
    } else if s[0] == '\n' {
        seq![strip_cr(cur)] + lines_from(seq![], s.drop_first())
    } else {
        lines_from(cur.push(s[0]), s.drop_first())
    }
}

/// `str::lines`.
pub open spec fn lines(s: Seq<char>) -> Seq<Seq<char>> {
    lines_from(seq![], s)
}

/// The words that follow the unfinished word `cur`: maximal runs of
/// characters that are not white space.
pub open spec fn words_from(cur: Seq<char>, s: Seq<char>) -> Seq<Seq<char>>
    decreases s.len(),
{
    if s.len() == 0 {
        if cur.len() == 0 {
            seq![]
        } else {
            seq![cur]
        }
    } else if ws(s[0]) {
        (if cur.len() == 0 {
            seq![]
        } else {
            seq![cur]
        }) + words_from(seq![], s.drop_first())
    } else {
        words_from(cur.push(s[0]), s.drop_first())
    }
}

/// `str::split_whitespace`.
pub open spec fn words(s: Seq<char>) -> Seq<Seq<char>> {
    words_from(seq![], s)
}

/// `[S]::join(sep)`.
pub open spec fn join(xs: Seq<Seq<char>>, sep: Seq<char>) -> Seq<char>
    decreases xs.len(),
{
    if xs.len() == 0 {
        seq![]
    } else if xs.len() == 1 {
        xs[0]
    } else {
        join(xs.drop_last(), sep) + sep + xs.last()
    }
}

/// The views of a vector of character vectors.
pub open spec fn views(v: Seq<Vec<char>>) -> Seq<Seq<char>> {
    v.map_values(|x: Vec<char>| x@)
}

/// The part of `s` before the first `c` (all of `s` when there is none):
/// what `s.split(c).next()` gives.
pub open spec fn before_char(s: Seq<char>, c: char) -> Seq<char>
    decreases s.len(),
{
    if s.len() == 0 || s[0] == c {
        seq![]
    } else {
        seq![s[0]] + before_char(s.drop_first(), c)
    }
}

/// `needle` occurs in `s` at position `i`.
pub open spec fn occurs_at(s: Seq<char>, needle: Seq<char>, i: int) -> bool {
    0 <= i && i + needle.len() <= s.len() && s.subrange(i, i + needle.len()) == needle
}

/// `str::contains` with a string pattern.
pub open spec fn contains_str(s: Seq<char>, needle: Seq<char>) -> bool {
    exists|i: int| occurs_at(s, needle, i)
}

/// `str::starts_with` with a string pattern.
pub open spec fn starts_with(s: Seq<char>, p: Seq<char>) -> bool {
    p.len() <= s.len() && s.take(p.len() as int) == p
}

/// `str::ends_with` with a string pattern.
pub open spec fn ends_with(s: Seq<char>, p: Seq<char>) -> bool {
    p.len() <= s.len() && s.skip(s.len() - p.len()) == p
}

/// The characters of a string.
pub fn chars_of(s: &str) -> (v: Vec<char>)
    ensures
        v@ == s@,
{
    let mut v: Vec<char> = Vec::new();
    for c in it: s.chars()
        invariant
            v@ == it.seq().take(it.index() as int),
            it.seq() == s@,
    {
        v.push(c);
    }
    v
}

/// Appends the characters `v[from..to]` to `out`.
pub fn push_chars(out: &mut String, v: &Vec<char>, from: usize, to: usize)
    requires
        from <= to <= v.len(),
    ensures
        final(out)@ == old(out)@ + v@.subrange(from as int, to as int),
{
    let mut i: usize = from;
    while i < to
        invariant
            from <= i <= to <= v.len(),
            out@ == old(out)@ + v@.subrange(from as int, i as int),
        decreases to - i,
    {
        push_char(out, v[i]);
        i += 1;
        assert(v@.subrange(from as int, i as int) =~= v@.subrange(from as int, i - 1) + seq![v@[i - 1]]);
    }
}

/// A string holding the characters of `v`.
pub fn string_of(v: &Vec<char>) -> (r: String)
    ensures
        r@ == v@,
{
    let mut r = String::new();
    push_chars(&mut r, v, 0, v.len());
    assert(v@.subrange(0, v.len() as int) =~= v@);
    r
}

/// Whether two character sequences are equal.
pub fn chars_eq(a: &Vec<char>, b: &Vec<char>) -> (r: bool)
    ensures
        r == (a@ == b@),
{
    if a.len() != b.len() {
        return false;
    }
    let mut i: usize = 0;
    while i < a.len()
        invariant
            a.len() == b.len(),
            0 <= i <= a.len(),
            forall|j: int| 0 <= j < i ==> a@[j] == b@[j],
        decreases a.len() - i,
    {
        if a[i] != b[i] {
            return false;
        }
        i += 1;
    }
    assert(a@ =~= b@);
    true
}

/// Whether two strings are equal.
pub fn str_eq(a: &str, b: &str) -> (r: bool)
    ensures
        r == (a@ == b@),
{
    let va = chars_of(a);
    let vb = chars_of(b);
    chars_eq(&va, &vb)
}

/// The bounds `(i, j)` with `s[i..j] == trim_of(s, k)`.
pub fn trim_bounds(s: &Vec<char>, k: Class) -> (r: (usize, usize))
    ensures
        r.0 <= r.1 <= s.len(),
        s@.subrange(r.0 as int, r.1 as int) == trim_of(s@, k),
        r.0 == s.len() || !in_class(k, s@[r.0 as int]),
        forall|j: int| 0 <= j < r.0 ==> in_class(k, #[trigger] s@[j]),
{
    let mut i: usize = 0;
    assert(s@.skip(0) =~= s@);
    while i < s.len() && char_in_class(k, s[i])
        invariant
            0 <= i <= s.len(),
            trim_start_of(s@, k) == trim_start_of(s@.skip(i as int), k),
            forall|j: int| 0 <= j < i ==> in_class(k, #[trigger] s@[j]),
        decreases s.len() - i,
    {
        assert(s@.skip(i as int).drop_first() =~= s@.skip(i + 1));
        i += 1;
    }
    assert(trim_start_of(s@, k) == s@.subrange(i as int, s.len() as int)) by {
        assert(s@.skip(i as int) =~= s@.subrange(i as int, s.len() as int));
    }
    let mut j: usize = s.len();
    while j > i && char_in_class(k, s[j - 1])
        invariant
            i <= j <= s.len(),
            trim_of(s@, k) == trim_end_of(s@.subrange(i as int, j as int), k),
        decreases j,
    {
        assert(s@.subrange(i as int, j as int).drop_last() =~= s@.subrange(i as int, j - 1));
        j -= 1;
    }
    (i, j)
}

/// `s` without white space at either end (`str::trim`).
pub fn trimmed(s: &str) -> (r: String)
    ensures
        r@ == trim(s@),
{
    let cs = chars_of(s);
    let (from, to) = trim_bounds(&cs, Class::Space);
    let mut r = String::new();
    push_chars(&mut r, &cs, from, to);
    r
}

/// The lines of `s` (`str::lines`).
pub fn lines_of(s: &Vec<char>) -> (r: Vec<Vec<char>>)
    ensures
        views(r@) == lines(s@),
{
    let mut out: Vec<Vec<char>> = Vec::new();
    let mut cur: Vec<char> = Vec::new();
    let mut i: usize = 0;
    assert(s@.skip(0) =~= s@);
    assert(views(out@) =~= seq![]);
    assert(cur@ =~= seq![]);
    while i < s.len()
        invariant
            0 <= i <= s.len(),
            lines(s@) == views(out@) + lines_from(cur@, s@.skip(i as int)),
        decreases s.len() - i,
    {
        let c = s[i];
        assert(s@.skip(i as int).drop_first() =~= s@.skip(i + 1));
        if c == '\n' {
            let ghost old_out = out@;
            if cur.len() > 0 && cur[cur.len() - 1] == '\r' {
                cur.pop();
            }
            let line = cur;
            out.push(line);
            cur = Vec::new();
            assert(views(out@) =~= views(old_out) + seq![line@]);
        } else {
            cur.push(c);
        }
        i += 1;
    }
    let ghost old_out = out@;
    if cur.len() > 0 {
        out.push(cur);
        assert(views(out@) =~= views(old_out) + seq![cur@]);
    } else {
        assert(views(out@) =~= views(old_out) + seq![]);
    }
    assert(s@.skip(i as int) =~= seq![]);
    out
}

/// The words of `s` (`str::split_whitespace`).
pub fn words_of(s: &Vec<char>) -> (r: Vec<Vec<char>>)
    ensures
        views(r@) == words(s@),
{
    let mut out: Vec<Vec<char>> = Vec::new();
    let mut cur: Vec<char> = Vec::new();
    let mut i: usize = 0;
    assert(s@.skip(0) =~= s@);
    assert(views(out@) =~= seq![]);
    assert(cur@ =~= seq![]);
    while i < s.len()
        invariant
            0 <= i <= s.len(),
            words(s@) == views(out@) + words_from(cur@, s@.skip(i as int)),
        decreases s.len() - i,
    {
        let c = s[i];
        assert(s@.skip(i as int).drop_first() =~= s@.skip(i + 1));
        if is_whitespace(c) {
            let ghost old_out = out@;
            if cur.len() > 0 {
                let word = cur;
                assert(words_from(word@, s@.skip(i as int)) == seq![word@] + words_from(
                    seq![],
                    s@.skip(i + 1),
                ));
                out.push(word);
                cur = Vec::new();
                assert(views(out@) =~= views(old_out) + seq![word@]);
                assert(views(old_out) + (seq![word@] + words_from(seq![], s@.skip(i + 1)))
                    =~= views(out@) + words_from(seq![], s@.skip(i + 1)));
            } else {
                assert(cur@ =~= seq![]);
                assert(words_from(cur@, s@.skip(i as int)) =~= words_from(
                    seq![],
                    s@.skip(i + 1),
                ));
            }
        } else {
            cur.push(c);
        }
        i += 1;
    }
    let ghost old_out = out@;
    if cur.len() > 0 {
        out.push(cur);
        assert(views(out@) =~= views(old_out) + seq![cur@]);
    } else {
        assert(views(out@) =~= views(old_out) + seq![]);
    }
    assert(s@.skip(i as int) =~= seq![]);
    out
}

/// `str::replace` with a non-empty pattern: every occurrence of `pat`,
/// taken from left to right without overlap, is replaced by `rep`.
pub open spec fn replace_all(s: Seq<char>, pat: Seq<char>, rep: Seq<char>) -> Seq<char>
    decreases s.len(),
{
    if pat.len() == 0 || s.len() < pat.len() {
        s
    } else if s.take(pat.len() as int) == pat {
        rep + replace_all(s.skip(pat.len() as int), pat, rep)
    } else {
        seq![s[0]] + replace_all(s.drop_first(), pat, rep)
    }
}

/// The decimal digit for `d < 10`.
pub open spec fn digit_char(d: int) -> char {
    ((d + 48) as u32) as char
}

/// The decimal representation of `n`, without leading zeros.
pub open spec fn decimal(n: nat) -> Seq<char>
    decreases n,
{
    if n < 10 {
        seq![digit_char(n as int)]
    } else {
        decimal(n / 10) + seq![digit_char((n % 10) as int)]
    }
}

/// `i64`'s `Display`: a minus sign for negative numbers, then the digits.
pub open spec fn int_decimal(i: int) -> Seq<char> {
    if i < 0 {
        seq!['-'] + decimal((-i) as nat)
    } else {
        decimal(i as nat)
    }
}

/// All characters are ASCII digits.
pub open spec fn all_digits(s: Seq<char>) -> bool {
    forall|i: int| 0 <= i < s.len() ==> spec_ascii_digit(#[trigger] s[i])
}

/// The value of a string of decimal digits.
pub open spec fn digits_value(s: Seq<char>) -> nat
    decreases s.len(),
{
    if s.len() == 0 {
        0
    } else {
        digits_value(s.drop_last()) * 10 + ((s.last() as u32) - 48) as nat
    }
}

/// Appends `s` to `out`.
pub fn push_str(out: &mut String, s: &str)
    ensures
        final(out)@ == old(out)@ + s@,
{
    out.append(s);
}

/// The decimal digit for `d < 10`.
pub fn digit_of(d: u64) -> (c: char)
    requires
        d < 10,
    ensures
        c == digit_char(d as int),
{
    match d {
        0 => '0',
        1 => '1',
        2 => '2',
        3 => '3',
        4 => '4',
        5 => '5',
        6 => '6',
        7 => '7',
        8 => '8',
        _ => '9',
    }
}

/// Appends the decimal digits of `n` to `out`.
pub fn push_decimal(out: &mut String, n: u64)
    ensures
        final(out)@ == old(out)@ + decimal(n as nat),
    decreases n,
{
    if n >= 10 {
        push_decimal(out, n / 10);
    }
    push_char(out, digit_of(n % 10));
}

/// Appends `i` as `i64`'s `Display` writes it.
pub fn push_i64(out: &mut String, i: i64)
    ensures
        final(out)@ == old(out)@ + int_decimal(i as int),
{
    if i < 0 {
        push_char(out, '-');
        let m: u64 = ((-(i + 1)) as u64) + 1;
        push_decimal(out, m);
        assert(final(out)@ =~= old(out)@ + int_decimal(i as int));
    } else {
        push_decimal(out, i as u64);
    }
}

/// `[S]::join(sep)` over character vectors.
pub fn join_of(xs: &Vec<Vec<char>>, sep: &Vec<char>) -> (r: Vec<char>)
    ensures
        r@ == join(views(xs@), sep@),
{
    let mut r: Vec<char> = Vec::new();
    let mut i: usize = 0;
    while i < xs.len()
        invariant
            0 <= i <= xs.len(),
            r@ == join(views(xs@).take(i as int), sep@),
        decreases xs.len() - i,
    {
        let ghost before = r@;
        if i > 0 {
            let mut k: usize = 0;
            while k < sep.len()
                invariant
                    0 <= k <= sep.len(),
                    r@ == before + sep@.take(k as int),
                decreases sep.len() - k,
            {
                r.push(sep[k]);
                k += 1;
                assert(r@ =~= before + sep@.take(k as int));
            }
        }
        let ghost mid = r@;
        let x = &xs[i];
        let mut k: usize = 0;
        while k < x.len()
            invariant
                0 <= k <= x.len(),
                r@ == mid + x@.take(k as int),
            decreases x.len() - k,
        {
            r.push(x[k]);
            k += 1;
            assert(r@ =~= mid + x@.take(k as int));
        }
        assert(views(xs@).take(i + 1).drop_last() =~= views(xs@).take(i as int));
        assert(x@.take(x.len() as int) =~= x@);
        assert(sep@.take(sep.len() as int) =~= sep@);
        i += 1;
    }
    assert(views(xs@).take(xs.len() as int) =~= views(xs@));
    r
}

/// Whether `p` occurs in `s` at position `i`.
pub fn occurs_at_exec(s: &Vec<char>, p: &Vec<char>, i: usize) -> (r: bool)
    ensures
        r == occurs_at(s@, p@, i as int),
{
    if i > s.len() || p.len() > s.len() - i {
        return false;
    }
    let mut k: usize = 0;
    while k < p.len()
        invariant
            i + p.len() <= s.len(),
            0 <= k <= p.len(),
            forall|j: int| 0 <= j < k ==> s@[i + j] == p@[j],
        decreases p.len() - k,
    {
        if s[i + k] != p[k] {
            assert(s@.subrange(i as int, i + p.len())[k as int] != p@[k as int]);
            return false;
        }
        k += 1;
    }
    assert(s@.subrange(i as int, i + p.len()) =~= p@);
    true
}

/// `str::contains` with a string pattern.
pub fn contains_of(s: &Vec<char>, p: &Vec<char>) -> (r: bool)
    ensures
        r == contains_str(s@, p@),
{
    if p.len() > s.len() {
        return false;
    }
    let last = s.len() - p.len();
    let mut i: usize = 0;
    loop
        invariant
            p.len() <= s.len(),
            last == s.len() - p.len(),
            0 <= i <= last,
            forall|j: int| 0 <= j < i ==> !occurs_at(s@, p@, j),
        ensures
            forall|j: int| 0 <= j <= last ==> !occurs_at(s@, p@, j),
        decreases last - i,
    {
        if occurs_at_exec(s, p, i) {
            return true;
        }
        if i == last {
            break;
        }
        i += 1;
    }
    assert(forall|j: int| occurs_at(s@, p@, j) ==> j <= last);
    false
}

/// `str::starts_with` with a string pattern.
pub fn starts_with_of(s: &Vec<char>, p: &Vec<char>) -> (r: bool)
    ensures
        r == starts_with(s@, p@),
{
    let r = occurs_at_exec(s, p, 0);
    proof {
        if p.len() <= s.len() {
            assert(s@.subrange(0, p.len() as int) =~= s@.take(p.len() as int));
        }
    }
    r
}

/// `str::ends_with` with a string pattern.
pub fn ends_with_of(s: &Vec<char>, p: &Vec<char>) -> (r: bool)
    ensures
        r == ends_with(s@, p@),
{
    if p.len() > s.len() {
        return false;
    }
    let r = occurs_at_exec(s, p, s.len() - p.len());
    proof {
        assert(s@.subrange(s.len() - p.len(), s.len() as int) =~= s@.skip(s.len() - p.len()));
    }
    r
}

/// The characters of `s` before the first `c` (`s.split(c).next()`).
pub fn before_char_of(s: &Vec<char>, c: char) -> (r: Vec<char>)
    ensures
        r@ == before_char(s@, c),
{
    let mut r: Vec<char> = Vec::new();
    let mut i: usize = 0;
    assert(s@.skip(0) =~= s@);
    while i < s.len() && s[i] != c
        invariant
            0 <= i <= s.len(),
            before_char(s@, c) == r@ + before_char(s@.skip(i as int), c),
        decreases s.len() - i,
    {
        assert(s@.skip(i as int).drop_first() =~= s@.skip(i + 1));
        r.push(s[i]);
        i += 1;
        assert(before_char(s@, c) =~= r@ + before_char(s@.skip(i as int), c));
    }
    assert(before_char(s@.skip(i as int), c) =~= seq![]);
    assert(r@ + seq![] =~= r@);
    r
}

/// `str::replace` with a non-empty pattern.
pub fn replace_of(s: &Vec<char>, pat: &Vec<char>, rep: &Vec<char>) -> (r: Vec<char>)
    requires
        pat.len() > 0,
    ensures
        r@ == replace_all(s@, pat@, rep@),
{
    let mut r: Vec<char> = Vec::new();
    let mut i: usize = 0;
    assert(s@.skip(0) =~= s@);
    while i < s.len()
        invariant
            pat.len() > 0,
            0 <= i <= s.len(),
            replace_all(s@, pat@, rep@) == r@ + replace_all(s@.skip(i as int), pat@, rep@),
        decreases s.len() - i,
    {
        let ghost rest = s@.skip(i as int);
        if occurs_at_exec(s, pat, i) {
            assert(rest.take(pat.len() as int) =~= s@.subrange(i as int, i + pat.len()));
            assert(rest.skip(pat.len() as int) =~= s@.skip(i + pat.len()));
            let ghost before = r@;
            let mut k: usize = 0;
            while k < rep.len()
                invariant
                    0 <= k <= rep.len(),
                    r@ == before + rep@.take(k as int),
                decreases rep.len() - k,
            {
                r.push(rep[k]);
                k += 1;
                assert(r@ =~= before + rep@.take(k as int));
            }
            assert(rep@.take(rep.len() as int) =~= rep@);
            i += pat.len();
            assert(replace_all(s@, pat@, rep@) =~= r@ + replace_all(s@.skip(i as int), pat@, rep@));
        } else {
            proof {
                if rest.len() >= pat@.len() {
                    assert(rest.take(pat.len() as int) =~= s@.subrange(i as int, i + pat.len()));
                }
            }
            assert(rest.drop_first() =~= s@.skip(i + 1));
            r.push(s[i]);
            i += 1;
            assert(replace_all(s@, pat@, rep@) =~= r@ + replace_all(s@.skip(i as int), pat@, rep@));
        }
    }
    assert(replace_all(s@.skip(i as int), pat@, rep@) =~= seq![]);
    assert(r@ + seq![] =~= r@);
    r
}

/// The length of `trim_end_of(s, k)`, which is a prefix of `s`.
pub fn trim_end_len(s: &Vec<char>, k: Class) -> (r: usize)
    ensures
        r <= s.len(),
        s@.take(r as int) == trim_end_of(s@, k),
{
    let mut j: usize = s.len();
    assert(s@.take(j as int) =~= s@);
    while j > 0 && char_in_class(k, s[j - 1])
        invariant
            j <= s.len(),
            trim_end_of(s@, k) == trim_end_of(s@.take(j as int), k),
        decreases j,
    {
        assert(s@.take(j as int).drop_last() =~= s@.take(j - 1));
        j -= 1;
    }
    j
}

/// `v[from..to]` as a vector.
pub fn slice_of(v: &Vec<char>, from: usize, to: usize) -> (r: Vec<char>)
    requires
        from <= to <= v.len(),
    ensures
        r@ == v@.subrange(from as int, to as int),
{
    let mut r: Vec<char> = Vec::new();
    let mut i: usize = from;
    while i < to
        invariant
            from <= i <= to <= v.len(),
            r@ == v@.subrange(from as int, i as int),
        decreases to - i,
    {
        r.push(v[i]);
        i += 1;
        assert(r@ =~= v@.subrange(from as int, i as int));
    }
    r
}

/// Appends the characters of `w` to `v`.
pub fn extend_chars(v: &mut Vec<char>, w: &Vec<char>)
    ensures
        final(v)@ == old(v)@ + w@,
{
    let mut i: usize = 0;
    while i < w.len()
        invariant
            0 <= i <= w.len(),
            v@ == old(v)@ + w@.take(i as int),
        decreases w.len() - i,
    {
        v.push(w[i]);
        i += 1;
        assert(v@ =~= old(v)@ + w@.take(i as int));
    }
    assert(w@.take(w.len() as int) =~= w@);
}

/// The decimal representation of `n` is a non-empty string of digits whose
/// value is `n`.
pub proof fn lemma_decimal(n: nat)
    ensures
        decimal(n).len() > 0,
        all_digits(decimal(n)),
        digits_value(decimal(n)) == n,
    decreases n,
{
    let c = digit_char((n % 10) as int);
    assert((c as u32) == (n % 10) + 48);
    if n < 10 {
        let s = decimal(n);
        assert(s =~= seq![c]);
        assert(s.drop_last() =~= Seq::<char>::empty());
        assert(digits_value(s) == digits_value(s.drop_last()) * 10 + ((s.last() as u32) - 48) as nat);
        assert(n % 10 == n);
    } else {
        lemma_decimal(n / 10);
        let s = decimal(n);
        let p = decimal(n / 10);
        assert(s =~= p + seq![c]);
        assert(s.drop_last() =~= p);
        assert(digits_value(s) == digits_value(p) * 10 + ((s.last() as u32) - 48) as nat);
        assert(n == (n / 10) * 10 + n % 10);
        assert forall|i: int| 0 <= i < s.len() implies spec_ascii_digit(#[trigger] s[i]) by {
            if i < p.len() {
                assert(s[i] == p[i]);
            }
        }
    }
}

/// The part before the first `c` of `p`, `c`, `q` is `p` when `p` holds no
/// `c`.
pub proof fn lemma_before_char_concat(p: Seq<char>, q: Seq<char>, c: char)
    requires
        !p.contains(c),
    ensures
        before_char(p + seq![c] + q, c) == p,
    decreases p.len(),
{
    let s = p + seq![c] + q;
    if p.len() == 0 {
        assert(s[0] == c);
    } else {
        assert(p[0] != c);
        assert(s.drop_first() =~= p.drop_first() + seq![c] + q);
        assert(!p.drop_first().contains(c)) by {
            if p.drop_first().contains(c) {
                let j = choose|j: int| 0 <= j < p.drop_first().len() && p.drop_first()[j] == c;
                assert(p[j + 1] == c);
            }
        }
        lemma_before_char_concat(p.drop_first(), q, c);
        assert(seq![s[0]] + p.drop_first() =~= p);
    }
}

/// Dropping a last character of class `k` does not change what trimming
/// the start leaves, but for that character.
pub proof fn lemma_trim_start_drop_last(s: Seq<char>, k: Class)
    requires
        s.len() > 0,
        in_class(k, s.last()),
    ensures
        trim_start_of(s, k).len() == 0 ==> trim_start_of(s.drop_last(), k).len() == 0,
        trim_start_of(s, k).len() > 0 ==> trim_start_of(s, k).last() == s.last()
            && trim_start_of(s.drop_last(), k) == trim_start_of(s, k).drop_last(),
    decreases s.len(),
{
    if s.len() == 1 {
        assert(s.drop_last() =~= Seq::<char>::empty());
        assert(s.drop_first() =~= Seq::<char>::empty());
    } else if in_class(k, s[0]) {
        assert(s.drop_first().last() == s.last());
        lemma_trim_start_drop_last(s.drop_first(), k);
        assert(s.drop_last()[0] == s[0]);
        assert(s.drop_last().drop_first() =~= s.drop_first().drop_last());
    } else {
        assert(s.drop_last()[0] == s[0]);
    }
}

/// Dropping a last character of class `k` does not change the trimmed form.
pub proof fn lemma_trim_drop_last(s: Seq<char>, k: Class)
    requires
        s.len() > 0,
        in_class(k, s.last()),
    ensures
        trim_of(s, k) == trim_of(s.drop_last(), k),
{
    lemma_trim_start_drop_last(s, k);
    if trim_start_of(s, k).len() == 0 {
        assert(trim_start_of(s, k) =~= Seq::<char>::empty());
        assert(trim_start_of(s.drop_last(), k) =~= Seq::<char>::empty());
    }
}

/// Appending characters of class `k` does not change the trimmed form.
pub proof fn lemma_trim_append(s: Seq<char>, w: Seq<char>, k: Class)
    requires
        forall|i: int| 0 <= i < w.len() ==> in_class(k, #[trigger] w[i]),
    ensures
        trim_of(s + w, k) == trim_of(s, k),
    decreases w.len(),
{
    if w.len() == 0 {
        assert(s + w =~= s);
    } else {
        assert((s + w).last() == w.last());
        assert((s + w).drop_last() =~= s + w.drop_last());
        lemma_trim_drop_last(s + w, k);
        lemma_trim_append(s, w.drop_last(), k);
    }
}

/// Removing a final `\r` does not change the trimmed form.
pub proof fn lemma_trim_strip_cr(s: Seq<char>)
    ensures
        trim(strip_cr(s)) == trim(s),
{
    if s.len() > 0 && s.last() == '\r' {
        lemma_trim_drop_last(s, Class::Space);
    }
}

/// The part of `s` before the first `c`, when there is one, is the prefix up
/// to a `c`.
pub proof fn lemma_before_char_split(s: Seq<char>, c: char)
    ensures
        before_char(s, c).len() <= s.len(),
        before_char(s, c) == s.take(before_char(s, c).len() as int),
        !before_char(s, c).contains(c),
        s.contains(c) ==> before_char(s, c).len() < s.len() && s[before_char(s, c).len() as int]
            == c,
        !s.contains(c) ==> before_char(s, c) == s,
    decreases s.len(),
{
    if s.len() == 0 || s[0] == c {
        if s.len() == 0 {
            assert(s.take(0) =~= s);
        } else {
            assert(s.contains(c)) by {
                assert(s[0] == c);
            }
        }
        assert(s.take(0) =~= Seq::<char>::empty());
    } else {
        lemma_before_char_split(s.drop_first(), c);
        let b = before_char(s.drop_first(), c);
        assert(before_char(s, c) =~= seq![s[0]] + b);
        assert(s.take(b.len() + 1int) =~= seq![s[0]] + s.drop_first().take(b.len() as int));
        assert(!before_char(s, c).contains(c)) by {
            if before_char(s, c).contains(c) {
                let j = choose|j: int| 0 <= j < before_char(s, c).len() && before_char(s, c)[j] == c;
                if j > 0 {
                    assert(b[j - 1] == c);
                }
            }
        }
        if s.contains(c) {
            let j = choose|j: int| 0 <= j < s.len() && s[j] == c;
            assert(s.drop_first()[j - 1] == c);
            assert(s.drop_first().contains(c));
        } else {
            assert(!s.drop_first().contains(c)) by {
                if s.drop_first().contains(c) {
                    let j = choose|j: int| 0 <= j < s.drop_first().len() && s.drop_first()[j] == c;
                    assert(s[j + 1] == c);
                }
            }
            assert(seq![s[0]] + s.drop_first() =~= s);
        }
    }
}

/// The lines that follow an unfinished line `cur` through a segment `x`
/// without newline up to a newline: the finished line, then the lines of
/// what follows.
pub proof fn lemma_lines_segment(cur: Seq<char>, x: Seq<char>, q: Seq<char>)
    requires
        !x.contains('\n'),
    ensures
        lines_from(cur, x + seq!['\n'] + q) == seq![strip_cr(cur + x)] + lines(q),
    decreases x.len(),
{
    let s = x + seq!['\n'] + q;
    if x.len() == 0 {
        assert(s[0] == '\n');
        assert(s.drop_first() =~= q);
        assert(cur + x =~= cur);
    } else {
        assert(x[0] != '\n');
        assert(s[0] == x[0]);
        assert(s.drop_first() =~= x.drop_first() + seq!['\n'] + q);
        assert(!x.drop_first().contains('\n')) by {
            if x.drop_first().contains('\n') {
                let j = choose|j: int| 0 <= j < x.drop_first().len() && x.drop_first()[j] == '\n';
                assert(x[j + 1] == '\n');
            }
        }
        lemma_lines_segment(cur.push(x[0]), x.drop_first(), q);
        assert(cur.push(x[0]) + x.drop_first() =~= cur + x);
    }
}

/// The lines of a text split at a newline: those of the part up to and
/// including the newline, then those of the rest.
pub proof fn lemma_lines_concat(p: Seq<char>, q: Seq<char>)
    ensures
        lines(p + seq!['\n'] + q) == lines(p + seq!['\n']) + lines(q),
    decreases p.len(),
{
    lemma_before_char_split(p, '\n');
    let a = before_char(p, '\n');
    if !p.contains('\n') {
        lemma_lines_segment(seq![], p, q);
        lemma_lines_segment(seq![], p, seq![]);
        assert(p + seq!['\n'] =~= p + seq!['\n'] + Seq::<char>::empty());
        assert(lines(Seq::<char>::empty()) =~= Seq::<Seq<char>>::empty());
    } else {
        let b = p.skip(a.len() + 1int);
        assert(p =~= a + seq!['\n'] + b);
        assert(p + seq!['\n'] + q =~= a + seq!['\n'] + (b + seq!['\n'] + q));
        assert(p + seq!['\n'] =~= a + seq!['\n'] + (b + seq!['\n']));
        lemma_lines_segment(seq![], a, b + seq!['\n'] + q);
        lemma_lines_segment(seq![], a, b + seq!['\n']);
        lemma_lines_concat(b, q);
    }
}

/// No line holds a newline.
pub proof fn lemma_lines_no_newline(cur: Seq<char>, s: Seq<char>)
    requires
        !cur.contains('\n'),
    ensures
        forall|j: int|
            0 <= j < lines_from(cur, s).len() ==> !(#[trigger] lines_from(cur, s)[j]).contains('\n'),
    decreases s.len(),
{
    if s.len() == 0 {
        if cur.len() > 0 {
            assert(lines_from(cur, s) =~= seq![cur]);
        }
    } else if s[0] == '\n' {
        lemma_lines_no_newline(seq![], s.drop_first());
        let r = lines_from(cur, s);
        assert forall|j: int| 0 <= j < r.len() implies !(#[trigger] r[j]).contains('\n') by {
            if j == 0 {
                if strip_cr(cur).contains('\n') {
                    let i = choose|i: int| 0 <= i < strip_cr(cur).len() && strip_cr(cur)[i] == '\n';
                    assert(cur[i] == '\n');
                }
            } else {
                assert(r[j] == lines_from(seq![], s.drop_first())[j - 1]);
            }
        }
    } else {
        assert(!cur.push(s[0]).contains('\n')) by {
            if cur.push(s[0]).contains('\n') {
                let i = choose|i: int| 0 <= i < cur.push(s[0]).len() && cur.push(s[0])[i] == '\n';
                if i < cur.len() {
                    assert(cur[i] == '\n');
                }
            }
        }
        lemma_lines_no_newline(cur.push(s[0]), s.drop_first());
        assert(lines_from(cur, s) == lines_from(cur.push(s[0]), s.drop_first()));
    }
}

/// The lines of lines joined by newlines, with a final newline, are those
/// lines, without a final `\r`.
pub proof fn lemma_lines_join(xs: Seq<Seq<char>>)
    requires
        xs.len() > 0,
        forall|j: int| 0 <= j < xs.len() ==> !(#[trigger] xs[j]).contains('\n'),
    ensures
        lines(join(xs, seq!['\n']) + seq!['\n']) == xs.map_values(|x: Seq<char>| strip_cr(x)),
    decreases xs.len(),
{
    let last = xs.last();
    lemma_lines_segment(seq![], last, seq![]);
    assert(Seq::<char>::empty() + last =~= last);
    assert(lines(Seq::<char>::empty()) =~= Seq::<Seq<char>>::empty());
    assert(last + seq!['\n'] =~= last + seq!['\n'] + Seq::<char>::empty());
    if xs.len() == 1 {
        assert(join(xs, seq!['\n']) == xs[0]);
        assert(xs.map_values(|x: Seq<char>| strip_cr(x)) =~= seq![strip_cr(xs[0])]);
    } else {
        let p = join(xs.drop_last(), seq!['\n']);
        assert(join(xs, seq!['\n']) + seq!['\n'] =~= p + seq!['\n'] + (last + seq!['\n']));
        lemma_lines_concat(p, last + seq!['\n']);
        lemma_lines_join(xs.drop_last());
        assert(xs.map_values(|x: Seq<char>| strip_cr(x)) =~= xs.drop_last().map_values(
            |x: Seq<char>| strip_cr(x),
        ) + seq![strip_cr(last)]);
    }
}

/// A word: not empty, and without white space.
pub open spec fn is_word(w: Seq<char>) -> bool {
    w.len() > 0 && forall|i: int| 0 <= i < w.len() ==> !ws(#[trigger] w[i])
}

/// A run of characters without white space extends the unfinished word.
pub proof fn lemma_words_run(cur: Seq<char>, x: Seq<char>, rest: Seq<char>)
    requires
        forall|i: int| 0 <= i < x.len() ==> !ws(#[trigger] x[i]),
    ensures
        words_from(cur, x + rest) == words_from(cur + x, rest),
    decreases x.len(),
{
    if x.len() == 0 {
        assert(x + rest =~= rest);
        assert(cur + x =~= cur);
    } else {
        assert((x + rest)[0] == x[0]);
        assert((x + rest).drop_first() =~= x.drop_first() + rest);
        lemma_words_run(cur.push(x[0]), x.drop_first(), rest);
        assert(cur.push(x[0]) + x.drop_first() =~= cur + x);
    }
}

/// A white space character splits the words.
pub proof fn lemma_words_split(cur: Seq<char>, p: Seq<char>, c: char, q: Seq<char>)
    requires
        ws(c),
    ensures
        words_from(cur, p + seq![c] + q) == words_from(cur, p) + words(q),
    decreases p.len(),
{
    let s = p + seq![c] + q;
    if p.len() == 0 {
        assert(s[0] == c);
        assert(s.drop_first() =~= q);
        if cur.len() == 0 {
            assert(words_from(cur, p) =~= Seq::<Seq<char>>::empty());
            assert(Seq::<Seq<char>>::empty() + words(q) =~= words(q));
        } else {
            assert(words_from(cur, p) =~= seq![cur]);
        }
    } else {
        assert(s[0] == p[0]);
        assert(s.drop_first() =~= p.drop_first() + seq![c] + q);
        if ws(p[0]) {
            lemma_words_split(seq![], p.drop_first(), c, q);
            let e = if cur.len() == 0 {
                Seq::<Seq<char>>::empty()
            } else {
                seq![cur]
            };
            assert(words_from(cur, s) == e + words_from(seq![], s.drop_first()));
            assert(words_from(cur, p) == e + words_from(seq![], p.drop_first()));
            assert(e + (words_from(seq![], p.drop_first()) + words(q)) =~= (e + words_from(
                seq![],
                p.drop_first(),
            )) + words(q));
        } else {
            lemma_words_split(cur.push(p[0]), p.drop_first(), c, q);
        }
    }
}

/// A word has itself as its only word.
pub proof fn lemma_words_of_word(w: Seq<char>)
    requires
        is_word(w),
    ensures
        words(w) == seq![w],
{
    lemma_words_run(seq![], w, seq![]);
    assert(w + Seq::<char>::empty() =~= w);
    assert(Seq::<char>::empty() + w =~= w);
}

/// The first and last characters, and the absence of a newline, of words
/// joined by spaces.
pub proof fn lemma_join_words(ws_: Seq<Seq<char>>)
    requires
        ws_.len() > 0,
        forall|j: int| 0 <= j < ws_.len() ==> is_word(#[trigger] ws_[j]),
    ensures
        join(ws_, seq![' ']).len() > 0,
        join(ws_, seq![' '])[0] == ws_[0][0],
        join(ws_, seq![' ']).last() == ws_.last().last(),
        !join(ws_, seq![' ']).contains('\n'),
        words(join(ws_, seq![' '])) == ws_,
    decreases ws_.len(),
{
    let j = join(ws_, seq![' ']);
    let last = ws_.last();
    assert(is_word(last));
    if ws_.len() == 1 {
        assert(j == ws_[0]);
        lemma_words_of_word(ws_[0]);
        assert(ws_ =~= seq![ws_[0]]);
        if j.contains('\n') {
            let i = choose|i: int| 0 <= i < j.len() && j[i] == '\n';
            assert(!ws(j[i]));
        }
    } else {
        let p = join(ws_.drop_last(), seq![' ']);
        lemma_join_words(ws_.drop_last());
        assert(j == p + seq![' '] + last);
        assert(j[0] == p[0]);
        assert(ws_.drop_last()[0] == ws_[0]);
        assert(j.last() == last.last());
        assert(!j.contains('\n')) by {
            if j.contains('\n') {
                let i = choose|i: int| 0 <= i < j.len() && j[i] == '\n';
                if i < p.len() {
                    assert(j[i] == p[i]);
                } else if i > p.len() {
                    assert(j[i] == last[i - p.len() - 1]);
                    assert(!ws(last[i - p.len() - 1]));
                }
            }
        }
        assert(ws(' '));
        lemma_words_split(seq![], p, ' ', last);
        lemma_words_of_word(last);
        assert(ws_ =~= ws_.drop_last() + seq![last]);
    }
}

/// A text whose first and last characters are not white space is its own
/// trimmed form.
pub proof fn lemma_trim_plain(s: Seq<char>)
    requires
        s.len() > 0,
        !ws(s[0]),
        !ws(s.last()),
    ensures
        trim(s) == s,
{
}

/// A text is its trimmed end followed by characters of the class, and the
/// trimmed end is empty or ends outside the class.
pub proof fn lemma_trim_end_split(s: Seq<char>, k: Class)
    ensures
        trim_end_of(s, k).len() <= s.len(),
        s == trim_end_of(s, k) + s.skip(trim_end_of(s, k).len() as int),
        forall|i: int|
            trim_end_of(s, k).len() <= i < s.len() ==> in_class(k, #[trigger] s[i]),
        trim_end_of(s, k).len() == 0 || !in_class(k, trim_end_of(s, k).last()),
    decreases s.len(),
{
    if s.len() > 0 && in_class(k, s.last()) {
        lemma_trim_end_split(s.drop_last(), k);
        let t = trim_end_of(s, k);
        assert(t == trim_end_of(s.drop_last(), k));
        assert forall|i: int| t.len() <= i < s.len() implies in_class(k, #[trigger] s[i]) by {
            if i < s.len() - 1 {
                assert(s[i] == s.drop_last()[i]);
            }
        }
        let sd = s.drop_last();
        assert forall|i: int| 0 <= i < t.len() implies s[i] == t[i] by {
            assert(sd[i] == (t + sd.skip(t.len() as int))[i]);
            assert(s[i] == sd[i]);
        }
        assert(s =~= t + s.skip(t.len() as int));
    } else {
        assert(s.skip(s.len() as int) =~= Seq::<char>::empty());
        assert(s =~= s + Seq::<char>::empty());
    }
}

/// A line without newline is the only line of itself.
pub proof fn lemma_lines_single(cur: Seq<char>, x: Seq<char>)
    requires
        !x.contains('\n'),
        cur.len() + x.len() > 0,
    ensures
        lines_from(cur, x) == seq![cur + x],
    decreases x.len(),
{
    if x.len() == 0 {
        assert(cur + x =~= cur);
    } else {
        assert(x[0] != '\n');
        assert(!x.drop_first().contains('\n')) by {
            if x.drop_first().contains('\n') {
                let j = choose|j: int| 0 <= j < x.drop_first().len() && x.drop_first()[j] == '\n';
                assert(x[j + 1] == '\n');
            }
        }
        lemma_lines_single(cur.push(x[0]), x.drop_first());
        assert(cur.push(x[0]) + x.drop_first() =~= cur + x);
    }
}

/// Every word is a word.
pub proof fn lemma_words_are_words(cur: Seq<char>, s: Seq<char>)
    requires
        forall|i: int| 0 <= i < cur.len() ==> !ws(#[trigger] cur[i]),
    ensures
        forall|j: int|
            0 <= j < words_from(cur, s).len() ==> is_word(#[trigger] words_from(cur, s)[j]),
    decreases s.len(),
{
    if s.len() == 0 {
        if cur.len() > 0 {
            assert(words_from(cur, s) =~= seq![cur]);
        }
    } else if ws(s[0]) {
        lemma_words_are_words(seq![], s.drop_first());
        let e = if cur.len() == 0 {
            Seq::<Seq<char>>::empty()
        } else {
            seq![cur]
        };
        let r = words_from(cur, s);
        assert(r == e + words_from(seq![], s.drop_first()));
        assert forall|j: int| 0 <= j < r.len() implies is_word(#[trigger] r[j]) by {
            if j < e.len() {
                assert(r[j] == cur);
            } else {
                assert(r[j] == words_from(seq![], s.drop_first())[j - e.len()]);
            }
        }
    } else {
        assert forall|i: int| 0 <= i < cur.push(s[0]).len() implies !ws(
            #[trigger] cur.push(s[0])[i],
        ) by {
            if i < cur.len() {
                assert(cur.push(s[0])[i] == cur[i]);
            }
        }
        lemma_words_are_words(cur.push(s[0]), s.drop_first());
        assert(words_from(cur, s) == words_from(cur.push(s[0]), s.drop_first()));
    }
}

/// The part before the first `c` of a text with one more character `ch`
/// (not `c`) at the end.
pub proof fn lemma_before_char_push(y: Seq<char>, c: char, ch: char)
    requires
        ch != c,
    ensures
        before_char(y.push(ch), c) == if y.contains(c) {
            before_char(y, c)
        } else {
            y.push(ch)
        },
    decreases y.len(),
{
    let x = y.push(ch);
    if y.len() == 0 {
        assert(x =~= seq![ch]);
        assert(x.drop_first() =~= Seq::<char>::empty());
        assert(before_char(x, c) == seq![x[0]] + before_char(x.drop_first(), c));
        assert(seq![ch] + Seq::<char>::empty() =~= seq![ch]);
        assert(!y.contains(c));
    } else {
        assert(x[0] == y[0]);
        assert(x.drop_first() =~= y.drop_first().push(ch));
        if y[0] == c {
            assert(y.contains(c));
            assert(before_char(x, c) =~= Seq::<char>::empty());
            assert(before_char(y, c) =~= Seq::<char>::empty());
        } else {
            lemma_before_char_push(y.drop_first(), c, ch);
            assert(before_char(x, c) == seq![y[0]] + before_char(y.drop_first().push(ch), c));
            assert(before_char(y, c) == seq![y[0]] + before_char(y.drop_first(), c));
            if y.contains(c) {
                let j = choose|j: int| 0 <= j < y.len() && y[j] == c;
                assert(y.drop_first()[j - 1] == c);
                assert(y.drop_first().contains(c));
            } else {
                assert(!y.drop_first().contains(c)) by {
                    if y.drop_first().contains(c) {
                        let j = choose|j: int| 0 <= j < y.drop_first().len() && y.drop_first()[j] == c;
                        assert(y[j + 1] == c);
                    }
                }
                assert(seq![y[0]] + y.drop_first().push(ch) =~= x);
            }
        }
    }
}


/// Characters of class `k` in front of a text do not change what trimming
/// its start leaves.
pub proof fn lemma_trim_start_prefix(p: Seq<char>, s: Seq<char>, k: Class)
    requires
        forall|i: int| 0 <= i < p.len() ==> in_class(k, #[trigger] p[i]),
    ensures
        trim_start_of(p + s, k) == trim_start_of(s, k),
    decreases p.len(),
{
    if p.len() > 0 {
        assert((p + s)[0] == p[0]);
        assert((p + s).drop_first() =~= p.drop_first() + s);
        assert forall|i: int| 0 <= i < p.drop_first().len() implies in_class(
            k,
            #[trigger] p.drop_first()[i],
        ) by {
            assert(p.drop_first()[i] == p[i + 1]);
        }
        lemma_trim_start_prefix(p.drop_first(), s, k);
    } else {
        assert(p + s =~= s);
    }
}

/// What trimming a start leaves is empty or starts outside the class.
pub proof fn lemma_trim_start_head(s: Seq<char>, k: Class)
    ensures
        trim_start_of(s, k).len() == 0 || !in_class(k, trim_start_of(s, k)[0]),
    decreases s.len(),
{
    if s.len() > 0 && in_class(k, s[0]) {
        lemma_trim_start_head(s.drop_first(), k);
    }
}

/// Trimming twice is trimming once.
pub proof fn lemma_trim_idempotent(s: Seq<char>)
    ensures
        trim(trim(s)) == trim(s),
{
    let k = Class::Space;
    let u = trim_start_of(s, k);
    let t = trim(s);
    lemma_trim_end_split(u, k);
    lemma_trim_start_head(s, k);
    if t.len() > 0 {
        assert(u == t + u.skip(t.len() as int));
        assert(t[0] == u[0]);
        lemma_trim_plain(t);
    } else {
        assert(trim(t) =~= t);
    }
}


/// A trimmed text starts and ends with characters that are not white space.
pub proof fn lemma_trim_ends(s: Seq<char>)
    ensures
        trim(s).len() > 0 ==> !ws(trim(s)[0]) && !ws(trim(s).last()),
{
    let k = Class::Space;
    let u = trim_start_of(s, k);
    let t = trim(s);
    lemma_trim_end_split(u, k);
    lemma_trim_start_head(s, k);
    if t.len() > 0 {
        assert(u == t + u.skip(t.len() as int));
        assert(t[0] == u[0]);
    }
}

} // verus!
