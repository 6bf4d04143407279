//! The preset preprocessor: `#include <file>` lines are replaced by the
//! file's preprocessed text, then `#require <url>` lines by the downloaded
//! text. Both are state machines: the program performs the file reads and
//! downloads that a step asks for and hands back what it got.
use vstd::prelude::*;
use crate::sysfiles::{
    spec_is_valid_domain_with_protocol, spec_is_valid_ip_with_protocol,
    is_valid_domain_with_protocol, is_valid_ip_with_protocol,
};
use crate::text::{
    Class, trim, starts_with, ends_with, lines, views, chars_of, lines_of, trim_bounds, slice_of,
    starts_with_of, ends_with_of, chars_eq, string_of, extend_chars,
};

verus! {

/// The argument of a `<keyword> <arg>` directive line: the trimmed line
/// starts with `keyword` (such as `#include <`) and ends with `>`.
pub open spec fn directive_arg(l: Seq<char>, keyword: Seq<char>) -> Option<Seq<char>> {
    let t = trim(l);
    if starts_with(t, keyword) && ends_with(t, seq!['>']) && t.len() > keyword.len() {
        Some(t.subrange(keyword.len() as int, t.len() - 1))
    } else {
        None
    }
}

/// The URL of a `#require <url>` line.
pub open spec fn require_target(l: Seq<char>) -> Option<Seq<char>> {
    directive_arg(l, "#require <"@)
}

/// The file name of an `#include <file>` line.
pub open spec fn include_target(l: Seq<char>) -> Option<Seq<char>> {
    directive_arg(l, "#include <"@)
}

/// The argument of a directive line, if `l` is one.
fn directive_arg_of(l: &Vec<char>, keyword: &Vec<char>) -> (r: Option<Vec<char>>)
    ensures
        r matches Some(a) ==> directive_arg(l@, keyword@) == Some(a@),
        r is None ==> directive_arg(l@, keyword@) is None,
{
    let (from, to) = trim_bounds(l, Class::Space);
    let t = slice_of(l, from, to);
    let close = vec!['>'];
    assert(close@ =~= seq!['>']);
    if starts_with_of(&t, keyword) && ends_with_of(&t, &close) && t.len() > keyword.len() {
        Some(slice_of(&t, keyword.len(), t.len() - 1))
    } else {
        None
    }
}

/// A URL that a `#require` line may download: an `http://` or `https://`
/// URL whose host is a valid domain or an IP address.
pub open spec fn is_fetchable(url: Seq<char>) -> bool {
    spec_is_valid_domain_with_protocol(url) || spec_is_valid_ip_with_protocol(url)
}

/// Only `http://` and `https://` URLs are downloaded: a URL that a
/// `#require` line may download starts, once trimmed, with one of them.
pub proof fn lemma_fetchable_has_protocol(url: Seq<char>)
    requires
        is_fetchable(url),
    ensures
        starts_with(trim(url), "https://"@) || starts_with(trim(url), "http://"@),
{
}

/// A text being read by the require processor: the lines still to read,
/// and the output produced so far.
pub struct ReqFrame {
    pub rest: Seq<Seq<char>>,
    pub out: Seq<char>,
}

/// What the require processor asks for next.
pub enum ReqNext {
    /// Download this URL.
    Fetch(Seq<char>),
    /// The processing is over, with this output.
    Done(Seq<char>),
}

/// The number of lines and texts still to process.
pub open spec fn req_work(frames: Seq<ReqFrame>) -> nat
    decreases frames.len(),
{
    if frames.len() == 0 {
        0
    } else {
        req_work(frames.drop_last()) + frames.last().rest.len() + 1
    }
}

/// The frames with the innermost one replaced by `f`.
pub open spec fn with_top(frames: Seq<ReqFrame>, f: ReqFrame) -> Seq<ReqFrame> {
    frames.drop_last().push(f)
}

/// Runs the require processor from `frames` (innermost last), with the URLs
/// `visited` already downloaded, up to the next download or the end.
///
/// A line of the innermost text that is not a `#require` line is copied,
/// with a newline. A `#require` line whose URL may be downloaded and has not
/// been yet asks for that download; other `#require` lines are dropped.
/// When a text is finished, its output and a newline go to the text that
/// required it; when the outermost text is finished, its output is the
/// result.
pub open spec fn req_run(frames: Seq<ReqFrame>, visited: Seq<Seq<char>>) -> (
    Seq<ReqFrame>,
    Seq<Seq<char>>,
    ReqNext,
)
    decreases req_work(frames),
{
    if frames.len() == 0 {
        (frames, visited, ReqNext::Done(seq![]))
    } else {
        let top = frames.last();
        if top.rest.len() == 0 {
            if frames.len() == 1 {
                (frames.drop_last(), visited, ReqNext::Done(top.out))
            } else {
                let rest = frames.drop_last();
                let parent = rest.last();
                let merged = ReqFrame { rest: parent.rest, out: parent.out + top.out + seq!['\n'] };
                proof {
                    assert(with_top(rest, merged).drop_last() =~= rest.drop_last());
                    assert(with_top(rest, merged).last() == merged);
                    assert(req_work(with_top(rest, merged)) == req_work(rest.drop_last())
                        + parent.rest.len() + 1);
                    assert(req_work(rest) == req_work(rest.drop_last()) + parent.rest.len() + 1);
                    assert(req_work(frames) == req_work(rest) + 1);
                }
                req_run(with_top(rest, merged), visited)
            }
        } else {
            let l = top.rest[0];
            let next = match require_target(l) {
                Some(_) => ReqFrame { rest: top.rest.drop_first(), out: top.out },
                None => ReqFrame { rest: top.rest.drop_first(), out: top.out + l + seq!['\n'] },
            };
            proof {
                assert(with_top(frames, next).drop_last() =~= frames.drop_last());
            }
            match require_target(l) {
                Some(url) => if is_fetchable(url) && !visited.contains(url) {
                    (with_top(frames, next), visited.push(url), ReqNext::Fetch(url))
                } else {
                    req_run(with_top(frames, next), visited)
                },
                None => req_run(with_top(frames, next), visited),
            }
        }
    }
}

/// What the require processor asks for next.
#[derive(Debug, PartialEq, Eq)]
pub enum RequireStep {
    /// Download this URL, then call [`RequireRun::fetched`].
    Fetch(String),
    /// The processing is over, with this output.
    Done(String),
    /// A download failed; the processing is over with an error.
    Failed,
}

/// `r` is the exec form of `n`.
pub open spec fn require_step_is(r: RequireStep, n: ReqNext) -> bool {
    match n {
        ReqNext::Fetch(u) => r matches RequireStep::Fetch(s) && s@ == u,
        ReqNext::Done(o) => r matches RequireStep::Done(s) && s@ == o,
    }
}

/// A text being read: its lines, the next one to read, the output so far.
struct RFrame {
    lines: Vec<Vec<char>>,
    next: usize,
    out: Vec<char>,
}

impl RFrame {
    spec fn view(&self) -> ReqFrame {
        ReqFrame { rest: views(self.lines@).skip(self.next as int), out: self.out@ }
    }

    spec fn wf(&self) -> bool {
        self.next <= self.lines.len()
    }
}

spec fn rframes_view(fs: Seq<RFrame>) -> Seq<ReqFrame> {
    fs.map_values(|f: RFrame| f.view())
}

/// The `#require` processor, between downloads.
pub struct RequireRun {
    frames: Vec<RFrame>,
    visited: Vec<String>,
    awaiting: bool,
}

/// The strings' views.
pub open spec fn string_views(v: Seq<String>) -> Seq<Seq<char>> {
    v.map_values(|s: String| s@)
}

/// Whether `u` is among `visited`.
fn visited_contains(visited: &Vec<String>, u: &Vec<char>) -> (r: bool)
    ensures
        r == string_views(visited@).contains(u@),
{
    let mut i: usize = 0;
    while i < visited.len()
        invariant
            0 <= i <= visited.len(),
            forall|j: int| 0 <= j < i ==> string_views(visited@)[j] != u@,
        decreases visited.len() - i,
    {
        let v = chars_of(visited[i].as_str());
        if chars_eq(&v, u) {
            assert(string_views(visited@)[i as int] == u@);
            return true;
        }
        i += 1;
    }
    false
}

/// What `req_run` keeps: the downloads it asks for are new, allowed URLs,
/// and they are the only change to the downloaded list.
pub proof fn lemma_req_run_downloads(frames: Seq<ReqFrame>, visited: Seq<Seq<char>>)
    ensures
        ({
            let (f2, v2, n) = req_run(frames, visited);
            &&& n matches ReqNext::Fetch(u) ==> is_fetchable(u) && !visited.contains(u) && v2
                == visited.push(u)
            &&& n is Done ==> v2 == visited
        }),
    decreases req_work(frames),
{
    if frames.len() == 0 {
    } else {
        let top = frames.last();
        if top.rest.len() == 0 {
            if frames.len() == 1 {
            } else {
                let rest = frames.drop_last();
                let parent = rest.last();
                let merged = ReqFrame { rest: parent.rest, out: parent.out + top.out + seq!['\n'] };
                assert(with_top(rest, merged).drop_last() =~= rest.drop_last());
                assert(with_top(rest, merged).last() == merged);
                assert(req_work(with_top(rest, merged)) == req_work(rest.drop_last())
                    + parent.rest.len() + 1);
                assert(req_work(rest) == req_work(rest.drop_last()) + parent.rest.len() + 1);
                lemma_req_run_downloads(with_top(rest, merged), visited);
            }
        } else {
            let l = top.rest[0];
            let next = match require_target(l) {
                Some(_) => ReqFrame { rest: top.rest.drop_first(), out: top.out },
                None => ReqFrame { rest: top.rest.drop_first(), out: top.out + l + seq!['\n'] },
            };
            assert(with_top(frames, next).drop_last() =~= frames.drop_last());
            assert(with_top(frames, next).last() == next);
            lemma_req_run_downloads(with_top(frames, next), visited);
        }
    }
}

impl RequireRun {
    /// The texts being read, innermost last.
    pub closed spec fn frames(&self) -> Seq<ReqFrame> {
        rframes_view(self.frames@)
    }

    /// The URLs downloaded so far, in order.
    pub closed spec fn visited(&self) -> Seq<Seq<char>> {
        string_views(self.visited@)
    }

    /// The processor waits for a download.
    pub closed spec fn awaiting(&self) -> bool {
        self.awaiting
    }

    #[verifier::type_invariant]
    closed spec fn inv(&self) -> bool {
        &&& forall|i: int| 0 <= i < self.frames@.len() ==> (#[trigger] self.frames@[i]).wf()
        &&& self.awaiting ==> self.frames@.len() > 0
        &&& string_views(self.visited@).no_duplicates()
    }

    /// Runs up to the next download or the end (see [`req_run`]).
    fn run(&mut self) -> (r: RequireStep)
        requires
            old(self).frames().len() > 0,
        ensures
            ({
                let (f2, v2, n) = req_run(old(self).frames(), old(self).visited());
                &&& final(self).frames() == f2
                &&& final(self).visited() == v2
                &&& require_step_is(r, n)
                &&& final(self).awaiting() == (n is Fetch)
            }),
            final(self).visited().no_duplicates(),
            r matches RequireStep::Fetch(u) ==> is_fetchable(u@) && !old(self).visited().contains(
                u@,
            ) && final(self).visited() == old(self).visited().push(u@),
            !(r is Fetch) ==> final(self).visited() == old(self).visited(),
    {
        proof {
            use_type_invariant(&*self);
            lemma_req_run_downloads(self.frames(), self.visited());
        }
        let ghost goal = req_run(self.frames(), self.visited());
        let kw = chars_of("#require <");
        self.awaiting = false;
        loop
            invariant
                !self.awaiting,
                self.frames().len() > 0,
                self.visited().no_duplicates(),
                self.visited() == old(self).visited(),
                forall|i: int| 0 <= i < self.frames@.len() ==> (#[trigger] self.frames@[i]).wf(),
                req_run(self.frames(), self.visited()) == goal,
                goal == req_run(old(self).frames(), old(self).visited()),
                kw@ == "#require <"@,
            decreases req_work(self.frames()),
        {
            let ghost fs = self.frames();
            let mut frames: Vec<RFrame> = Vec::new();
            std::mem::swap(&mut frames, &mut self.frames);
            let mut top = frames.pop().unwrap();
            assert(fs.last() == top.view());
            assert(rframes_view(frames@) =~= fs.drop_last());
            if top.next == top.lines.len() {
                assert(top.view().rest =~= Seq::<Seq<char>>::empty());
                if frames.len() == 0 {
                    assert(fs.len() == 1);
                    assert(req_run(fs, self.visited()) == (
                        fs.drop_last(),
                        self.visited(),
                        ReqNext::Done(top.out@),
                    ));
                    let out = string_of(&top.out);
                    self.frames = frames;
                    self.awaiting = false;
                    assert(self.frames() =~= fs.drop_last());
                    return RequireStep::Done(out);
                }
                let ghost before_pop = frames@;
                let mut parent = frames.pop().unwrap();
                let ghost rest = fs.drop_last();
                assert(rest.last() == parent.view());
                assert(rframes_view(frames@) =~= rest.drop_last());
                let ghost old_parent = parent.view();
                extend_chars(&mut parent.out, &top.out);
                parent.out.push('\n');
                let ghost merged = ReqFrame {
                    rest: old_parent.rest,
                    out: old_parent.out + top.out@ + seq!['\n'],
                };
                assert(parent.view().out =~= merged.out);
                assert(parent.view() == merged);
                frames.push(parent);
                assert(rframes_view(frames@) =~= rest.drop_last().push(merged));
                self.frames = frames;
                proof {
                    assert(self.frames() =~= with_top(rest, merged));
                    assert(with_top(rest, merged).drop_last() =~= rest.drop_last());
                    assert(with_top(rest, merged).last() == merged);
                    assert(req_work(with_top(rest, merged)) == req_work(rest.drop_last())
                        + rest.last().rest.len() + 1);
                    assert(req_work(rest) == req_work(rest.drop_last()) + rest.last().rest.len() + 1);
                    assert(req_work(fs) == req_work(rest) + 1);
                }
            } else {
                let ghost l = top.view().rest[0];
                assert(l == top.lines@[top.next as int]@);
                let target = directive_arg_of(&top.lines[top.next], &kw);
                let ghost old_top = top.view();
                match target {
                    Some(url) => {
                        top.next = top.next + 1;
                        let ghost next = ReqFrame { rest: old_top.rest.drop_first(), out: old_top.out };
                        assert(top.view().rest =~= old_top.rest.drop_first());
                        frames.push(top);
                        self.frames = frames;
                        assert(self.frames() =~= with_top(fs, next));
                        assert(with_top(fs, next).drop_last() =~= fs.drop_last());
                        assert(with_top(fs, next).last() == next);
                        let u = string_of(&url);
                        if (is_valid_domain_with_protocol(u.as_str()) || is_valid_ip_with_protocol(
                            u.as_str(),
                        )) && !visited_contains(&self.visited, &url) {
                            let ghost vis = self.visited();
                            assert(vis.push(url@).no_duplicates()) by {
                                assert forall|a: int, b: int|
                                    0 <= a < b < vis.push(url@).len() implies vis.push(url@)[a]
                                    != vis.push(url@)[b] by {
                                    if b == vis.len() {
                                        assert(vis.push(url@)[a] == vis[a]);
                                    } else {
                                        assert(vis.push(url@)[a] == vis[a]);
                                        assert(vis.push(url@)[b] == vis[b]);
                                    }
                                }
                            }
                            let mut vis_v: Vec<String> = Vec::new();
                            std::mem::swap(&mut vis_v, &mut self.visited);
                            vis_v.push(u.clone());
                            assert(string_views(vis_v@) =~= vis.push(url@));
                            self.visited = vis_v;
                            assert(self.visited() =~= vis.push(url@));
                            self.awaiting = true;
                            return RequireStep::Fetch(u);
                        }
                    },
                    None => {
                        let line = &top.lines[top.next];
                        extend_chars(&mut top.out, line);
                        top.out.push('\n');
                        top.next = top.next + 1;
                        let ghost next = ReqFrame {
                            rest: old_top.rest.drop_first(),
                            out: old_top.out + l + seq!['\n'],
                        };
                        assert(top.view().rest =~= old_top.rest.drop_first());
                        assert(top.view().out =~= old_top.out + l + seq!['\n']);
                        frames.push(top);
                        self.frames = frames;
                        assert(self.frames() =~= with_top(fs, next));
                        assert(with_top(fs, next).drop_last() =~= fs.drop_last());
                        assert(with_top(fs, next).last() == next);
                    },
                }
            }
        }
    }

    /// Takes the result of the download the last step asked for (`None` when
    /// it failed) and returns the next step. The downloaded text is processed
    /// in place of the `#require` line. Called when no download was asked
    /// for, it fails and changes nothing.
    pub fn fetched(&mut self, body: Option<String>) -> (r: RequireStep)
        ensures
            !old(self).awaiting() ==> r is Failed && final(self).frames() == old(self).frames()
                && final(self).visited() == old(self).visited() && !final(self).awaiting(),
            old(self).awaiting() && body is None ==> r is Failed && !final(self).awaiting(),
            old(self).awaiting() ==> (body matches Some(b) ==> ({
                let (f2, v2, n) = req_run(
                    old(self).frames().push(ReqFrame { rest: lines(b@), out: seq![] }),
                    old(self).visited(),
                );
                &&& final(self).frames() == f2
                &&& final(self).visited() == v2
                &&& require_step_is(r, n)
                &&& final(self).awaiting() == (n is Fetch)
            })),
            final(self).visited().no_duplicates(),
            r matches RequireStep::Fetch(u) ==> is_fetchable(u@) && !old(self).visited().contains(
                u@,
            ) && final(self).visited() == old(self).visited().push(u@),
            !(r is Fetch) ==> final(self).visited() == old(self).visited(),
    {
        proof {
            use_type_invariant(&*self);
        }
        if !self.awaiting {
            return RequireStep::Failed;
        }
        match body {
            None => {
                self.awaiting = false;
                RequireStep::Failed
            },
            Some(b) => {
                let cs = chars_of(b.as_str());
                let ls = lines_of(&cs);
                let ghost fs = self.frames();
                assert(views(ls@).skip(0) =~= views(ls@));
                let f = RFrame { lines: ls, next: 0, out: Vec::new() };
                self.awaiting = false;
                let mut frames_v: Vec<RFrame> = Vec::new();
                std::mem::swap(&mut frames_v, &mut self.frames);
                frames_v.push(f);
                self.frames = frames_v;
                assert(self.frames() =~= fs.push(ReqFrame { rest: lines(b@), out: seq![] }));
                proof {
                    use_type_invariant(&*self);
                }
                self.run()
            },
        }
    }
}

/// A file being read by the include processor: its path, the lines still to
/// read, the output so far, and whether all its lines could be read.
pub struct IncFrame {
    pub path: Seq<char>,
    pub rest: Seq<Seq<char>>,
    pub out: Seq<char>,
    pub complete: bool,
}

/// What the include processor asks for next.
pub enum IncNext {
    /// Read the file `name`, relative to the directory of the file `from`.
    Read { from: Seq<char>, name: Seq<char> },
    /// The processing is over, with this output.
    Done(Seq<char>),
    /// The first file could not be read; the processing is over with an
    /// error.
    Failed,
}

/// The number of lines and files still to process.
pub open spec fn inc_work(frames: Seq<IncFrame>) -> nat
    decreases frames.len(),
{
    if frames.len() == 0 {
        0
    } else {
        inc_work(frames.drop_last()) + frames.last().rest.len() + 1
    }
}

/// The frames with the innermost one replaced by `f`.
pub open spec fn with_inc_top(frames: Seq<IncFrame>, f: IncFrame) -> Seq<IncFrame> {
    frames.drop_last().push(f)
}

/// Runs the include processor from `frames` (innermost last), with the files
/// `visited` already read and the includes `failed` already given up, up to
/// the next file to read or the end.
///
/// A line of the innermost file that is not an `#include` line is copied,
/// with a newline; an `#include` line asks for its file. When a file is
/// finished, its output goes to the file that included it (with no newline
/// added); when the outermost file is finished, its output is the result. A
/// file whose lines could not all be read fails instead: an included one is
/// given up and adds nothing, the outermost one ends the processing with an
/// error.
pub open spec fn inc_run(frames: Seq<IncFrame>, visited: Seq<Seq<char>>, failed: Seq<Seq<char>>) -> (
    Seq<IncFrame>,
    Seq<Seq<char>>,
    Seq<Seq<char>>,
    IncNext,
)
    decreases inc_work(frames),
{
    if frames.len() == 0 {
        (frames, visited, failed, IncNext::Done(seq![]))
    } else {
        let top = frames.last();
        let rest = frames.drop_last();
        if top.rest.len() == 0 {
            if frames.len() == 1 {
                if top.complete {
                    (rest, visited, failed, IncNext::Done(top.out))
                } else {
                    (rest, visited, failed, IncNext::Failed)
                }
            } else if !top.complete {
                proof {
                    assert(inc_work(frames) == inc_work(rest) + 1);
                }
                inc_run(rest, visited, failed.push(top.path))
            } else {
                let parent = rest.last();
                let merged = IncFrame { out: parent.out + top.out, ..parent };
                proof {
                    assert(with_inc_top(rest, merged).drop_last() =~= rest.drop_last());
                    assert(with_inc_top(rest, merged).last() == merged);
                    assert(inc_work(with_inc_top(rest, merged)) == inc_work(rest.drop_last())
                        + parent.rest.len() + 1);
                    assert(inc_work(rest) == inc_work(rest.drop_last()) + parent.rest.len() + 1);
                    assert(inc_work(frames) == inc_work(rest) + 1);
                }
                inc_run(with_inc_top(rest, merged), visited, failed)
            }
        } else {
            let l = top.rest[0];
            match include_target(l) {
                Some(name) => (
                    with_inc_top(frames, IncFrame { rest: top.rest.drop_first(), ..top }),
                    visited,
                    failed,
                    IncNext::Read { from: top.path, name },
                ),
                None => {
                    let next = IncFrame {
                        rest: top.rest.drop_first(),
                        out: top.out + l + seq!['\n'],
                        ..top
                    };
                    proof {
                        assert(with_inc_top(frames, next).drop_last() =~= frames.drop_last());
                        assert(with_inc_top(frames, next).last() == next);
                    }
                    inc_run(with_inc_top(frames, next), visited, failed)
                },
            }
        }
    }
}

/// What came of reading a file that the include processor asked for.
pub enum FileEvent {
    /// The path `path` could not be resolved to a canonical path.
    Unresolved { path: String },
    /// `path` resolves to `canonical`, but the file could not be opened.
    Unopened { path: String, canonical: String },
    /// `path` resolves to `canonical`, and the file was read: `lines` are its
    /// lines up to the first that could not be read, and `complete` says
    /// that there was none.
    Opened { path: String, canonical: String, lines: Vec<String>, complete: bool },
}

/// The spec form of a file event.
pub enum FileView {
    Unresolved { path: Seq<char> },
    Unopened { path: Seq<char>, canonical: Seq<char> },
    Opened { path: Seq<char>, canonical: Seq<char>, lines: Seq<Seq<char>>, complete: bool },
}

/// The spec form of `e`.
pub open spec fn file_view(e: FileEvent) -> FileView {
    match e {
        FileEvent::Unresolved { path } => FileView::Unresolved { path: path@ },
        FileEvent::Unopened { path, canonical } => FileView::Unopened {
            path: path@,
            canonical: canonical@,
        },
        FileEvent::Opened { path, canonical, lines, complete } => FileView::Opened {
            path: path@,
            canonical: canonical@,
            lines: string_views(lines@),
            complete,
        },
    }
}

/// Takes the file that was asked for and runs on: a file whose canonical
/// path was read before adds nothing; otherwise it counts as read, and it is
/// processed in place of its `#include` line. A file that cannot be resolved
/// or opened fails: given up when included, an error when it is the first.
pub open spec fn inc_feed(
    frames: Seq<IncFrame>,
    visited: Seq<Seq<char>>,
    failed: Seq<Seq<char>>,
    e: FileView,
) -> (Seq<IncFrame>, Seq<Seq<char>>, Seq<Seq<char>>, IncNext) {
    match e {
        FileView::Unresolved { path } => if frames.len() == 0 {
            (frames, visited, failed, IncNext::Failed)
        } else {
            inc_run(frames, visited, failed.push(path))
        },
        FileView::Unopened { path, canonical } => if visited.contains(canonical) {
            inc_run(frames, visited, failed)
        } else if frames.len() == 0 {
            (frames, visited.push(canonical), failed, IncNext::Failed)
        } else {
            inc_run(frames, visited.push(canonical), failed.push(path))
        },
        FileView::Opened { path, canonical, lines, complete } => if visited.contains(canonical) {
            inc_run(frames, visited, failed)
        } else {
            inc_run(
                frames.push(IncFrame { path, rest: lines, out: seq![], complete }),
                visited.push(canonical),
                failed,
            )
        },
    }
}

/// What the include processor asks for next.
#[derive(Debug, PartialEq, Eq)]
pub enum IncludeStep {
    /// Read the file `name`, relative to the directory of the file `from`
    /// (`None`: `name` is the first file's path), then call
    /// [`IncludeRun::read`].
    Read { from: Option<String>, name: String },
    /// The processing is over, with this output.
    Done(String),
    /// The first file could not be read.
    Failed,
}

/// `r` is the exec form of `n`.
pub open spec fn include_step_is(r: IncludeStep, n: IncNext) -> bool {
    match n {
        IncNext::Read { from, name } => r matches IncludeStep::Read { from: Some(f), name: m } && f@
            == from && m@ == name,
        IncNext::Done(o) => r matches IncludeStep::Done(s) && s@ == o,
        IncNext::Failed => r is Failed,
    }
}

/// A file being read.
struct IFrame {
    path: String,
    lines: Vec<Vec<char>>,
    next: usize,
    out: Vec<char>,
    complete: bool,
}

impl IFrame {
    spec fn view(&self) -> IncFrame {
        IncFrame {
            path: self.path@,
            rest: views(self.lines@).skip(self.next as int),
            out: self.out@,
            complete: self.complete,
        }
    }

    spec fn wf(&self) -> bool {
        self.next <= self.lines.len()
    }
}

spec fn iframes_view(fs: Seq<IFrame>) -> Seq<IncFrame> {
    fs.map_values(|f: IFrame| f.view())
}

/// The `#include` processor, between file reads.
pub struct IncludeRun {
    frames: Vec<IFrame>,
    visited: Vec<String>,
    failed: Vec<String>,
    awaiting: bool,
}

/// A copy of `s`.
fn copy_string(s: &String) -> (r: String)
    ensures
        r@ == s@,
{
    let mut r = String::new();
    r.append(s.as_str());
    r
}

impl IncludeRun {
    /// The files being read, innermost last.
    pub closed spec fn frames(&self) -> Seq<IncFrame> {
        iframes_view(self.frames@)
    }

    /// The canonical paths of the files read so far, in order.
    pub closed spec fn visited(&self) -> Seq<Seq<char>> {
        string_views(self.visited@)
    }

    /// The paths of the included files given up so far, in order (the
    /// program warns about each).
    pub closed spec fn failed(&self) -> Seq<Seq<char>> {
        string_views(self.failed@)
    }

    /// The processor waits for a file.
    pub closed spec fn awaiting(&self) -> bool {
        self.awaiting
    }

    #[verifier::type_invariant]
    closed spec fn inv(&self) -> bool {
        &&& forall|i: int| 0 <= i < self.frames@.len() ==> (#[trigger] self.frames@[i]).wf()
        &&& string_views(self.visited@).no_duplicates()
    }

    /// Runs up to the next file to read or the end (see [`inc_run`]).
    fn run(&mut self) -> (r: IncludeStep)
        ensures
            ({
                let (f2, v2, x2, n) = inc_run(old(self).frames(), old(self).visited(), old(self).failed());
                &&& final(self).frames() == f2
                &&& final(self).visited() == v2
                &&& final(self).failed() == x2
                &&& include_step_is(r, n)
                &&& final(self).awaiting() == (n is Read)
            }),
            final(self).visited() == old(self).visited(),
            final(self).visited().no_duplicates(),
    {
        proof {
            use_type_invariant(&*self);
        }
        let ghost goal = inc_run(self.frames(), self.visited(), self.failed());
        let kw = chars_of("#include <");
        self.awaiting = false;
        loop
            invariant
                !self.awaiting,
                forall|i: int| 0 <= i < self.frames@.len() ==> (#[trigger] self.frames@[i]).wf(),
                self.visited().no_duplicates(),
                self.visited() == old(self).visited(),
                inc_run(self.frames(), self.visited(), self.failed()) == goal,
                goal == inc_run(old(self).frames(), old(self).visited(), old(self).failed()),
                kw@ == "#include <"@,
            decreases inc_work(self.frames()),
        {
            let ghost fs = self.frames();
            let ghost x = self.failed();
            if self.frames.len() == 0 {
                assert(fs.len() == 0);
                return IncludeStep::Done(String::new());
            }
            let mut frames: Vec<IFrame> = Vec::new();
            std::mem::swap(&mut frames, &mut self.frames);
            let mut top = frames.pop().unwrap();
            assert(fs.last() == top.view());
            assert(iframes_view(frames@) =~= fs.drop_last());
            if top.next == top.lines.len() {
                assert(top.view().rest =~= Seq::<Seq<char>>::empty());
                if frames.len() == 0 {
                    self.frames = frames;
                    assert(self.frames() =~= fs.drop_last());
                    if top.complete {
                        let out = string_of(&top.out);
                        return IncludeStep::Done(out);
                    } else {
                        return IncludeStep::Failed;
                    }
                }
                if !top.complete {
                    self.frames = frames;
                    assert(self.frames() =~= fs.drop_last());
                    let mut failed_v: Vec<String> = Vec::new();
                    std::mem::swap(&mut failed_v, &mut self.failed);
                    failed_v.push(top.path);
                    self.failed = failed_v;
                    assert(self.failed() =~= x.push(top.view().path));
                    assert(inc_work(fs) == inc_work(fs.drop_last()) + 1);
                } else {
                    let mut parent = frames.pop().unwrap();
                    let ghost rest = fs.drop_last();
                    assert(rest.last() == parent.view());
                    assert(iframes_view(frames@) =~= rest.drop_last());
                    let ghost old_parent = parent.view();
                    extend_chars(&mut parent.out, &top.out);
                    let ghost merged = IncFrame { out: old_parent.out + top.out@, ..old_parent };
                    assert(parent.view().out =~= merged.out);
                    assert(parent.view() == merged);
                    frames.push(parent);
                    assert(iframes_view(frames@) =~= rest.drop_last().push(merged));
                    self.frames = frames;
                    proof {
                        assert(self.frames() =~= with_inc_top(rest, merged));
                        assert(with_inc_top(rest, merged).drop_last() =~= rest.drop_last());
                        assert(with_inc_top(rest, merged).last() == merged);
                        assert(inc_work(with_inc_top(rest, merged)) == inc_work(rest.drop_last())
                            + rest.last().rest.len() + 1);
                        assert(inc_work(rest) == inc_work(rest.drop_last()) + rest.last().rest.len()
                            + 1);
                        assert(inc_work(fs) == inc_work(rest) + 1);
                    }
                }
            } else {
                let ghost l = top.view().rest[0];
                assert(l == top.lines@[top.next as int]@);
                let target = directive_arg_of(&top.lines[top.next], &kw);
                let ghost old_top = top.view();
                match target {
                    Some(name) => {
                        top.next = top.next + 1;
                        let ghost next = IncFrame { rest: old_top.rest.drop_first(), ..old_top };
                        assert(top.view().rest =~= old_top.rest.drop_first());
                        let from = copy_string(&top.path);
                        frames.push(top);
                        self.frames = frames;
                        assert(self.frames() =~= with_inc_top(fs, next));
                        self.awaiting = true;
                        return IncludeStep::Read { from: Some(from), name: string_of(&name) };
                    },
                    None => {
                        let line = &top.lines[top.next];
                        extend_chars(&mut top.out, line);
                        top.out.push('\n');
                        top.next = top.next + 1;
                        let ghost next = IncFrame {
                            rest: old_top.rest.drop_first(),
                            out: old_top.out + l + seq!['\n'],
                            ..old_top
                        };
                        assert(top.view().rest =~= old_top.rest.drop_first());
                        assert(top.view().out =~= old_top.out + l + seq!['\n']);
                        frames.push(top);
                        self.frames = frames;
                        assert(self.frames() =~= with_inc_top(fs, next));
                        assert(with_inc_top(fs, next).drop_last() =~= fs.drop_last());
                        assert(with_inc_top(fs, next).last() == next);
                    },
                }
            }
        }
    }

    /// Takes what came of reading the file the last step asked for, and
    /// returns the next step (see [`inc_feed`]). Called when no file was
    /// asked for, it fails and changes nothing.
    pub fn read(&mut self, e: FileEvent) -> (r: IncludeStep)
        ensures
            !old(self).awaiting() ==> r is Failed && final(self).frames() == old(self).frames()
                && final(self).visited() == old(self).visited() && final(self).failed() == old(
                self,
            ).failed() && !final(self).awaiting(),
            old(self).awaiting() ==> ({
                let (f2, v2, x2, n) = inc_feed(
                    old(self).frames(),
                    old(self).visited(),
                    old(self).failed(),
                    file_view(e),
                );
                &&& final(self).frames() == f2
                &&& final(self).visited() == v2
                &&& final(self).failed() == x2
                &&& include_step_is(r, n)
                &&& final(self).awaiting() == (n is Read)
            }),
            final(self).visited().no_duplicates(),
    {
        proof {
            use_type_invariant(&*self);
        }
        if !self.awaiting {
            return IncludeStep::Failed;
        }
        let ghost fs = self.frames();
        let ghost vis = self.visited();
        let ghost x = self.failed();
        self.awaiting = false;
        match e {
            FileEvent::Unresolved { path } => {
                if self.frames.len() == 0 {
                    return IncludeStep::Failed;
                }
                self.push_failed(path);
                self.run()
            },
            FileEvent::Unopened { path, canonical } => {
                let cc = chars_of(canonical.as_str());
                if visited_contains(&self.visited, &cc) {
                    return self.run();
                }
                self.push_visited(canonical);
                if self.frames.len() == 0 {
                    return IncludeStep::Failed;
                }
                self.push_failed(path);
                self.run()
            },
            FileEvent::Opened { path, canonical, lines, complete } => {
                let cc = chars_of(canonical.as_str());
                if visited_contains(&self.visited, &cc) {
                    return self.run();
                }
                self.push_visited(canonical);
                let mut ls: Vec<Vec<char>> = Vec::new();
                let mut i: usize = 0;
                while i < lines.len()
                    invariant
                        0 <= i <= lines.len(),
                        views(ls@) == string_views(lines@).take(i as int),
                    decreases lines.len() - i,
                {
                    let ghost before = views(ls@);
                    let l = chars_of(lines[i].as_str());
                    ls.push(l);
                    assert(views(ls@) =~= before + seq![l@]);
                    assert(string_views(lines@).take(i + 1) =~= string_views(lines@).take(
                        i as int,
                    ) + seq![lines@[i as int]@]);
                    i += 1;
                }
                assert(string_views(lines@).take(lines.len() as int) =~= string_views(lines@));
                assert(views(ls@).skip(0) =~= views(ls@));
                let f = IFrame { path, lines: ls, next: 0, out: Vec::new(), complete };
                let ghost fv = f.view();
                proof {
                    use_type_invariant(&*self);
                }
                let mut frames_v: Vec<IFrame> = Vec::new();
                std::mem::swap(&mut frames_v, &mut self.frames);
                frames_v.push(f);
                self.frames = frames_v;
                assert(self.frames() =~= fs.push(fv));
                self.run()
            },
        }
    }

    /// The paths of the included files given up so far, in order.
    pub fn failures(&self) -> (r: Vec<String>)
        ensures
            string_views(r@) == self.failed(),
    {
        let mut r: Vec<String> = Vec::new();
        let mut i: usize = 0;
        while i < self.failed.len()
            invariant
                0 <= i <= self.failed.len(),
                string_views(r@) == string_views(self.failed@).take(i as int),
            decreases self.failed.len() - i,
        {
            let ghost before = string_views(r@);
            let s = copy_string(&self.failed[i]);
            r.push(s);
            assert(string_views(r@) =~= before.push(s@));
            assert(string_views(self.failed@).take(i + 1) =~= string_views(self.failed@).take(
                i as int,
            ).push(self.failed@[i as int]@));
            i += 1;
        }
        assert(string_views(self.failed@).take(self.failed.len() as int) =~= string_views(
            self.failed@,
        ));
        r
    }

    fn push_failed(&mut self, path: String)
        ensures
            final(self).failed() == old(self).failed().push(path@),
            final(self).frames() == old(self).frames(),
            final(self).visited() == old(self).visited(),
            final(self).awaiting() == old(self).awaiting(),
    {
        proof {
            use_type_invariant(&*self);
        }
        let mut failed_v: Vec<String> = Vec::new();
        std::mem::swap(&mut failed_v, &mut self.failed);
        let ghost x = string_views(failed_v@);
        failed_v.push(path);
        assert(string_views(failed_v@) =~= x.push(path@));
        self.failed = failed_v;
    }

    fn push_visited(&mut self, canonical: String)
        requires
            !old(self).visited().contains(canonical@),
        ensures
            final(self).visited() == old(self).visited().push(canonical@),
            final(self).frames() == old(self).frames(),
            final(self).failed() == old(self).failed(),
            final(self).awaiting() == old(self).awaiting(),
    {
        proof {
            use_type_invariant(&*self);
        }
        let mut vis_v: Vec<String> = Vec::new();
        std::mem::swap(&mut vis_v, &mut self.visited);
        let ghost vis = string_views(vis_v@);
        vis_v.push(canonical);
        assert(string_views(vis_v@) =~= vis.push(canonical@));
        assert(vis.push(canonical@).no_duplicates()) by {
            assert forall|a: int, b: int|
                0 <= a < b < vis.push(canonical@).len() implies vis.push(canonical@)[a]
                != vis.push(canonical@)[b] by {
                assert(vis.push(canonical@)[a] == vis[a]);
                if b < vis.len() {
                    assert(vis.push(canonical@)[b] == vis[b]);
                }
            }
        }
        self.visited = vis_v;
    }
}

/// Preprocces the #require <> gets from the sites
///
/// Starts processing the `#require` lines of `content`, and returns the
/// first step.
pub fn process_all_requires(content: &str) -> (r: (RequireRun, RequireStep))
    ensures
        ({
            let (f2, v2, n) = req_run(
                seq![ReqFrame { rest: lines(content@), out: seq![] }],
                seq![],
            );
            &&& r.0.frames() == f2
            &&& r.0.visited() == v2
            &&& require_step_is(r.1, n)
            &&& r.0.awaiting() == (n is Fetch)
        }),
        r.0.visited().no_duplicates(),
        r.1 matches RequireStep::Fetch(u) ==> is_fetchable(u@) && r.0.visited() == seq![u@],
        !(r.1 is Fetch) ==> r.0.visited().len() == 0,
{
    let cs = chars_of(content);
    let ls = lines_of(&cs);
    let f = RFrame { lines: ls, next: 0, out: Vec::new() };
    let mut frames: Vec<RFrame> = Vec::new();
    frames.push(f);
    let mut run = RequireRun { frames, visited: Vec::new(), awaiting: false };
    assert(views(ls@).skip(0) =~= views(ls@));
    assert(run.frames() =~= seq![ReqFrame { rest: lines(content@), out: seq![] }]);
    assert(run.visited() =~= Seq::<Seq<char>>::empty());
    assert(run.visited().no_duplicates());
    let step = run.run();
    (run, step)
}


/// Preprocces the #include <> importing other files
///
/// Starts processing the preset file `path`; the first step asks for it.
pub fn process_all_includes(path: String) -> (r: (IncludeRun, IncludeStep))
    ensures
        r.0.frames().len() == 0,
        r.0.visited().len() == 0,
        r.0.failed().len() == 0,
        r.0.awaiting(),
        r.1 matches IncludeStep::Read { from: None, name } && name@ == path@,
{
    let run = IncludeRun {
        frames: Vec::new(),
        visited: Vec::new(),
        failed: Vec::new(),
        awaiting: true,
    };
    assert(run.frames() =~= Seq::<IncFrame>::empty());
    assert(run.visited() =~= Seq::<Seq<char>>::empty());
    assert(run.failed() =~= Seq::<Seq<char>>::empty());
    (run, IncludeStep::Read { from: None, name: path })
}


} // verus!
