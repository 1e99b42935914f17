//! Parsers for what the tools around this crate print: the origin of a git
//! repository, and the output of a line search.

use vstd::prelude::*;
use vstd::string::*;

use crate::parser::{ParseError, after_first_line, first_line, line_at};
use crate::parser::issue::{eat, eat_at, eat_char, eat_char_at};
use crate::text::{
    CharClass, Span, drop_run, lemma_whole, scan_run, str_to_chars, take_run, trim, trim_at,
};
use crate::text::number::{number_at, spec_number};

verus! {

/// The owner and the repository at the end of an origin, and what is left of
/// `i` behind them: the owner is all up to the first slash, the repository
/// all behind that slash up to the first dot.
pub open spec fn spec_owner_and_repo(i: Seq<char>) -> Option<(Seq<char>, (Seq<char>, Seq<char>))> {
    match eat_char('/', drop_run(i, CharClass::Only('/'), false)) {
        None => None,
        Some(i1) => Some(
            (
                drop_run(i1, CharClass::Only('.'), false),
                (
                    take_run(i, CharClass::Only('/'), false),
                    take_run(i1, CharClass::Only('.'), false),
                ),
            ),
        ),
    }
}

/// The owner and the repository that an origin in the form of ssh names:
/// `git@`, a host, a colon, the owner, a slash and the repository.
pub open spec fn spec_owner_and_repo_git(i: Seq<char>) -> Option<
    (Seq<char>, (Seq<char>, Seq<char>)),
> {
    match eat("git@"@, i) {
        None => None,
        Some(i1) => match eat_char(':', drop_run(i1, CharClass::Only(':'), false)) {
            None => None,
            Some(i2) => spec_owner_and_repo(i2),
        },
    }
}

/// `i` without the `s` it starts with, if it starts with one.
pub open spec fn eat_s(i: Seq<char>) -> Seq<char> {
    match eat_char('s', i) {
        Some(rest) => rest,
        None => i,
    }
}

/// The owner and the repository that an origin in the form of a URL names:
/// `http://` or `https://`, a host, a slash, the owner, a slash and the
/// repository.
pub open spec fn spec_owner_and_repo_http(i: Seq<char>) -> Option<
    (Seq<char>, (Seq<char>, Seq<char>)),
> {
    match eat("http"@, i) {
        None => None,
        Some(i1) => match eat("://"@, eat_s(i1)) {
            None => None,
            Some(i2) => match eat_char('/', drop_run(i2, CharClass::Only('/'), false)) {
                None => None,
                Some(i3) => spec_owner_and_repo(i3),
            },
        },
    }
}

/// The owner and the repository that an origin names, each without
/// whitespace around it, and what is left of `i` behind them.
pub open spec fn spec_owner_and_repo_from_config(i: Seq<char>) -> Option<
    (Seq<char>, (Seq<char>, Seq<char>)),
> {
    let found = match spec_owner_and_repo_git(i) {
        Some(found) => Some(found),
        None => spec_owner_and_repo_http(i),
    };
    match found {
        Some((rest, (owner, repo))) => Some((rest, (trim(owner), trim(repo)))),
        None => None,
    }
}

/// Runs `spec_owner_and_repo` on the window `[lo, hi)` of `s`.
fn owner_and_repo_at(s: &[char], lo: usize, hi: usize) -> (r: Option<(usize, (Span, Span))>)
    requires
        lo <= hi <= s@.len(),
    ensures
        match r {
            Some((p, (owner, repo))) => lo <= owner.start <= owner.end <= repo.start <= repo.end
                <= p <= hi && spec_owner_and_repo(s@.subrange(lo as int, hi as int)) == Some(
                (s@.subrange(p as int, hi as int), (owner.of(s@), repo.of(s@))),
            ),
            None => spec_owner_and_repo(s@.subrange(lo as int, hi as int)) is None,
        },
{
    let e1 = scan_run(s, lo, hi, CharClass::Only('/'), false);
    match eat_char_at(s, e1, hi, '/') {
        None => None,
        Some(p1) => {
            let e2 = scan_run(s, p1, hi, CharClass::Only('.'), false);
            Some((e2, (Span { start: lo, end: e1 }, Span { start: p1, end: e2 })))
        },
    }
}

/// Runs `spec_owner_and_repo_git` on the window `[lo, hi)` of `s`.
pub fn owner_and_repo_git_at(s: &[char], lo: usize, hi: usize) -> (r: Option<
    (usize, (Span, Span)),
>)
    requires
        lo <= hi <= s@.len(),
    ensures
        match r {
            Some((p, (owner, repo))) => lo <= owner.start <= owner.end <= repo.start <= repo.end
                <= p <= hi && spec_owner_and_repo_git(s@.subrange(lo as int, hi as int)) == Some(
                (s@.subrange(p as int, hi as int), (owner.of(s@), repo.of(s@))),
            ),
            None => spec_owner_and_repo_git(s@.subrange(lo as int, hi as int)) is None,
        },
{
    let p1 = match eat_at(s, lo, hi, "git@") {
        Some(p) => p,
        None => {
            return None;
        },
    };
    let e1 = scan_run(s, p1, hi, CharClass::Only(':'), false);
    match eat_char_at(s, e1, hi, ':') {
        Some(p2) => owner_and_repo_at(s, p2, hi),
        None => None,
    }
}

/// Runs `spec_owner_and_repo_http` on the window `[lo, hi)` of `s`.
pub fn owner_and_repo_http_at(s: &[char], lo: usize, hi: usize) -> (r: Option<
    (usize, (Span, Span)),
>)
    requires
        lo <= hi <= s@.len(),
    ensures
        match r {
            Some((p, (owner, repo))) => lo <= owner.start <= owner.end <= repo.start <= repo.end
                <= p <= hi && spec_owner_and_repo_http(s@.subrange(lo as int, hi as int))
                == Some((s@.subrange(p as int, hi as int), (owner.of(s@), repo.of(s@)))),
            None => spec_owner_and_repo_http(s@.subrange(lo as int, hi as int)) is None,
        },
{
    let p1 = match eat_at(s, lo, hi, "http") {
        Some(p) => p,
        None => {
            return None;
        },
    };
    let p2 = match eat_char_at(s, p1, hi, 's') {
        Some(p) => p,
        None => p1,
    };
    let p3 = match eat_at(s, p2, hi, "://") {
        Some(p) => p,
        None => {
            return None;
        },
    };
    let e3 = scan_run(s, p3, hi, CharClass::Only('/'), false);
    match eat_char_at(s, e3, hi, '/') {
        Some(p4) => owner_and_repo_at(s, p4, hi),
        None => None,
    }
}

/// Eats the origin of a repository in the form of ssh, such as
/// `git@github.com:owner/repo.git`, and returns the rest of the input, the
/// owner and the repository.
pub fn parse_owner_and_repo_from_config_git(i: &str) -> (r: Result<
    (&str, (&str, &str)),
    ParseError,
>)
    ensures
        match r {
            Ok((rest, (owner, repo))) => spec_owner_and_repo_git(i@) == Some(
                (rest@, (owner@, repo@)),
            ),
            Err(_) => spec_owner_and_repo_git(i@) is None,
        },
{
    let s = str_to_chars(i);
    let n = s.len();
    proof {
        lemma_whole(s@);
    }
    match owner_and_repo_git_at(s.as_slice(), 0, n) {
        Some((p, (owner, repo))) => Ok(
            (
                i.substring_char(p, n),
                (
                    i.substring_char(owner.start, owner.end),
                    i.substring_char(repo.start, repo.end),
                ),
            ),
        ),
        None => Err(ParseError),
    }
}

/// Eats the origin of a repository in the form of a URL, such as
/// `https://github.com/owner/repo.git`, and returns the rest of the input, the
/// owner and the repository.
pub fn parse_owner_and_repo_from_config_http(i: &str) -> (r: Result<
    (&str, (&str, &str)),
    ParseError,
>)
    ensures
        match r {
            Ok((rest, (owner, repo))) => spec_owner_and_repo_http(i@) == Some(
                (rest@, (owner@, repo@)),
            ),
            Err(_) => spec_owner_and_repo_http(i@) is None,
        },
{
    let s = str_to_chars(i);
    let n = s.len();
    proof {
        lemma_whole(s@);
    }
    match owner_and_repo_http_at(s.as_slice(), 0, n) {
        Some((p, (owner, repo))) => Ok(
            (
                i.substring_char(p, n),
                (
                    i.substring_char(owner.start, owner.end),
                    i.substring_char(repo.start, repo.end),
                ),
            ),
        ),
        None => Err(ParseError),
    }
}

/// Eats the origin of a repository, in the form of ssh or of a URL, and
/// returns the rest of the input, the owner and the repository, each without
/// whitespace around it.
pub fn parse_owner_and_repo_from_config(i: &str) -> (r: Result<(&str, (&str, &str)), ParseError>)
    ensures
        match r {
            Ok((rest, (owner, repo))) => spec_owner_and_repo_from_config(i@) == Some(
                (rest@, (owner@, repo@)),
            ),
            Err(_) => spec_owner_and_repo_from_config(i@) is None,
        },
{
    let s = str_to_chars(i);
    let n = s.len();
    proof {
        lemma_whole(s@);
    }
    let found = match owner_and_repo_git_at(s.as_slice(), 0, n) {
        Some(found) => Some(found),
        None => owner_and_repo_http_at(s.as_slice(), 0, n),
    };
    match found {
        Some((p, (owner, repo))) => {
            let owner = trim_at(s.as_slice(), owner.start, owner.end);
            let repo = trim_at(s.as_slice(), repo.start, repo.end);
            Ok(
                (
                    i.substring_char(p, n),
                    (
                        i.substring_char(owner.start, owner.end),
                        i.substring_char(repo.start, repo.end),
                    ),
                ),
            )
        },
        None => Err(ParseError),
    }
}

/// The number of a candidate line, and what is left of `i` behind the line:
/// the number, a colon, and the text of the line up to and with its line
/// ending.
pub open spec fn spec_rg_line(i: Seq<char>) -> Option<(Seq<char>, usize)> {
    match spec_number(i) {
        None => None,
        Some((i1, n)) => match eat_char(':', i1) {
            None => None,
            Some(i2) => Some((after_first_line(i2), n)),
        },
    }
}

/// The numbers of the candidate lines that `i` starts with, one after the
/// other, and what is left of `i` behind them.
pub open spec fn spec_rg_lines(i: Seq<char>) -> (Seq<char>, Seq<usize>)
    decreases i.len(),
{
    match spec_rg_line(i) {
        None => (i, Seq::empty()),
        Some((rest, n)) => if rest.len() < i.len() {
            let (r, more) = spec_rg_lines(rest);
            (r, seq![n] + more)
        } else {
            (i, Seq::empty())
        },
    }
}

/// The file that `i` starts with and its candidate lines, and what is left
/// of `i` behind them: the path of the file on a line of its own, one or more
/// numbered lines, and an empty line or none.
pub open spec fn spec_rg_file(i: Seq<char>) -> Option<(Seq<char>, (Seq<char>, Seq<usize>))> {
    let (rest, lines) = spec_rg_lines(after_first_line(i));
    if lines.len() > 0 {
        Some((crate::parser::drop_line_ending(rest), (first_line(i), lines)))
    } else {
        None
    }
}

/// The files that `i` starts with, one after the other, each with its
/// candidate lines, and what is left of `i` behind them.
pub open spec fn spec_rg_files(i: Seq<char>) -> (Seq<char>, Seq<(Seq<char>, Seq<usize>)>)
    decreases i.len(),
{
    match spec_rg_file(i) {
        None => (i, Seq::empty()),
        Some((rest, file)) => if rest.len() < i.len() {
            let (r, more) = spec_rg_files(rest);
            (r, seq![file] + more)
        } else {
            (i, Seq::empty())
        },
    }
}

/// The output of a line search as a list of files with their candidate
/// lines, and what is left of `i` behind the last file that could be read.
/// `None` where `i` does not start with a file and a numbered line.
pub open spec fn spec_rg(i: Seq<char>) -> Option<(Seq<char>, Seq<(Seq<char>, Seq<usize>)>)> {
    let (rest, files) = spec_rg_files(i);
    if files.len() > 0 {
        Some((rest, files))
    } else {
        None
    }
}

/// Runs `spec_rg_line` on the window `[lo, hi)` of `s`.
pub fn rg_line_at(s: &[char], lo: usize, hi: usize) -> (r: Option<(usize, usize)>)
    requires
        lo <= hi <= s@.len(),
    ensures
        match r {
            Some((p, n)) => lo < p <= hi && spec_rg_line(s@.subrange(lo as int, hi as int))
                == Some((s@.subrange(p as int, hi as int), n)),
            None => spec_rg_line(s@.subrange(lo as int, hi as int)) is None,
        },
{
    let (p1, n) = match number_at(s, lo, hi) {
        Some(r) => r,
        None => {
            return None;
        },
    };
    let p2 = match eat_char_at(s, p1, hi, ':') {
        Some(p) => p,
        None => {
            return None;
        },
    };
    let (_, next) = line_at(s, p2, hi);
    Some((next, n))
}

/// Runs `spec_rg_lines` on the window `[lo, hi)` of `s`.
fn rg_lines_at(s: &[char], lo: usize, hi: usize) -> (r: (usize, Vec<usize>))
    requires
        lo <= hi <= s@.len(),
    ensures
        lo <= r.0 <= hi,
        r.1@.len() > 0 ==> lo < r.0,
        spec_rg_lines(s@.subrange(lo as int, hi as int)) == (
            s@.subrange(r.0 as int, hi as int),
            r.1@,
        ),
{
    let ghost w = s@.subrange(lo as int, hi as int);
    let mut lines: Vec<usize> = Vec::new();
    let mut cur = lo;
    assert(lines@ + spec_rg_lines(w).1 =~= spec_rg_lines(w).1);
    loop
        invariant
            lo <= cur <= hi <= s@.len(),
            lines@.len() > 0 ==> lo < cur,
            w == s@.subrange(lo as int, hi as int),
            spec_rg_lines(w) == (
                spec_rg_lines(s@.subrange(cur as int, hi as int)).0,
                lines@ + spec_rg_lines(s@.subrange(cur as int, hi as int)).1,
            ),
        decreases hi - cur,
    {
        match rg_line_at(s, cur, hi) {
            None => {
                assert(lines@ + Seq::<usize>::empty() =~= lines@);
                return (cur, lines);
            },
            Some((next, n)) => {
                let ghost before = lines@;
                let ghost more = spec_rg_lines(s@.subrange(next as int, hi as int)).1;
                lines.push(n);
                assert(before + (seq![n] + more) =~= lines@ + more);
                cur = next;
            },
        }
    }
}

/// A file and its candidate lines, as windows into a buffer.
pub struct RgFileAt {
    pub file: Span,
    pub lines: Vec<usize>,
}

/// The files with their lines that a list holds, for the text `s`.
pub open spec fn rg_files_of(v: Seq<RgFileAt>, s: Seq<char>) -> Seq<(Seq<char>, Seq<usize>)> {
    v.map_values(|f: RgFileAt| (f.file.of(s), f.lines@))
}

/// Runs `spec_rg_file` on the window `[lo, hi)` of `s`.
pub fn rg_file_at(s: &[char], lo: usize, hi: usize) -> (r: Option<(usize, RgFileAt)>)
    requires
        lo <= hi <= s@.len(),
    ensures
        match r {
            Some((p, f)) => lo < p <= hi && f.file.fits(p as nat) && spec_rg_file(
                s@.subrange(lo as int, hi as int),
            ) == Some((s@.subrange(p as int, hi as int), (f.file.of(s@), f.lines@))),
            None => spec_rg_file(s@.subrange(lo as int, hi as int)) is None,
        },
{
    let (eol, p1) = line_at(s, lo, hi);
    let (p2, lines) = rg_lines_at(s, p1, hi);
    if lines.len() == 0 {
        return None;
    }
    let ghost after = s@.subrange(p2 as int, hi as int);
    let p3 = if p2 < hi && s[p2] == '\n' {
        assert(after.skip(1) =~= s@.subrange(p2 + 1, hi as int));
        p2 + 1
    } else if p2 < hi && hi - p2 >= 2 && s[p2] == '\r' && s[p2 + 1] == '\n' {
        assert(after.skip(2) =~= s@.subrange(p2 + 2, hi as int));
        p2 + 2
    } else {
        p2
    };
    Some((p3, RgFileAt { file: Span { start: lo, end: eol }, lines }))
}

/// Runs `spec_rg` on the window `[lo, hi)` of `s`.
pub fn rg_at(s: &[char], lo: usize, hi: usize) -> (r: Option<(usize, Vec<RgFileAt>)>)
    requires
        lo <= hi <= s@.len(),
    ensures
        match r {
            Some((p, files)) => lo < p <= hi && (forall|k: int|
                0 <= k < files@.len() ==> (#[trigger] files@[k]).file.fits(p as nat)) && spec_rg(
                s@.subrange(lo as int, hi as int),
            ) == Some((s@.subrange(p as int, hi as int), rg_files_of(files@, s@))),
            None => spec_rg(s@.subrange(lo as int, hi as int)) is None,
        },
{
    let ghost w = s@.subrange(lo as int, hi as int);
    let mut files: Vec<RgFileAt> = Vec::new();
    let mut cur = lo;
    assert(rg_files_of(files@, s@) =~= Seq::empty());
    assert(rg_files_of(files@, s@) + spec_rg_files(w).1 =~= spec_rg_files(w).1);
    loop
        invariant
            lo <= cur <= hi <= s@.len(),
            files@.len() > 0 ==> lo < cur,
            forall|k: int| 0 <= k < files@.len() ==> (#[trigger] files@[k]).file.fits(cur as nat),
            w == s@.subrange(lo as int, hi as int),
            spec_rg_files(w) == (
                spec_rg_files(s@.subrange(cur as int, hi as int)).0,
                rg_files_of(files@, s@) + spec_rg_files(s@.subrange(cur as int, hi as int)).1,
            ),
        decreases hi - cur,
    {
        match rg_file_at(s, cur, hi) {
            None => {
                assert(rg_files_of(files@, s@) + Seq::<(Seq<char>, Seq<usize>)>::empty()
                    =~= rg_files_of(files@, s@));
                if files.len() == 0 {
                    return None;
                }
                return Some((cur, files));
            },
            Some((next, f)) => {
                let ghost before = rg_files_of(files@, s@);
                let ghost x = (f.file.of(s@), f.lines@);
                let ghost more = spec_rg_files(s@.subrange(next as int, hi as int)).1;
                files.push(f);
                assert(rg_files_of(files@, s@) =~= before.push(x));
                assert(before + (seq![x] + more) =~= before.push(x) + more);
                cur = next;
            },
        }
    }
}

/// Eats one numbered line of the output of a line search, and returns the
/// rest of the input and the number. Fails also where the number is too large
/// for the machine.
pub fn parse_rg_line(i: &str) -> (r: Result<(&str, usize), ParseError>)
    ensures
        match r {
            Ok((rest, n)) => spec_rg_line(i@) == Some((rest@, n)),
            Err(_) => spec_rg_line(i@) is None,
        },
{
    let s = str_to_chars(i);
    let n = s.len();
    proof {
        lemma_whole(s@);
    }
    match rg_line_at(s.as_slice(), 0, n) {
        Some((p, line)) => Ok((i.substring_char(p, n), line)),
        None => Err(ParseError),
    }
}

/// Eats one file of the output of a line search: its path and its numbered
/// lines. Returns the rest of the input, the path and the numbers.
pub fn parse_rg_file(i: &str) -> (r: Result<(&str, (&str, Vec<usize>)), ParseError>)
    ensures
        match r {
            Ok((rest, (file, lines))) => spec_rg_file(i@) == Some((rest@, (file@, lines@))),
            Err(_) => spec_rg_file(i@) is None,
        },
{
    let s = str_to_chars(i);
    let n = s.len();
    proof {
        lemma_whole(s@);
    }
    match rg_file_at(s.as_slice(), 0, n) {
        Some((p, f)) => Ok(
            (i.substring_char(p, n), (i.substring_char(f.file.start, f.file.end), f.lines)),
        ),
        None => Err(ParseError),
    }
}

/// The files with their lines that a list holds, as values of specifications.
pub open spec fn rg_files(v: Seq<(&str, Vec<usize>)>) -> Seq<(Seq<char>, Seq<usize>)> {
    v.map_values(|f: (&str, Vec<usize>)| (f.0@, f.1@))
}

/// Eats the output of a line search, as far as it is a list of files with
/// numbered lines, and returns the rest of the input and the files in the
/// order of the output. Fails where the output starts with no such file.
pub fn parse_rg(i: &str) -> (r: Result<(&str, Vec<(&str, Vec<usize>)>), ParseError>)
    ensures
        match r {
            Ok((rest, files)) => spec_rg(i@) == Some((rest@, rg_files(files@))),
            Err(_) => spec_rg(i@) is None,
        },
{
    let s = str_to_chars(i);
    let n = s.len();
    proof {
        lemma_whole(s@);
    }
    match rg_at(s.as_slice(), 0, n) {
        Some((p, found)) => {
            let mut files: Vec<(&str, Vec<usize>)> = Vec::new();
            let ghost all = rg_files_of(found@, s@);
            assert(rg_files(files@) =~= all.take(0));
            for f in it: found
                invariant
                    s@ == i@,
                    p <= s@.len(),
                    all == rg_files_of(it.seq(), s@),
                    forall|k: int|
                        0 <= k < it.seq().len() ==> (#[trigger] it.seq()[k]).file.fits(p as nat),
                    rg_files(files@) == all.take(it.index() as int),
            {
                let ghost before = rg_files(files@);
                let file = i.substring_char(f.file.start, f.file.end);
                files.push((file, f.lines));
                assert(rg_files(files@) =~= before.push((file@, f.lines@)));
                assert(all.take(it.index() + 1) =~= all.take(it.index() as int).push(
                    all[it.index() as int],
                ));
            }
            assert(all.take(all.len() as int) =~= all);
            Ok((i.substring_char(p, n), files))
        },
        None => Err(ParseError),
    }
}



} // verus!
