//! Parsing todos from the body of a tracker issue.

use vstd::prelude::*;
use vstd::string::*;

use crate::parser::{IssueBody, ParseError, after_first_line, first_line, line_at};
use crate::parser::render::{github_link, span_anchor};
use crate::text::{
    CharClass, Span, drop_run, lemma_take_until, lemma_whole, scan_run, slices, spans_of,
    starts_with_at, str_eq, str_to_chars, take_run, texts,
};
use crate::text::number::{decimal, lemma_number_of_decimal, number_at, spec_number};
use crate::text::order::{
    insert_position, lemma_insert_by, lemma_sort_by, lemma_text_le_antisymmetric,
    lemma_text_le_reflexive, lemma_text_le_total, lemma_text_le_transitive, sort_by, sorted_by,
    str_le, text_le,
};

verus! {

/// The place of a todo as a link in an issue body gives it: a file in a
/// checkout of a repository, and lines in it.
#[derive(Debug, Eq, Hash, PartialEq, PartialOrd, Ord)]
pub struct GitHubTodoLocation {
    /// The owner and the name of the repository.
    pub repo: (String, String),
    pub checkout: String,
    pub file: String,
    /// The line on which the todo starts and, where it covers more than one
    /// line, the line on which it ends.
    pub src_span: (usize, Option<usize>),
}

/// A place in a repository, as a value of specifications.
pub struct GitHubLocationModel {
    pub repo: (Seq<char>, Seq<char>),
    pub checkout: Seq<char>,
    pub file: Seq<char>,
    pub src_span: (usize, Option<usize>),
}

impl View for GitHubTodoLocation {
    type V = GitHubLocationModel;

    open spec fn view(&self) -> GitHubLocationModel {
        GitHubLocationModel {
            repo: (self.repo.0@, self.repo.1@),
            checkout: self.checkout@,
            file: self.file@,
            src_span: self.src_span,
        }
    }
}

impl GitHubTodoLocation {
    /// Whether this place stands before `other` or equals it: places are
    /// ordered by owner, then repository, checkout, file, first line and last
    /// line, a place of one line before those of more.
    pub fn is_le(&self, other: &GitHubTodoLocation) -> (r: bool)
        ensures
            r == location_le(self@, other@),
    {
        if !str_eq(self.repo.0.as_str(), other.repo.0.as_str()) {
            str_le(self.repo.0.as_str(), other.repo.0.as_str())
        } else if !str_eq(self.repo.1.as_str(), other.repo.1.as_str()) {
            str_le(self.repo.1.as_str(), other.repo.1.as_str())
        } else if !str_eq(self.checkout.as_str(), other.checkout.as_str()) {
            str_le(self.checkout.as_str(), other.checkout.as_str())
        } else if !str_eq(self.file.as_str(), other.file.as_str()) {
            str_le(self.file.as_str(), other.file.as_str())
        } else if self.src_span.0 != other.src_span.0 {
            self.src_span.0 < other.src_span.0
        } else {
            match (self.src_span.1, other.src_span.1) {
                (None, _) => true,
                (Some(_), None) => false,
                (Some(a), Some(b)) => a <= b,
            }
        }
    }
}

/// Whether the place `a` stands before the place `b` or equals it.
pub open spec fn location_le(a: GitHubLocationModel, b: GitHubLocationModel) -> bool {
    if a.repo.0 != b.repo.0 {
        text_le(a.repo.0, b.repo.0)
    } else if a.repo.1 != b.repo.1 {
        text_le(a.repo.1, b.repo.1)
    } else if a.checkout != b.checkout {
        text_le(a.checkout, b.checkout)
    } else if a.file != b.file {
        text_le(a.file, b.file)
    } else if a.src_span.0 != b.src_span.0 {
        a.src_span.0 < b.src_span.0
    } else {
        match (a.src_span.1, b.src_span.1) {
            (None, _) => true,
            (Some(_), None) => false,
            (Some(x), Some(y)) => x <= y,
        }
    }
}

/// Of any two places one stands before the other, or they are equal in the
/// order of places.
pub proof fn lemma_location_le_total(a: GitHubLocationModel, b: GitHubLocationModel)
    ensures
        location_le(a, b) || location_le(b, a),
{
    lemma_text_le_total(a.repo.0, b.repo.0);
    lemma_text_le_total(a.repo.1, b.repo.1);
    lemma_text_le_total(a.checkout, b.checkout);
    lemma_text_le_total(a.file, b.file);
}

/// Three texts in a row: where the first stands before the second and the
/// second before the third, the first stands before the third, and equals
/// it only where all three are equal.
proof fn lemma_text_chain(a: Seq<char>, b: Seq<char>, c: Seq<char>)
    requires
        text_le(a, b),
        text_le(b, c),
    ensures
        text_le(a, c),
        a == c ==> a == b,
{
    lemma_text_le_transitive(a, b, c);
    if a == c {
        lemma_text_le_antisymmetric(a, b);
    }
}

/// The order of places is transitive.
pub proof fn lemma_location_le_transitive(
    a: GitHubLocationModel,
    b: GitHubLocationModel,
    c: GitHubLocationModel,
)
    requires
        location_le(a, b),
        location_le(b, c),
    ensures
        location_le(a, c),
{
    lemma_text_le_total(a.repo.0, a.repo.0);
    lemma_text_le_total(a.repo.1, a.repo.1);
    lemma_text_le_total(a.checkout, a.checkout);
    lemma_text_le_total(a.file, a.file);
    if a.repo.0 != b.repo.0 || b.repo.0 != c.repo.0 {
        lemma_text_le_total(b.repo.0, b.repo.0);
        lemma_text_chain(a.repo.0, b.repo.0, c.repo.0);
    } else if a.repo.1 != b.repo.1 || b.repo.1 != c.repo.1 {
        lemma_text_le_total(b.repo.1, b.repo.1);
        lemma_text_chain(a.repo.1, b.repo.1, c.repo.1);
    } else if a.checkout != b.checkout || b.checkout != c.checkout {
        lemma_text_le_total(b.checkout, b.checkout);
        lemma_text_chain(a.checkout, b.checkout, c.checkout);
    } else if a.file != b.file || b.file != c.file {
        lemma_text_le_total(b.file, b.file);
        lemma_text_chain(a.file, b.file, c.file);
    }
}

/// A place in a repository, as windows into a buffer.
#[derive(Clone, Copy, Debug)]
pub struct LinkAt {
    pub owner: Span,
    pub repo: Span,
    pub checkout: Span,
    pub file: Span,
    pub src_span: (usize, Option<usize>),
}

impl LinkAt {
    /// Every window lies within a buffer of `len` characters.
    pub open spec fn fits(self, len: nat) -> bool {
        self.owner.fits(len) && self.repo.fits(len) && self.checkout.fits(len) && self.file.fits(
            len,
        )
    }

    /// The place that the windows stand for in the text `s`.
    pub open spec fn of(self, s: Seq<char>) -> GitHubLocationModel {
        GitHubLocationModel {
            repo: (self.owner.of(s), self.repo.of(s)),
            checkout: self.checkout.of(s),
            file: self.file.of(s),
            src_span: self.src_span,
        }
    }

    /// Cuts the place out of the string `i`, of which `self` holds windows.
    pub fn cut(&self, i: &str) -> (r: GitHubTodoLocation)
        requires
            self.fits(i@.len()),
        ensures
            r@ == self.of(i@),
    {
        GitHubTodoLocation {
            repo: (
                String::from_str(i.substring_char(self.owner.start, self.owner.end)),
                String::from_str(i.substring_char(self.repo.start, self.repo.end)),
            ),
            checkout: String::from_str(i.substring_char(self.checkout.start, self.checkout.end)),
            file: String::from_str(i.substring_char(self.file.start, self.file.end)),
            src_span: self.src_span,
        }
    }
}

/// `i` without the text `t` at its start. `None` where `i` does not start
/// with `t`.
pub open spec fn eat(t: Seq<char>, i: Seq<char>) -> Option<Seq<char>> {
    if t.is_prefix_of(i) {
        Some(i.skip(t.len() as int))
    } else {
        None
    }
}

/// Runs `eat` on the window `[lo, hi)` of `s`, for the text of `t`.
pub fn eat_at(s: &[char], lo: usize, hi: usize, t: &str) -> (r: Option<usize>)
    requires
        lo <= hi <= s@.len(),
    ensures
        match r {
            Some(p) => lo <= p <= hi && p == lo + t@.len() && eat(
                t@,
                s@.subrange(lo as int, hi as int),
            ) == Some(s@.subrange(p as int, hi as int)),
            None => eat(t@, s@.subrange(lo as int, hi as int)) is None,
        },
{
    let chars = str_to_chars(t);
    if starts_with_at(s, lo, hi, chars.as_slice()) {
        let p = lo + chars.len();
        assert(s@.subrange(lo as int, hi as int).skip(t@.len() as int) =~= s@.subrange(
            p as int,
            hi as int,
        ));
        Some(p)
    } else {
        None
    }
}

/// Eating a text from the start of what begins with it leaves the rest.
pub proof fn lemma_eat(t: Seq<char>, rest: Seq<char>)
    ensures
        eat(t, t + rest) == Some(rest),
{
    let s = t + rest;
    assert(s.subrange(0, t.len() as int) =~= t);
    assert(s.skip(t.len() as int) =~= rest);
}

/// `i` without the character `c` at its start. `None` where `i` does not
/// start with `c`.
pub open spec fn eat_char(c: char, i: Seq<char>) -> Option<Seq<char>> {
    if i.len() > 0 && i[0] == c {
        Some(i.skip(1))
    } else {
        None
    }
}

/// Runs `eat_char` on the window `[lo, hi)` of `s`.
pub fn eat_char_at(s: &[char], lo: usize, hi: usize, c: char) -> (r: Option<usize>)
    requires
        lo <= hi <= s@.len(),
    ensures
        match r {
            Some(p) => p == lo + 1 && p <= hi && eat_char(c, s@.subrange(lo as int, hi as int))
                == Some(s@.subrange(p as int, hi as int)),
            None => eat_char(c, s@.subrange(lo as int, hi as int)) is None,
        },
{
    if lo < hi && s[lo] == c {
        assert(s@.subrange(lo as int, hi as int).skip(1) =~= s@.subrange(lo + 1, hi as int));
        Some(lo + 1)
    } else {
        None
    }
}

/// The place that the oldest form of a location line names, and what is left
/// of `i` behind it: `Located in "`, the file, `" on line ` and the line.
pub open spec fn spec_src_location0(i: Seq<char>) -> Option<(Seq<char>, (Seq<char>, usize))> {
    match eat("Located in "@, i) {
        None => None,
        Some(i1) => match eat_char('"', i1) {
            None => None,
            Some(i2) => match eat_char('"', drop_run(i2, CharClass::Only('"'), false)) {
                None => None,
                Some(i3) => match eat(" on line "@, i3) {
                    None => None,
                    Some(i4) => match spec_number(i4) {
                        None => None,
                        Some((rest, line)) => Some(
                            (rest, (take_run(i2, CharClass::Only('"'), false), line)),
                        ),
                    },
                },
            },
        },
    }
}

/// Runs `spec_src_location0` on the window `[lo, hi)` of `s`.
pub fn src_location0_at(s: &[char], lo: usize, hi: usize) -> (r: Option<(usize, (Span, usize))>)
    requires
        lo <= hi <= s@.len(),
    ensures
        match r {
            Some((p, (file, line))) => lo <= file.start <= file.end <= p <= hi
                && spec_src_location0(s@.subrange(lo as int, hi as int)) == Some(
                (s@.subrange(p as int, hi as int), (file.of(s@), line)),
            ),
            None => spec_src_location0(s@.subrange(lo as int, hi as int)) is None,
        },
{
    let p1 = match eat_at(s, lo, hi, "Located in ") {
        Some(p) => p,
        None => {
            return None;
        },
    };
    let p2 = match eat_char_at(s, p1, hi, '"') {
        Some(p) => p,
        None => {
            return None;
        },
    };
    let e = scan_run(s, p2, hi, CharClass::Only('"'), false);
    let p3 = match eat_char_at(s, e, hi, '"') {
        Some(p) => p,
        None => {
            return None;
        },
    };
    let p4 = match eat_at(s, p3, hi, " on line ") {
        Some(p) => p,
        None => {
            return None;
        },
    };
    match number_at(s, p4, hi) {
        Some((p, line)) => Some((p, (Span { start: p2, end: e }, line))),
        None => None,
    }
}

/// Version 0 of the source location parser: eats the file and the line of a
/// place as the oldest issues name it, and returns the rest of the input, the
/// file and the line. Fails also where the line is too large a number for the
/// machine.
pub fn src_location0(i: &str) -> (r: Result<(&str, (&str, usize)), ParseError>)
    ensures
        match r {
            Ok((rest, (file, line))) => spec_src_location0(i@) == Some(
                (rest@, (file@, line)),
            ),
            Err(_) => spec_src_location0(i@) is None,
        },
{
    let s = str_to_chars(i);
    let n = s.len();
    proof {
        lemma_whole(s@);
    }
    match src_location0_at(s.as_slice(), 0, n) {
        Some((p, (file, line))) => Ok(
            (i.substring_char(p, n), (i.substring_char(file.start, file.end), line)),
        ),
        None => Err(ParseError),
    }
}

/// The owner and the repository that a path starts with, and what is left of
/// `i` behind them: all up to the first slash, the slash, and all up to the
/// next slash.
pub open spec fn spec_repo_from_github_link(i: Seq<char>) -> Option<
    (Seq<char>, (Seq<char>, Seq<char>)),
> {
    match eat_char('/', drop_run(i, CharClass::Only('/'), false)) {
        None => None,
        Some(i1) => Some(
            (
                drop_run(i1, CharClass::Only('/'), false),
                (
                    take_run(i, CharClass::Only('/'), false),
                    take_run(i1, CharClass::Only('/'), false),
                ),
            ),
        ),
    }
}

/// Runs `spec_repo_from_github_link` on the window `[lo, hi)` of `s`.
pub fn repo_from_github_link_at(s: &[char], lo: usize, hi: usize) -> (r: Option<
    (usize, (Span, Span)),
>)
    requires
        lo <= hi <= s@.len(),
    ensures
        match r {
            Some((p, (owner, repo))) => lo == owner.start <= owner.end < repo.start <= repo.end
                == p <= hi && spec_repo_from_github_link(s@.subrange(lo as int, hi as int))
                == Some((s@.subrange(p as int, hi as int), (owner.of(s@), repo.of(s@)))),
            None => spec_repo_from_github_link(s@.subrange(lo as int, hi as int)) is None,
        },
{
    let e1 = scan_run(s, lo, hi, CharClass::Only('/'), false);
    match eat_char_at(s, e1, hi, '/') {
        None => None,
        Some(p1) => {
            let e2 = scan_run(s, p1, hi, CharClass::Only('/'), false);
            Some((e2, (Span { start: lo, end: e1 }, Span { start: p1, end: e2 })))
        },
    }
}

/// Eats the name of a user and the name of a repository from a path in the
/// style of GitHub, and returns the rest of the input and the two names.
pub fn repo_from_github_link(i: &str) -> (r: Result<(&str, (&str, &str)), ParseError>)
    ensures
        match r {
            Ok((rest, (owner, repo))) => spec_repo_from_github_link(i@) == Some(
                (rest@, (owner@, repo@)),
            ),
            Err(_) => spec_repo_from_github_link(i@) is None,
        },
{
    let s = str_to_chars(i);
    let n = s.len();
    proof {
        lemma_whole(s@);
    }
    match repo_from_github_link_at(s.as_slice(), 0, n) {
        Some((p, (owner, repo))) => Ok(
            (
                i.substring_char(p, n),
                (
                    i.substring_char(owner.start, owner.end),
                    i.substring_char(repo.start, repo.end),
                ),
            ),
        ),
        None => Err(ParseError),
    }
}

/// The last line that the anchor of a link names, and what is left of `i`
/// behind it: `-L` and a number.
pub open spec fn spec_span_end(i: Seq<char>) -> Option<(Seq<char>, usize)> {
    match eat("-L"@, i) {
        None => None,
        Some(i1) => spec_number(i1),
    }
}

/// The lines that the anchor of a link names, and what is left of `i` behind
/// it: `#L` and the first line and, for more than one line, `-L` and the
/// last.
pub open spec fn spec_span_from_github_link(i: Seq<char>) -> Option<
    (Seq<char>, (usize, Option<usize>)),
> {
    match eat("#L"@, i) {
        None => None,
        Some(i1) => match spec_number(i1) {
            None => None,
            Some((i2, start)) => match spec_span_end(i2) {
                Some((rest, end)) => Some((rest, (start, Some(end)))),
                None => Some((i2, (start, None))),
            },
        },
    }
}

/// Runs `spec_span_from_github_link` on the window `[lo, hi)` of `s`.
pub fn span_from_github_link_at(s: &[char], lo: usize, hi: usize) -> (r: Option<
    (usize, (usize, Option<usize>)),
>)
    requires
        lo <= hi <= s@.len(),
    ensures
        match r {
            Some((p, span)) => lo < p <= hi && spec_span_from_github_link(
                s@.subrange(lo as int, hi as int),
            ) == Some((s@.subrange(p as int, hi as int), span)),
            None => spec_span_from_github_link(s@.subrange(lo as int, hi as int)) is None,
        },
{
    let p1 = match eat_at(s, lo, hi, "#L") {
        Some(p) => p,
        None => {
            return None;
        },
    };
    let (p2, start) = match number_at(s, p1, hi) {
        Some(r) => r,
        None => {
            return None;
        },
    };
    match eat_at(s, p2, hi, "-L") {
        None => Some((p2, (start, None))),
        Some(p3) => match number_at(s, p3, hi) {
            None => Some((p2, (start, None))),
            Some((p4, end)) => Some((p4, (start, Some(end)))),
        },
    }
}

/// Eats the anchor of a GitHub link, which names a line or a range of lines,
/// and returns the rest of the input and the lines. Fails also where the first
/// line is too large a number for the machine.
pub fn span_from_github_link(i: &str) -> (r: Result<(&str, (usize, Option<usize>)), ParseError>)
    ensures
        match r {
            Ok((rest, span)) => spec_span_from_github_link(i@) == Some((rest@, span)),
            Err(_) => spec_span_from_github_link(i@) is None,
        },
{
    let s = str_to_chars(i);
    let n = s.len();
    proof {
        lemma_whole(s@);
    }
    match span_from_github_link_at(s.as_slice(), 0, n) {
        Some((p, span)) => Ok((i.substring_char(p, n), span)),
        None => Err(ParseError),
    }
}

/// The anchor of a link reads back as the lines it was made of.
pub proof fn lemma_span_parses_back(span: (usize, Option<usize>))
    ensures
        spec_span_from_github_link(span_anchor(span)) == Some((Seq::<char>::empty(), span)),
{
    reveal_strlit("#L");
    reveal_strlit("-L");
    let start = decimal(span.0 as nat);
    match span.1 {
        Some(end) => {
            let tail = "-L"@ + decimal(end as nat);
            assert(span_anchor(span) =~= "#L"@ + (start + tail));
            lemma_eat("#L"@, start + tail);
            assert(tail[0] == '-');
            lemma_number_of_decimal(span.0, tail);
            lemma_eat("-L"@, decimal(end as nat));
            assert(decimal(end as nat) + Seq::<char>::empty() =~= decimal(end as nat));
            lemma_number_of_decimal(end, Seq::empty());
        },
        None => {
            let none = Seq::<char>::empty();
            assert(span_anchor(span) =~= "#L"@ + (start + none));
            lemma_eat("#L"@, start + none);
            lemma_number_of_decimal(span.0, none);
            assert(!"-L"@.is_prefix_of(none));
        },
    }
}

/// What stands between the repository and the checkout in a link: a slash,
/// `blob` and a slash.
pub open spec fn eat_blob(i: Seq<char>) -> Option<Seq<char>> {
    match eat_char('/', i) {
        None => None,
        Some(i1) => match eat("blob"@, i1) {
            None => None,
            Some(i2) => eat_char('/', i2),
        },
    }
}

/// The place that a GitHub link names, and what is left of `i` behind the
/// link: `https://github.com/`, the owner, the repository, `blob`, the
/// checkout and the file, with slashes between them, and the anchor with the
/// lines.
pub open spec fn spec_todo_location_from_github_link(i: Seq<char>) -> Option<
    (Seq<char>, GitHubLocationModel),
> {
    match eat("https://github.com/"@, i) {
        None => None,
        Some(i1) => match spec_repo_from_github_link(i1) {
            None => None,
            Some((i2, repo)) => match eat_blob(i2) {
                None => None,
                Some(i3) => match eat_char('/', drop_run(i3, CharClass::Only('/'), false)) {
                    None => None,
                    Some(i4) => match spec_span_from_github_link(
                        drop_run(i4, CharClass::Only('#'), false),
                    ) {
                        None => None,
                        Some((rest, src_span)) => Some(
                            (
                                rest,
                                GitHubLocationModel {
                                    repo,
                                    checkout: take_run(i3, CharClass::Only('/'), false),
                                    file: take_run(i4, CharClass::Only('#'), false),
                                    src_span,
                                },
                            ),
                        ),
                    },
                },
            },
        },
    }
}

/// Runs `eat_blob` on the window `[lo, hi)` of `s`.
fn eat_blob_at(s: &[char], lo: usize, hi: usize) -> (r: Option<usize>)
    requires
        lo <= hi <= s@.len(),
    ensures
        match r {
            Some(p) => lo <= p <= hi && eat_blob(s@.subrange(lo as int, hi as int)) == Some(
                s@.subrange(p as int, hi as int),
            ),
            None => eat_blob(s@.subrange(lo as int, hi as int)) is None,
        },
{
    let p1 = match eat_char_at(s, lo, hi, '/') {
        Some(p) => p,
        None => {
            return None;
        },
    };
    let p2 = match eat_at(s, p1, hi, "blob") {
        Some(p) => p,
        None => {
            return None;
        },
    };
    eat_char_at(s, p2, hi, '/')
}

/// Runs `spec_todo_location_from_github_link` on the window `[lo, hi)` of `s`.
pub fn todo_location_from_github_link_at(s: &[char], lo: usize, hi: usize) -> (r: Option<
    (usize, LinkAt),
>)
    requires
        lo <= hi <= s@.len(),
    ensures
        match r {
            Some((p, link)) => lo < p <= hi && link.fits(p as nat)
                && spec_todo_location_from_github_link(s@.subrange(lo as int, hi as int))
                == Some((s@.subrange(p as int, hi as int), link.of(s@))),
            None => spec_todo_location_from_github_link(s@.subrange(lo as int, hi as int))
                is None,
        },
{
    let p1 = match eat_at(s, lo, hi, "https://github.com/") {
        Some(p) => p,
        None => {
            return None;
        },
    };
    let (p2, (owner, repo)) = match repo_from_github_link_at(s, p1, hi) {
        Some(r) => r,
        None => {
            return None;
        },
    };
    let p3 = match eat_blob_at(s, p2, hi) {
        Some(p) => p,
        None => {
            return None;
        },
    };
    let e3 = scan_run(s, p3, hi, CharClass::Only('/'), false);
    let p4 = match eat_char_at(s, e3, hi, '/') {
        Some(p) => p,
        None => {
            return None;
        },
    };
    let e4 = scan_run(s, p4, hi, CharClass::Only('#'), false);
    match span_from_github_link_at(s, e4, hi) {
        None => None,
        Some((p, src_span)) => Some(
            (
                p,
                LinkAt {
                    owner,
                    repo,
                    checkout: Span { start: p3, end: e3 },
                    file: Span { start: p4, end: e4 },
                    src_span,
                },
            ),
        ),
    }
}

/// Eats a link to lines of a file at GitHub, and returns the rest of the
/// input and the place that the link names.
pub fn todo_location_from_github_link(i: &str) -> (r: Result<
    (&str, GitHubTodoLocation),
    ParseError,
>)
    ensures
        match r {
            Ok((rest, loc)) => spec_todo_location_from_github_link(i@) == Some((rest@, loc@)),
            Err(_) => spec_todo_location_from_github_link(i@) is None,
        },
{
    let s = str_to_chars(i);
    let n = s.len();
    proof {
        lemma_whole(s@);
    }
    match todo_location_from_github_link_at(s.as_slice(), 0, n) {
        Some((p, link)) => Ok((i.substring_char(p, n), link.cut(i))),
        None => Err(ParseError),
    }
}

/// A link made for a place reads back as that place: the parser finds the
/// owner, the repository, the checkout, the path and the lines that the link
/// was made of, and nothing is left over. This holds where neither the
/// owner, the repository nor the checkout holds a slash, and the path holds
/// no `#`; a name with a slash would read as two.
pub proof fn lemma_link_parses_back(
    owner: Seq<char>,
    repo: Seq<char>,
    checkout: Seq<char>,
    path: Seq<char>,
    span: (usize, Option<usize>),
)
    requires
        !owner.contains('/'),
        !repo.contains('/'),
        !checkout.contains('/'),
        !path.contains('#'),
    ensures
        spec_todo_location_from_github_link(github_link(owner, repo, checkout, path, span))
            == Some(
            (
                Seq::<char>::empty(),
                GitHubLocationModel { repo: (owner, repo), checkout, file: path, src_span: span },
            ),
        ),
{
    reveal_strlit("https://github.com");
    reveal_strlit("https://github.com/");
    reveal_strlit("/");
    reveal_strlit("blob");
    reveal_strlit("#L");
    let slash = seq!['/'];
    let anchor = span_anchor(span);
    // What is left to read after each step.
    let anchor_tail = anchor.skip(1);
    assert(anchor[0] == '#');
    assert(anchor =~= seq!['#'] + anchor_tail);
    let r5 = path + seq!['#'] + anchor_tail;
    let r4 = checkout + slash + r5;
    let r3 = "blob"@ + (slash + r4);
    let r2 = repo + slash + r3;
    let r1 = owner + slash + r2;
    let link = github_link(owner, repo, checkout, path, span);
    assert(link =~= "https://github.com/"@ + r1);
    lemma_eat("https://github.com/"@, r1);
    lemma_take_until(owner, '/', r2);
    assert((slash + r2).skip(1) =~= r2);
    lemma_take_until(repo, '/', r3);
    assert(spec_repo_from_github_link(r1) == Some((slash + r3, (owner, repo))));
    let after_repo = slash + r3;
    assert(after_repo.skip(1) =~= r3);
    lemma_eat("blob"@, slash + r4);
    assert((slash + r4).skip(1) =~= r4);
    assert(eat_blob(after_repo) == Some(r4));
    lemma_take_until(checkout, '/', r5);
    assert((slash + r5).skip(1) =~= r5);
    lemma_take_until(path, '#', anchor_tail);
    assert(seq!['#'] + anchor_tail =~= anchor);
    lemma_span_parses_back(span);
}

/// The place that a link in markdown names, and what is left of `i` behind
/// it: `[`, any text, `](`, a GitHub link, any text, and `)`.
pub open spec fn spec_wrapped_link(i: Seq<char>) -> Option<(Seq<char>, GitHubLocationModel)> {
    match eat_char('[', i) {
        None => None,
        Some(i1) => match eat_char(']', drop_run(i1, CharClass::Only(']'), false)) {
            None => None,
            Some(i2) => match eat_char('(', i2) {
                None => None,
                Some(i3) => match spec_todo_location_from_github_link(i3) {
                    None => None,
                    Some((i4, loc)) => match eat_char(
                        ')',
                        drop_run(i4, CharClass::Only(')'), false),
                    ) {
                        None => None,
                        Some(rest) => Some((rest, loc)),
                    },
                },
            },
        },
    }
}

/// The place that a link names, and what is left of `i` behind the link: a
/// GitHub link as it stands, or one in markdown.
pub open spec fn spec_todo_location_from_github_markdown_link(i: Seq<char>) -> Option<
    (Seq<char>, GitHubLocationModel),
> {
    match spec_todo_location_from_github_link(i) {
        Some(found) => Some(found),
        None => spec_wrapped_link(i),
    }
}

/// Runs `spec_todo_location_from_github_markdown_link` on the window
/// `[lo, hi)` of `s`.
pub fn todo_location_from_github_markdown_link_at(s: &[char], lo: usize, hi: usize) -> (r:
    Option<(usize, LinkAt)>)
    requires
        lo <= hi <= s@.len(),
    ensures
        match r {
            Some((p, link)) => lo < p <= hi && link.fits(p as nat)
                && spec_todo_location_from_github_markdown_link(
                s@.subrange(lo as int, hi as int),
            ) == Some((s@.subrange(p as int, hi as int), link.of(s@))),
            None => spec_todo_location_from_github_markdown_link(
                s@.subrange(lo as int, hi as int),
            ) is None,
        },
{
    let plain = todo_location_from_github_link_at(s, lo, hi);
    if plain.is_some() {
        return plain;
    }
    let p1 = match eat_char_at(s, lo, hi, '[') {
        Some(p) => p,
        None => {
            return None;
        },
    };
    let e1 = scan_run(s, p1, hi, CharClass::Only(']'), false);
    let p2 = match eat_char_at(s, e1, hi, ']') {
        Some(p) => p,
        None => {
            return None;
        },
    };
    let p3 = match eat_char_at(s, p2, hi, '(') {
        Some(p) => p,
        None => {
            return None;
        },
    };
    let (p4, link) = match todo_location_from_github_link_at(s, p3, hi) {
        Some(r) => r,
        None => {
            return None;
        },
    };
    let e4 = scan_run(s, p4, hi, CharClass::Only(')'), false);
    match eat_char_at(s, e4, hi, ')') {
        Some(p) => Some((p, link)),
        None => None,
    }
}

/// Eats the link to the place of a todo as the body of an issue gives it: a
/// GitHub link as it stands or in markdown.
pub fn todo_location_from_github_markdown_link(i: &str) -> (r: Result<
    (&str, GitHubTodoLocation),
    ParseError,
>)
    ensures
        match r {
            Ok((rest, loc)) => spec_todo_location_from_github_markdown_link(i@) == Some(
                (rest@, loc@),
            ),
            Err(_) => spec_todo_location_from_github_markdown_link(i@) is None,
        },
{
    let s = str_to_chars(i);
    let n = s.len();
    proof {
        lemma_whole(s@);
    }
    match todo_location_from_github_markdown_link_at(s.as_slice(), 0, n) {
        Some((p, link)) => Ok((i.substring_char(p, n), link.cut(i))),
        None => Err(ParseError),
    }
}

/// One occurrence of a todo in the body of an issue, as a value of
/// specifications: the lines of its description and its place.
pub type OccurrenceModel = (Seq<Seq<char>>, GitHubLocationModel);

/// The first todo in the body of an issue, and what is left of `i` behind
/// it: the lines before the first line that starts with a link are the
/// description, and the link gives the place. `None` where no line starts
/// with a link, and where a line's text ends at a carriage return that no
/// line feed follows before a link is found.
pub open spec fn spec_issue_todo(i: Seq<char>) -> Option<(Seq<char>, OccurrenceModel)>
    decreases i.len(),
{
    match spec_todo_location_from_github_markdown_link(i) {
        Some((rest, loc)) => Some((rest, (Seq::empty(), loc))),
        None => if after_first_line(i).len() < i.len() {
            match spec_issue_todo(after_first_line(i)) {
                Some((rest, (lines, loc))) => Some((rest, (seq![first_line(i)] + lines, loc))),
                None => None,
            }
        } else {
            None
        },
    }
}

/// Runs `spec_issue_todo` on the window `[lo, hi)` of `s`. Returns where the
/// rest of the input starts, the windows of the lines of the description, and
/// the place.
pub fn issue_todo_at(s: &[char], lo: usize, hi: usize) -> (r: Option<(usize, (Vec<Span>, LinkAt))>)
    requires
        lo <= hi <= s@.len(),
    ensures
        match r {
            Some((p, (lines, link))) => lo < p <= hi && link.fits(p as nat) && (forall|k: int|
                0 <= k < lines@.len() ==> (#[trigger] lines@[k]).fits(p as nat))
                && spec_issue_todo(s@.subrange(lo as int, hi as int)) == Some(
                (s@.subrange(p as int, hi as int), (spans_of(lines@, s@), link.of(s@))),
            ),
            None => spec_issue_todo(s@.subrange(lo as int, hi as int)) is None,
        },
{
    let ghost w = s@.subrange(lo as int, hi as int);
    let mut lines: Vec<Span> = Vec::new();
    let mut cur = lo;
    assert(spans_of(lines@, s@) =~= Seq::<Seq<char>>::empty());
    proof {
        match spec_issue_todo(w) {
            Some((rest, (more, loc))) => {
                assert(spans_of(lines@, s@) + more =~= more);
            },
            None => {},
        }
    }
    loop
        invariant
            lo <= cur <= hi <= s@.len(),
            w == s@.subrange(lo as int, hi as int),
            forall|k: int| 0 <= k < lines@.len() ==> (#[trigger] lines@[k]).fits(cur as nat),
            spec_issue_todo(w) == match spec_issue_todo(s@.subrange(cur as int, hi as int)) {
                Some((rest, (more, loc))) => Some((rest, (spans_of(lines@, s@) + more, loc))),
                None => None,
            },
        decreases hi - cur,
    {
        match todo_location_from_github_markdown_link_at(s, cur, hi) {
            Some((p, link)) => {
                assert(spans_of(lines@, s@) + Seq::<Seq<char>>::empty() =~= spans_of(
                    lines@,
                    s@,
                ));
                return Some((p, (lines, link)));
            },
            None => {},
        }
        let (eol, next) = line_at(s, cur, hi);
        if next == cur {
            return None;
        }
        let ghost before = spans_of(lines@, s@);
        let ghost line = s@.subrange(cur as int, eol as int);
        lines.push(Span { start: cur, end: eol });
        proof {
            assert(spans_of(lines@, s@) =~= before.push(line));
            match spec_issue_todo(s@.subrange(next as int, hi as int)) {
                Some((rest, (more, loc))) => {
                    assert(before + (seq![line] + more) =~= before.push(line) + more);
                },
                None => {},
            }
        }
        cur = next;
    }
}

/// Cuts the texts of a list of windows out of the string `i`.
pub fn cut_lines<'a>(lines: &[Span], i: &'a str) -> (r: Vec<&'a str>)
    requires
        forall|k: int| 0 <= k < lines@.len() ==> (#[trigger] lines@[k]).fits(i@.len()),
    ensures
        slices(r@) == spans_of(lines@, i@),
{
    let mut r: Vec<&'a str> = Vec::new();
    let mut k: usize = 0;
    while k < lines.len()
        invariant
            k <= lines@.len(),
            forall|j: int| 0 <= j < lines@.len() ==> (#[trigger] lines@[j]).fits(i@.len()),
            r@.len() == k,
            forall|j: int| 0 <= j < k ==> (#[trigger] r@[j])@ == lines@[j].of(i@),
        decreases lines@.len() - k,
    {
        let w = lines[k];
        r.push(i.substring_char(w.start, w.end));
        k += 1;
    }
    assert(slices(r@) =~= spans_of(lines@, i@));
    r
}

/// Eats a todo from the body of an issue: the lines of its description, and
/// the link to its place. Returns the rest of the input, the lines and the
/// place.
pub fn issue_todo<'a>(i: &'a str) -> (r: Result<
    (&'a str, (Vec<&'a str>, GitHubTodoLocation)),
    ParseError,
>)
    ensures
        match r {
            Ok((rest, (lines, loc))) => spec_issue_todo(i@) == Some(
                (rest@, (slices(lines@), loc@)),
            ),
            Err(_) => spec_issue_todo(i@) is None,
        },
{
    let s = str_to_chars(i);
    let n = s.len();
    proof {
        lemma_whole(s@);
    }
    match issue_todo_at(s.as_slice(), 0, n) {
        Some((p, (lines, link))) => Ok(
            (i.substring_char(p, n), (cut_lines(lines.as_slice(), i), link.cut(i))),
        ),
        None => Err(ParseError),
    }
}

/// All the todos in the body of an issue, in their order: one todo after the
/// other, with any number of line feeds between them and behind the last,
/// and nothing else. `None` where the body holds no todo, and where text
/// stands behind the last link.
pub open spec fn spec_issue_todos(i: Seq<char>) -> Option<Seq<OccurrenceModel>>
    decreases i.len(),
{
    match spec_issue_todo(i) {
        None => None,
        Some((rest, todo)) => {
            let next = drop_run(rest, CharClass::Only('\n'), true);
            if next.len() == 0 {
                Some(seq![todo])
            } else if next.len() < i.len() {
                match spec_issue_todos(next) {
                    Some(more) => Some(seq![todo] + more),
                    None => None,
                }
            } else {
                None
            }
        },
    }
}

/// The order of occurrences: that of their places.
pub open spec fn by_location() -> spec_fn(OccurrenceModel, OccurrenceModel) -> bool {
    |a: OccurrenceModel, b: OccurrenceModel| location_le(a.1, b.1)
}

/// The body of an issue as a list of occurrences, sorted by place, and what
/// is left of `i` behind it, which is nothing.
pub open spec fn spec_issue_body(i: Seq<char>) -> Option<(Seq<char>, Seq<OccurrenceModel>)> {
    match spec_issue_todos(i) {
        Some(found) => Some((Seq::empty(), sort_by(found, by_location()))),
        None => None,
    }
}

/// The occurrences that a list holds, as values of specifications.
pub open spec fn occurrence_models(v: Seq<(Vec<String>, GitHubTodoLocation)>) -> Seq<
    OccurrenceModel,
> {
    v.map_values(|o: (Vec<String>, GitHubTodoLocation)| (texts(o.0@), o.1@))
}

/// Sorts occurrences by place; occurrences of one place keep their order.
pub fn sort_occurrences(v: Vec<(Vec<String>, GitHubTodoLocation)>) -> (r: Vec<
    (Vec<String>, GitHubTodoLocation),
>)
    ensures
        occurrence_models(r@) == sort_by(occurrence_models(v@), by_location()),
{
    let ghost all = occurrence_models(v@);
    let mut sorted: Vec<(Vec<String>, GitHubTodoLocation)> = Vec::new();
    let ghost n = v@.len();
    assert(occurrence_models(sorted@) =~= Seq::<OccurrenceModel>::empty());
    assert(all.take(0) =~= Seq::<OccurrenceModel>::empty());
    for occ in it: v
        invariant
            all == occurrence_models(it.seq()),
            n == it.seq().len(),
            occurrence_models(sorted@) == sort_by(all.take(it.index() as int), by_location()),
    {
        let ghost k = it.index() as int;
        let ghost before = occurrence_models(sorted@);
        let ghost x: OccurrenceModel = (texts(occ.0@), occ.1@);
        assert(all.take(k + 1).drop_last() =~= all.take(k));
        assert(all.take(k + 1).last() == x);
        let mut p: usize = sorted.len();
        assert(before.take(p as int) =~= before);
        while p > 0 && !sorted[p - 1].1.is_le(&occ.1)
            invariant
                p <= sorted@.len(),
                before == occurrence_models(sorted@),
                x == (texts(occ.0@), occ.1@),
                insert_position(before, x, by_location()) == insert_position(
                    before.take(p as int),
                    x,
                    by_location(),
                ),
            decreases p,
        {
            assert(before.take(p as int).drop_last() =~= before.take(p - 1));
            assert(before.take(p as int).last() == before[p - 1]);
            p -= 1;
        }
        proof {
            if p > 0 {
                assert(before.take(p as int).last() == before[p - 1]);
            }
            assert(insert_position(before, x, by_location()) == p);
            lemma_insert_by(before, x, by_location());
        }
        sorted.insert(p, occ);
        assert(occurrence_models(sorted@) =~= before.insert(p as int, x));
    }
    assert(all.take(n as int) =~= all);
    sorted
}

/// Runs `spec_issue_todos` on the window `[lo, hi)` of `s`.
fn issue_todos_at(s: &[char], lo: usize, hi: usize) -> (r: Option<Vec<(Vec<Span>, LinkAt)>>)
    requires
        lo <= hi <= s@.len(),
    ensures
        match r {
            Some(found) => spec_issue_todos(s@.subrange(lo as int, hi as int)) == Some(
                found@.map_values(|o: (Vec<Span>, LinkAt)| (spans_of(o.0@, s@), o.1.of(s@))),
            ) && forall|k: int|
                0 <= k < found@.len() ==> (#[trigger] found@[k]).1.fits(hi as nat) && forall|j: int|
                    0 <= j < found@[k].0@.len() ==> (#[trigger] found@[k].0@[j]).fits(hi as nat),
            None => spec_issue_todos(s@.subrange(lo as int, hi as int)) is None,
        },
{
    let ghost w = s@.subrange(lo as int, hi as int);
    let ghost model = |o: (Vec<Span>, LinkAt)| (spans_of(o.0@, s@), o.1.of(s@));
    let mut found: Vec<(Vec<Span>, LinkAt)> = Vec::new();
    let mut cur = lo;
    proof {
        assert(found@.map_values(model) =~= Seq::<OccurrenceModel>::empty());
        match spec_issue_todos(w) {
            Some(more) => {
                assert(found@.map_values(model) + more =~= more);
            },
            None => {},
        }
    }
    loop
        invariant
            lo <= cur <= hi <= s@.len(),
            w == s@.subrange(lo as int, hi as int),
            model == |o: (Vec<Span>, LinkAt)| (spans_of(o.0@, s@), o.1.of(s@)),
            forall|k: int|
                0 <= k < found@.len() ==> (#[trigger] found@[k]).1.fits(hi as nat) && forall|j: int|
                    0 <= j < found@[k].0@.len() ==> (#[trigger] found@[k].0@[j]).fits(hi as nat),
            spec_issue_todos(w) == match spec_issue_todos(s@.subrange(cur as int, hi as int)) {
                Some(more) => Some(found@.map_values(model) + more),
                None => None,
            },
        decreases hi - cur,
    {
        let (p, todo) = match issue_todo_at(s, cur, hi) {
            Some(r) => r,
            None => {
                return None;
            },
        };
        let next = scan_run(s, p, hi, CharClass::Only('\n'), true);
        let ghost before = found@.map_values(model);
        let ghost x = model(todo);
        found.push(todo);
        proof {
            assert(found@.map_values(model) =~= before.push(x));
            match spec_issue_todos(s@.subrange(next as int, hi as int)) {
                Some(more) => {
                    assert(before + (seq![x] + more) =~= before.push(x) + more);
                },
                None => {},
            }
            assert(before + seq![x] =~= before.push(x));
        }
        if next == hi {
            return Some(found);
        }
        cur = next;
    }
}

/// Parses the whole body of an issue into its todos, sorted by place.
/// Returns the rest of the input, which is empty, and the todos. Fails where
/// the body holds no todo, and where text stands behind the last link.
pub fn issue_body(i: &str) -> (r: Result<(&str, IssueBody<GitHubTodoLocation>), ParseError>)
    ensures
        match r {
            Ok((rest, body)) => spec_issue_body(i@) == Some((rest@, body@)),
            Err(_) => spec_issue_body(i@) is None,
        },
{
    let s = str_to_chars(i);
    let n = s.len();
    proof {
        lemma_whole(s@);
    }
    let found = match issue_todos_at(s.as_slice(), 0, n) {
        Some(found) => found,
        None => {
            return Err(ParseError);
        },
    };
    let ghost model = |o: (Vec<Span>, LinkAt)| (spans_of(o.0@, s@), o.1.of(s@));
    let mut occs: Vec<(Vec<String>, GitHubTodoLocation)> = Vec::new();
    let mut k: usize = 0;
    while k < found.len()
        invariant
            k <= found@.len(),
            s@ == i@,
            n == s@.len(),
            forall|k: int|
                0 <= k < found@.len() ==> (#[trigger] found@[k]).1.fits(n as nat) && forall|j: int|
                    0 <= j < found@[k].0@.len() ==> (#[trigger] found@[k].0@[j]).fits(n as nat),
            occs@.len() == k,
            forall|j: int|
                0 <= j < k ==> texts((#[trigger] occs@[j]).0@) == spans_of(found@[j].0@, s@)
                    && occs@[j].1@ == found@[j].1.of(s@),
        decreases found@.len() - k,
    {
        let lines = cut_lines(found[k].0.as_slice(), i);
        let lines = super::to_strings(lines.as_slice());
        let loc = found[k].1.cut(i);
        occs.push((lines, loc));
        k += 1;
    }
    assert(occurrence_models(occs@) =~= found@.map_values(model));
    let sorted = sort_occurrences(occs);
    let body = IssueBody { descs_and_srcs: sorted };
    assert(body@ =~= occurrence_models(sorted@));
    let rest = i.substring_char(n, n);
    assert(rest@ =~= Seq::<char>::empty());
    Ok((rest, body))
}

/// The todos of an issue's body stand in the order of their places, and are
/// those that the body holds, each as often as it holds it.
pub proof fn lemma_issue_body_is_sorted(found: Seq<OccurrenceModel>)
    ensures
        sorted_by(sort_by(found, by_location()), by_location()),
        sort_by(found, by_location()).to_multiset() == found.to_multiset(),
        sort_by(found, by_location()).len() == found.len(),
{
    let le = by_location();
    assert forall|a: OccurrenceModel, b: OccurrenceModel| #[trigger] le(a, b) || le(b, a) by {
        lemma_location_le_total(a.1, b.1);
    }
    assert forall|a: OccurrenceModel, b: OccurrenceModel, c: OccurrenceModel|
        #[trigger] le(a, b) && #[trigger] le(b, c) implies le(a, c) by {
        lemma_location_le_transitive(a.1, b.1, c.1);
    }
    lemma_sort_by(found, le);
}





/// A line of the history of a todo: a branch, and whether the todo was found
/// on it or has gone from it.
#[derive(Clone, Debug, PartialEq)]
pub struct TodoStory<'a> {
    pub branch: &'a str,
    pub is_closed: bool,
}

/// A line of the history of a todo, as a value of specifications: the
/// branch, and whether the todo has gone from it.
pub type StoryModel = (Seq<char>, bool);

impl<'a> View for TodoStory<'a> {
    type V = StoryModel;

    open spec fn view(&self) -> StoryModel {
        (self.branch@, self.is_closed)
    }
}

impl<'a> TodoStory<'a> {
    /// Whether the story leaves the todo standing on the branch.
    pub fn is_open(&self) -> (r: bool)
        ensures
            r == !self.is_closed,
    {
        !self.is_closed
    }
}

/// What the words of a story leave of `i`, and whether they close the todo:
/// ` Opened on ` and ` Found on ` leave it open, ` Closed on ` closes it,
/// and so does a story without any of these words.
pub open spec fn spec_story_words(i: Seq<char>) -> (Seq<char>, bool) {
    match eat(" Opened on "@, i) {
        Some(rest) => (rest, false),
        None => match eat(" Found on "@, i) {
            Some(rest) => (rest, false),
            None => match eat(" Closed on "@, i) {
                Some(rest) => (rest, true),
                None => (i, true),
            },
        },
    }
}

/// The story that `i` starts with, and what is left of `i` behind it: an
/// asterisk, the words of the story, and the branch up to the end of the
/// line.
pub open spec fn spec_todo_story(i: Seq<char>) -> Option<(Seq<char>, StoryModel)> {
    match eat_char('*', i) {
        None => None,
        Some(i1) => {
            let (i2, is_closed) = spec_story_words(i1);
            Some((after_first_line(i2), (first_line(i2), is_closed)))
        },
    }
}

/// Runs `spec_todo_story` on the window `[lo, hi)` of `s`. Returns where the
/// rest of the input starts, the window of the branch, and whether the story
/// closes the todo.
pub fn todo_story_at(s: &[char], lo: usize, hi: usize) -> (r: Option<(usize, (Span, bool))>)
    requires
        lo <= hi <= s@.len(),
    ensures
        match r {
            Some((p, (branch, is_closed))) => lo < p <= hi && branch.fits(p as nat)
                && spec_todo_story(s@.subrange(lo as int, hi as int)) == Some(
                (s@.subrange(p as int, hi as int), (branch.of(s@), is_closed)),
            ),
            None => spec_todo_story(s@.subrange(lo as int, hi as int)) is None,
        },
{
    let p1 = match eat_char_at(s, lo, hi, '*') {
        Some(p) => p,
        None => {
            return None;
        },
    };
    let (p2, is_closed) = match eat_at(s, p1, hi, " Opened on ") {
        Some(p) => (p, false),
        None => match eat_at(s, p1, hi, " Found on ") {
            Some(p) => (p, false),
            None => match eat_at(s, p1, hi, " Closed on ") {
                Some(p) => (p, true),
                None => (p1, true),
            },
        },
    };
    let (eol, next) = line_at(s, p2, hi);
    Some((next, (Span { start: p2, end: eol }, is_closed)))
}

/// Eats one line of the history of a todo, and returns the rest of the input
/// and the story.
pub fn todo_story<'a>(i: &'a str) -> (r: Result<(&'a str, TodoStory<'a>), ParseError>)
    ensures
        match r {
            Ok((rest, story)) => spec_todo_story(i@) == Some((rest@, story@)),
            Err(_) => spec_todo_story(i@) is None,
        },
{
    let s = str_to_chars(i);
    let n = s.len();
    proof {
        lemma_whole(s@);
    }
    match todo_story_at(s.as_slice(), 0, n) {
        Some((p, (branch, is_closed))) => Ok(
            (
                i.substring_char(p, n),
                TodoStory { branch: i.substring_char(branch.start, branch.end), is_closed },
            ),
        ),
        None => Err(ParseError),
    }
}

/// The stories that `i` starts with, one after the other, and what is left
/// of `i` behind them.
pub open spec fn spec_stories(i: Seq<char>) -> (Seq<char>, Seq<StoryModel>)
    decreases i.len(),
{
    match spec_todo_story(i) {
        None => (i, Seq::empty()),
        Some((rest, story)) => if rest.len() < i.len() {
            let (r, more) = spec_stories(rest);
            (r, seq![story] + more)
        } else {
            (i, Seq::empty())
        },
    }
}

/// The history of a todo that `i` starts with, and what is left of `i`
/// behind it. `None` where `i` starts with no story.
pub open spec fn spec_todo_stories(i: Seq<char>) -> Option<(Seq<char>, Seq<StoryModel>)> {
    let (rest, stories) = spec_stories(i);
    if stories.len() > 0 {
        Some((rest, stories))
    } else {
        None
    }
}

/// The stories that a list holds, as values of specifications.
pub open spec fn story_models(v: Seq<TodoStory<'_>>) -> Seq<StoryModel> {
    v.map_values(|t: TodoStory<'_>| t@)
}

/// Eats the history of a todo: one story or more, each on a line of its own.
pub fn todo_stories<'a>(i: &'a str) -> (r: Result<(&'a str, Vec<TodoStory<'a>>), ParseError>)
    ensures
        match r {
            Ok((rest, stories)) => spec_todo_stories(i@) == Some((rest@, story_models(stories@))),
            Err(_) => spec_todo_stories(i@) is None,
        },
{
    let s = str_to_chars(i);
    let n = s.len();
    proof {
        lemma_whole(s@);
    }
    let mut stories: Vec<TodoStory<'a>> = Vec::new();
    let mut cur: usize = 0;
    assert(story_models(stories@) =~= Seq::<StoryModel>::empty());
    assert(story_models(stories@) + spec_stories(i@).1 =~= spec_stories(i@).1);
    loop
        invariant
            cur <= n == s@.len(),
            s@ == i@,
            spec_stories(i@) == (
                spec_stories(s@.subrange(cur as int, n as int)).0,
                story_models(stories@) + spec_stories(s@.subrange(cur as int, n as int)).1,
            ),
        ensures
            spec_stories(i@) == (s@.subrange(cur as int, n as int), story_models(stories@)),
        decreases n - cur,
    {
        match todo_story_at(s.as_slice(), cur, n) {
            None => {
                assert(story_models(stories@) + Seq::<StoryModel>::empty() =~= story_models(
                    stories@,
                ));
                break ;
            },
            Some((next, (branch, is_closed))) => {
                let ghost before = story_models(stories@);
                let ghost more = spec_stories(s@.subrange(next as int, n as int)).1;
                let story = TodoStory {
                    branch: i.substring_char(branch.start, branch.end),
                    is_closed,
                };
                stories.push(story);
                assert(story_models(stories@) =~= before.push(story@));
                assert(before + (seq![story@] + more) =~= before.push(story@) + more);
                cur = next;
            },
        }
    }
    if stories.len() == 0 {
        Err(ParseError)
    } else {
        Ok((i.substring_char(cur, n), stories))
    }
}

/// The ascending list `sorted` with the text `t` in its place, unless the
/// list holds it already.
pub open spec fn insert_text(sorted: Seq<Seq<char>>, t: Seq<char>) -> Seq<Seq<char>>
    decreases sorted.len(),
{
    if sorted.len() == 0 {
        sorted.push(t)
    } else if sorted.last() == t {
        sorted
    } else if text_le(sorted.last(), t) {
        sorted.push(t)
    } else {
        insert_text(sorted.drop_last(), t).push(sorted.last())
    }
}

/// The list `list` without the text `t`.
pub open spec fn without_text(list: Seq<Seq<char>>, t: Seq<char>) -> Seq<Seq<char>>
    decreases list.len(),
{
    if list.len() == 0 {
        list
    } else if list.last() == t {
        without_text(list.drop_last(), t)
    } else {
        without_text(list.drop_last(), t).push(list.last())
    }
}

/// The branches on which a todo still stands after the stories `stories`,
/// in the order of their names and each once: the last story of a branch
/// decides.
pub open spec fn open_branches(stories: Seq<StoryModel>) -> Seq<Seq<char>>
    decreases stories.len(),
{
    if stories.len() == 0 {
        Seq::empty()
    } else if stories.last().1 {
        without_text(open_branches(stories.drop_last()), stories.last().0)
    } else {
        insert_text(open_branches(stories.drop_last()), stories.last().0)
    }
}

/// Where `t` goes into an ascending list: behind the texts up to `p`, of
/// which the last is no larger, and before the rest, which are larger.
proof fn lemma_insert_text(sorted: Seq<Seq<char>>, t: Seq<char>, p: int)
    requires
        0 <= p <= sorted.len(),
        forall|j: int| p <= j < sorted.len() ==> !text_le(sorted[j], t),
        p == 0 || text_le(sorted[p - 1], t),
    ensures
        insert_text(sorted, t) == if p > 0 && sorted[p - 1] == t {
            sorted
        } else {
            sorted.insert(p, t)
        },
    decreases sorted.len() - p,
{
    lemma_text_le_reflexive(t);
    if p == sorted.len() {
        if !(p > 0 && sorted[p - 1] == t) {
            assert(sorted.push(t) =~= sorted.insert(p, t));
        }
    } else {
        let front = sorted.drop_last();
        lemma_insert_text(front, t, p);
        if p > 0 && sorted[p - 1] == t {
            assert(front.push(sorted.last()) =~= sorted);
        } else {
            assert(front.insert(p, t).push(sorted.last()) =~= sorted.insert(p, t));
        }
    }
}

/// Collapses the history of a todo into the branches on which it still
/// stands, sorted by name.
pub fn branches_todo_is_found_on<'a>(stories: Vec<TodoStory<'a>>) -> (r: Vec<&'a str>)
    ensures
        slices(r@) == open_branches(story_models(stories@)),
{
    let ghost all = story_models(stories@);
    let mut branches: Vec<&'a str> = Vec::new();
    let mut k: usize = 0;
    assert(slices(branches@) =~= Seq::<Seq<char>>::empty());
    assert(all.take(0) =~= Seq::<StoryModel>::empty());
    while k < stories.len()
        invariant
            k <= stories@.len(),
            all == story_models(stories@),
            slices(branches@) == open_branches(all.take(k as int)),
        decreases stories@.len() - k,
    {
        let branch = stories[k].branch;
        let ghost before = slices(branches@);
        assert(all.take(k + 1).drop_last() =~= all.take(k as int));
        assert(all.take(k + 1).last() == stories@[k as int]@);
        if stories[k].is_closed {
            let mut kept: Vec<&'a str> = Vec::new();
            let mut j: usize = 0;
            assert(slices(kept@) =~= without_text(before.take(0), branch@));
            while j < branches.len()
                invariant
                    j <= branches@.len(),
                    before == slices(branches@),
                    slices(kept@) == without_text(before.take(j as int), branch@),
                decreases branches@.len() - j,
            {
                let ghost kept_before = slices(kept@);
                assert(before.take(j + 1).drop_last() =~= before.take(j as int));
                assert(before.take(j + 1).last() == branches@[j as int]@);
                if !str_eq(branches[j], branch) {
                    kept.push(branches[j]);
                    assert(slices(kept@) =~= kept_before.push(branches@[j as int]@));
                }
                j += 1;
            }
            assert(before.take(j as int) =~= before);
            branches = kept;
        } else {
            let mut p: usize = branches.len();
            while p > 0 && !str_le(branches[p - 1], branch)
                invariant
                    p <= branches@.len(),
                    before == slices(branches@),
                    forall|j: int| p <= j < before.len() ==> !text_le(before[j], branch@),
                decreases p,
            {
                p -= 1;
            }
            proof {
                lemma_insert_text(before, branch@, p as int);
            }
            if !(p > 0 && str_eq(branches[p - 1], branch)) {
                branches.insert(p, branch);
                assert(slices(branches@) =~= before.insert(p as int, branch@));
            }
        }
        k += 1;
    }
    assert(all.take(k as int) =~= all);
    branches
}

} // verus!
