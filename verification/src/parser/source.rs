//! Parsing todos in source code.
//!
//! Every parser here comes in three parts: a spec function that says, on a
//! text, what the parser recognises and what is left of the input; a function
//! that runs the parser on a window of a character buffer; and a function of
//! the same name as the parser, which runs it on a string.

use vstd::prelude::*;
use vstd::string::*;

use crate::parser::{ParseError, after_first_line, first_line, line_at};
use crate::parser::langs::{CommentStyle, StyleModel, SupportedLanguage};
use crate::text::{
    CharClass, Span, buffers, drop_run, drop_run_back, find_at, find_first, is_trimmed,
    lemma_strip_prefixes_len, lemma_strip_suffixes_len, lemma_trim_is_trimmed,
    lemma_trim_of_trimmed, lemma_whole, lowercase_of, run_len, scan_run, scan_run_back, slices,
    spans_of, starts_with_at, str_to_chars, strip_prefixes, strip_prefixes_at, strip_suffixes,
    strip_suffixes_at, strs_to_chars, take_run, texts, to_lowercase, trim, trim_at,
};
use crate::text::keyed::{
    distinct, find_key, keys_of, lemma_distinct_push, lemma_position_is_first, position,
};

verus! {

/// `i` without the blanks (spaces and tabs) it starts with.
pub open spec fn skip_blanks(i: Seq<char>) -> Seq<char> {
    drop_run(i, CharClass::Blank, true)
}

/// `i` without the first of `borders` that it starts with; `i` itself where it
/// starts with none of them.
pub open spec fn eat_border(borders: Seq<Seq<char>>, i: Seq<char>) -> Seq<char>
    decreases borders.len(),
{
    if borders.len() == 0 {
        i
    } else if borders[0].is_prefix_of(i) {
        i.skip(borders[0].len() as int)
    } else {
        eat_border(borders.skip(1), i)
    }
}

/// What a comment start leaves of `i`: blanks, the prefix, blanks, at most one
/// border and blanks again are eaten. `None` where the prefix is missing.
pub open spec fn spec_comment_start(
    borders: Seq<Seq<char>>,
    prefix: Seq<char>,
    i: Seq<char>,
) -> Option<Seq<char>> {
    let i1 = skip_blanks(i);
    if prefix.is_prefix_of(i1) {
        Some(skip_blanks(eat_border(borders, skip_blanks(i1.skip(prefix.len() as int)))))
    } else {
        None
    }
}

/// Runs `eat_border` on the window `[lo, hi)` of `s`.
pub fn eat_border_at(s: &[char], lo: usize, hi: usize, borders: &[Vec<char>]) -> (p: usize)
    requires
        lo <= hi <= s@.len(),
    ensures
        lo <= p <= hi,
        s@.subrange(p as int, hi as int) == eat_border(
            buffers(borders@),
            s@.subrange(lo as int, hi as int),
        ),
{
    let ghost w = s@.subrange(lo as int, hi as int);
    let ghost bs = buffers(borders@);
    let mut k: usize = 0;
    assert(bs.skip(0) =~= bs);
    while k < borders.len()
        invariant
            lo <= hi <= s@.len(),
            k <= borders@.len(),
            w == s@.subrange(lo as int, hi as int),
            bs == buffers(borders@),
            eat_border(bs, w) == eat_border(bs.skip(k as int), w),
        decreases borders@.len() - k,
    {
        let ghost rest = bs.skip(k as int);
        assert(rest[0] == borders@[k as int]@);
        assert(rest.skip(1) =~= bs.skip(k + 1));
        if starts_with_at(s, lo, hi, borders[k].as_slice()) {
            let n = borders[k].len();
            assert(w.skip(n as int) =~= s@.subrange(lo + n, hi as int));
            return lo + n;
        }
        k += 1;
    }
    lo
}

/// Runs `spec_comment_start` on the window `[lo, hi)` of `s`. Returns where
/// the rest of the input starts.
pub fn comment_start_at(
    s: &[char],
    lo: usize,
    hi: usize,
    borders: &[Vec<char>],
    prefix: &[char],
) -> (r: Option<usize>)
    requires
        lo <= hi <= s@.len(),
    ensures
        match r {
            Some(p) => lo <= p <= hi && lo + prefix@.len() <= p && spec_comment_start(
                buffers(borders@),
                prefix@,
                s@.subrange(lo as int, hi as int),
            ) == Some(s@.subrange(p as int, hi as int)),
            None => spec_comment_start(
                buffers(borders@),
                prefix@,
                s@.subrange(lo as int, hi as int),
            ) is None,
        },
{
    let p1 = scan_run(s, lo, hi, CharClass::Blank, true);
    if !starts_with_at(s, p1, hi, prefix) {
        return None;
    }
    let p2 = p1 + prefix.len();
    assert(s@.subrange(p1 as int, hi as int).skip(prefix@.len() as int) =~= s@.subrange(
        p2 as int,
        hi as int,
    ));
    let p3 = scan_run(s, p2, hi, CharClass::Blank, true);
    let p4 = eat_border_at(s, p3, hi, borders);
    let p5 = scan_run(s, p4, hi, CharClass::Blank, true);
    Some(p5)
}

/// Eats a single or multi line comment start: optional blanks, the prefix,
/// optional blanks, at most one of the borders, and optional blanks. Fails
/// where the prefix is missing.
pub fn comment_start<'a>(borders: &[String], prefix: &str, i: &'a str) -> (r: Result<
    (&'a str, ()),
    ParseError,
>)
    ensures
        match r {
            Ok((rest, _)) => spec_comment_start(texts(borders@), prefix@, i@) == Some(rest@),
            Err(_) => spec_comment_start(texts(borders@), prefix@, i@) is None,
        },
{
    let s = str_to_chars(i);
    let bs = strs_to_chars(borders);
    let pf = str_to_chars(prefix);
    let n = s.len();
    proof {
        lemma_whole(s@);
    }
    match comment_start_at(s.as_slice(), 0, n, bs.as_slice(), pf.as_slice()) {
        Some(p) => Ok((i.substring_char(p, n), ())),
        None => Err(ParseError),
    }
}

/// What an assignee leaves of `i`, and the name: an opening parenthesis,
/// blanks, a name without spaces, line breaks and closing parentheses, and a
/// closing parenthesis.
pub open spec fn spec_assignee(i: Seq<char>) -> Option<(Seq<char>, Seq<char>)> {
    if i.len() > 0 && i[0] == '(' {
        let i1 = skip_blanks(i.skip(1));
        let name = take_run(i1, CharClass::NameEnd, false);
        let i2 = drop_run(i1, CharClass::NameEnd, false);
        if i2.len() > 0 && i2[0] == ')' {
            Some((i2.skip(1), name))
        } else {
            None
        }
    } else {
        None
    }
}

/// Runs `spec_assignee` on the window `[lo, hi)` of `s`. Returns where the
/// rest of the input starts, and the window of the name.
pub fn assignee_at(s: &[char], lo: usize, hi: usize) -> (r: Option<(usize, Span)>)
    requires
        lo <= hi <= s@.len(),
    ensures
        match r {
            Some((p, name)) => lo + 2 <= p <= hi && lo <= name.start <= name.end <= p
                && spec_assignee(s@.subrange(lo as int, hi as int)) == Some(
                (s@.subrange(p as int, hi as int), name.of(s@)),
            ),
            None => spec_assignee(s@.subrange(lo as int, hi as int)) is None,
        },
{
    let ghost w = s@.subrange(lo as int, hi as int);
    if lo < hi && s[lo] == '(' {
        assert(w.skip(1) =~= s@.subrange(lo + 1, hi as int));
        let p1 = scan_run(s, lo + 1, hi, CharClass::Blank, true);
        let p2 = scan_run(s, p1, hi, CharClass::NameEnd, false);
        if p2 < hi && s[p2] == ')' {
            assert(s@.subrange(p2 as int, hi as int).skip(1) =~= s@.subrange(p2 + 1, hi as int));
            Some((p2 + 1, Span { start: p1, end: p2 }))
        } else {
            None
        }
    } else {
        None
    }
}

/// Eats an assigned name in parentheses, and returns the rest of the input and
/// the name.
pub fn assignee(i: &str) -> (r: Result<(&str, &str), ParseError>)
    ensures
        match r {
            Ok((rest, name)) => spec_assignee(i@) == Some((rest@, name@)),
            Err(_) => spec_assignee(i@) is None,
        },
{
    let s = str_to_chars(i);
    let n = s.len();
    proof {
        lemma_whole(s@);
    }
    match assignee_at(s.as_slice(), 0, n) {
        Some((p, name)) => Ok((i.substring_char(p, n), i.substring_char(name.start, name.end))),
        None => Err(ParseError),
    }
}

/// The start of a todo, as a parser hands it out.
#[derive(Copy, Clone, Debug, PartialEq)]
pub enum TodoTag<'a> {
    /// One of the plain tags, with the name of the assignee that followed it.
    Standard(&'a str),
    /// The macro call `todo!`, whose argument holds the title.
    RustMacro,
}

/// The start of a todo, as a value of specifications.
pub enum TagModel {
    Standard(Seq<char>),
    RustMacro,
}

impl<'a> View for TodoTag<'a> {
    type V = TagModel;

    open spec fn view(&self) -> TagModel {
        match self {
            TodoTag::Standard(name) => TagModel::Standard(name@),
            TodoTag::RustMacro => TagModel::RustMacro,
        }
    }
}

/// The start of a todo, as windows into a buffer.
#[derive(Copy, Clone, Debug)]
pub enum TagAt {
    Standard(Span),
    RustMacro,
}

impl TagAt {
    /// The tag that the windows stand for in the text `s`.
    pub open spec fn of(self, s: Seq<char>) -> TagModel {
        match self {
            TagAt::Standard(name) => TagModel::Standard(name.of(s)),
            TagAt::RustMacro => TagModel::RustMacro,
        }
    }
}

/// The patterns that mark a todo, for the line search.
pub const TAG_PATTERNS: [&'static str; 4] = ["TODO", "FIXME", "@todo", "todo!"];

/// The plain tag `TODO`.
pub open spec fn tag_todo() -> Seq<char> {
    seq!['T', 'O', 'D', 'O']
}

/// The plain tag `FIXME`.
pub open spec fn tag_fixme() -> Seq<char> {
    seq!['F', 'I', 'X', 'M', 'E']
}

/// The plain tag `@todo`.
pub open spec fn tag_at_todo() -> Seq<char> {
    seq!['@', 't', 'o', 'd', 'o']
}

/// The macro call `todo!`.
pub open spec fn tag_rust_macro() -> Seq<char> {
    seq!['t', 'o', 'd', 'o', '!']
}

/// The length of the plain tag that `i` starts with: the first that matches
/// of `TODO`, `FIXME` and `@todo`.
pub open spec fn plain_tag_len(i: Seq<char>) -> Option<nat> {
    if tag_todo().is_prefix_of(i) {
        Some(4)
    } else if tag_fixme().is_prefix_of(i) {
        Some(5)
    } else if tag_at_todo().is_prefix_of(i) {
        Some(5)
    } else {
        None
    }
}

/// `i` without the colon it starts with, if it starts with one.
pub open spec fn eat_colon(i: Seq<char>) -> Seq<char> {
    if i.len() > 0 && i[0] == ':' {
        i.skip(1)
    } else {
        i
    }
}

/// What follows a plain tag: blanks, an assignee in parentheses or none,
/// blanks, a colon or none, and blanks. An assignee with an empty name counts
/// as none.
pub open spec fn spec_tag_tail(i: Seq<char>) -> (Seq<char>, Option<TagModel>) {
    let i1 = skip_blanks(i);
    let (i2, tag) = match spec_assignee(i1) {
        Some((rest, name)) => (
            rest,
            if name.len() > 0 {
                Some(TagModel::Standard(name))
            } else {
                None
            },
        ),
        None => (i1, None),
    };
    (skip_blanks(eat_colon(skip_blanks(i2))), tag)
}

/// What a todo tag leaves of `i`, and the tag. After blanks stands one of
/// `TODO`, `FIXME`, `@todo` and `todo!`. Behind `todo!` nothing more is
/// eaten; behind the others stands what `spec_tag_tail` describes.
pub open spec fn spec_todo_tag(i: Seq<char>) -> Option<(Seq<char>, Option<TagModel>)> {
    let i1 = skip_blanks(i);
    match plain_tag_len(i1) {
        Some(n) => Some(spec_tag_tail(i1.skip(n as int))),
        None => if tag_rust_macro().is_prefix_of(i1) {
            Some((i1.skip(5), Some(TagModel::RustMacro)))
        } else {
            None
        },
    }
}

/// Runs `plain_tag_len` on the window `[lo, hi)` of `s`.
fn plain_tag_at(s: &[char], lo: usize, hi: usize) -> (r: Option<usize>)
    requires
        lo <= hi <= s@.len(),
    ensures
        match r {
            Some(p) => lo + 4 <= p <= hi && plain_tag_len(s@.subrange(lo as int, hi as int))
                == Some((p - lo) as nat),
            None => plain_tag_len(s@.subrange(lo as int, hi as int)) is None,
        },
{
    let todo = ['T', 'O', 'D', 'O'];
    let fixme = ['F', 'I', 'X', 'M', 'E'];
    let at_todo = ['@', 't', 'o', 'd', 'o'];
    assert(todo@ =~= tag_todo());
    assert(fixme@ =~= tag_fixme());
    assert(at_todo@ =~= tag_at_todo());
    if starts_with_at(s, lo, hi, todo.as_slice()) {
        Some(lo + 4)
    } else if starts_with_at(s, lo, hi, fixme.as_slice()) {
        Some(lo + 5)
    } else if starts_with_at(s, lo, hi, at_todo.as_slice()) {
        Some(lo + 5)
    } else {
        None
    }
}

/// Runs `spec_tag_tail` on the window `[lo, hi)` of `s`.
fn tag_tail_at(s: &[char], lo: usize, hi: usize) -> (r: (usize, Option<TagAt>))
    requires
        lo <= hi <= s@.len(),
    ensures
        lo <= r.0 <= hi,
        r.1 matches Some(TagAt::Standard(name)) ==> lo <= name.start <= name.end <= r.0,
        !(r.1 matches Some(TagAt::RustMacro)),
        spec_tag_tail(s@.subrange(lo as int, hi as int)) == (
            s@.subrange(r.0 as int, hi as int),
            match r.1 {
                Some(t) => Some(t.of(s@)),
                None => None,
            },
        ),
{
    let p1 = scan_run(s, lo, hi, CharClass::Blank, true);
    let (p2, tag) = match assignee_at(s, p1, hi) {
        Some((p, name)) => (
            p,
            if name.end > name.start {
                Some(TagAt::Standard(name))
            } else {
                None
            },
        ),
        None => (p1, None),
    };
    let p3 = scan_run(s, p2, hi, CharClass::Blank, true);
    let p4 = if p3 < hi && s[p3] == ':' {
        assert(s@.subrange(p3 as int, hi as int).skip(1) =~= s@.subrange(p3 + 1, hi as int));
        p3 + 1
    } else {
        p3
    };
    let p5 = scan_run(s, p4, hi, CharClass::Blank, true);
    (p5, tag)
}

/// Runs `spec_todo_tag` on the window `[lo, hi)` of `s`. Returns where the
/// rest of the input starts, and the tag.
pub fn todo_tag_at(s: &[char], lo: usize, hi: usize) -> (r: Option<(usize, Option<TagAt>)>)
    requires
        lo <= hi <= s@.len(),
    ensures
        match r {
            Some((p, tag)) => lo + 4 <= p <= hi && (tag matches Some(TagAt::Standard(name))
                ==> lo <= name.start <= name.end <= p) && spec_todo_tag(
                s@.subrange(lo as int, hi as int),
            ) == Some(
                (
                    s@.subrange(p as int, hi as int),
                    match tag {
                        Some(t) => Some(t.of(s@)),
                        None => None,
                    },
                ),
            ),
            None => spec_todo_tag(s@.subrange(lo as int, hi as int)) is None,
        },
{
    let p1 = scan_run(s, lo, hi, CharClass::Blank, true);
    match plain_tag_at(s, p1, hi) {
        Some(p2) => {
            assert(s@.subrange(p1 as int, hi as int).skip(p2 - p1) =~= s@.subrange(
                p2 as int,
                hi as int,
            ));
            let (p3, tag) = tag_tail_at(s, p2, hi);
            Some((p3, tag))
        },
        None => {
            let rust_macro = ['t', 'o', 'd', 'o', '!'];
            assert(rust_macro@ =~= tag_rust_macro());
            if starts_with_at(s, p1, hi, rust_macro.as_slice()) {
                assert(s@.subrange(p1 as int, hi as int).skip(5) =~= s@.subrange(
                    p1 + 5,
                    hi as int,
                ));
                Some((p1 + 5, Some(TagAt::RustMacro)))
            } else {
                None
            }
        },
    }
}

/// Eats a todo tag: `TODO`, `FIXME`, `@todo` or `todo!`. Behind one of the
/// first three it also eats an assigned name in parentheses, which it
/// returns unless the name is empty, and a colon. Behind `todo!` it eats
/// nothing more: the argument of the macro call holds the title.
pub fn todo_tag<'a>(i: &'a str) -> (r: Result<(&'a str, Option<TodoTag<'a>>), ParseError>)
    ensures
        match r {
            Ok((rest, tag)) => spec_todo_tag(i@) == Some(
                (
                    rest@,
                    match tag {
                        Some(t) => Some(t@),
                        None => None,
                    },
                ),
            ),
            Err(_) => spec_todo_tag(i@) is None,
        },
{
    let s = str_to_chars(i);
    let n = s.len();
    proof {
        lemma_whole(s@);
    }
    match todo_tag_at(s.as_slice(), 0, n) {
        Some((p, tag)) => {
            let tag = match tag {
                Some(TagAt::Standard(name)) => Some(
                    TodoTag::Standard(i.substring_char(name.start, name.end)),
                ),
                Some(TagAt::RustMacro) => Some(TodoTag::RustMacro),
                None => None,
            };
            Ok((i.substring_char(p, n), tag))
        },
        None => Err(ParseError),
    }
}

/// The length of the first sentence of `i`. A sentence ends behind the first
/// terminator (`.`, `?` or `!`) that a space follows, or else at the end of
/// the input: a terminator that anything but a space follows may be an
/// operator of a programming language, and does not end the sentence.
pub open spec fn sentence_len(i: Seq<char>) -> nat
    decreases i.len(),
{
    if i.len() == 0 {
        0
    } else if CharClass::Terminator.has(i[0]) && i.len() >= 2 && i[1] == ' ' {
        1
    } else {
        1 + sentence_len(i.skip(1))
    }
}

/// The first sentence of `i`, and what is left of `i` behind it, without
/// leading whitespace: the rest first, then the sentence.
pub open spec fn spec_sentence_and_terminator(i: Seq<char>) -> (Seq<char>, Seq<char>) {
    let n = sentence_len(i) as int;
    (drop_run(i.skip(n), CharClass::Whitespace, true), i.take(n))
}

/// Finds where the first sentence of the window `[lo, hi)` of `s` ends.
pub fn sentence_end_at(s: &[char], lo: usize, hi: usize) -> (e: usize)
    requires
        lo <= hi <= s@.len(),
    ensures
        lo <= e <= hi,
        e - lo == sentence_len(s@.subrange(lo as int, hi as int)),
{
    let ghost w = s@.subrange(lo as int, hi as int);
    let mut i: usize = lo;
    while i < hi
        invariant
            lo <= i <= hi <= s@.len(),
            w == s@.subrange(lo as int, hi as int),
            sentence_len(w) == (i - lo) + sentence_len(s@.subrange(i as int, hi as int)),
        decreases hi - i,
    {
        let ghost v = s@.subrange(i as int, hi as int);
        assert(v.skip(1) =~= s@.subrange(i + 1, hi as int));
        if CharClass::Terminator.contains(s[i]) && hi - i >= 2 && s[i + 1] == ' ' {
            return i + 1;
        }
        i += 1;
    }
    i
}

/// Runs `spec_sentence_and_terminator` on the window `[lo, hi)` of `s`.
/// Returns where the sentence ends and where the rest starts.
pub fn sentence_and_terminator_at(s: &[char], lo: usize, hi: usize) -> (r: (usize, usize))
    requires
        lo <= hi <= s@.len(),
    ensures
        lo <= r.0 <= r.1 <= hi,
        spec_sentence_and_terminator(s@.subrange(lo as int, hi as int)) == (
            s@.subrange(r.1 as int, hi as int),
            s@.subrange(lo as int, r.0 as int),
        ),
{
    let ghost w = s@.subrange(lo as int, hi as int);
    let e = sentence_end_at(s, lo, hi);
    assert(w.skip(e - lo) =~= s@.subrange(e as int, hi as int));
    assert(w.take(e - lo) =~= s@.subrange(lo as int, e as int));
    let p = scan_run(s, e, hi, CharClass::Whitespace, true);
    (e, p)
}

/// Eats a sentence with its terminators, and the whitespace behind it.
/// Returns the rest of the input and the sentence. A terminator ends the
/// sentence only where a space follows it.
pub fn sentence_and_terminator(i: &str) -> (r: Result<(&str, &str), ParseError>)
    ensures
        r matches Ok((rest, sentence)) && spec_sentence_and_terminator(i@) == (rest@, sentence@),
{
    let s = str_to_chars(i);
    let n = s.len();
    proof {
        lemma_whole(s@);
    }
    let (e, p) = sentence_and_terminator_at(s.as_slice(), 0, n);
    Ok((i.substring_char(p, n), i.substring_char(0, e)))
}

/// `i` after each border in turn has been stripped from its start, however
/// often it stands there, and the whitespace around the result trimmed.
pub open spec fn strip_border_starts(borders: Seq<Seq<char>>, i: Seq<char>) -> Seq<char>
    decreases borders.len(),
{
    if borders.len() == 0 {
        i
    } else {
        strip_border_starts(borders.skip(1), trim(strip_prefixes(i, borders[0])))
    }
}

/// `i` after each border in turn has been stripped from its end, however
/// often it stands there, and the whitespace around the result trimmed.
pub open spec fn strip_border_ends(borders: Seq<Seq<char>>, i: Seq<char>) -> Seq<char>
    decreases borders.len(),
{
    if borders.len() == 0 {
        i
    } else {
        strip_border_ends(borders.skip(1), trim(strip_suffixes(i, borders[0])))
    }
}

/// `i` without the whitespace around it and without borders at its start and
/// its end: first every border is stripped from the start, then every border
/// from the end. Borders inside the text stay.
pub open spec fn spec_trim_borders(borders: Seq<Seq<char>>, i: Seq<char>) -> Seq<char> {
    strip_border_ends(borders, strip_border_starts(borders, trim(i)))
}

/// Narrows the window `[lo, hi)` of `s` to what `spec_trim_borders` leaves of it.
pub fn trim_borders_at(s: &[char], lo: usize, hi: usize, borders: &[Vec<char>]) -> (r: Span)
    requires
        lo <= hi <= s@.len(),
    ensures
        lo <= r.start <= r.end <= hi,
        r.of(s@) == spec_trim_borders(buffers(borders@), s@.subrange(lo as int, hi as int)),
{
    let ghost w = s@.subrange(lo as int, hi as int);
    let ghost bs = buffers(borders@);
    let mut cur = trim_at(s, lo, hi);
    let mut k: usize = 0;
    assert(bs.skip(0) =~= bs);
    while k < borders.len()
        invariant
            lo <= cur.start <= cur.end <= hi <= s@.len(),
            k <= borders@.len(),
            bs == buffers(borders@),
            strip_border_starts(bs, trim(w)) == strip_border_starts(bs.skip(k as int), cur.of(s@)),
        decreases borders@.len() - k,
    {
        let ghost rest = bs.skip(k as int);
        assert(rest[0] == borders@[k as int]@);
        assert(rest.skip(1) =~= bs.skip(k + 1));
        let a = strip_prefixes_at(s, cur.start, cur.end, borders[k].as_slice());
        cur = trim_at(s, a, cur.end);
        k += 1;
    }
    k = 0;
    let ghost mid = cur.of(s@);
    while k < borders.len()
        invariant
            lo <= cur.start <= cur.end <= hi <= s@.len(),
            k <= borders@.len(),
            bs == buffers(borders@),
            strip_border_ends(bs, mid) == strip_border_ends(bs.skip(k as int), cur.of(s@)),
        decreases borders@.len() - k,
    {
        let ghost rest = bs.skip(k as int);
        assert(rest[0] == borders@[k as int]@);
        assert(rest.skip(1) =~= bs.skip(k + 1));
        let b = strip_suffixes_at(s, cur.start, cur.end, borders[k].as_slice());
        cur = trim_at(s, cur.start, b);
        k += 1;
    }
    cur
}

/// Trims whitespace and borders off the start and the end of the text.
/// Borders in the middle stay: to remove them, break the text into lines
/// first. Trailing line breaks are whitespace, and go.
pub fn trim_borders<'a>(borders: &[String], i: &'a str) -> (r: &'a str)
    ensures
        r@ == spec_trim_borders(texts(borders@), i@),
{
    let s = str_to_chars(i);
    let bs = strs_to_chars(borders);
    let n = s.len();
    proof {
        lemma_whole(s@);
    }
    let span = trim_borders_at(s.as_slice(), 0, n, bs.as_slice());
    i.substring_char(span.start, span.end)
}

/// None of the borders stands at the start of `i`.
pub open spec fn no_border_at_start(borders: Seq<Seq<char>>, i: Seq<char>) -> bool {
    forall|k: int|
        0 <= k < borders.len() && borders[k].len() > 0 ==> !(#[trigger] borders[k]).is_prefix_of(i)
}

/// None of the borders stands at the end of `i`.
pub open spec fn no_border_at_end(borders: Seq<Seq<char>>, i: Seq<char>) -> bool {
    forall|k: int|
        0 <= k < borders.len() && borders[k].len() > 0 ==> !(#[trigger] borders[k]).is_suffix_of(i)
}

/// Stripping borders off the start never makes a text longer. It leaves a
/// trimmed text as it is where no border stands at its start, and makes it
/// shorter where one does.
pub proof fn lemma_strip_border_starts(borders: Seq<Seq<char>>, i: Seq<char>)
    requires
        is_trimmed(i),
    ensures
        is_trimmed(strip_border_starts(borders, i)),
        strip_border_starts(borders, i).len() <= i.len(),
        no_border_at_start(borders, i) ==> strip_border_starts(borders, i) == i,
        !no_border_at_start(borders, i) ==> strip_border_starts(borders, i).len() < i.len(),
    decreases borders.len(),
{
    if borders.len() > 0 {
        let rest = borders.skip(1);
        let stripped = strip_prefixes(i, borders[0]);
        let next = trim(stripped);
        lemma_strip_prefixes_len(i, borders[0]);
        lemma_trim_is_trimmed(stripped);
        lemma_strip_border_starts(rest, next);
        assert forall|k: int| 0 <= k < rest.len() implies rest[k] == borders[k + 1] by {}
        if borders[0].len() > 0 && borders[0].is_prefix_of(i) {
        } else {
            lemma_trim_of_trimmed(i);
            assert(next == i);
            if no_border_at_start(borders, i) {
                assert forall|k: int| 0 <= k < rest.len() && rest[k].len() > 0 implies !(
                #[trigger] rest[k]).is_prefix_of(i) by {
                    assert(rest[k] == borders[k + 1]);
                }
            } else {
                let k = choose|k: int|
                    0 <= k < borders.len() && borders[k].len() > 0 && (
                    #[trigger] borders[k]).is_prefix_of(i);
                assert(k > 0);
                assert(rest[k - 1] == borders[k]);
                assert(!no_border_at_start(rest, i));
            }
        }
    }
}

/// Stripping borders off the end never makes a text longer. It leaves a
/// trimmed text as it is where no border stands at its end, and makes it
/// shorter where one does.
pub proof fn lemma_strip_border_ends(borders: Seq<Seq<char>>, i: Seq<char>)
    requires
        is_trimmed(i),
    ensures
        is_trimmed(strip_border_ends(borders, i)),
        strip_border_ends(borders, i).len() <= i.len(),
        no_border_at_end(borders, i) ==> strip_border_ends(borders, i) == i,
        !no_border_at_end(borders, i) ==> strip_border_ends(borders, i).len() < i.len(),
    decreases borders.len(),
{
    if borders.len() > 0 {
        let rest = borders.skip(1);
        let stripped = strip_suffixes(i, borders[0]);
        let next = trim(stripped);
        lemma_strip_suffixes_len(i, borders[0]);
        lemma_trim_is_trimmed(stripped);
        lemma_strip_border_ends(rest, next);
        assert forall|k: int| 0 <= k < rest.len() implies rest[k] == borders[k + 1] by {}
        if borders[0].len() > 0 && borders[0].is_suffix_of(i) {
        } else {
            lemma_trim_of_trimmed(i);
            assert(next == i);
            if no_border_at_end(borders, i) {
                assert forall|k: int| 0 <= k < rest.len() && rest[k].len() > 0 implies !(
                #[trigger] rest[k]).is_suffix_of(i) by {
                    assert(rest[k] == borders[k + 1]);
                }
            } else {
                let k = choose|k: int|
                    0 <= k < borders.len() && borders[k].len() > 0 && (
                    #[trigger] borders[k]).is_suffix_of(i);
                assert(k > 0);
                assert(rest[k - 1] == borders[k]);
                assert(!no_border_at_end(rest, i));
            }
        }
    }
}

/// What `trim_borders` returns has no whitespace at its start and its end,
/// and is no longer than the text it was given.
pub proof fn lemma_trim_borders_is_trimmed(borders: Seq<Seq<char>>, i: Seq<char>)
    ensures
        is_trimmed(spec_trim_borders(borders, i)),
        spec_trim_borders(borders, i).len() <= i.len(),
{
    lemma_trim_is_trimmed(i);
    lemma_strip_border_starts(borders, trim(i));
    lemma_strip_border_ends(borders, strip_border_starts(borders, trim(i)));
}

/// Trimming borders is a no-op on a text that is trimmed and has no border
/// at its start or its end, and on no other text.
pub proof fn lemma_trim_borders_fixed_points(borders: Seq<Seq<char>>, i: Seq<char>)
    ensures
        spec_trim_borders(borders, i) == i <==> is_trimmed(i) && no_border_at_start(borders, i)
            && no_border_at_end(borders, i),
{
    lemma_trim_borders_is_trimmed(borders, i);
    lemma_trim_is_trimmed(i);
    if is_trimmed(i) {
        lemma_trim_of_trimmed(i);
        lemma_strip_border_starts(borders, i);
        let mid = strip_border_starts(borders, i);
        lemma_strip_border_ends(borders, mid);
    }
}

/// Trimming borders twice: the second pass changes nothing exactly where the
/// first left no border at the start or the end of its result. A first pass
/// can uncover a border, because each border is stripped once in turn: of
/// `* * hello` with the border `*` the first pass leaves `* hello`.
pub proof fn lemma_trim_borders_twice(borders: Seq<Seq<char>>, i: Seq<char>)
    ensures
        ({
            let once = spec_trim_borders(borders, i);
            spec_trim_borders(borders, once) == once <==> no_border_at_start(borders, once)
                && no_border_at_end(borders, once)
        }),
{
    let once = spec_trim_borders(borders, i);
    lemma_trim_borders_is_trimmed(borders, i);
    lemma_trim_borders_fixed_points(borders, once);
}





/// The title and the first piece of description on the first line of `i`,
/// and what follows that line: the line is split into its first sentence,
/// the title, and the rest, which is trimmed of whitespace and borders.
pub open spec fn spec_title_and_rest_till_eol(borders: Seq<Seq<char>>, i: Seq<char>) -> (
    Seq<char>,
    (Seq<char>, Seq<char>),
) {
    let (desc, title) = spec_sentence_and_terminator(first_line(i));
    (after_first_line(i), (title, spec_trim_borders(borders, desc)))
}

/// Runs `spec_title_and_rest_till_eol` on the window `[lo, hi)` of `s`.
/// Returns where the rest of the input starts, and the windows of the title
/// and of the description.
pub fn title_and_rest_till_eol_at(s: &[char], lo: usize, hi: usize, borders: &[Vec<char>]) -> (r:
    (usize, Span, Span))
    requires
        lo <= hi <= s@.len(),
    ensures
        lo <= r.0 <= hi,
        lo == r.1.start <= r.1.end <= r.2.start <= r.2.end <= r.0,
        spec_title_and_rest_till_eol(buffers(borders@), s@.subrange(lo as int, hi as int)) == (
            s@.subrange(r.0 as int, hi as int),
            (r.1.of(s@), r.2.of(s@)),
        ),
{
    let (eol, next) = line_at(s, lo, hi);
    let (e, p) = sentence_and_terminator_at(s, lo, eol);
    let desc = trim_borders_at(s, p, eol, borders);
    (next, Span { start: lo, end: e }, desc)
}

/// Eats a sentence and the rest of the line. Returns the rest of the input,
/// the sentence, and the rest of the line without whitespace and borders
/// around it: in a todo, the title and a piece of the description.
pub fn title_and_rest_till_eol<'a>(borders: &[String], i: &'a str) -> (r: Result<
    (&'a str, (&'a str, &'a str)),
    ParseError,
>)
    ensures
        r matches Ok((rest, (title, desc))) && spec_title_and_rest_till_eol(texts(borders@), i@)
            == (rest@, (title@, desc@)),
{
    let s = str_to_chars(i);
    let bs = strs_to_chars(borders);
    let n = s.len();
    proof {
        lemma_whole(s@);
    }
    let (p, title, desc) = title_and_rest_till_eol_at(s.as_slice(), 0, n, bs.as_slice());
    Ok(
        (
            i.substring_char(p, n),
            (i.substring_char(title.start, title.end), i.substring_char(desc.start, desc.end)),
        ),
    )
}

/// What a single line comment leaves of `i`, and the text of the comment: a
/// comment start, then the rest of the line, which must not start with a
/// todo tag.
pub open spec fn spec_single_line_comment(
    borders: Seq<Seq<char>>,
    prefix: Seq<char>,
    i: Seq<char>,
) -> Option<(Seq<char>, Seq<char>)> {
    match spec_comment_start(borders, prefix, i) {
        Some(i1) => if spec_todo_tag(i1) is Some {
            None
        } else {
            Some((after_first_line(i1), first_line(i1)))
        },
        None => None,
    }
}

/// Runs `spec_single_line_comment` on the window `[lo, hi)` of `s`. Returns
/// where the rest of the input starts, and the window of the comment's text.
pub fn single_line_comment_at(
    s: &[char],
    lo: usize,
    hi: usize,
    borders: &[Vec<char>],
    prefix: &[char],
) -> (r: Option<(usize, Span)>)
    requires
        lo <= hi <= s@.len(),
    ensures
        match r {
            Some((p, line)) => lo <= line.start <= line.end <= p <= hi && lo + prefix@.len() <= p
                && spec_single_line_comment(
                buffers(borders@),
                prefix@,
                s@.subrange(lo as int, hi as int),
            ) == Some((s@.subrange(p as int, hi as int), line.of(s@))),
            None => spec_single_line_comment(
                buffers(borders@),
                prefix@,
                s@.subrange(lo as int, hi as int),
            ) is None,
        },
{
    match comment_start_at(s, lo, hi, borders, prefix) {
        Some(p1) => {
            if todo_tag_at(s, p1, hi).is_some() {
                None
            } else {
                let (eol, next) = line_at(s, p1, hi);
                Some((next, Span { start: p1, end: eol }))
            }
        },
        None => None,
    }
}

/// Eats a single line comment up to and with the end of its line. Fails
/// where the comment holds a todo tag, so that it never eats the start of
/// another todo.
pub fn single_line_comment<'a>(borders: &[String], prefix: &str, i: &'a str) -> (r: Result<
    (&'a str, &'a str),
    ParseError,
>)
    ensures
        match r {
            Ok((rest, line)) => spec_single_line_comment(texts(borders@), prefix@, i@) == Some(
                (rest@, line@),
            ),
            Err(_) => spec_single_line_comment(texts(borders@), prefix@, i@) is None,
        },
{
    let s = str_to_chars(i);
    let bs = strs_to_chars(borders);
    let pf = str_to_chars(prefix);
    let n = s.len();
    proof {
        lemma_whole(s@);
    }
    match single_line_comment_at(s.as_slice(), 0, n, bs.as_slice(), pf.as_slice()) {
        Some((p, line)) => Ok((i.substring_char(p, n), i.substring_char(line.start, line.end))),
        None => Err(ParseError),
    }
}

/// A fully parsed todo.
#[derive(Clone, Debug, Default, PartialEq)]
pub struct ParsedTodo<'a> {
    pub title: &'a str,
    pub assignee: Option<&'a str>,
    pub desc_lines: Vec<&'a str>,
}

/// A parsed todo, as a value of specifications.
pub struct TodoModel {
    pub title: Seq<char>,
    pub assignee: Option<Seq<char>>,
    pub desc_lines: Seq<Seq<char>>,
}

impl<'a> View for ParsedTodo<'a> {
    type V = TodoModel;

    open spec fn view(&self) -> TodoModel {
        TodoModel {
            title: self.title@,
            assignee: match self.assignee {
                Some(name) => Some(name@),
                None => None,
            },
            desc_lines: slices(self.desc_lines@),
        }
    }
}

impl<'a> ParsedTodo<'a> {
    /// A todo with the given title, no assignee and no description.
    pub fn from_title(title: &'a str) -> (r: Self)
        ensures
            r@ == (TodoModel { title: title@, assignee: None, desc_lines: Seq::empty() }),
    {
        let r = ParsedTodo { title, assignee: None, desc_lines: Vec::new() };
        assert(slices(r.desc_lines@) =~= Seq::empty());
        r
    }

    /// The same todo with one more line of description at the end.
    pub fn with_desc(self, line: &'a str) -> (r: Self)
        ensures
            r@ == (TodoModel { desc_lines: self@.desc_lines.push(line@), ..self@ }),
    {
        let mut r = self;
        let ghost before = r.desc_lines@;
        r.desc_lines.push(line);
        assert(slices(r.desc_lines@) =~= slices(before).push(line@));
        r
    }
}

/// A parsed todo, as windows into a buffer.
#[derive(Clone, Debug)]
pub struct TodoAt {
    pub title: Span,
    pub assignee: Option<Span>,
    pub desc_lines: Vec<Span>,
}

impl TodoAt {
    /// Every window lies within a buffer of `len` characters.
    pub open spec fn fits(self, len: nat) -> bool {
        &&& self.title.fits(len)
        &&& self.assignee matches Some(name) ==> name.fits(len)
        &&& forall|k: int| 0 <= k < self.desc_lines@.len() ==> (#[trigger] self.desc_lines@[k]).fits(len)
    }

    /// The todo that the windows stand for in the text `s`.
    pub open spec fn of(self, s: Seq<char>) -> TodoModel {
        TodoModel {
            title: self.title.of(s),
            assignee: match self.assignee {
                Some(name) => Some(name.of(s)),
                None => None,
            },
            desc_lines: spans_of(self.desc_lines@, s),
        }
    }

    /// Cuts the todo out of the string `i`, of which `self` holds windows.
    pub fn cut<'a>(&self, i: &'a str) -> (r: ParsedTodo<'a>)
        requires
            self.fits(i@.len()),
        ensures
            r@ == self.of(i@),
    {
        let mut desc_lines: Vec<&'a str> = Vec::new();
        let mut k: usize = 0;
        while k < self.desc_lines.len()
            invariant
                k <= self.desc_lines@.len(),
                self.fits(i@.len()),
                desc_lines@.len() == k,
                forall|j: int| 0 <= j < k ==> (#[trigger] desc_lines@[j])@ == self.desc_lines@[j].of(i@),
            decreases self.desc_lines@.len() - k,
        {
            let w = self.desc_lines[k];
            desc_lines.push(i.substring_char(w.start, w.end));
            k += 1;
        }
        assert(slices(desc_lines@) =~= spans_of(self.desc_lines@, i@));
        ParsedTodo {
            title: i.substring_char(self.title.start, self.title.end),
            assignee: match self.assignee {
                Some(name) => Some(i.substring_char(name.start, name.end)),
                None => None,
            },
            desc_lines,
        }
    }
}

/// The lines among `lines` that are not empty, in their order.
pub open spec fn nonempty_lines(lines: Seq<Seq<char>>) -> Seq<Seq<char>>
    decreases lines.len(),
{
    if lines.len() == 0 {
        Seq::empty()
    } else if lines.last().len() > 0 {
        nonempty_lines(lines.drop_last()).push(lines.last())
    } else {
        nonempty_lines(lines.drop_last())
    }
}

/// The name that a tag carries, if it carries one.
pub open spec fn tag_name(tag: Option<TagModel>) -> Option<Seq<char>> {
    match tag {
        Some(TagModel::Standard(name)) => Some(name),
        _ => None,
    }
}

/// `s` without one double quote at its start and one at its end, as far as
/// it has them.
pub open spec fn trim_quotes(s: Seq<char>) -> Seq<char> {
    let opened = if s.len() > 0 && s[0] == '"' {
        s.skip(1)
    } else {
        s
    };
    if opened.len() > 0 && opened.last() == '"' {
        opened.drop_last()
    } else {
        opened
    }
}

/// A piece of a string literal as it reads in a todo: without the whitespace
/// around it and without the backslashes that continue the literal on the
/// next line.
pub open spec fn clean_fragment(s: Seq<char>) -> Seq<char> {
    trim(drop_run_back(trim(s), CharClass::Only('\\'), true))
}

/// Every line of `lines` as `clean_fragment` leaves it.
pub open spec fn clean_fragments(lines: Seq<Seq<char>>) -> Seq<Seq<char>> {
    lines.map_values(|l: Seq<char>| clean_fragment(l))
}

/// The lines of `i`, each without its line ending. `None` where `i` holds a
/// carriage return that no line feed follows: it ends a line's text without
/// being a line ending, so the text does not split into lines.
pub open spec fn spec_all_lines(i: Seq<char>) -> Option<Seq<Seq<char>>>
    decreases i.len(),
{
    if i.len() == 0 {
        Some(Seq::empty())
    } else if after_first_line(i).len() < i.len() {
        match spec_all_lines(after_first_line(i)) {
            Some(lines) => Some(seq![first_line(i)] + lines),
            None => None,
        }
    } else {
        None
    }
}

/// The todo that the argument of a `todo!` macro call holds, and what is left
/// of `i` behind the call's closing parenthesis. The argument is all that
/// stands between the opening parenthesis and the first closing one, and must
/// not be empty; the whitespace around it is dropped, and then one double
/// quote at each end. Its
/// first sentence is the title, every further non-empty piece and line a line
/// of the description.
pub open spec fn spec_rust_todo_content(i: Seq<char>) -> Option<(Seq<char>, TodoModel)> {
    if i.len() > 0 && i[0] == '(' {
        let inner = take_run(i.skip(1), CharClass::Only(')'), false);
        let after = drop_run(i.skip(1), CharClass::Only(')'), false);
        if inner.len() > 0 && after.len() > 0 {
            let content = trim_quotes(trim(inner));
            let (rest, (title, desc)) = spec_title_and_rest_till_eol(Seq::empty(), content);
            match spec_all_lines(rest) {
                Some(lines) => Some(
                    (
                        after.skip(1),
                        TodoModel {
                            title: clean_fragment(title),
                            assignee: None,
                            desc_lines: clean_fragments(nonempty_lines(seq![desc] + lines)),
                        },
                    ),
                ),
                None => None,
            }
        } else {
            None
        }
    } else {
        None
    }
}

/// Narrows the window `[lo, hi)` of `s` to what `clean_fragment` leaves of it.
fn clean_fragment_at(s: &[char], lo: usize, hi: usize) -> (r: Span)
    requires
        lo <= hi <= s@.len(),
    ensures
        lo <= r.start <= r.end <= hi,
        r.of(s@) == clean_fragment(s@.subrange(lo as int, hi as int)),
{
    let t = trim_at(s, lo, hi);
    let e = scan_run_back(s, t.start, t.end, CharClass::Only('\\'), true);
    trim_at(s, t.start, e)
}

/// Runs `spec_rust_todo_content` on the window `[lo, hi)` of `s`. Returns
/// where the rest of the input starts, and the todo.
pub fn rust_todo_content_at(s: &[char], lo: usize, hi: usize) -> (r: Option<(usize, TodoAt)>)
    requires
        lo <= hi <= s@.len(),
    ensures
        match r {
            Some((p, todo)) => lo + 2 <= p <= hi && todo.fits(p as nat) && spec_rust_todo_content(
                s@.subrange(lo as int, hi as int),
            ) == Some((s@.subrange(p as int, hi as int), todo.of(s@))),
            None => spec_rust_todo_content(s@.subrange(lo as int, hi as int)) is None,
        },
{
    let ghost w = s@.subrange(lo as int, hi as int);
    if !(lo < hi && s[lo] == '(') {
        return None;
    }
    assert(w.skip(1) =~= s@.subrange(lo + 1, hi as int));
    let close = scan_run(s, lo + 1, hi, CharClass::Only(')'), false);
    if close == lo + 1 || close == hi {
        return None;
    }
    assert(s@.subrange(close as int, hi as int).skip(1) =~= s@.subrange(close + 1, hi as int));
    let t = trim_at(s, lo + 1, close);
    let q1 = if t.start < t.end && s[t.start] == '"' {
        assert(t.of(s@).skip(1) =~= s@.subrange(t.start + 1, t.end as int));
        t.start + 1
    } else {
        t.start
    };
    let q2 = if q1 < t.end && s[t.end - 1] == '"' {
        assert(s@.subrange(q1 as int, t.end as int).drop_last() =~= s@.subrange(
            q1 as int,
            t.end - 1,
        ));
        t.end - 1
    } else {
        t.end
    };
    // The argument, without whitespace and quotes, is the window [q1, q2).
    let none: Vec<Vec<char>> = Vec::new();
    assert(buffers(none@) =~= Seq::<Seq<char>>::empty());
    let (mut cur, title, desc) = title_and_rest_till_eol_at(s, q1, q2, none.as_slice());
    let title = clean_fragment_at(s, title.start, title.end);
    let mut desc_lines: Vec<Span> = Vec::new();
    let ghost mut seen: Seq<Seq<char>> = seq![desc.of(s@)];
    let ghost rest0 = s@.subrange(cur as int, q2 as int);
    assert(nonempty_lines(seen.drop_last()) =~= Seq::<Seq<char>>::empty());
    if desc.end > desc.start {
        desc_lines.push(clean_fragment_at(s, desc.start, desc.end));
    }
    assert(spans_of(desc_lines@, s@) =~= clean_fragments(nonempty_lines(seen)));
    let ghost mut lines: Seq<Seq<char>> = Seq::empty();
    while cur < q2
        invariant
            lo < q1 <= cur <= q2 <= close < hi <= s@.len(),
            spec_all_lines(rest0) is None ==> spec_rust_todo_content(
                s@.subrange(lo as int, hi as int),
            ) is None,
            seen == seq![desc.of(s@)] + lines,
            spans_of(desc_lines@, s@) == clean_fragments(nonempty_lines(seen)),
            forall|k: int| 0 <= k < desc_lines@.len() ==> (#[trigger] desc_lines@[k]).fits(close as nat),
            spec_all_lines(rest0) == match spec_all_lines(s@.subrange(cur as int, q2 as int)) {
                Some(more) => Some(lines + more),
                None => None,
            },
        decreases q2 - cur,
    {
        let (eol, next) = line_at(s, cur, q2);
        if next == cur {
            assert(spec_all_lines(s@.subrange(cur as int, q2 as int)) is None);
            assert(spec_all_lines(rest0) is None);
            return None;
        }
        proof {
            let line = s@.subrange(cur as int, eol as int);
            let old_seen = seen;
            let old_lines = lines;
            lines = lines.push(line);
            seen = seen.push(line);
            assert(seen =~= seq![desc.of(s@)] + lines);
            assert(seen.drop_last() =~= old_seen);
            match spec_all_lines(s@.subrange(next as int, q2 as int)) {
                Some(more) => {
                    assert(old_lines + (seq![line] + more) =~= lines + more);
                },
                None => {},
            }
        }
        if eol > cur {
            let ghost before = desc_lines@;
            desc_lines.push(clean_fragment_at(s, cur, eol));
            assert(spans_of(desc_lines@, s@) =~= spans_of(before, s@).push(
                clean_fragment(s@.subrange(cur as int, eol as int)),
            ));
            assert(clean_fragments(nonempty_lines(seen)) =~= clean_fragments(
                nonempty_lines(seen.drop_last()),
            ).push(clean_fragment(s@.subrange(cur as int, eol as int))));
        }
        cur = next;
    }
    assert(lines + Seq::<Seq<char>>::empty() =~= lines);
    Some((close + 1, TodoAt { title, assignee: None, desc_lines }))
}

/// Eats the argument list of a `todo!` macro call, up to and with the first
/// closing parenthesis, and returns the rest of the input and the todo that
/// the argument holds. Fails where the argument is empty or no parenthesis
/// closes it, and where the argument holds a carriage return that no line
/// feed follows.
pub fn rust_todo_content<'a>(i: &'a str) -> (r: Result<(&'a str, ParsedTodo<'a>), ParseError>)
    ensures
        match r {
            Ok((rest, todo)) => spec_rust_todo_content(i@) == Some((rest@, todo@)),
            Err(_) => spec_rust_todo_content(i@) is None,
        },
{
    let s = str_to_chars(i);
    let n = s.len();
    proof {
        lemma_whole(s@);
    }
    match rust_todo_content_at(s.as_slice(), 0, n) {
        Some((p, todo)) => Ok((i.substring_char(p, n), todo.cut(i))),
        None => Err(ParseError),
    }
}

/// The texts of the single line comments that `i` starts with, one after the
/// other, and what is left of `i` behind them. `None` where one of them eats
/// nothing at all, which only an empty prefix allows: the comments would
/// never end.
pub open spec fn spec_comment_lines(
    borders: Seq<Seq<char>>,
    prefix: Seq<char>,
    i: Seq<char>,
) -> Option<(Seq<char>, Seq<Seq<char>>)>
    decreases i.len(),
{
    match spec_single_line_comment(borders, prefix, i) {
        None => Some((i, Seq::empty())),
        Some((rest, line)) => if rest.len() < i.len() {
            match spec_comment_lines(borders, prefix, rest) {
                Some((r, lines)) => Some((r, seq![line] + lines)),
                None => None,
            }
        } else {
            None
        },
    }
}

/// The todo that a run of single line comments at the start of `i` holds, and
/// what is left of `i` behind it. The first comment holds the tag, the title
/// and maybe a first piece of description; each comment that follows, up to
/// the first that holds a todo tag itself, is one more line of description.
/// Empty lines of description are dropped. Behind the tag `todo!` the todo is
/// what `spec_rust_todo_content` finds.
pub open spec fn spec_single_line_todo(
    borders: Seq<Seq<char>>,
    prefix: Seq<char>,
    i: Seq<char>,
) -> Option<(Seq<char>, TodoModel)> {
    match spec_comment_start(borders, prefix, i) {
        None => None,
        Some(i1) => match spec_todo_tag(i1) {
            None => None,
            Some((i2, Some(TagModel::RustMacro))) => spec_rust_todo_content(i2),
            Some((i2, tag)) => {
                let (i3, (title, desc0)) = spec_title_and_rest_till_eol(borders, i2);
                match spec_comment_lines(borders, prefix, i3) {
                    None => None,
                    Some((i4, lines)) => Some(
                        (
                            i4,
                            TodoModel {
                                title,
                                assignee: tag_name(tag),
                                desc_lines: nonempty_lines(seq![desc0] + lines),
                            },
                        ),
                    ),
                }
            },
        },
    }
}

/// Runs `spec_single_line_todo` on the window `[lo, hi)` of `s`. Returns
/// where the rest of the input starts, and the todo.
pub fn single_line_todo_at(
    s: &[char],
    lo: usize,
    hi: usize,
    borders: &[Vec<char>],
    prefix: &[char],
) -> (r: Option<(usize, TodoAt)>)
    requires
        lo <= hi <= s@.len(),
    ensures
        match r {
            Some((p, todo)) => lo < p <= hi && todo.fits(p as nat) && spec_single_line_todo(
                buffers(borders@),
                prefix@,
                s@.subrange(lo as int, hi as int),
            ) == Some((s@.subrange(p as int, hi as int), todo.of(s@))),
            None => spec_single_line_todo(
                buffers(borders@),
                prefix@,
                s@.subrange(lo as int, hi as int),
            ) is None,
        },
{
    let ghost bs = buffers(borders@);
    let p1 = match comment_start_at(s, lo, hi, borders, prefix) {
        Some(p1) => p1,
        None => {
            return None;
        },
    };
    let (p2, tag) = match todo_tag_at(s, p1, hi) {
        Some(r) => r,
        None => {
            return None;
        },
    };
    let assignee = match tag {
        Some(TagAt::RustMacro) => {
            return rust_todo_content_at(s, p2, hi);
        },
        Some(TagAt::Standard(name)) => Some(name),
        None => None,
    };
    let (p3, title, desc0) = title_and_rest_till_eol_at(s, p2, hi, borders);
    let mut desc_lines: Vec<Span> = Vec::new();
    let ghost mut seen: Seq<Seq<char>> = seq![desc0.of(s@)];
    assert(nonempty_lines(seen.drop_last()) =~= Seq::<Seq<char>>::empty());
    if desc0.end > desc0.start {
        desc_lines.push(desc0);
    }
    assert(spans_of(desc_lines@, s@) =~= nonempty_lines(seen));
    let ghost mut lines: Seq<Seq<char>> = Seq::empty();
    let ghost rest0 = s@.subrange(p3 as int, hi as int);
    let mut cur = p3;
    loop
        invariant
            lo <= p3 <= cur <= hi <= s@.len(),
            lo < p3,
            bs == buffers(borders@),
            rest0 == s@.subrange(p3 as int, hi as int),
            spec_comment_lines(bs, prefix@, rest0) is None ==> spec_single_line_todo(
                bs,
                prefix@,
                s@.subrange(lo as int, hi as int),
            ) is None,
            seen == seq![desc0.of(s@)] + lines,
            spans_of(desc_lines@, s@) == nonempty_lines(seen),
            forall|k: int| 0 <= k < desc_lines@.len() ==> (#[trigger] desc_lines@[k]).fits(cur as nat),
            spec_comment_lines(bs, prefix@, rest0) == match spec_comment_lines(
                bs,
                prefix@,
                s@.subrange(cur as int, hi as int),
            ) {
                Some((r, more)) => Some((r, lines + more)),
                None => None,
            },
        ensures
            spec_single_line_comment(bs, prefix@, s@.subrange(cur as int, hi as int)) is None,
        decreases hi - cur,
    {
        match single_line_comment_at(s, cur, hi, borders, prefix) {
            None => {
                break ;
            },
            Some((next, line)) => {
                if next == cur {
                    return None;
                }
                proof {
                    let text = line.of(s@);
                    let old_seen = seen;
                    let old_lines = lines;
                    lines = lines.push(text);
                    seen = seen.push(text);
                    assert(seen =~= seq![desc0.of(s@)] + lines);
                    assert(seen.drop_last() =~= old_seen);
                    match spec_comment_lines(bs, prefix@, s@.subrange(next as int, hi as int)) {
                        Some((r, more)) => {
                            assert(old_lines + (seq![text] + more) =~= lines + more);
                        },
                        None => {},
                    }
                }
                if line.end > line.start {
                    let ghost before = desc_lines@;
                    desc_lines.push(line);
                    assert(spans_of(desc_lines@, s@) =~= spans_of(before, s@).push(line.of(s@)));
                }
                cur = next;
            },
        }
    }
    assert(lines + Seq::<Seq<char>>::empty() =~= lines);
    Some((cur, TodoAt { title, assignee, desc_lines }))
}

/// Eats a todo made of single line comments: the comment that holds the tag
/// and the title, and the comments of the same style that follow it, as far
/// as they hold no todo tag of their own.
pub fn single_line_todo<'a>(borders: &[String], prefix: &str, i: &'a str) -> (r: Result<
    (&'a str, ParsedTodo<'a>),
    ParseError,
>)
    ensures
        match r {
            Ok((rest, todo)) => spec_single_line_todo(texts(borders@), prefix@, i@) == Some(
                (rest@, todo@),
            ),
            Err(_) => spec_single_line_todo(texts(borders@), prefix@, i@) is None,
        },
{
    let s = str_to_chars(i);
    let bs = strs_to_chars(borders);
    let pf = str_to_chars(prefix);
    let n = s.len();
    proof {
        lemma_whole(s@);
    }
    match single_line_todo_at(s.as_slice(), 0, n, bs.as_slice(), pf.as_slice()) {
        Some((p, todo)) => Ok((i.substring_char(p, n), todo.cut(i))),
        None => Err(ParseError),
    }
}

/// The lines of the block `s`, each without the whitespace and the borders
/// around it. Lines end at line feeds.
pub open spec fn spec_block_lines(borders: Seq<Seq<char>>, s: Seq<char>) -> Seq<Seq<char>>
    decreases s.len(),
{
    let n = run_len(s, CharClass::Only('\n'), false) as int;
    let head = seq![spec_trim_borders(borders, s.take(n))];
    if n < s.len() {
        head + spec_block_lines(borders, s.skip(n + 1))
    } else {
        head
    }
}

/// The todo that a multi line comment at the start of `i` holds, and what is
/// left of `i` behind it. After blanks and a comment start, which may be
/// missing, stand the tag and, on the rest of the line, the title and a first
/// piece of description. Where that piece is exactly the suffix, the comment
/// ends with the line. Otherwise it runs on to the first occurrence of the
/// suffix behind that line, and each of its lines, trimmed of whitespace and
/// borders, is a line of the description unless it is empty. Behind the tag
/// `todo!` the todo is what `spec_rust_todo_content` finds.
pub open spec fn spec_multi_line_todo(
    borders: Seq<Seq<char>>,
    prefix: Seq<char>,
    suffix: Seq<char>,
    i: Seq<char>,
) -> Option<(Seq<char>, TodoModel)> {
    let i0 = skip_blanks(i);
    let i1 = match spec_comment_start(borders, prefix, i0) {
        Some(rest) => rest,
        None => i0,
    };
    match spec_todo_tag(i1) {
        None => None,
        Some((i2, Some(TagModel::RustMacro))) => spec_rust_todo_content(i2),
        Some((i2, tag)) => {
            let (i3, (title, desc0)) = spec_title_and_rest_till_eol(borders, i2);
            if desc0 == suffix {
                Some((i3, TodoModel { title, assignee: tag_name(tag), desc_lines: Seq::empty() }))
            } else {
                match find_first(i3, suffix) {
                    None => None,
                    Some(n) => Some(
                        (
                            i3.skip((n + suffix.len()) as int),
                            TodoModel {
                                title,
                                assignee: tag_name(tag),
                                desc_lines: nonempty_lines(
                                    seq![desc0] + spec_block_lines(borders, i3.take(n as int)),
                                ),
                            },
                        ),
                    ),
                }
            }
        },
    }
}

/// Runs `spec_multi_line_todo` on the window `[lo, hi)` of `s`. Returns where
/// the rest of the input starts, and the todo.
pub fn multi_line_todo_at(
    s: &[char],
    lo: usize,
    hi: usize,
    borders: &[Vec<char>],
    prefix: &[char],
    suffix: &[char],
) -> (r: Option<(usize, TodoAt)>)
    requires
        lo <= hi <= s@.len(),
    ensures
        match r {
            Some((p, todo)) => lo < p <= hi && todo.fits(p as nat) && spec_multi_line_todo(
                buffers(borders@),
                prefix@,
                suffix@,
                s@.subrange(lo as int, hi as int),
            ) == Some((s@.subrange(p as int, hi as int), todo.of(s@))),
            None => spec_multi_line_todo(
                buffers(borders@),
                prefix@,
                suffix@,
                s@.subrange(lo as int, hi as int),
            ) is None,
        },
{
    let ghost bs = buffers(borders@);
    let p0 = scan_run(s, lo, hi, CharClass::Blank, true);
    let p1 = match comment_start_at(s, p0, hi, borders, prefix) {
        Some(p1) => p1,
        None => p0,
    };
    let (p2, tag) = match todo_tag_at(s, p1, hi) {
        Some(r) => r,
        None => {
            return None;
        },
    };
    let assignee = match tag {
        Some(TagAt::RustMacro) => {
            return rust_todo_content_at(s, p2, hi);
        },
        Some(TagAt::Standard(name)) => Some(name),
        None => None,
    };
    let (p3, title, desc0) = title_and_rest_till_eol_at(s, p2, hi, borders);
    let mut desc_lines: Vec<Span> = Vec::new();
    if desc0.end - desc0.start == suffix.len() && starts_with_at(
        s,
        desc0.start,
        desc0.end,
        suffix,
    ) {
        assert(desc0.of(s@) =~= suffix@);
        assert(spans_of(desc_lines@, s@) =~= Seq::<Seq<char>>::empty());
        return Some((p3, TodoAt { title, assignee, desc_lines }));
    }
    assert(desc0.of(s@) != suffix@) by {
        if desc0.of(s@) == suffix@ {
            assert(suffix@ =~= desc0.of(s@).subrange(0, suffix@.len() as int));
        }
    }
    let q = match find_at(s, p3, hi, suffix) {
        Some(q) => q,
        None => {
            return None;
        },
    };
    let ghost rest = s@.subrange(p3 as int, hi as int);
    let ghost block = s@.subrange(p3 as int, q as int);
    assert(rest.take(q - p3) =~= block);
    assert(rest.skip((q - p3) + suffix@.len()) =~= s@.subrange(q + suffix@.len(), hi as int));
    let ghost mut seen: Seq<Seq<char>> = seq![desc0.of(s@)];
    assert(nonempty_lines(seen.drop_last()) =~= Seq::<Seq<char>>::empty());
    if desc0.end > desc0.start {
        desc_lines.push(desc0);
    }
    assert(spans_of(desc_lines@, s@) =~= nonempty_lines(seen));
    let ghost mut done: Seq<Seq<char>> = Seq::empty();
    let mut cur = p3;
    loop
        invariant_except_break
            spec_block_lines(bs, block) == done + spec_block_lines(
                bs,
                s@.subrange(cur as int, q as int),
            ),
        invariant
            lo < p3 <= cur <= q <= hi <= s@.len(),
            bs == buffers(borders@),
            block == s@.subrange(p3 as int, q as int),
            seen == seq![desc0.of(s@)] + done,
            spans_of(desc_lines@, s@) == nonempty_lines(seen),
            desc0.fits(p3 as nat),
            forall|k: int| 0 <= k < desc_lines@.len() ==> (#[trigger] desc_lines@[k]).fits(q as nat),
        ensures
            spec_block_lines(bs, block) == done,
        decreases q - cur,
    {
        let e = scan_run(s, cur, q, CharClass::Only('\n'), false);
        let line = trim_borders_at(s, cur, e, borders);
        proof {
            let v = s@.subrange(cur as int, q as int);
            let text = line.of(s@);
            let old_seen = seen;
            let old_done = done;
            assert(v.take(e - cur) =~= s@.subrange(cur as int, e as int));
            done = done.push(text);
            seen = seen.push(text);
            assert(seen =~= seq![desc0.of(s@)] + done);
            assert(seen.drop_last() =~= old_seen);
            if e < q {
                assert(v.skip(e - cur + 1) =~= s@.subrange(e + 1, q as int));
                assert(old_done + (seq![text] + spec_block_lines(
                    bs,
                    s@.subrange(e + 1, q as int),
                )) =~= done + spec_block_lines(bs, s@.subrange(e + 1, q as int)));
            } else {
                assert(old_done + seq![text] =~= done);
            }
        }
        if line.end > line.start {
            let ghost before = desc_lines@;
            desc_lines.push(line);
            assert(spans_of(desc_lines@, s@) =~= spans_of(before, s@).push(line.of(s@)));
        }
        if e < q {
            cur = e + 1;
        } else {
            break ;
        }
    }
    Some((q + suffix.len(), TodoAt { title, assignee, desc_lines }))
}

/// Eats a todo that lives in a multi line comment block.
pub fn multi_line_todo<'a>(borders: &[String], prefix: &str, suffix: &str, i: &'a str) -> (r:
    Result<(&'a str, ParsedTodo<'a>), ParseError>)
    ensures
        match r {
            Ok((rest, todo)) => spec_multi_line_todo(texts(borders@), prefix@, suffix@, i@)
                == Some((rest@, todo@)),
            Err(_) => spec_multi_line_todo(texts(borders@), prefix@, suffix@, i@) is None,
        },
{
    let s = str_to_chars(i);
    let bs = strs_to_chars(borders);
    let pf = str_to_chars(prefix);
    let sf = str_to_chars(suffix);
    let n = s.len();
    proof {
        lemma_whole(s@);
    }
    match multi_line_todo_at(s.as_slice(), 0, n, bs.as_slice(), pf.as_slice(), sf.as_slice()) {
        Some((p, todo)) => Ok((i.substring_char(p, n), todo.cut(i))),
        None => Err(ParseError),
    }
}

/// A todo parser configuration: the comment styles to look for.
#[derive(Clone, Debug, PartialEq)]
pub struct TodoParserConfig {
    /// The prefixes of single line comments, such as `--` for Haskell.
    pub singles: Vec<String>,
    /// The prefixes and suffixes of multi line comments, such as `{-` and
    /// `-}` for Haskell.
    pub multis: Vec<(String, String)>,
    /// The borders of comments, such as `|` for Haskell.
    pub borders: Vec<String>,
}

/// A todo parser configuration, as a value of specifications.
pub struct ConfigModel {
    pub singles: Seq<Seq<char>>,
    pub multis: Seq<(Seq<char>, Seq<char>)>,
    pub borders: Seq<Seq<char>>,
}

impl ConfigModel {
    /// The configuration that holds no comment style.
    pub open spec fn empty() -> ConfigModel {
        ConfigModel { singles: Seq::empty(), multis: Seq::empty(), borders: Seq::empty() }
    }

    /// The configuration with one more comment style, added at the end of
    /// the list of its kind.
    pub open spec fn with_style(self, style: StyleModel) -> ConfigModel {
        match style {
            StyleModel::Single(prefix) => ConfigModel {
                singles: self.singles.push(prefix),
                ..self
            },
            StyleModel::Multi(prefix, suffix) => ConfigModel {
                multis: self.multis.push((prefix, suffix)),
                ..self
            },
            StyleModel::Border(border) => ConfigModel {
                borders: self.borders.push(border),
                ..self
            },
        }
    }

    /// The configuration that holds the given comment styles, added one
    /// after the other.
    pub open spec fn from_styles(styles: Seq<StyleModel>) -> ConfigModel
        decreases styles.len(),
    {
        if styles.len() == 0 {
            ConfigModel::empty()
        } else {
            ConfigModel::from_styles(styles.drop_last()).with_style(styles.last())
        }
    }

    /// The configuration that holds the comment styles of `self` and behind
    /// them those of `other`.
    pub open spec fn merged(self, other: ConfigModel) -> ConfigModel {
        ConfigModel {
            singles: self.singles + other.singles,
            multis: self.multis + other.multis,
            borders: self.borders + other.borders,
        }
    }
}

/// The pairs of texts that a list of pairs of strings holds.
pub open spec fn text_pairs(v: Seq<(String, String)>) -> Seq<(Seq<char>, Seq<char>)> {
    v.map_values(|p: (String, String)| (p.0@, p.1@))
}

/// The pairs of texts that a list of pairs of character buffers holds.
pub open spec fn buffer_pairs(v: Seq<(Vec<char>, Vec<char>)>) -> Seq<(Seq<char>, Seq<char>)> {
    v.map_values(|p: (Vec<char>, Vec<char>)| (p.0@, p.1@))
}

impl View for TodoParserConfig {
    type V = ConfigModel;

    open spec fn view(&self) -> ConfigModel {
        ConfigModel {
            singles: texts(self.singles@),
            multis: text_pairs(self.multis@),
            borders: texts(self.borders@),
        }
    }
}

/// A todo parser configuration whose texts are buffers of characters, as
/// the parsers take them.
pub struct ConfigChars {
    pub singles: Vec<Vec<char>>,
    pub multis: Vec<(Vec<char>, Vec<char>)>,
    pub borders: Vec<Vec<char>>,
}

impl View for ConfigChars {
    type V = ConfigModel;

    open spec fn view(&self) -> ConfigModel {
        ConfigModel {
            singles: buffers(self.singles@),
            multis: buffer_pairs(self.multis@),
            borders: buffers(self.borders@),
        }
    }
}

impl Default for TodoParserConfig {
    fn default() -> (r: Self)
        ensures
            r@ == ConfigModel::empty(),
    {
        TodoParserConfig::new()
    }
}

impl TodoParserConfig {
    /// The configuration that holds no comment style.
    pub fn new() -> (r: Self)
        ensures
            r@ == ConfigModel::empty(),
    {
        let r = TodoParserConfig { singles: Vec::new(), multis: Vec::new(), borders: Vec::new() };
        assert(r@.singles =~= Seq::empty());
        assert(r@.multis =~= Seq::empty());
        assert(r@.borders =~= Seq::empty());
        r
    }

    /// Adds a comment style at the end of the list of its kind.
    pub fn add_comment_style(&mut self, cs: CommentStyle)
        ensures
            final(self)@ == old(self)@.with_style(cs@),
    {
        match cs {
            CommentStyle::Single(s) => {
                self.singles.push(s);
                assert(self@.singles =~= old(self)@.singles.push(s@));
            },
            CommentStyle::Multi(p, s) => {
                self.multis.push((p, s));
                assert(self@.multis =~= old(self)@.multis.push((p@, s@)));
            },
            CommentStyle::Border(b) => {
                self.borders.push(b);
                assert(self@.borders =~= old(self)@.borders.push(b@));
            },
        }
    }

    /// The configuration that holds the given comment styles.
    pub fn from_comment_styles(styles: Vec<CommentStyle>) -> (r: Self)
        ensures
            r@ == ConfigModel::from_styles(super::langs::styles(styles@)),
    {
        TodoParserConfig::from_style_list(styles.as_slice())
    }

    /// The configuration that holds the given comment styles.
    pub fn from_style_list(styles: &[CommentStyle]) -> (r: Self)
        ensures
            r@ == ConfigModel::from_styles(super::langs::styles(styles@)),
    {
        let ghost all = super::langs::styles(styles@);
        let mut cfg = TodoParserConfig::new();
        let mut k: usize = 0;
        while k < styles.len()
            invariant
                k <= styles@.len(),
                all == super::langs::styles(styles@),
                cfg@ == ConfigModel::from_styles(all.take(k as int)),
            decreases styles@.len() - k,
        {
            assert(all.take(k + 1).drop_last() =~= all.take(k as int));
            cfg.add_comment_style(styles[k].duplicate());
            k += 1;
        }
        assert(all.take(k as int) =~= all);
        cfg
    }

    /// Adds the comment styles of `cfg` behind those that `self` holds.
    pub fn add_parser_config(&mut self, cfg: TodoParserConfig)
        ensures
            final(self)@ == old(self)@.merged(cfg@),
    {
        let ghost other = cfg@;
        let mut cfg = cfg;
        self.singles.append(&mut cfg.singles);
        self.multis.append(&mut cfg.multis);
        self.borders.append(&mut cfg.borders);
        assert(self@.singles =~= old(self)@.singles + other.singles);
        assert(self@.multis =~= old(self)@.multis + other.multis);
        assert(self@.borders =~= old(self)@.borders + other.borders);
    }

    /// A copy of the configuration.
    pub fn duplicate(&self) -> (r: Self)
        ensures
            r@ == self@,
    {
        let mut multis: Vec<(String, String)> = Vec::new();
        let mut k: usize = 0;
        while k < self.multis.len()
            invariant
                k <= self.multis@.len(),
                multis@.len() == k,
                forall|j: int|
                    0 <= j < k ==> (#[trigger] multis@[j]).0@ == self.multis@[j].0@ && multis@[j].1@
                        == self.multis@[j].1@,
            decreases self.multis@.len() - k,
        {
            multis.push((self.multis[k].0.clone(), self.multis[k].1.clone()));
            k += 1;
        }
        let r = TodoParserConfig {
            singles: self.singles.clone(),
            multis,
            borders: self.borders.clone(),
        };
        assert(r@.singles =~= self@.singles);
        assert(r@.multis =~= self@.multis);
        assert(r@.borders =~= self@.borders);
        r
    }

    /// The same configuration with its texts as buffers of characters.
    pub fn to_chars(&self) -> (r: ConfigChars)
        ensures
            r@ == self@,
    {
        let mut multis: Vec<(Vec<char>, Vec<char>)> = Vec::new();
        let mut k: usize = 0;
        while k < self.multis.len()
            invariant
                k <= self.multis@.len(),
                multis@.len() == k,
                forall|j: int|
                    0 <= j < k ==> (#[trigger] multis@[j]).0@ == self.multis@[j].0@ && multis@[j].1@
                        == self.multis@[j].1@,
            decreases self.multis@.len() - k,
        {
            let prefix = str_to_chars(self.multis[k].0.as_str());
            let suffix = str_to_chars(self.multis[k].1.as_str());
            multis.push((prefix, suffix));
            k += 1;
        }
        assert(buffer_pairs(multis@) =~= text_pairs(self.multis@));
        ConfigChars {
            singles: strs_to_chars(self.singles.as_slice()),
            multis,
            borders: strs_to_chars(self.borders.as_slice()),
        }
    }
}

/// What the first of the multi line comment styles `multis` that finds a todo
/// at the start of `i` finds there.
pub open spec fn spec_first_multi(
    borders: Seq<Seq<char>>,
    multis: Seq<(Seq<char>, Seq<char>)>,
    i: Seq<char>,
) -> Option<(Seq<char>, TodoModel)>
    decreases multis.len(),
{
    if multis.len() == 0 {
        None
    } else {
        match spec_multi_line_todo(borders, multis[0].0, multis[0].1, i) {
            Some(found) => Some(found),
            None => spec_first_multi(borders, multis.skip(1), i),
        }
    }
}

/// What the first of the single line comment styles `singles` that finds a
/// todo at the start of `i` finds there.
pub open spec fn spec_first_single(
    borders: Seq<Seq<char>>,
    singles: Seq<Seq<char>>,
    i: Seq<char>,
) -> Option<(Seq<char>, TodoModel)>
    decreases singles.len(),
{
    if singles.len() == 0 {
        None
    } else {
        match spec_single_line_todo(borders, singles[0], i) {
            Some(found) => Some(found),
            None => spec_first_single(borders, singles.skip(1), i),
        }
    }
}

/// The todo at the start of `i`, and what is left of `i` behind it: what the
/// first multi line comment style of the configuration finds, or else what
/// the first single line comment style finds.
pub open spec fn spec_parse_todo(cfg: ConfigModel, i: Seq<char>) -> Option<(Seq<char>, TodoModel)> {
    match spec_first_multi(cfg.borders, cfg.multis, i) {
        Some(found) => Some(found),
        None => spec_first_single(cfg.borders, cfg.singles, i),
    }
}

/// Runs `spec_parse_todo` on the window `[lo, hi)` of `s`. Returns where the
/// rest of the input starts, and the todo.
pub fn parse_todo_at(s: &[char], lo: usize, hi: usize, cfg: &ConfigChars) -> (r: Option<
    (usize, TodoAt),
>)
    requires
        lo <= hi <= s@.len(),
    ensures
        match r {
            Some((p, todo)) => lo < p <= hi && todo.fits(p as nat) && spec_parse_todo(
                cfg@,
                s@.subrange(lo as int, hi as int),
            ) == Some((s@.subrange(p as int, hi as int), todo.of(s@))),
            None => spec_parse_todo(cfg@, s@.subrange(lo as int, hi as int)) is None,
        },
{
    let ghost w = s@.subrange(lo as int, hi as int);
    let ghost m = cfg@;
    let mut k: usize = 0;
    assert(m.multis.skip(0) =~= m.multis);
    while k < cfg.multis.len()
        invariant
            lo <= hi <= s@.len(),
            w == s@.subrange(lo as int, hi as int),
            m == cfg@,
            k <= cfg.multis@.len(),
            spec_first_multi(m.borders, m.multis, w) == spec_first_multi(
                m.borders,
                m.multis.skip(k as int),
                w,
            ),
        decreases cfg.multis@.len() - k,
    {
        let ghost rest = m.multis.skip(k as int);
        assert(rest[0] == (cfg.multis@[k as int].0@, cfg.multis@[k as int].1@));
        assert(rest.skip(1) =~= m.multis.skip(k + 1));
        let found = multi_line_todo_at(
            s,
            lo,
            hi,
            cfg.borders.as_slice(),
            cfg.multis[k].0.as_slice(),
            cfg.multis[k].1.as_slice(),
        );
        if found.is_some() {
            return found;
        }
        k += 1;
    }
    k = 0;
    assert(m.singles.skip(0) =~= m.singles);
    while k < cfg.singles.len()
        invariant
            lo <= hi <= s@.len(),
            w == s@.subrange(lo as int, hi as int),
            m == cfg@,
            k <= cfg.singles@.len(),
            spec_first_multi(m.borders, m.multis, w) is None,
            spec_first_single(m.borders, m.singles, w) == spec_first_single(
                m.borders,
                m.singles.skip(k as int),
                w,
            ),
        decreases cfg.singles@.len() - k,
    {
        let ghost rest = m.singles.skip(k as int);
        assert(rest[0] == cfg.singles@[k as int]@);
        assert(rest.skip(1) =~= m.singles.skip(k + 1));
        let found = single_line_todo_at(
            s,
            lo,
            hi,
            cfg.borders.as_slice(),
            cfg.singles[k].as_slice(),
        );
        if found.is_some() {
            return found;
        }
        k += 1;
    }
    None
}

/// Eats the todo at the start of the input: the first multi line comment
/// style of the configuration that finds one decides, and where none does,
/// the first single line comment style that finds one. Fails where no style
/// finds a todo, which is common: a line may hold the word of a tag without
/// holding a todo.
pub fn parse_todo<'a>(cfg: &TodoParserConfig, i: &'a str) -> (r: Result<
    (&'a str, ParsedTodo<'a>),
    ParseError,
>)
    ensures
        match r {
            Ok((rest, todo)) => spec_parse_todo(cfg@, i@) == Some((rest@, todo@)),
            Err(_) => spec_parse_todo(cfg@, i@) is None,
        },
{
    let s = str_to_chars(i);
    let chars = cfg.to_chars();
    let n = s.len();
    proof {
        lemma_whole(s@);
    }
    match parse_todo_at(s.as_slice(), 0, n, &chars) {
        Some((p, todo)) => Ok((i.substring_char(p, n), todo.cut(i))),
        None => Err(ParseError),
    }
}

/// The first todo in `i` that starts at the start of a line, and what is
/// left of `i` behind it. `None` where no line starts with a todo, and where
/// a line's text ends at a carriage return that no line feed follows before a
/// todo is found.
pub open spec fn spec_next_todo(cfg: ConfigModel, i: Seq<char>) -> Option<(Seq<char>, TodoModel)>
    decreases i.len(),
{
    match spec_parse_todo(cfg, i) {
        Some(found) => Some(found),
        None => if after_first_line(i).len() < i.len() {
            spec_next_todo(cfg, after_first_line(i))
        } else {
            None
        },
    }
}

/// All the todos in `i` that `spec_next_todo` finds one after the other.
pub open spec fn spec_parse_todos(cfg: ConfigModel, i: Seq<char>) -> Seq<TodoModel>
    decreases i.len(),
{
    match spec_next_todo(cfg, i) {
        Some((rest, todo)) => if rest.len() < i.len() {
            seq![todo] + spec_parse_todos(cfg, rest)
        } else {
            seq![todo]
        },
        None => Seq::empty(),
    }
}

/// The todos that a list holds, as values of specifications.
pub open spec fn todos(v: Seq<ParsedTodo<'_>>) -> Seq<TodoModel> {
    v.map_values(|t: ParsedTodo<'_>| t@)
}

/// Runs `spec_next_todo` on the window `[lo, hi)` of `s`.
fn next_todo_at(s: &[char], lo: usize, hi: usize, cfg: &ConfigChars) -> (r: Option<(usize, TodoAt)>)
    requires
        lo <= hi <= s@.len(),
    ensures
        match r {
            Some((p, todo)) => lo < p <= hi && todo.fits(p as nat) && spec_next_todo(
                cfg@,
                s@.subrange(lo as int, hi as int),
            ) == Some((s@.subrange(p as int, hi as int), todo.of(s@))),
            None => spec_next_todo(cfg@, s@.subrange(lo as int, hi as int)) is None,
        },
{
    let ghost w = s@.subrange(lo as int, hi as int);
    let mut cur = lo;
    loop
        invariant
            lo <= cur <= hi <= s@.len(),
            w == s@.subrange(lo as int, hi as int),
            spec_next_todo(cfg@, w) == spec_next_todo(cfg@, s@.subrange(cur as int, hi as int)),
        decreases hi - cur,
    {
        let found = parse_todo_at(s, cur, hi, cfg);
        if found.is_some() {
            return found;
        }
        let (_, next) = line_at(s, cur, hi);
        if next == cur {
            return None;
        }
        cur = next;
    }
}

/// Finds all the todos in the input that start at the start of a line, from
/// the top down. The search ends with the input, and at a carriage return
/// that no line feed follows.
pub fn parse_todos<'a>(cfg: &TodoParserConfig, i: &'a str) -> (r: Vec<ParsedTodo<'a>>)
    ensures
        todos(r@) == spec_parse_todos(cfg@, i@),
{
    let s = str_to_chars(i);
    let chars = cfg.to_chars();
    let n = s.len();
    let ghost m = cfg@;
    let mut found: Vec<ParsedTodo<'a>> = Vec::new();
    let ghost mut models: Seq<TodoModel> = Seq::empty();
    let mut cur: usize = 0;
    proof {
        lemma_whole(s@);
        assert(todos(found@) =~= models);
        assert(models + spec_parse_todos(m, i@) =~= spec_parse_todos(m, i@));
    }
    loop
        invariant
            cur <= n == s@.len(),
            s@ == i@,
            chars@ == m,
            todos(found@) == models,
            spec_parse_todos(m, i@) == models + spec_parse_todos(
                m,
                s@.subrange(cur as int, n as int),
            ),
        ensures
            models == spec_parse_todos(m, i@),
            todos(found@) == models,
        decreases n - cur,
    {
        match next_todo_at(s.as_slice(), cur, n, &chars) {
            Some((p, todo)) => {
                let ghost w = s@.subrange(cur as int, n as int);
                let ghost rest = spec_parse_todos(m, s@.subrange(p as int, n as int));
                let ghost model = todo.of(s@);
                let parsed = todo.cut(i);
                assert(parsed@ == model);
                let ghost before = found@;
                found.push(parsed);
                proof {
                    assert(found@ == before.push(parsed));
                    assert(todos(found@) =~= todos(before).push(model));
                    assert(spec_parse_todos(m, w) == seq![model] + rest);
                    assert(models + (seq![model] + rest) =~= models.push(model) + rest);
                    models = models.push(model);
                }
                cur = p;
            },
            None => {
                proof {
                    assert(spec_parse_todos(m, s@.subrange(cur as int, n as int))
                        =~= Seq::<TodoModel>::empty());
                    assert(models + Seq::<TodoModel>::empty() =~= models);
                }
                break ;
            },
        }
    }
    found
}

/// Parser configurations by file extension: a list of extensions, each with
/// the configuration for the files that bear it.
pub struct ParserConfigLookup(pub Vec<(String, TodoParserConfig)>);

/// A list of extensions with their configurations, as a value of
/// specifications.
pub type ConfigIndex = Seq<(Seq<char>, ConfigModel)>;

/// The extensions of an index, in its order.
pub open spec fn config_extensions(index: ConfigIndex) -> Seq<Seq<char>> {
    index.map_values(|e: (Seq<char>, ConfigModel)| e.0)
}

/// The configuration that the index holds for the extension `ext`: that of
/// the first entry for it.
pub open spec fn config_for(index: ConfigIndex, ext: Seq<char>) -> Option<ConfigModel> {
    match position(config_extensions(index), ext) {
        Some(i) => Some(index[i].1),
        None => None,
    }
}

/// The index with the comment styles of `cfg` added to the configuration of
/// the extension `ext`; where the index has none for it, a new entry at its
/// end holds them.
pub open spec fn merge_under(index: ConfigIndex, ext: Seq<char>, cfg: ConfigModel) -> ConfigIndex {
    match position(config_extensions(index), ext) {
        Some(i) => index.update(i, (ext, index[i].1.merged(cfg))),
        None => index.push((ext, ConfigModel::empty().merged(cfg))),
    }
}

/// The index with the comment styles of `cfg` added to the configuration of
/// each of the extensions `exts`, one after the other.
pub open spec fn merge_under_all(index: ConfigIndex, exts: Seq<Seq<char>>, cfg: ConfigModel)
    -> ConfigIndex
    decreases exts.len(),
{
    if exts.len() == 0 {
        index
    } else {
        merge_under(merge_under_all(index, exts.drop_last(), cfg), exts.last(), cfg)
    }
}

impl View for ParserConfigLookup {
    type V = ConfigIndex;

    open spec fn view(&self) -> ConfigIndex {
        self.0@.map_values(|e: (String, TodoParserConfig)| (e.0@, e.1@))
    }
}

impl Default for ParserConfigLookup {
    fn default() -> (r: Self)
        ensures
            r@ == Seq::<(Seq<char>, ConfigModel)>::empty(),
    {
        ParserConfigLookup::new()
    }
}

/// Adding comment styles under extensions leaves no extension with two
/// entries.
pub proof fn lemma_merge_under_all(index: ConfigIndex, exts: Seq<Seq<char>>, cfg: ConfigModel)
    requires
        distinct(config_extensions(index)),
    ensures
        distinct(config_extensions(merge_under_all(index, exts, cfg))),
    decreases exts.len(),
{
    if exts.len() > 0 {
        lemma_merge_under_all(index, exts.drop_last(), cfg);
        let before = merge_under_all(index, exts.drop_last(), cfg);
        let ext = exts.last();
        let after = merge_under(before, ext, cfg);
        lemma_position_is_first(config_extensions(before), ext);
        match position(config_extensions(before), ext) {
            Some(i) => {
                assert(config_extensions(after) =~= config_extensions(before));
            },
            None => {
                assert(config_extensions(after) =~= config_extensions(before).push(ext));
                lemma_distinct_push(config_extensions(before), ext);
            },
        }
    }
}

impl ParserConfigLookup {
    /// The lookup is well formed: it holds each extension once.
    pub open spec fn wf(&self) -> bool {
        distinct(config_extensions(self@))
    }

    /// The lookup that holds no configuration.
    pub fn new() -> (r: Self)
        ensures
            r.wf(),
            r@ == Seq::<(Seq<char>, ConfigModel)>::empty(),
    {
        let r = ParserConfigLookup(Vec::new());
        assert(r@ =~= Seq::empty());
        r
    }

    /// Adds the comment styles of the language to the configuration of each
    /// of its file extensions.
    pub fn add_lang(&mut self, language: SupportedLanguage)
        ensures
            final(self)@ == merge_under_all(
                old(self)@,
                language@.file_extensions,
                ConfigModel::from_styles(language@.comment_styles),
            ),
            old(self).wf() ==> final(self).wf(),
    {
        proof {
            if old(self).wf() {
                lemma_merge_under_all(
                    old(self)@,
                    language@.file_extensions,
                    ConfigModel::from_styles(language@.comment_styles),
                );
            }
        }
        let cfg = language.as_todo_parser_config();
        let ghost exts = language@.file_extensions;
        let mut k: usize = 0;
        while k < language.file_extensions.len()
            invariant
                k <= language.file_extensions@.len(),
                exts == language@.file_extensions,
                self@ == merge_under_all(old(self)@, exts.take(k as int), cfg@),
            decreases language.file_extensions@.len() - k,
        {
            let ext = &language.file_extensions[k];
            let ghost before = self@;
            assert(exts.take(k + 1).drop_last() =~= exts.take(k as int));
            assert(config_extensions(before) =~= keys_of(self.0@));
            match find_key(self.0.as_slice(), ext.as_str()) {
                Some(i) => {
                    proof {
                        lemma_position_is_first(config_extensions(before), ext@);
                    }
                    let ghost entries_before = self.0@;
                    let mut entry = self.0.remove(i);
                    assert(entry == entries_before[i as int]);
                    entry.1.add_parser_config(cfg.duplicate());
                    self.0.insert(i, entry);
                    assert(self.0@ =~= entries_before.update(i as int, entry));
                    assert(self@ =~= before.update(
                        i as int,
                        (ext@, before[i as int].1.merged(cfg@)),
                    ));
                },
                None => {
                    let mut fresh = TodoParserConfig::new();
                    fresh.add_parser_config(cfg.duplicate());
                    self.0.push((ext.clone(), fresh));
                    assert(self@ =~= before.push((ext@, ConfigModel::empty().merged(cfg@))));
                },
            }
            k += 1;
        }
        assert(exts.take(k as int) =~= exts);
    }

    /// The configuration for files that bear exactly the extension `ext`.
    pub fn find_exact(&self, ext: &str) -> (r: Option<&TodoParserConfig>)
        ensures
            match r {
                Some(cfg) => config_for(self@, ext@) == Some(cfg@),
                None => config_for(self@, ext@) is None,
            },
    {
        assert(config_extensions(self@) =~= keys_of(self.0@));
        match find_key(self.0.as_slice(), ext) {
            Some(i) => Some(&self.0[i].1),
            None => None,
        }
    }

    /// The configuration for files that bear the extension `ext`, in whatever
    /// case it is written.
    pub fn find_parser_config(&self, ext: String) -> (r: Option<&TodoParserConfig>)
        ensures
            match r {
                Some(cfg) => config_for(self@, lowercase_of(ext@)) == Some(cfg@),
                None => config_for(self@, lowercase_of(ext@)) is None,
            },
    {
        let lower = to_lowercase(ext.as_str());
        self.find_exact(lower.as_str())
    }
}

} // verus!
