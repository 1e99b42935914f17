//! Text primitives shared by all the parsers of this crate.
//!
//! A text is modelled as a `Seq<char>`. The executable functions work on a
//! buffer of characters and a window `[lo, hi)` into it, and say what they
//! found in terms of the spec functions defined here on the window's contents.

use vstd::prelude::*;
use vstd::string::*;
use vstd::utf8::{encode_utf8, encode_utf8_decode_utf8, valid_utf8};

pub mod keyed;
pub mod number;
pub mod order;

verus! {

/// The classes of characters that the grammars of this crate distinguish.
#[derive(Clone, Copy, Debug)]
pub enum CharClass {
    /// A space or a horizontal tab.
    Blank,
    /// A carriage return or a line feed.
    LineBreak,
    /// Any character with the Unicode property `White_Space`.
    Whitespace,
    /// One of the sentence terminators `.`, `?` and `!`.
    Terminator,
    /// An ASCII decimal digit.
    Digit,
    /// A character that cannot occur in an assignee's name: a space, a line
    /// break or a closing parenthesis.
    NameEnd,
    /// The given character and no other.
    Only(char),
}

/// Whether `c` has the Unicode property `White_Space`.
pub open spec fn is_whitespace(c: char) -> bool {
    ||| '\u{9}' <= c <= '\u{d}'
    ||| c == ' '
    ||| c == '\u{85}'
    ||| c == '\u{a0}'
    ||| c == '\u{1680}'
    ||| '\u{2000}' <= c <= '\u{200a}'
    ||| c == '\u{2028}'
    ||| c == '\u{2029}'
    ||| c == '\u{202f}'
    ||| c == '\u{205f}'
    ||| c == '\u{3000}'
}

impl CharClass {
    /// Whether the character `c` belongs to the class.
    pub open spec fn has(self, c: char) -> bool {
        match self {
            CharClass::Blank => c == ' ' || c == '\t',
            CharClass::LineBreak => c == '\r' || c == '\n',
            CharClass::Whitespace => is_whitespace(c),
            CharClass::Terminator => c == '.' || c == '?' || c == '!',
            CharClass::Digit => '0' <= c <= '9',
            CharClass::NameEnd => c == '\r' || c == '\n' || c == ' ' || c == ')',
            CharClass::Only(d) => c == d,
        }
    }

    /// Tests the character `c` for membership.
    pub fn contains(&self, c: char) -> (r: bool)
        ensures
            r == self.has(c),
    {
        match self {
            CharClass::Blank => c == ' ' || c == '\t',
            CharClass::LineBreak => c == '\r' || c == '\n',
            CharClass::Whitespace => {
                ('\u{9}' <= c && c <= '\u{d}') || c == ' ' || c == '\u{85}' || c == '\u{a0}'
                    || c == '\u{1680}' || ('\u{2000}' <= c && c <= '\u{200a}') || c == '\u{2028}'
                    || c == '\u{2029}' || c == '\u{202f}' || c == '\u{205f}' || c == '\u{3000}'
            },
            CharClass::Terminator => c == '.' || c == '?' || c == '!',
            CharClass::Digit => '0' <= c && c <= '9',
            CharClass::NameEnd => c == '\r' || c == '\n' || c == ' ' || c == ')',
            CharClass::Only(d) => c == *d,
        }
    }
}

/// The length of the longest prefix of `s` whose characters all lie inside
/// the class `k` (for `inside`), or all outside it (for `!inside`).
pub open spec fn run_len(s: Seq<char>, k: CharClass, inside: bool) -> nat
    decreases s.len(),
{
    if s.len() > 0 && k.has(s[0]) == inside {
        1 + run_len(s.skip(1), k, inside)
    } else {
        0
    }
}

/// The length of the longest suffix of `s` whose characters all lie inside
/// the class `k` (for `inside`), or all outside it (for `!inside`).
pub open spec fn run_len_back(s: Seq<char>, k: CharClass, inside: bool) -> nat
    decreases s.len(),
{
    if s.len() > 0 && k.has(s.last()) == inside {
        1 + run_len_back(s.drop_last(), k, inside)
    } else {
        0
    }
}

/// The longest prefix of `s` that `run_len` measures.
pub open spec fn take_run(s: Seq<char>, k: CharClass, inside: bool) -> Seq<char> {
    s.take(run_len(s, k, inside) as int)
}

/// What is left of `s` behind the prefix that `run_len` measures.
pub open spec fn drop_run(s: Seq<char>, k: CharClass, inside: bool) -> Seq<char> {
    s.skip(run_len(s, k, inside) as int)
}

/// What is left of `s` before the suffix that `run_len_back` measures.
pub open spec fn drop_run_back(s: Seq<char>, k: CharClass, inside: bool) -> Seq<char> {
    s.take(s.len() - run_len_back(s, k, inside))
}

/// `run_len` is the one position at which a run from the start of `s` ends.
pub proof fn lemma_run_len(s: Seq<char>, k: CharClass, inside: bool, n: int)
    requires
        0 <= n <= s.len(),
        forall|i: int| 0 <= i < n ==> k.has(#[trigger] s[i]) == inside,
        n == s.len() || k.has(s[n]) != inside,
    ensures
        run_len(s, k, inside) == n,
    decreases s.len(),
{
    if n > 0 {
        let t = s.skip(1);
        assert forall|i: int| 0 <= i < n - 1 implies k.has(#[trigger] t[i]) == inside by {
            assert(t[i] == s[i + 1]);
        }
        lemma_run_len(t, k, inside, n - 1);
    }
}

/// What `run_len` returns: a position inside `s`, with the class (or its
/// complement) before it and not at it.
pub proof fn lemma_run_len_is_run(s: Seq<char>, k: CharClass, inside: bool)
    ensures
        run_len(s, k, inside) <= s.len(),
        forall|i: int| 0 <= i < run_len(s, k, inside) ==> k.has(#[trigger] s[i]) == inside,
        run_len(s, k, inside) == s.len() || k.has(s[run_len(s, k, inside) as int]) != inside,
    decreases s.len(),
{
    if s.len() > 0 && k.has(s[0]) == inside {
        let t = s.skip(1);
        lemma_run_len_is_run(t, k, inside);
        assert forall|i: int| 0 <= i < run_len(s, k, inside) implies k.has(#[trigger] s[i])
            == inside by {
            if i > 0 {
                assert(s[i] == t[i - 1]);
            }
        }
    }
}

/// `run_len_back` is the one position at which a run up to the end of `s`
/// starts, counted from the end.
pub proof fn lemma_run_len_back(s: Seq<char>, k: CharClass, inside: bool, n: int)
    requires
        0 <= n <= s.len(),
        forall|i: int| s.len() - n <= i < s.len() ==> k.has(#[trigger] s[i]) == inside,
        n == s.len() || k.has(s[s.len() - n - 1]) != inside,
    ensures
        run_len_back(s, k, inside) == n,
    decreases s.len(),
{
    if n > 0 {
        let t = s.drop_last();
        assert forall|i: int| t.len() - (n - 1) <= i < t.len() implies k.has(#[trigger] t[i])
            == inside by {
            assert(t[i] == s[i]);
        }
        lemma_run_len_back(t, k, inside, n - 1);
    }
}

/// What `run_len_back` returns: a length within `s`, with the class (or its
/// complement) on the last that many characters and not before them.
pub proof fn lemma_run_len_back_is_run(s: Seq<char>, k: CharClass, inside: bool)
    ensures
        run_len_back(s, k, inside) <= s.len(),
        forall|i: int|
            s.len() - run_len_back(s, k, inside) <= i < s.len() ==> k.has(#[trigger] s[i])
                == inside,
        run_len_back(s, k, inside) == s.len() || k.has(
            s[s.len() - run_len_back(s, k, inside) - 1],
        ) != inside,
    decreases s.len(),
{
    if s.len() > 0 && k.has(s.last()) == inside {
        let t = s.drop_last();
        lemma_run_len_back_is_run(t, k, inside);
        assert forall|i: int|
            s.len() - run_len_back(s, k, inside) <= i < s.len() implies k.has(#[trigger] s[i])
            == inside by {
            if i < s.len() - 1 {
                assert(s[i] == t[i]);
            }
        }
    }
}

/// A text without the character `c`, followed by `c`, is what stands before
/// the first `c`.
pub proof fn lemma_take_until(a: Seq<char>, c: char, rest: Seq<char>)
    requires
        !a.contains(c),
    ensures
        take_run(a + seq![c] + rest, CharClass::Only(c), false) == a,
        drop_run(a + seq![c] + rest, CharClass::Only(c), false) == seq![c] + rest,
{
    let s = a + seq![c] + rest;
    assert forall|i: int| 0 <= i < a.len() implies CharClass::Only(c).has(#[trigger] s[i])
        == false by {
        assert(s[i] == a[i]);
        assert(a.contains(a[i]));
    }
    assert(s[a.len() as int] == c);
    lemma_run_len(s, CharClass::Only(c), false, a.len() as int);
    assert(s.take(a.len() as int) =~= a);
    assert(s.skip(a.len() as int) =~= seq![c] + rest);
}

/// Finds where the run of characters inside `k` (or outside it) that starts
/// at `lo` ends, looking no further than `hi`.
pub fn scan_run(s: &[char], lo: usize, hi: usize, k: CharClass, inside: bool) -> (end: usize)
    requires
        lo <= hi <= s@.len(),
    ensures
        lo <= end <= hi,
        end - lo == run_len(s@.subrange(lo as int, hi as int), k, inside),
        s@.subrange(lo as int, end as int) == take_run(
            s@.subrange(lo as int, hi as int),
            k,
            inside,
        ),
        s@.subrange(end as int, hi as int) == drop_run(
            s@.subrange(lo as int, hi as int),
            k,
            inside,
        ),
{
    let mut i: usize = lo;
    while i < hi && k.contains(s[i]) == inside
        invariant
            lo <= i <= hi <= s@.len(),
            forall|j: int| lo <= j < i ==> k.has(#[trigger] s@[j]) == inside,
        decreases hi - i,
    {
        i += 1;
    }
    proof {
        let w = s@.subrange(lo as int, hi as int);
        lemma_run_len(w, k, inside, i - lo);
        assert(w.take(i - lo) =~= s@.subrange(lo as int, i as int));
        assert(w.skip(i - lo) =~= s@.subrange(i as int, hi as int));
    }
    i
}

/// Finds where the run of characters inside `k` (or outside it) that ends
/// at `hi` starts, looking no further back than `lo`.
pub fn scan_run_back(s: &[char], lo: usize, hi: usize, k: CharClass, inside: bool) -> (start:
    usize)
    requires
        lo <= hi <= s@.len(),
    ensures
        lo <= start <= hi,
        hi - start == run_len_back(s@.subrange(lo as int, hi as int), k, inside),
        s@.subrange(lo as int, start as int) == drop_run_back(
            s@.subrange(lo as int, hi as int),
            k,
            inside,
        ),
{
    let mut i: usize = hi;
    while i > lo && k.contains(s[i - 1]) == inside
        invariant
            lo <= i <= hi <= s@.len(),
            forall|j: int| i <= j < hi ==> k.has(#[trigger] s@[j]) == inside,
        decreases i - lo,
    {
        i -= 1;
    }
    proof {
        let w = s@.subrange(lo as int, hi as int);
        lemma_run_len_back(w, k, inside, hi - i);
        assert(w.take(w.len() - (hi - i)) =~= s@.subrange(lo as int, i as int));
    }
    i
}

/// The whole of `s` as a window: a subrange from start to end is the text itself.
pub proof fn lemma_whole(s: Seq<char>)
    ensures
        s.subrange(0, s.len() as int) == s,
{
    assert(s.subrange(0, s.len() as int) =~= s);
}

/// A window `[start, end)` into a buffer of characters.
#[derive(Clone, Copy, Debug)]
pub struct Span {
    pub start: usize,
    pub end: usize,
}

impl Span {
    /// The window lies within a buffer of `len` characters.
    pub open spec fn fits(self, len: nat) -> bool {
        self.start <= self.end <= len
    }

    /// The characters of `s` that the window covers.
    pub open spec fn of(self, s: Seq<char>) -> Seq<char> {
        s.subrange(self.start as int, self.end as int)
    }
}

/// The texts that a list of windows covers in the text `s`.
pub open spec fn spans_of(v: Seq<Span>, s: Seq<char>) -> Seq<Seq<char>> {
    v.map_values(|w: Span| w.of(s))
}

/// Copies the characters of a string into a buffer.
pub fn str_to_chars(s: &str) -> (r: Vec<char>)
    ensures
        r@ == s@,
{
    let mut r: Vec<char> = Vec::new();
    for c in it: s.chars()
        invariant
            r@ == it.seq().take(it.index() as int),
    {
        r.push(c);
    }
    r
}

/// The texts that a list of strings holds.
pub open spec fn texts(v: Seq<String>) -> Seq<Seq<char>> {
    v.map_values(|s: String| s@)
}

/// The texts that a list of string slices holds.
pub open spec fn slices(v: Seq<&str>) -> Seq<Seq<char>> {
    v.map_values(|l: &str| l@)
}

/// The texts that a list of character buffers holds.
pub open spec fn buffers(v: Seq<Vec<char>>) -> Seq<Seq<char>> {
    v.map_values(|b: Vec<char>| b@)
}

/// Copies the characters of each string of a list into a buffer of its own.
pub fn strs_to_chars(v: &[String]) -> (r: Vec<Vec<char>>)
    ensures
        buffers(r@) == texts(v@),
{
    let mut r: Vec<Vec<char>> = Vec::new();
    let mut i: usize = 0;
    while i < v.len()
        invariant
            i <= v@.len(),
            r@.len() == i,
            forall|j: int| 0 <= j < i ==> (#[trigger] r@[j])@ == v@[j]@,
        decreases v@.len() - i,
    {
        r.push(str_to_chars(v[i].as_str()));
        i += 1;
    }
    assert(buffers(r@) =~= texts(v@));
    r
}

/// Tests whether the window `[lo, hi)` of `s` starts with `t`.
pub fn starts_with_at(s: &[char], lo: usize, hi: usize, t: &[char]) -> (r: bool)
    requires
        lo <= hi <= s@.len(),
    ensures
        r == t@.is_prefix_of(s@.subrange(lo as int, hi as int)),
{
    let n = t.len();
    if n > hi - lo {
        return false;
    }
    let mut i: usize = 0;
    while i < n
        invariant
            lo <= hi <= s@.len(),
            n == t@.len(),
            n <= hi - lo,
            i <= n,
            forall|j: int| 0 <= j < i ==> t@[j] == s@[lo + j],
        decreases n - i,
    {
        if t[i] != s[lo + i] {
            proof {
                let w = s@.subrange(lo as int, hi as int);
                assert(w.subrange(0, n as int)[i as int] == s@[lo + i]);
            }
            return false;
        }
        i += 1;
    }
    proof {
        let w = s@.subrange(lo as int, hi as int);
        assert(t@ =~= w.subrange(0, n as int));
    }
    true
}

/// Tests whether the window `[lo, hi)` of `s` ends with `t`.
pub fn ends_with_at(s: &[char], lo: usize, hi: usize, t: &[char]) -> (r: bool)
    requires
        lo <= hi <= s@.len(),
    ensures
        r == t@.is_suffix_of(s@.subrange(lo as int, hi as int)),
{
    let n = t.len();
    if n > hi - lo {
        return false;
    }
    let r = starts_with_at(s, hi - n, hi, t);
    proof {
        let w = s@.subrange(lo as int, hi as int);
        let v = s@.subrange(hi - n, hi as int);
        assert(w.subrange(w.len() - n, w.len() as int) =~= v);
        assert(v.subrange(0, n as int) =~= v);
    }
    r
}

/// Tests two buffers for holding the same characters.
pub fn same_chars(a: &[char], b: &[char]) -> (r: bool)
    ensures
        r == (a@ == b@),
{
    if a.len() != b.len() {
        return false;
    }
    let r = starts_with_at(a, 0, a.len(), b);
    proof {
        lemma_whole(a@);
        if r {
            assert(b@ =~= a@.subrange(0, b@.len() as int));
        } else {
            assert(a@.subrange(0, a@.len() as int) =~= a@);
        }
    }
    r
}

/// Where `t` first occurs in `s`, as an offset from the start of `s`.
pub open spec fn find_first(s: Seq<char>, t: Seq<char>) -> Option<nat>
    decreases s.len(),
{
    if t.is_prefix_of(s) {
        Some(0)
    } else if s.len() == 0 {
        None
    } else {
        match find_first(s.skip(1), t) {
            Some(n) => Some(n + 1),
            None => None,
        }
    }
}

/// `find_first` returns the least offset at which `t` occurs.
pub proof fn lemma_find_first_some(s: Seq<char>, t: Seq<char>, n: int)
    requires
        0 <= n <= s.len(),
        t.is_prefix_of(s.skip(n)),
        forall|j: int| 0 <= j < n ==> !t.is_prefix_of(#[trigger] s.skip(j)),
    ensures
        find_first(s, t) == Some(n as nat),
    decreases s.len(),
{
    assert(s.skip(0) =~= s);
    if n > 0 {
        let u = s.skip(1);
        assert(u.skip(n - 1) =~= s.skip(n));
        assert forall|j: int| 0 <= j < n - 1 implies !t.is_prefix_of(#[trigger] u.skip(j)) by {
            assert(u.skip(j) =~= s.skip(j + 1));
        }
        lemma_find_first_some(u, t, n - 1);
    }
}

/// `find_first` returns nothing only where `t` occurs nowhere.
pub proof fn lemma_find_first_none(s: Seq<char>, t: Seq<char>)
    requires
        forall|j: int| 0 <= j <= s.len() ==> !t.is_prefix_of(#[trigger] s.skip(j)),
    ensures
        find_first(s, t) is None,
    decreases s.len(),
{
    assert(s.skip(0) =~= s);
    if s.len() > 0 {
        let u = s.skip(1);
        assert forall|j: int| 0 <= j <= u.len() implies !t.is_prefix_of(#[trigger] u.skip(j)) by {
            assert(u.skip(j) =~= s.skip(j + 1));
        }
        lemma_find_first_none(u, t);
    }
}

/// Searches the window `[lo, hi)` of `s` for the first occurrence of `t`.
pub fn find_at(s: &[char], lo: usize, hi: usize, t: &[char]) -> (r: Option<usize>)
    requires
        lo <= hi <= s@.len(),
    ensures
        match r {
            Some(p) => lo <= p && p + t@.len() <= hi && find_first(
                s@.subrange(lo as int, hi as int),
                t@,
            ) == Some((p - lo) as nat),
            None => find_first(s@.subrange(lo as int, hi as int), t@) is None,
        },
{
    let ghost w = s@.subrange(lo as int, hi as int);
    let mut i: usize = lo;
    while i < hi
        invariant
            lo <= i <= hi <= s@.len(),
            w == s@.subrange(lo as int, hi as int),
            forall|j: int| 0 <= j < i - lo ==> !t@.is_prefix_of(#[trigger] w.skip(j)),
        decreases hi - i,
    {
        let hit = starts_with_at(s, i, hi, t);
        assert(w.skip(i - lo) =~= s@.subrange(i as int, hi as int));
        if hit {
            proof {
                lemma_find_first_some(w, t@, i - lo);
            }
            return Some(i);
        }
        i += 1;
    }
    assert(w.skip(hi - lo) =~= s@.subrange(hi as int, hi as int));
    if starts_with_at(s, hi, hi, t) {
        proof {
            lemma_find_first_some(w, t@, hi - lo);
        }
        Some(hi)
    } else {
        proof {
            lemma_find_first_none(w, t@);
        }
        None
    }
}

/// `s` without any leading and trailing whitespace.
pub open spec fn trim(s: Seq<char>) -> Seq<char> {
    drop_run_back(drop_run(s, CharClass::Whitespace, true), CharClass::Whitespace, true)
}

/// A text is trimmed where neither its first nor its last character is
/// whitespace.
pub open spec fn is_trimmed(s: Seq<char>) -> bool {
    s.len() == 0 || (!is_whitespace(s[0]) && !is_whitespace(s.last()))
}

/// What `trim` returns is trimmed, and no longer than what it was given.
pub proof fn lemma_trim_is_trimmed(s: Seq<char>)
    ensures
        is_trimmed(trim(s)),
        trim(s).len() <= s.len(),
{
    let k = CharClass::Whitespace;
    lemma_run_len_is_run(s, k, true);
    let y = drop_run(s, k, true);
    lemma_run_len_back_is_run(y, k, true);
    let r = trim(s);
    if r.len() > 0 {
        assert(r[0] == y[0]);
        assert(y[0] == s[run_len(s, k, true) as int]);
        assert(r.last() == y[y.len() - run_len_back(y, k, true) - 1]);
    }
}

/// `trim` leaves a trimmed text as it is.
pub proof fn lemma_trim_of_trimmed(s: Seq<char>)
    requires
        is_trimmed(s),
    ensures
        trim(s) == s,
{
    let k = CharClass::Whitespace;
    lemma_run_len(s, k, true, 0);
    assert(s.skip(0) =~= s);
    lemma_run_len_back(s, k, true, 0);
    assert(s.take(s.len() as int) =~= s);
}

/// `s` with every leading repetition of the non-empty token `t` removed; an
/// empty token removes nothing.
pub open spec fn strip_prefixes(s: Seq<char>, t: Seq<char>) -> Seq<char>
    decreases s.len(),
{
    if t.len() > 0 && t.is_prefix_of(s) {
        strip_prefixes(s.skip(t.len() as int), t)
    } else {
        s
    }
}

/// `s` with every trailing repetition of the non-empty token `t` removed; an
/// empty token removes nothing.
pub open spec fn strip_suffixes(s: Seq<char>, t: Seq<char>) -> Seq<char>
    decreases s.len(),
{
    if t.len() > 0 && t.is_suffix_of(s) {
        strip_suffixes(s.take(s.len() - t.len()), t)
    } else {
        s
    }
}

/// What `strip_prefixes` returns is no longer than what it was given, and
/// shorter where the token stands at the start.
pub proof fn lemma_strip_prefixes_len(s: Seq<char>, t: Seq<char>)
    ensures
        strip_prefixes(s, t).len() <= s.len(),
        t.len() > 0 && t.is_prefix_of(s) ==> strip_prefixes(s, t).len() < s.len(),
        !(t.len() > 0 && t.is_prefix_of(s)) ==> strip_prefixes(s, t) == s,
    decreases s.len(),
{
    if t.len() > 0 && t.is_prefix_of(s) {
        lemma_strip_prefixes_len(s.skip(t.len() as int), t);
    }
}

/// What `strip_suffixes` returns is no longer than what it was given, and
/// shorter where the token stands at the end.
pub proof fn lemma_strip_suffixes_len(s: Seq<char>, t: Seq<char>)
    ensures
        strip_suffixes(s, t).len() <= s.len(),
        t.len() > 0 && t.is_suffix_of(s) ==> strip_suffixes(s, t).len() < s.len(),
        !(t.len() > 0 && t.is_suffix_of(s)) ==> strip_suffixes(s, t) == s,
    decreases s.len(),
{
    if t.len() > 0 && t.is_suffix_of(s) {
        lemma_strip_suffixes_len(s.take(s.len() - t.len()), t);
    }
}

/// Narrows the window `[lo, hi)` of `s` to what `trim` leaves of it.
pub fn trim_at(s: &[char], lo: usize, hi: usize) -> (r: Span)
    requires
        lo <= hi <= s@.len(),
    ensures
        lo <= r.start <= r.end <= hi,
        r.of(s@) == trim(s@.subrange(lo as int, hi as int)),
{
    let a = scan_run(s, lo, hi, CharClass::Whitespace, true);
    let b = scan_run_back(s, a, hi, CharClass::Whitespace, true);
    Span { start: a, end: b }
}

/// Moves the start of the window `[lo, hi)` of `s` past every leading
/// repetition of `t`.
pub fn strip_prefixes_at(s: &[char], lo: usize, hi: usize, t: &[char]) -> (start: usize)
    requires
        lo <= hi <= s@.len(),
    ensures
        lo <= start <= hi,
        s@.subrange(start as int, hi as int) == strip_prefixes(
            s@.subrange(lo as int, hi as int),
            t@,
        ),
{
    let n = t.len();
    let mut i: usize = lo;
    if n == 0 {
        return i;
    }
    while starts_with_at(s, i, hi, t)
        invariant
            lo <= i <= hi <= s@.len(),
            n == t@.len(),
            n > 0,
            strip_prefixes(s@.subrange(lo as int, hi as int), t@) == strip_prefixes(
                s@.subrange(i as int, hi as int),
                t@,
            ),
        decreases hi - i,
    {
        proof {
            let w = s@.subrange(i as int, hi as int);
            assert(w.skip(n as int) =~= s@.subrange(i + n, hi as int));
        }
        i += n;
    }
    i
}

/// Moves the end of the window `[lo, hi)` of `s` before every trailing
/// repetition of `t`.
pub fn strip_suffixes_at(s: &[char], lo: usize, hi: usize, t: &[char]) -> (end: usize)
    requires
        lo <= hi <= s@.len(),
    ensures
        lo <= end <= hi,
        s@.subrange(lo as int, end as int) == strip_suffixes(
            s@.subrange(lo as int, hi as int),
            t@,
        ),
{
    let n = t.len();
    let mut i: usize = hi;
    if n == 0 {
        return i;
    }
    while ends_with_at(s, lo, i, t)
        invariant
            lo <= i <= hi <= s@.len(),
            n == t@.len(),
            n > 0,
            strip_suffixes(s@.subrange(lo as int, hi as int), t@) == strip_suffixes(
                s@.subrange(lo as int, i as int),
                t@,
            ),
        decreases i - lo,
    {
        proof {
            let w = s@.subrange(lo as int, i as int);
            assert(w.take(w.len() - n) =~= s@.subrange(lo as int, i - n));
        }
        i -= n;
    }
    i
}

/// Tests two strings for holding the same text.
pub fn str_eq(a: &str, b: &str) -> (r: bool)
    ensures
        r == (a@ == b@),
{
    let x = a.as_bytes();
    let y = b.as_bytes();
    proof {
        encode_utf8_decode_utf8(a@);
        encode_utf8_decode_utf8(b@);
    }
    if x.len() != y.len() {
        return false;
    }
    let mut i: usize = 0;
    while i < x.len()
        invariant
            i <= x@.len() == y@.len(),
            x@ == encode_utf8(a@),
            y@ == encode_utf8(b@),
            forall|j: int| 0 <= j < i ==> x@[j] == y@[j],
        decreases x@.len() - i,
    {
        if x[i] != y[i] {
            return false;
        }
        i += 1;
    }
    assert(x@ =~= y@);
    true
}

/// The string without the whitespace at its start and its end.
pub fn trimmed<'a>(i: &'a str) -> (r: &'a str)
    ensures
        r@ == trim(i@),
{
    let s = str_to_chars(i);
    proof {
        lemma_whole(s@);
    }
    let w = trim_at(s.as_slice(), 0, s.len());
    i.substring_char(w.start, w.end)
}

/// The string without the repetitions of `token` at its start.
pub fn without_prefixes<'a>(i: &'a str, token: &str) -> (r: &'a str)
    ensures
        r@ == strip_prefixes(i@, token@),
{
    let s = str_to_chars(i);
    let t = str_to_chars(token);
    proof {
        lemma_whole(s@);
    }
    let start = strip_prefixes_at(s.as_slice(), 0, s.len(), t.as_slice());
    i.substring_char(start, s.len())
}

/// The string without the repetitions of `token` at its end.
pub fn without_suffixes<'a>(i: &'a str, token: &str) -> (r: &'a str)
    ensures
        r@ == strip_suffixes(i@, token@),
{
    let s = str_to_chars(i);
    let t = str_to_chars(token);
    proof {
        lemma_whole(s@);
    }
    let end = strip_suffixes_at(s.as_slice(), 0, s.len(), t.as_slice());
    i.substring_char(0, end)
}

/// The texts `items` one after the other, with `sep` between each two.
pub open spec fn join(items: Seq<Seq<char>>, sep: Seq<char>) -> Seq<char>
    decreases items.len(),
{
    if items.len() == 0 {
        Seq::empty()
    } else if items.len() == 1 {
        items[0]
    } else {
        join(items.drop_last(), sep) + sep + items.last()
    }
}

/// Writes the strings `items` at the end of `out`, with `sep` between each
/// two.
pub fn push_joined(out: &mut String, items: &[String], sep: &str)
    ensures
        final(out)@ == old(out)@ + join(texts(items@), sep@),
{
    let ghost all = texts(items@);
    let mut k: usize = 0;
    assert(out@ =~= old(out)@ + join(all.take(0), sep@));
    while k < items.len()
        invariant
            k <= items@.len(),
            all == texts(items@),
            out@ == old(out)@ + join(all.take(k as int), sep@),
        decreases items@.len() - k,
    {
        let ghost so_far = out@;
        assert(all.take(k + 1).drop_last() =~= all.take(k as int));
        assert(all.take(k + 1).last() == items@[k as int]@);
        if k > 0 {
            out.append(sep);
        }
        out.append(items[k].as_str());
        assert(out@ =~= old(out)@ + join(all.take(k + 1), sep@));
        k += 1;
    }
    assert(all.take(k as int) =~= all);
}

/// The lower case form of a text, as Unicode defines it.
pub uninterp spec fn lowercase_of(s: Seq<char>) -> Seq<char>;

/// The lower case form of a string. This is `str::to_lowercase` of the
/// standard library, which is not verified here: the contract only gives its
/// result a name, `lowercase_of`, and claims that the result depends on the
/// text alone.
#[verifier::external_body]
pub(crate) fn to_lowercase(s: &str) -> (r: String)
    ensures
        r@ == lowercase_of(s@),
{
    s.to_lowercase()
}

/// The text that bytes encode in UTF-8. This is `core::str::from_utf8` of
/// the standard library, which is not verified here. The contract claims what
/// its documentation says: it succeeds on the byte sequences that are valid
/// UTF-8 and on no others, and the string it returns consists of the very
/// bytes it was given.
#[verifier::external_body]
pub(crate) fn utf8_text(bytes: &[u8]) -> (r: Option<&str>)
    ensures
        match r {
            Some(text) => valid_utf8(bytes@) && encode_utf8(text@) == bytes@,
            None => !valid_utf8(bytes@),
        },
{
    core::str::from_utf8(bytes).ok()
}

} // verus!
