//! Todos as parsed values, the issues they are grouped into, and the parsers
//! that produce them.

use vstd::prelude::*;
use vstd::string::*;

use crate::github::GitHubIssue;
use crate::parser::issue::{GitHubLocationModel, GitHubTodoLocation, issue_body, spec_issue_body};
use crate::parser::source::{ParsedTodo, TodoModel};
use crate::text::{
    CharClass, drop_run, lemma_whole, scan_run, slices, str_eq, str_to_chars, take_run, texts,
};
use crate::text::keyed::{
    distinct, lemma_position_is_first, lemma_position_none, lemma_position_some, position,
};

pub mod extract;
pub mod issue;
pub mod langs;
pub mod patch;
pub mod render;
pub mod source;

verus! {

/// The failure of a parser: the input does not start with what the parser
/// recognises.
#[derive(Clone, Copy, Debug, PartialEq, Eq)]
pub struct ParseError;

/// `s` without the line ending it starts with, if it starts with one: a line
/// feed, or a carriage return and a line feed. A carriage return alone is no
/// line ending.
pub open spec fn drop_line_ending(s: Seq<char>) -> Seq<char> {
    if s.len() >= 1 && s[0] == '\n' {
        s.skip(1)
    } else if s.len() >= 2 && s[0] == '\r' && s[1] == '\n' {
        s.skip(2)
    } else {
        s
    }
}

/// The first line of `s`: all that stands before the first carriage return or
/// line feed.
pub open spec fn first_line(s: Seq<char>) -> Seq<char> {
    take_run(s, CharClass::LineBreak, false)
}

/// What follows the first line of `s` and its line ending.
pub open spec fn after_first_line(s: Seq<char>) -> Seq<char> {
    drop_line_ending(drop_run(s, CharClass::LineBreak, false))
}

/// Splits off the first line of the window `[lo, hi)` of `s`. Returns where
/// the line ends and where the text behind its line ending starts.
pub fn line_at(s: &[char], lo: usize, hi: usize) -> (r: (usize, usize))
    requires
        lo <= hi <= s@.len(),
    ensures
        lo <= r.0 <= r.1 <= hi,
        r.1 <= r.0 + 2,
        s@.subrange(lo as int, r.0 as int) == first_line(s@.subrange(lo as int, hi as int)),
        s@.subrange(r.1 as int, hi as int) == after_first_line(s@.subrange(lo as int, hi as int)),
{
    let e = scan_run(s, lo, hi, CharClass::LineBreak, false);
    let ghost after = s@.subrange(e as int, hi as int);
    if e < hi && s[e] == '\n' {
        assert(after.skip(1) =~= s@.subrange(e + 1, hi as int));
        (e, e + 1)
    } else if e < hi && hi - e >= 2 && s[e] == '\r' && s[e + 1] == '\n' {
        assert(after.skip(2) =~= s@.subrange(e + 2, hi as int));
        (e, e + 2)
    } else {
        (e, e)
    }
}

/// Eats a whole line and its line ending, if it has one, and returns the
/// rest of the input and the line without that ending.
pub fn take_to_eol(i: &str) -> (r: Result<(&str, &str), ParseError>)
    ensures
        r matches Ok((rest, line)) && rest@ == after_first_line(i@) && line@ == first_line(i@),
{
    let s = str_to_chars(i);
    let n = s.len();
    proof {
        lemma_whole(s@);
    }
    let (e, p) = line_at(s.as_slice(), 0, n);
    Ok((i.substring_char(p, n), i.substring_char(0, e)))
}

/// The trackers that can hold issues.
#[derive(Debug, Clone)]
pub enum IssueProvider {
    GitHub,
}

/// Where the issues of a map were read.
#[derive(Debug, Clone)]
pub enum ParsingSource {
    MarkdownFile,
    SourceCode,
    IssueAt(IssueProvider),
}

/// What names an issue: its title, the people it is assigned to, and the id
/// that the tracker gave it.
#[derive(Debug, Clone)]
pub struct IssueHead<K> {
    pub title: String,
    pub assignees: Vec<String>,
    pub external_id: K,
}

/// The occurrences of an issue: for each, the lines of its description and
/// the place where it stands.
#[derive(Debug, Clone, PartialEq)]
pub struct IssueBody<T> {
    pub descs_and_srcs: Vec<(Vec<String>, T)>,
}

/// All the todos of one title.
#[derive(Debug, Clone)]
pub struct Issue<ExternalId, TodoLocation> {
    pub head: IssueHead<ExternalId>,
    pub body: IssueBody<TodoLocation>,
}

/// The head of an issue, as a value of specifications.
pub struct HeadModel<K> {
    pub title: Seq<char>,
    pub assignees: Seq<Seq<char>>,
    pub external_id: K,
}

/// An issue, as a value of specifications. Each occurrence is a pair of the
/// lines of its description and its place.
pub struct IssueModel<K, L> {
    pub head: HeadModel<K>,
    pub body: Seq<(Seq<Seq<char>>, L)>,
}

impl<K> View for IssueHead<K> {
    type V = HeadModel<K>;

    open spec fn view(&self) -> HeadModel<K> {
        HeadModel {
            title: self.title@,
            assignees: texts(self.assignees@),
            external_id: self.external_id,
        }
    }
}

impl<T: View> View for IssueBody<T> {
    type V = Seq<(Seq<Seq<char>>, T::V)>;

    open spec fn view(&self) -> Seq<(Seq<Seq<char>>, T::V)> {
        self.descs_and_srcs@.map_values(|o: (Vec<String>, T)| (texts(o.0@), o.1@))
    }
}

impl<K, L: View> View for Issue<K, L> {
    type V = IssueModel<K, L::V>;

    open spec fn view(&self) -> IssueModel<K, L::V> {
        IssueModel { head: self.head@, body: self.body@ }
    }
}

impl<K, L> IssueModel<K, L> {
    /// The issue of the given id and title, with no assignee and no
    /// occurrence.
    pub open spec fn empty(id: K, title: Seq<char>) -> Self {
        IssueModel {
            head: HeadModel { title, assignees: Seq::empty(), external_id: id },
            body: Seq::empty(),
        }
    }

    /// The issue with one more occurrence at the end of its body, and with
    /// the assignee of that occurrence among its assignees: a name that the
    /// issue does not hold yet is added at the end.
    pub open spec fn with_occurrence(
        self,
        assignee: Option<Seq<char>>,
        desc_lines: Seq<Seq<char>>,
        loc: L,
    ) -> Self {
        IssueModel {
            head: HeadModel {
                assignees: match assignee {
                    Some(name) => if self.head.assignees.contains(name) {
                        self.head.assignees
                    } else {
                        self.head.assignees.push(name)
                    },
                    None => self.head.assignees,
                },
                ..self.head
            },
            body: self.body.push((desc_lines, loc)),
        }
    }
}

impl<ExId, Loc: View> Issue<ExId, Loc> {
    /// The issue of the given id and title, with no assignee and no
    /// occurrence.
    pub fn new(id: ExId, title: String) -> (r: Self)
        ensures
            r@ == IssueModel::<ExId, Loc::V>::empty(id, title@),
    {
        let r = Issue {
            head: IssueHead { title, assignees: Vec::new(), external_id: id },
            body: IssueBody { descs_and_srcs: Vec::new() },
        };
        assert(r@.head.assignees =~= Seq::empty());
        assert(r@.body =~= Seq::empty());
        r
    }
}

/// A todo location in the local filesystem.
#[derive(Debug, PartialEq, Eq, Hash)]
pub struct FileTodoLocation {
    pub file: String,
    /// The line on which the todo starts and, where it covers more than one
    /// line, the line on which it ends.
    pub src_span: (usize, Option<usize>),
}

/// A location in the local filesystem, as a value of specifications.
pub struct FileLocationModel {
    pub file: Seq<char>,
    pub src_span: (usize, Option<usize>),
}

impl View for FileTodoLocation {
    type V = FileLocationModel;

    open spec fn view(&self) -> FileLocationModel {
        FileLocationModel { file: self.file@, src_span: self.src_span }
    }
}

impl Clone for FileTodoLocation {
    fn clone(&self) -> (r: Self)
        ensures
            r@ == self@,
    {
        let end = match self.src_span.1 {
            Some(end) => Some(end),
            None => None,
        };
        FileTodoLocation { file: self.file.clone(), src_span: (self.src_span.0, end) }
    }
}

/// Adding an occurrence keeps the assignees of an issue free of repetitions,
/// and its assignee is among them afterwards: the assignees are the names
/// met so far, each once and in the order in which they were first met.
pub proof fn lemma_assignees_are_a_union<K, L>(
    issue: IssueModel<K, L>,
    assignee: Option<Seq<char>>,
    desc_lines: Seq<Seq<char>>,
    loc: L,
)
    requires
        issue.head.assignees.no_duplicates(),
    ensures
        issue.with_occurrence(assignee, desc_lines, loc).head.assignees.no_duplicates(),
        issue.head.assignees.is_prefix_of(
            issue.with_occurrence(assignee, desc_lines, loc).head.assignees,
        ),
        assignee matches Some(name) ==> issue.with_occurrence(
            assignee,
            desc_lines,
            loc,
        ).head.assignees.contains(name),
{
    let before = issue.head.assignees;
    let after = issue.with_occurrence(assignee, desc_lines, loc).head.assignees;
    assert(before =~= after.subrange(0, before.len() as int));
    if let Some(name) = assignee {
        if !before.contains(name) {
            assert(after[before.len() as int] == name);
            assert forall|i: int, j: int| 0 <= i < after.len() && 0 <= j < after.len() && i
                != j implies after[i] != after[j] by {
                if i < before.len() && j < before.len() {
                    assert(before[i] != before[j]);
                } else if i < before.len() {
                    assert(before.contains(before[i]));
                } else if j < before.len() {
                    assert(before.contains(before[j]));
                }
            }
        }
    }
}

/// The issues of one source, by title.
#[derive(Debug, Clone)]
pub struct IssueMap<ExternalId, TodoLocation> {
    pub parsed_from: ParsingSource,
    /// The issues, each under its own title, in the order in which their
    /// titles were first met.
    pub todos: Vec<Issue<ExternalId, TodoLocation>>,
}

/// The issues that a list holds, as values of specifications.
pub open spec fn issues<K, L: View>(v: Seq<Issue<K, L>>) -> Seq<IssueModel<K, L::V>> {
    v.map_values(|t: Issue<K, L>| t@)
}

/// The titles of the issues of a list, in its order.
pub open spec fn titles<K, L>(all: Seq<IssueModel<K, L>>) -> Seq<Seq<char>> {
    all.map_values(|t: IssueModel<K, L>| t.head.title)
}

/// The issue of the title `title` among `all`.
pub open spec fn issue_titled<K, L>(all: Seq<IssueModel<K, L>>, title: Seq<char>) -> Option<
    IssueModel<K, L>,
> {
    match position(titles(all), title) {
        Some(i) => Some(all[i]),
        None => None,
    }
}

/// The issues `all` with `issue` filed under its title: in the place of the
/// issue with that title, or, where there is none, at the end.
pub open spec fn with_issue<K, L>(all: Seq<IssueModel<K, L>>, issue: IssueModel<K, L>) -> Seq<
    IssueModel<K, L>,
> {
    match position(titles(all), issue.head.title) {
        Some(i) => all.update(i, issue),
        None => all.push(issue),
    }
}

/// Filing an issue keeps titles distinct, and the filed issue is then the one
/// found under its title.
pub proof fn lemma_with_issue<K, L>(all: Seq<IssueModel<K, L>>, issue: IssueModel<K, L>)
    requires
        distinct(titles(all)),
    ensures
        distinct(titles(with_issue(all, issue))),
        issue_titled(with_issue(all, issue), issue.head.title) == Some(issue),
        forall|other: Seq<char>|
            other != issue.head.title ==> issue_titled(with_issue(all, issue), other)
                == issue_titled(all, other),
{
    let after = with_issue(all, issue);
    let t = issue.head.title;
    lemma_position_is_first(titles(all), t);
    match position(titles(all), t) {
        Some(i) => {
            assert(titles(after) =~= titles(all));
            assert forall|other: Seq<char>| other != t implies issue_titled(after, other)
                == issue_titled(all, other) by {
                lemma_position_is_first(titles(all), other);
            }
        },
        None => {
            assert(titles(after) =~= titles(all).push(t));
            assert(titles(after).drop_last() =~= titles(all));
            lemma_position_some(titles(after), t, all.len() as int);
            assert forall|other: Seq<char>| other != t implies issue_titled(after, other)
                == issue_titled(all, other) by {
                lemma_position_is_first(titles(all), other);
                match position(titles(all), other) {
                    Some(j) => {
                        lemma_position_some(titles(after), other, j);
                    },
                    None => {
                        lemma_position_none(titles(after), other);
                    },
                }
            }
        },
    }
}

/// The issues `all` with one more occurrence of a todo: the issue of the
/// todo's title gains the occurrence, and where there is no such issue yet, a
/// new one at the end holds it.
pub open spec fn with_todo<L>(all: Seq<IssueModel<(), L>>, todo: TodoModel, loc: L) -> Seq<
    IssueModel<(), L>,
> {
    match position(titles(all), todo.title) {
        Some(i) => all.update(i, all[i].with_occurrence(todo.assignee, todo.desc_lines, loc)),
        None => all.push(
            IssueModel::empty((), todo.title).with_occurrence(
                todo.assignee,
                todo.desc_lines,
                loc,
            ),
        ),
    }
}

/// Adding an occurrence of a todo keeps titles distinct.
pub proof fn lemma_with_todo<L>(all: Seq<IssueModel<(), L>>, todo: TodoModel, loc: L)
    requires
        distinct(titles(all)),
    ensures
        distinct(titles(with_todo(all, todo, loc))),
{
    let after = with_todo(all, todo, loc);
    lemma_position_is_first(titles(all), todo.title);
    match position(titles(all), todo.title) {
        Some(i) => {
            assert(titles(after) =~= titles(all));
        },
        None => {
            assert(titles(after) =~= titles(all).push(todo.title));
        },
    }
}

/// The occurrences of the issue of the title `title` among `all`; none where
/// there is no such issue.
pub open spec fn occurrences_titled<K, L>(all: Seq<IssueModel<K, L>>, title: Seq<char>) -> Seq<
    (Seq<Seq<char>>, L),
> {
    match issue_titled(all, title) {
        Some(issue) => issue.body,
        None => Seq::empty(),
    }
}

/// One more occurrence of a todo goes to the end of the occurrences of its
/// title, makes an issue only where the title is new, and leaves the
/// occurrences of every other title as they are.
pub proof fn lemma_with_todo_occurrences<L>(all: Seq<IssueModel<(), L>>, todo: TodoModel, loc: L)
    requires
        distinct(titles(all)),
    ensures
        distinct(titles(with_todo(all, todo, loc))),
        occurrences_titled(with_todo(all, todo, loc), todo.title) == occurrences_titled(
            all,
            todo.title,
        ).push((todo.desc_lines, loc)),
        titles(with_todo(all, todo, loc)) == if position(titles(all), todo.title) is Some {
            titles(all)
        } else {
            titles(all).push(todo.title)
        },
        forall|other: Seq<char>|
            other != todo.title ==> occurrences_titled(with_todo(all, todo, loc), other)
                == occurrences_titled(all, other),
{
    let after = with_todo(all, todo, loc);
    let t = todo.title;
    lemma_with_todo(all, todo, loc);
    lemma_position_is_first(titles(all), t);
    match position(titles(all), t) {
        Some(i) => {
            assert(titles(after) =~= titles(all));
            assert forall|other: Seq<char>| other != t implies occurrences_titled(after, other)
                == occurrences_titled(all, other) by {
                lemma_position_is_first(titles(all), other);
            }
        },
        None => {
            assert(titles(after) =~= titles(all).push(t));
            assert(titles(after).drop_last() =~= titles(all));
            lemma_position_some(titles(after), t, all.len() as int);
            assert(Seq::<(Seq<Seq<char>>, L)>::empty().push((todo.desc_lines, loc))
                =~= after[all.len() as int].body);
            assert forall|other: Seq<char>| other != t implies occurrences_titled(after, other)
                == occurrences_titled(all, other) by {
                lemma_position_is_first(titles(all), other);
                match position(titles(all), other) {
                    Some(j) => {
                        lemma_position_some(titles(after), other, j);
                    },
                    None => {
                        lemma_position_none(titles(after), other);
                    },
                }
            }
        },
    }
}

/// Two todos of one title, wherever they stand, become one issue: the second
/// makes no issue of its own, and the issue of their title holds the two
/// occurrences behind those it held before, the first before the second.
pub proof fn lemma_same_title_one_issue<L>(
    all: Seq<IssueModel<(), L>>,
    first: TodoModel,
    first_loc: L,
    second: TodoModel,
    second_loc: L,
)
    requires
        distinct(titles(all)),
        first.title == second.title,
    ensures
        ({
            let one = with_todo(all, first, first_loc);
            let two = with_todo(one, second, second_loc);
            &&& distinct(titles(two))
            &&& titles(two) == titles(one)
            &&& occurrences_titled(two, first.title) == occurrences_titled(all, first.title).push(
                (first.desc_lines, first_loc),
            ).push((second.desc_lines, second_loc))
        }),
{
    let one = with_todo(all, first, first_loc);
    lemma_with_todo_occurrences(all, first, first_loc);
    lemma_with_todo_occurrences(one, second, second_loc);
    lemma_position_is_first(titles(all), first.title);
    if position(titles(all), first.title) is None {
        assert(titles(one).drop_last() =~= titles(all));
        lemma_position_some(titles(one), first.title, all.len() as int);
    }
}



/// The number of occurrences that the issues `all` hold together.
pub open spec fn occurrences<K, L>(all: Seq<IssueModel<K, L>>) -> nat
    decreases all.len(),
{
    if all.len() == 0 {
        0
    } else {
        occurrences(all.drop_last()) + all.last().body.len()
    }
}

/// The number of occurrences that the issues `all` hold together, as far as
/// the machine can count: the largest number there is, where the sum is
/// larger than that.
pub open spec fn total_occurrences<K, L>(all: Seq<IssueModel<K, L>>) -> nat {
    if occurrences(all) <= usize::MAX {
        occurrences(all)
    } else {
        usize::MAX as nat
    }
}

/// The issues at the start of a list hold no more occurrences than the whole
/// list.
pub proof fn lemma_occurrences_grow<K, L>(all: Seq<IssueModel<K, L>>, k: int)
    requires
        0 <= k <= all.len(),
    ensures
        occurrences(all.take(k)) <= occurrences(all),
    decreases all.len() - k,
{
    if k < all.len() {
        assert(all.take(k + 1).drop_last() =~= all.take(k));
        lemma_occurrences_grow(all, k + 1);
    } else {
        assert(all.take(k) =~= all);
    }
}

impl<K, V: View> View for IssueMap<K, V> {
    type V = Seq<IssueModel<K, V::V>>;

    open spec fn view(&self) -> Seq<IssueModel<K, V::V>> {
        issues(self.todos@)
    }
}

impl<K, V: View> IssueMap<K, V> {
    /// The map is well formed: no two of its issues bear the same title.
    pub open spec fn wf(&self) -> bool {
        distinct(titles(self@))
    }

    /// The map without issues, for issues read at `parsed_from`.
    pub fn new(parsed_from: ParsingSource) -> (r: IssueMap<K, V>)
        ensures
            r.wf(),
            r@ == Seq::<IssueModel<K, V::V>>::empty(),
            r.parsed_from == parsed_from,
    {
        let r = IssueMap { parsed_from, todos: Vec::new() };
        assert(r@ =~= Seq::empty());
        r
    }

    /// Whether the map holds no issue.
    pub fn is_empty(&self) -> (r: bool)
        ensures
            r == (self@.len() == 0),
    {
        self.todos.is_empty()
    }

    /// Finds the issue of the title `title`.
    pub fn find_title(&self, title: &str) -> (r: Option<usize>)
        ensures
            match r {
                Some(i) => i < self@.len() && position(titles(self@), title@) == Some(i as int),
                None => position(titles(self@), title@) is None,
            },
    {
        let ghost keys = titles(self@);
        let mut i: usize = 0;
        while i < self.todos.len()
            invariant
                i <= self.todos@.len(),
                keys == titles(self@),
                forall|j: int| 0 <= j < i ==> keys[j] != title@,
            decreases self.todos@.len() - i,
        {
            if str_eq(self.todos[i].head.title.as_str(), title) {
                proof {
                    lemma_position_some(keys, title@, i as int);
                }
                return Some(i);
            }
            i += 1;
        }
        proof {
            lemma_position_none(keys, title@);
        }
        None
    }

    /// Files an issue under its title: in the place of the issue with that
    /// title, or, where there is none, at the end.
    pub fn insert(&mut self, issue: Issue<K, V>)
        requires
            old(self).wf(),
        ensures
            final(self).wf(),
            final(self)@ == with_issue(old(self)@, issue@),
            final(self).parsed_from == old(self).parsed_from,
    {
        let ghost before = self@;
        proof {
            lemma_with_issue(before, issue@);
        }
        match self.find_title(issue.head.title.as_str()) {
            Some(i) => {
                let ghost todos_before = self.todos@;
                self.todos.remove(i);
                self.todos.insert(i, issue);
                assert(self.todos@ =~= todos_before.update(i as int, issue));
                assert(self@ =~= before.update(i as int, issue@));
            },
            None => {
                self.todos.push(issue);
                assert(self@ =~= before.push(issue@));
            },
        }
    }

    /// The number of issues.
    pub fn distinct_len(&self) -> (r: usize)
        ensures
            r == self@.len(),
    {
        self.todos.len()
    }
}

/// Copies the strings of a list of string slices.
pub fn to_strings(v: &[&str]) -> (r: Vec<String>)
    ensures
        texts(r@) == slices(v@),
{
    let mut r: Vec<String> = Vec::new();
    let mut k: usize = 0;
    while k < v.len()
        invariant
            k <= v@.len(),
            r@.len() == k,
            forall|j: int| 0 <= j < k ==> (#[trigger] r@[j])@ == v@[j]@,
        decreases v@.len() - k,
    {
        r.push(String::from_str(v[k]));
        k += 1;
    }
    assert(texts(r@) =~= slices(v@));
    r
}

/// Tests whether a list of strings holds the text `name`.
pub fn holds_text(v: &[String], name: &str) -> (r: bool)
    ensures
        r == texts(v@).contains(name@),
{
    let mut k: usize = 0;
    while k < v.len()
        invariant
            k <= v@.len(),
            forall|j: int| 0 <= j < k ==> texts(v@)[j] != name@,
        decreases v@.len() - k,
    {
        if str_eq(v[k].as_str(), name) {
            assert(texts(v@)[k as int] == name@);
            return true;
        }
        k += 1;
    }
    false
}

impl<K> Issue<K, FileTodoLocation> {
    /// Adds one occurrence of a todo of this issue's title: its description
    /// and place at the end of the body, and its assignee, unless the issue
    /// holds that name already, at the end of the assignees.
    pub fn add_occurrence(
        &mut self,
        assignee: Option<&str>,
        desc_lines: &[&str],
        loc: FileTodoLocation,
    )
        ensures
            final(self)@ == old(self)@.with_occurrence(
                match assignee {
                    Some(name) => Some(name@),
                    None => None,
                },
                slices(desc_lines@),
                loc@,
            ),
    {
        if let Some(name) = assignee {
            if !holds_text(self.head.assignees.as_slice(), name) {
                self.head.assignees.push(String::from_str(name));
                assert(self@.head.assignees =~= old(self)@.head.assignees.push(name@));
            }
        }
        self.body.descs_and_srcs.push((to_strings(desc_lines), loc));
        assert(self@.body =~= old(self)@.body.push((slices(desc_lines@), loc@)));
    }
}

impl<K> IssueMap<K, FileTodoLocation> {
    /// The number of occurrences that the issues of the map hold together;
    /// the largest number there is, where the sum is larger than that.
    pub fn total_len(&self) -> (r: usize)
        ensures
            r == total_occurrences(self@),
    {
        let mut total: usize = 0;
        let mut k: usize = 0;
        while k < self.todos.len()
            invariant
                k <= self.todos@.len(),
                total == occurrences(self@.take(k as int)),
            decreases self.todos@.len() - k,
        {
            assert(self@.take(k + 1).drop_last() =~= self@.take(k as int));
            let n = self.todos[k].body.descs_and_srcs.len();
            assert(n == self@.take(k + 1).last().body.len());
            if n > usize::MAX - total {
                proof {
                    lemma_occurrences_grow(self@, k + 1);
                }
                return usize::MAX;
            }
            total += n;
            k += 1;
        }
        assert(self@.take(k as int) =~= self@);
        total
    }
}

impl IssueMap<(), FileTodoLocation> {
    /// The map without issues, for todos found in source code.
    pub fn new_source_todos() -> (r: Self)
        ensures
            r.wf(),
            r@ == Seq::<IssueModel<(), FileLocationModel>>::empty(),
            r.parsed_from == ParsingSource::SourceCode,
    {
        IssueMap::new(ParsingSource::SourceCode)
    }

    /// Adds one occurrence of a todo to the issue of its title, which is
    /// made where the map holds none yet.
    pub fn add_parsed_todo(&mut self, todo: &ParsedTodo, loc: FileTodoLocation)
        requires
            old(self).wf(),
        ensures
            final(self).wf(),
            final(self)@ == with_todo(old(self)@, todo@, loc@),
            final(self).parsed_from == old(self).parsed_from,
    {
        let ghost before = self@;
        proof {
            lemma_with_todo(before, todo@, loc@);
        }
        match self.find_title(todo.title) {
            Some(i) => {
                let ghost todos_before = self.todos@;
                let mut issue = self.todos.remove(i);
                issue.add_occurrence(todo.assignee, todo.desc_lines.as_slice(), loc);
                self.todos.insert(i, issue);
                assert(self.todos@ =~= todos_before.update(i as int, issue));
                assert(self@ =~= before.update(
                    i as int,
                    before[i as int].with_occurrence(todo@.assignee, todo@.desc_lines, loc@),
                ));
            },
            None => {
                let mut issue: Issue<(), FileTodoLocation> = Issue::new(
                    (),
                    String::from_str(todo.title),
                );
                issue.add_occurrence(todo.assignee, todo.desc_lines.as_slice(), loc);
                self.todos.push(issue);
                assert(self@ =~= before.push(
                    IssueModel::empty((), todo@.title).with_occurrence(
                        todo@.assignee,
                        todo@.desc_lines,
                        loc@,
                    ),
                ));
            },
        }
    }
}

/// The issues `all` with an issue of the tracker filed under its title, if
/// its body can be read as a list of todos; an issue without a body, or with
/// a body that cannot be read so, changes nothing.
pub open spec fn with_remote_issue(
    all: Seq<IssueModel<u64, GitHubLocationModel>>,
    number: u64,
    title: Seq<char>,
    body: Option<Seq<char>>,
) -> Seq<IssueModel<u64, GitHubLocationModel>> {
    match body {
        Some(text) => match spec_issue_body(text) {
            Some((_, occurrences)) => with_issue(
                all,
                IssueModel {
                    head: HeadModel { title, assignees: Seq::empty(), external_id: number },
                    body: occurrences,
                },
            ),
            None => all,
        },
        None => all,
    }
}

impl IssueMap<u64, GitHubTodoLocation> {
    /// The map without issues, for issues read at the tracker.
    pub fn new_github_todos() -> (r: Self)
        ensures
            r.wf(),
            r@ == Seq::<IssueModel<u64, GitHubLocationModel>>::empty(),
            r.parsed_from == ParsingSource::IssueAt(IssueProvider::GitHub),
    {
        IssueMap::new(ParsingSource::IssueAt(IssueProvider::GitHub))
    }

    /// Files an issue of the tracker under its title, with its number as id
    /// and the todos of its body, if the body can be read as a list of
    /// todos. An issue filed before under the same title gives way.
    pub fn add_issue(&mut self, github_issue: &GitHubIssue)
        requires
            old(self).wf(),
        ensures
            final(self).wf(),
            final(self)@ == with_remote_issue(
                old(self)@,
                github_issue.number,
                github_issue.title@,
                match github_issue.body {
                    Some(text) => Some(text@),
                    None => None,
                },
            ),
            final(self).parsed_from == old(self).parsed_from,
    {
        if let Some(text) = &github_issue.body {
            if let Ok((_, body)) = issue_body(text.as_str()) {
                let mut issue: Issue<u64, GitHubTodoLocation> = Issue::new(
                    github_issue.number,
                    github_issue.title.clone(),
                );
                issue.body = body;
                self.insert(issue);
            }
        }
    }
}

} // verus!
