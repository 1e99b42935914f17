//! Issues as text: links to the places of todos, the bodies of tracker
//! issues, and the report in markdown.

use vstd::prelude::*;
use vstd::string::*;

use crate::Error;
use crate::parser::{
    FileLocationModel, FileTodoLocation, Issue, IssueBody, IssueMap, IssueModel, total_occurrences,
};
use crate::text::{
    CharClass, drop_run, join, lemma_whole, push_joined, scan_run, starts_with_at, str_to_chars,
    texts,
};
use crate::text::number::{decimal, push_decimal};
use crate::text::order::{
    insert_position, lemma_insert_by, lemma_sort_by, lemma_text_le_total, lemma_text_le_transitive,
    sort_by, sorted_by, str_le, text_le,
};

verus! {

/// The path of `file` from the directory `root` down. `None` where `file`
/// does not lie under `root`: where its path does not start with that of
/// `root`, or goes on behind it in the middle of a name. An empty root
/// leaves the path as it is.
pub open spec fn relative_path(file: Seq<char>, root: Seq<char>) -> Option<Seq<char>> {
    if root.len() == 0 {
        Some(file)
    } else if root.is_prefix_of(file) {
        let rest = file.skip(root.len() as int);
        if rest.len() == 0 || rest[0] == '/' || root.last() == '/' {
            Some(drop_run(rest, CharClass::Only('/'), true))
        } else {
            None
        }
    } else {
        None
    }
}

/// Cuts the path of the directory `root` off the start of the path `file`.
pub fn relative_to<'a>(file: &'a str, root: &str) -> (r: Option<&'a str>)
    ensures
        match r {
            Some(path) => relative_path(file@, root@) == Some(path@),
            None => relative_path(file@, root@) is None,
        },
{
    let f = str_to_chars(file);
    let c = str_to_chars(root);
    let n = f.len();
    let m = c.len();
    proof {
        lemma_whole(f@);
    }
    if m == 0 {
        return Some(file);
    }
    if !starts_with_at(f.as_slice(), 0, n, c.as_slice()) {
        return None;
    }
    assert(f@.skip(m as int) =~= f@.subrange(m as int, n as int));
    if m == n || f[m] == '/' || c[m - 1] == '/' {
        let p = scan_run(f.as_slice(), m, n, CharClass::Only('/'), true);
        Some(file.substring_char(p, n))
    } else {
        None
    }
}

/// The anchor of a link that selects lines of a file: `#L` and the first
/// line, and for more than one line `-L` and the last.
pub open spec fn span_anchor(span: (usize, Option<usize>)) -> Seq<char> {
    "#L"@ + decimal(span.0 as nat) + match span.1 {
        Some(end) => "-L"@ + decimal(end as nat),
        None => Seq::empty(),
    }
}

/// The link to lines of the file at `path` in a checkout of a repository.
pub open spec fn github_link(
    owner: Seq<char>,
    repo: Seq<char>,
    checkout: Seq<char>,
    path: Seq<char>,
    span: (usize, Option<usize>),
) -> Seq<char> {
    "https://github.com"@ + "/"@ + owner + "/"@ + repo + "/"@ + "blob"@ + "/"@ + checkout + "/"@
        + path + span_anchor(span)
}

impl FileTodoLocation {
    /// The link to this place in the checkout `checkout` of the repository
    /// `repo` of `owner`, whose root is the directory `cwd`. Fails where the
    /// file does not lie under `cwd`.
    pub fn to_github_link(&self, cwd: &str, owner: &str, repo: &str, checkout: &str) -> (r: Result<
        String,
        Error,
    >)
        ensures
            match r {
                Ok(link) => relative_path(self@.file, cwd@) matches Some(path) && link@
                    == github_link(owner@, repo@, checkout@, path, self@.src_span),
                Err(Error::Prefix { path }) => relative_path(self@.file, cwd@) is None && path@
                    == self@.file,
                Err(_) => false,
            },
    {
        let path = match relative_to(self.file.as_str(), cwd) {
            Some(path) => path,
            None => {
                return Err(Error::Prefix { path: self.file.clone() });
            },
        };
        let mut link = String::from_str("https://github.com");
        link.append("/");
        link.append(owner);
        link.append("/");
        link.append(repo);
        link.append("/");
        link.append("blob");
        link.append("/");
        link.append(checkout);
        link.append("/");
        link.append(path);
        link.append("#L");
        push_decimal(&mut link, self.src_span.0);
        if let Some(end) = self.src_span.1 {
            link.append("-L");
            push_decimal(&mut link, end);
        }
        assert(link@ =~= github_link(owner@, repo@, checkout@, path@, self@.src_span));
        Ok(link)
    }
}

/// An occurrence as it reads in the body of an issue: the lines of its
/// description, each on a line of its own, and on the next line the link to
/// its place.
pub open spec fn render_occurrence(desc_lines: Seq<Seq<char>>, link: Seq<char>) -> Seq<char> {
    join(desc_lines, "\n"@) + "\n"@ + link
}

/// The occurrences `body` as they read in the body of an issue, each as
/// `render_occurrence` gives it, in their order. Where the file of an
/// occurrence does not lie under `cwd`, the result is the path of the first
/// such file, as an error.
pub open spec fn render_occurrences(
    body: Seq<(Seq<Seq<char>>, FileLocationModel)>,
    cwd: Seq<char>,
    owner: Seq<char>,
    repo: Seq<char>,
    checkout: Seq<char>,
) -> Result<Seq<Seq<char>>, Seq<char>>
    decreases body.len(),
{
    if body.len() == 0 {
        Ok(Seq::empty())
    } else {
        match render_occurrences(body.drop_last(), cwd, owner, repo, checkout) {
            Err(path) => Err(path),
            Ok(lines) => match relative_path(body.last().1.file, cwd) {
                None => Err(body.last().1.file),
                Some(path) => Ok(
                    lines.push(
                        render_occurrence(
                            body.last().0,
                            github_link(owner, repo, checkout, path, body.last().1.src_span),
                        ),
                    ),
                ),
            },
        }
    }
}

impl IssueBody<FileTodoLocation> {
    /// The body of the issue as the tracker shows it: the occurrences one
    /// below the other, each with its description and the link to its place
    /// in the checkout `checkout` of the repository `repo` of `owner`, whose
    /// root is the directory `cwd`. Fails where the file of an occurrence does
    /// not lie under `cwd`, with the path of the first such file.
    pub fn to_github_string(&self, cwd: &str, owner: &str, repo: &str, checkout: &str) -> (r:
        Result<String, Error>)
        ensures
            match r {
                Ok(text) => render_occurrences(self@, cwd@, owner@, repo@, checkout@) matches Ok(
                    lines,
                ) && text@ == join(lines, "\n"@),
                Err(Error::Prefix { path }) => render_occurrences(
                    self@,
                    cwd@,
                    owner@,
                    repo@,
                    checkout@,
                ) == Err::<Seq<Seq<char>>, Seq<char>>(path@),
                Err(_) => false,
            },
    {
        let mut lines: Vec<String> = Vec::new();
        let mut k: usize = 0;
        assert(self@.take(0) =~= Seq::empty());
        assert(texts(lines@) =~= Seq::<Seq<char>>::empty());
        while k < self.descs_and_srcs.len()
            invariant
                k <= self.descs_and_srcs@.len(),
                render_occurrences(self@.take(k as int), cwd@, owner@, repo@, checkout@) == Ok::<
                    Seq<Seq<char>>,
                    Seq<char>,
                >(texts(lines@)),
            decreases self.descs_and_srcs@.len() - k,
        {
            assert(self@.take(k + 1).drop_last() =~= self@.take(k as int));
            assert(self@.take(k + 1).last() == self@[k as int]);
            let (desc_lines, loc) = &self.descs_and_srcs[k];
            let link = match loc.to_github_link(cwd, owner, repo, checkout) {
                Ok(link) => link,
                Err(e) => {
                    proof {
                        lemma_render_fails(self@, k as int + 1, cwd@, owner@, repo@, checkout@);
                    }
                    return Err(e);
                },
            };
            let mut line = String::new();
            push_joined(&mut line, desc_lines.as_slice(), "\n");
            line.append("\n");
            line.append(link.as_str());
            assert(line@ =~= render_occurrence(texts(desc_lines@), link@));
            let ghost before = texts(lines@);
            lines.push(line);
            assert(texts(lines@) =~= before.push(line@));
            k += 1;
        }
        assert(self@.take(k as int) =~= self@);
        let mut text = String::new();
        push_joined(&mut text, lines.as_slice(), "\n");
        assert(text@ =~= join(texts(lines@), "\n"@));
        Ok(text)
    }
}

/// Where the first `k` occurrences cannot be rendered, neither can all of
/// them, for the same file.
pub proof fn lemma_render_fails(
    body: Seq<(Seq<Seq<char>>, FileLocationModel)>,
    k: int,
    cwd: Seq<char>,
    owner: Seq<char>,
    repo: Seq<char>,
    checkout: Seq<char>,
)
    requires
        0 <= k <= body.len(),
        render_occurrences(body.take(k), cwd, owner, repo, checkout) is Err,
    ensures
        render_occurrences(body, cwd, owner, repo, checkout) == render_occurrences(
            body.take(k),
            cwd,
            owner,
            repo,
            checkout,
        ),
    decreases body.len() - k,
{
    if k < body.len() {
        assert(body.take(k + 1).drop_last() =~= body.take(k));
        lemma_render_fails(body, k + 1, cwd, owner, repo, checkout);
    } else {
        assert(body.take(k) =~= body);
    }
}

/// The order of issues: that of their titles.
pub open spec fn by_title<K, L>() -> spec_fn(IssueModel<K, L>, IssueModel<K, L>) -> bool {
    |a: IssueModel<K, L>, b: IssueModel<K, L>| text_le(a.head.title, b.head.title)
}

/// The lines that a todo covers, in words.
pub open spec fn span_words(span: (usize, Option<usize>)) -> Seq<char> {
    match span.1 {
        Some(end) => "lines "@ + decimal(span.0 as nat) + " - "@ + decimal(end as nat),
        None => "line "@ + decimal(span.0 as nat),
    }
}

/// Each of the lines `lines` behind two spaces.
pub open spec fn indented(lines: Seq<Seq<char>>) -> Seq<Seq<char>> {
    lines.map_values(|l: Seq<char>| "  "@ + l)
}

/// The lines of a report for one occurrence: the lines of its description,
/// the file with the lines that the todo covers, and an empty line.
pub open spec fn occurrence_lines(occurrence: (Seq<Seq<char>>, FileLocationModel)) -> Seq<
    Seq<char>,
> {
    indented(occurrence.0) + seq![
        "  file://"@ + occurrence.1.file + " ("@ + span_words(occurrence.1.src_span) + ")"@,
        Seq::empty(),
    ]
}

/// The lines of a report for the occurrences `body`, in their order.
pub open spec fn body_lines(body: Seq<(Seq<Seq<char>>, FileLocationModel)>) -> Seq<Seq<char>>
    decreases body.len(),
{
    if body.len() == 0 {
        Seq::empty()
    } else {
        body_lines(body.drop_last()) + occurrence_lines(body.last())
    }
}

/// The lines of a report for the issue with the number `n`: the number and
/// the title, the occurrences, and the assignees if there are any.
pub open spec fn issue_lines(n: nat, issue: IssueModel<(), FileLocationModel>) -> Seq<Seq<char>> {
    seq![decimal(n) + ". "@ + issue.head.title] + body_lines(issue.body) + if issue.head.assignees.len()
        > 0 {
        seq!["  assignees: "@ + join(issue.head.assignees, ", "@) + "\n"@]
    } else {
        Seq::empty()
    }
}

/// The lines of a report for the issues `all` in their order, numbered from 1.
pub open spec fn numbered_lines(all: Seq<IssueModel<(), FileLocationModel>>) -> Seq<Seq<char>>
    decreases all.len(),
{
    if all.len() == 0 {
        Seq::empty()
    } else {
        numbered_lines(all.drop_last()) + issue_lines(all.len(), all.last())
    }
}

/// The report on the issues `all` in markdown: a heading, the number of
/// issues and of occurrences, and the issues sorted by title.
pub open spec fn spec_as_markdown(all: Seq<IssueModel<(), FileLocationModel>>) -> Seq<char> {
    join(
        seq![
            "# TODOs"@,
            "Found "@ + decimal(all.len()) + " distinct TODOs in "@ + decimal(
                total_occurrences(all),
            ) + " file locations.\n"@,
        ] + numbered_lines(sort_by(all, by_title())),
        "\n"@,
    )
}

/// The issues that a list of references holds, as values of specifications.
pub open spec fn issue_refs(v: Seq<&Issue<(), FileTodoLocation>>) -> Seq<
    IssueModel<(), FileLocationModel>,
> {
    v.map_values(|t: &Issue<(), FileTodoLocation>| t@)
}

impl IssueMap<(), FileTodoLocation> {
    /// The issues of the map sorted by title.
    pub fn sorted_by_title(&self) -> (r: Vec<&Issue<(), FileTodoLocation>>)
        ensures
            issue_refs(r@) == sort_by(self@, by_title()),
    {
        let ghost all = self@;
        let mut sorted: Vec<&Issue<(), FileTodoLocation>> = Vec::new();
        let mut k: usize = 0;
        assert(issue_refs(sorted@) =~= Seq::<IssueModel<(), FileLocationModel>>::empty());
        assert(all.take(0) =~= Seq::<IssueModel<(), FileLocationModel>>::empty());
        while k < self.todos.len()
            invariant
                k <= self.todos@.len(),
                all == self@,
                issue_refs(sorted@) == sort_by(all.take(k as int), by_title()),
            decreases self.todos@.len() - k,
        {
            let issue = &self.todos[k];
            let ghost before = issue_refs(sorted@);
            let ghost x = issue@;
            assert(all.take(k + 1).drop_last() =~= all.take(k as int));
            assert(all.take(k + 1).last() == x);
            let mut p: usize = sorted.len();
            assert(before.take(p as int) =~= before);
            while p > 0 && !str_le(sorted[p - 1].head.title.as_str(), issue.head.title.as_str())
                invariant
                    p <= sorted@.len(),
                    before == issue_refs(sorted@),
                    x == issue@,
                    insert_position(before, x, by_title()) == insert_position(
                        before.take(p as int),
                        x,
                        by_title(),
                    ),
                decreases p,
            {
                assert(before.take(p as int).drop_last() =~= before.take(p - 1));
                assert(before.take(p as int).last() == before[p - 1]);
                p -= 1;
            }
            proof {
                if p > 0 {
                    assert(before.take(p as int).last() == before[p - 1]);
                }
                assert(insert_position(before, x, by_title()) == p);
                lemma_insert_by(before, x, by_title());
            }
            sorted.insert(p, issue);
            assert(issue_refs(sorted@) =~= before.insert(p as int, x));
            k += 1;
        }
        assert(all.take(k as int) =~= all);
        sorted
    }

    /// The report on the todos of the map in markdown: how many there are,
    /// and then the issues sorted by title, each with its occurrences and
    /// its assignees.
    pub fn as_markdown(&self) -> (r: String)
        ensures
            r@ == spec_as_markdown(self@),
    {
        let mut lines: Vec<String> = Vec::new();
        lines.push(String::from_str("# TODOs"));
        let mut found = String::from_str("Found ");
        push_decimal(&mut found, self.todos.len());
        found.append(" distinct TODOs in ");
        push_decimal(&mut found, self.total_len());
        found.append(" file locations.\n");
        lines.push(found);
        let ghost head = seq![
            "# TODOs"@,
            "Found "@ + decimal(self@.len()) + " distinct TODOs in "@ + decimal(
                total_occurrences(self@),
            ) + " file locations.\n"@,
        ];
        assert(found@ =~= head[1]);
        let sorted = self.sorted_by_title();
        let ghost all = issue_refs(sorted@);
        assert(texts(lines@) =~= head + numbered_lines(all.take(0)));
        let mut k: usize = 0;
        while k < sorted.len()
            invariant
                k <= sorted@.len(),
                all == issue_refs(sorted@),
                texts(lines@) == head + numbered_lines(all.take(k as int)),
            decreases sorted@.len() - k,
        {
            let issue = sorted[k];
            let ghost model = issue@;
            let ghost so_far = texts(lines@);
            assert(all.take(k + 1).drop_last() =~= all.take(k as int));
            assert(all.take(k + 1).last() == model);
            let mut title = String::new();
            push_decimal(&mut title, k + 1);
            title.append(". ");
            title.append(issue.head.title.as_str());
            assert(title@ =~= decimal((k + 1) as nat) + ". "@ + model.head.title);
            lines.push(title);
            let ghost with_title = so_far.push(title@);
            assert(texts(lines@) =~= with_title);
            let mut j: usize = 0;
            assert(model.body.take(0) =~= Seq::empty());
            assert(texts(lines@) =~= with_title + body_lines(model.body.take(0)));
            while j < issue.body.descs_and_srcs.len()
                invariant
                    j <= issue.body.descs_and_srcs@.len(),
                    model == issue@,
                    texts(lines@) == with_title + body_lines(model.body.take(j as int)),
                decreases issue.body.descs_and_srcs@.len() - j,
            {
                let (descs, loc) = &issue.body.descs_and_srcs[j];
                let ghost occurrence = (texts(descs@), loc@);
                let ghost before = texts(lines@);
                assert(model.body.take(j + 1).drop_last() =~= model.body.take(j as int));
                assert(model.body.take(j + 1).last() == occurrence);
                let mut d: usize = 0;
                assert(texts(lines@) =~= before + indented(occurrence.0.take(0)));
                while d < descs.len()
                    invariant
                        d <= descs@.len(),
                        occurrence.0 == texts(descs@),
                        texts(lines@) == before + indented(occurrence.0.take(d as int)),
                    decreases descs@.len() - d,
                {
                    let ghost lines_before = texts(lines@);
                    let mut line = String::from_str("  ");
                    line.append(descs[d].as_str());
                    lines.push(line);
                    assert(texts(lines@) =~= lines_before.push(line@));
                    assert(indented(occurrence.0.take(d + 1)) =~= indented(
                        occurrence.0.take(d as int),
                    ).push("  "@ + occurrence.0[d as int]));
                    assert(texts(lines@) =~= before + indented(occurrence.0.take(d + 1)));
                    d += 1;
                }
                assert(occurrence.0.take(d as int) =~= occurrence.0);
                let ghost with_desc = texts(lines@);
                let mut place = String::from_str("  file://");
                place.append(loc.file.as_str());
                place.append(" (");
                match loc.src_span.1 {
                    Some(end) => {
                        place.append("lines ");
                        push_decimal(&mut place, loc.src_span.0);
                        place.append(" - ");
                        push_decimal(&mut place, end);
                    },
                    None => {
                        place.append("line ");
                        push_decimal(&mut place, loc.src_span.0);
                    },
                }
                place.append(")");
                assert(place@ =~= "  file://"@ + loc@.file + " ("@ + span_words(loc@.src_span)
                    + ")"@);
                lines.push(place);
                lines.push(String::new());
                assert(texts(lines@) =~= with_desc + seq![place@, Seq::empty()]);
                assert(texts(lines@) =~= before + occurrence_lines(occurrence));
                assert(texts(lines@) =~= with_title + body_lines(model.body.take(j + 1)));
                j += 1;
            }
            assert(model.body.take(j as int) =~= model.body);
            let ghost with_body = texts(lines@);
            if !issue.head.assignees.is_empty() {
                let mut assignees = String::from_str("  assignees: ");
                push_joined(&mut assignees, issue.head.assignees.as_slice(), ", ");
                assignees.append("\n");
                assert(assignees@ =~= "  assignees: "@ + join(model.head.assignees, ", "@)
                    + "\n"@);
                lines.push(assignees);
                assert(texts(lines@) =~= with_body.push(assignees@));
            }
            assert(texts(lines@) =~= so_far + issue_lines((k + 1) as nat, model));
            assert(texts(lines@) =~= head + numbered_lines(all.take(k + 1)));
            k += 1;
        }
        assert(all.take(k as int) =~= all);
        let mut text = String::new();
        push_joined(&mut text, lines.as_slice(), "\n");
        assert(text@ =~= join(texts(lines@), "\n"@));
        text
    }
}

/// The report lists every issue once, in the order of the titles: sorting
/// by title gives a list in that order which holds the same issues.
pub proof fn lemma_sorted_by_title<K, L>(all: Seq<IssueModel<K, L>>)
    ensures
        sorted_by(sort_by(all, by_title()), by_title()),
        sort_by(all, by_title()).to_multiset() == all.to_multiset(),
        sort_by(all, by_title()).len() == all.len(),
{
    let le = by_title::<K, L>();
    assert forall|a: IssueModel<K, L>, b: IssueModel<K, L>| #[trigger] le(a, b) || le(b, a) by {
        lemma_text_le_total(a.head.title, b.head.title);
    }
    assert forall|a: IssueModel<K, L>, b: IssueModel<K, L>, c: IssueModel<K, L>|
        #[trigger] le(a, b) && #[trigger] le(b, c) implies le(a, c) by {
        lemma_text_le_transitive(a.head.title, b.head.title, c.head.title);
    }
    lemma_sort_by(all, le);
}



} // verus!
