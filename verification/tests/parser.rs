use std::path::Path;

use todo_finder_lib::github::{
    github_issues_update_url, github_issues_url, with_label, GitHubAssignee, GitHubIssue,
    GitHubUser,
};
use todo_finder_lib::parser::issue::GitHubTodoLocation;
use todo_finder_lib::parser::langs::{lang, rust_style};
use todo_finder_lib::parser::render::relative_to;
use todo_finder_lib::parser::source::{parse_todo, ParsedTodo};
use todo_finder_lib::parser::{FileTodoLocation, Issue, IssueBody, IssueMap, ParsingSource};
use todo_finder_lib::Error;

fn rust_config() -> todo_finder_lib::parser::source::TodoParserConfig {
    lang("Rust", rust_style(), vec!["rs", "rc"]).as_todo_parser_config()
}

#[test]
fn rust_todo() {
    let input = r#"todo!("A special Rust-only todo");"#;
    let parser_config = rust_config();
    let (rest, parsed) = parse_todo(&parser_config, input).unwrap();
    println!("{parsed:#?}");
    assert_eq!(rest, ";");
    assert_eq!(parsed, ParsedTodo::from_title("A special Rust-only todo"));
}

#[test]
fn rust_todo_multi() {
    let input = r#"todo!(
            "A special Rust-only todo"
        );"#;
    let parser_config = rust_config();
    let (rest, parsed) = parse_todo(&parser_config, input).unwrap();
    println!("{parsed:#?}");
    assert_eq!(rest, ";");
    assert_eq!(parsed, ParsedTodo::from_title("A special Rust-only todo"));
}

#[test]
fn rust_todo_multi_multi() {
    let input = r#"todo!(
    "A special Rust-only todo on \
    more than one line, as a multi-line string \
    that is pretty long."
);"#;
    let parser_config = rust_config();
    let (rest, parsed) = parse_todo(&parser_config, input).unwrap();
    println!("{parsed:#?}");
    assert_eq!(rest, ";");
    assert_eq!(
        parsed,
        ParsedTodo::from_title("A special Rust-only todo on")
            .with_desc("more than one line, as a multi-line string")
            .with_desc("that is pretty long.")
    );
}

#[test]
fn macro_call_form() {
    let (_, parsed) = parse_todo(&rust_config(), "todo!(\"A special todo\");").unwrap();
    assert_eq!(
        parsed,
        ParsedTodo {
            title: "A special todo",
            assignee: None,
            desc_lines: vec![]
        }
    );
}

fn place(file: &str, span: (usize, Option<usize>)) -> FileTodoLocation {
    FileTodoLocation {
        file: file.into(),
        src_span: span,
    }
}

#[test]
fn todos_of_one_title_become_one_issue() {
    let mut map = IssueMap::new_source_todos();
    assert!(map.is_empty());
    let first = ParsedTodo {
        title: "Fix it.",
        assignee: Some("ann"),
        desc_lines: vec!["Soon."],
    };
    let second = ParsedTodo {
        title: "Fix it.",
        assignee: Some("bob"),
        desc_lines: vec![],
    };
    let third = ParsedTodo {
        title: "Fix it.",
        assignee: Some("ann"),
        desc_lines: vec!["Again."],
    };
    map.add_parsed_todo(&first, place("/repo/a.rs", (3, None)));
    map.add_parsed_todo(&ParsedTodo::from_title("Other"), place("/repo/a.rs", (9, Some(10))));
    map.add_parsed_todo(&second, place("/repo/b.rs", (1, None)));
    map.add_parsed_todo(&third, place("/repo/c.rs", (7, None)));
    assert!(!map.is_empty());
    assert_eq!(map.distinct_len(), 2);
    assert_eq!(map.total_len(), 4);
    let issue = &map.todos[0];
    assert_eq!(issue.head.title, "Fix it.");
    assert_eq!(issue.head.assignees, vec!["ann", "bob"]);
    assert_eq!(
        issue.body,
        IssueBody {
            descs_and_srcs: vec![
                (vec!["Soon.".to_string()], place("/repo/a.rs", (3, None))),
                (vec![], place("/repo/b.rs", (1, None))),
                (vec!["Again.".to_string()], place("/repo/c.rs", (7, None))),
            ]
        }
    );
    assert_eq!(map.todos[1].head.title, "Other");
    assert!(map.todos[1].head.assignees.is_empty());
}

fn remote_issue(number: u64, title: &str, body: Option<&str>) -> GitHubIssue {
    GitHubIssue {
        id: 1000 + number,
        number,
        title: title.into(),
        body: body.map(|b| b.to_string()),
        state: "open".into(),
        labels: vec![],
        assignees: vec![GitHubAssignee { login: "schell".into() }],
        user: GitHubUser { login: "schell".into() },
    }
}

#[test]
fn patch_creates_edits_and_deletes() {
    let link = "https://github.com/o/r/blob/abc/src/x.rs#L1";
    let mut remote = IssueMap::new_github_todos();
    remote.add_issue(&remote_issue(1, "A", Some(link)));
    remote.add_issue(&remote_issue(2, "B", Some(link)));
    assert_eq!(remote.todos.len(), 2);

    let mut local = IssueMap::new_source_todos();
    local.add_parsed_todo(
        &ParsedTodo::from_title("A").with_desc("local a"),
        place("/repo/src/a.rs", (5, None)),
    );
    local.add_parsed_todo(&ParsedTodo::from_title("C"), place("/repo/src/c.rs", (6, None)));

    let patch = remote.prepare_patch(local);
    let created: Vec<&str> = patch.create.todos.iter().map(|t| t.head.title.as_str()).collect();
    assert_eq!(created, vec!["C"]);
    let edited: Vec<(u64, &str)> = patch
        .edit
        .todos
        .iter()
        .map(|t| (t.head.external_id, t.head.title.as_str()))
        .collect();
    assert_eq!(edited, vec![(1, "A")]);
    assert_eq!(patch.delete, vec![2]);
    assert_eq!(
        patch.edit.todos[0].body,
        IssueBody {
            descs_and_srcs: vec![(vec!["local a".to_string()], place("/repo/src/a.rs", (5, None)))]
        }
    );
    assert_eq!(patch.create.distinct_len(), 1);
    assert_eq!(patch.edit.distinct_len(), 1);
}

#[test]
fn patch_of_nothing_deletes_everything() {
    let link = "https://github.com/o/r/blob/abc/src/x.rs#L1";
    let mut remote = IssueMap::new_github_todos();
    remote.add_issue(&remote_issue(7, "A", Some(link)));
    remote.add_issue(&remote_issue(9, "B", Some(link)));
    let patch = remote.prepare_patch(IssueMap::new_source_todos());
    assert!(patch.create.is_empty());
    assert!(patch.edit.is_empty());
    assert_eq!(patch.delete, vec![7, 9]);

    let mut local = IssueMap::new_source_todos();
    local.add_parsed_todo(&ParsedTodo::from_title("X"), place("/repo/x.rs", (1, None)));
    let patch = IssueMap::new_github_todos().prepare_patch(local);
    assert_eq!(patch.create.distinct_len(), 1);
    assert!(patch.edit.is_empty());
    assert!(patch.delete.is_empty());
}

#[test]
fn remote_issues_are_filed_by_title() {
    let mut remote = IssueMap::new_github_todos();
    assert!(matches!(remote.parsed_from, ParsingSource::IssueAt(_)));
    remote.add_issue(&remote_issue(1, "A", None));
    remote.add_issue(&remote_issue(2, "B", Some("no link here")));
    remote.add_issue(&remote_issue(3, "C", Some("")));
    assert!(remote.is_empty());
    let body = "desc\nhttps://github.com/o/r/blob/abc/src/x.rs#L10-L12\n";
    remote.add_issue(&remote_issue(4, "D", Some(body)));
    remote.add_issue(&remote_issue(5, "E", Some(body)));
    remote.add_issue(&remote_issue(6, "D", Some(body)));
    let heads: Vec<(u64, &str)> = remote
        .todos
        .iter()
        .map(|t| (t.head.external_id, t.head.title.as_str()))
        .collect();
    assert_eq!(heads, vec![(6, "D"), (5, "E")]);
    assert_eq!(
        remote.todos[0].body,
        IssueBody {
            descs_and_srcs: vec![(
                vec!["desc".to_string()],
                GitHubTodoLocation {
                    repo: ("o".into(), "r".into()),
                    checkout: "abc".into(),
                    file: "src/x.rs".into(),
                    src_span: (10, Some(12)),
                }
            )]
        }
    );
    assert!(remote.todos[0].head.assignees.is_empty());
}

#[test]
fn link_to_a_place() {
    let loc = FileTodoLocation {
        file: "/total/path/src/file.rs".into(),
        src_span: (666, Some(1337)),
    };
    let string = loc
        .to_github_link("/total/path", "schell", "my_repo", "1234567890")
        .unwrap();
    assert_eq!(
        &string,
        "https://github.com/schell/my_repo/blob/1234567890/src/file.rs#L666-L1337"
    );
    assert_eq!(
        place("/total/path/src/file.rs", (0, None))
            .to_github_link("/total/path/", "a", "b", "c"),
        Ok("https://github.com/a/b/blob/c/src/file.rs#L0".to_string())
    );
    assert_eq!(
        place("/total/other/file.rs", (1, None)).to_github_link("/total/path", "a", "b", "c"),
        Err(Error::Prefix {
            path: "/total/other/file.rs".into()
        })
    );
    assert_eq!(
        place("/total/pathology.rs", (1, None)).to_github_link("/total/path", "a", "b", "c"),
        Err(Error::Prefix {
            path: "/total/pathology.rs".into()
        })
    );
}

#[test]
fn link_round_trip() {
    let loc = place("/repo/src/x.rs", (10, Some(12)));
    let link = loc.to_github_link("/repo", "o", "r", "abc").unwrap();
    assert!(link.ends_with("#L10-L12"));
    assert_eq!(
        todo_finder_lib::parser::issue::todo_location_from_github_link(&link),
        Ok((
            "",
            GitHubTodoLocation {
                repo: ("o".into(), "r".into()),
                checkout: "abc".into(),
                file: "src/x.rs".into(),
                src_span: (10, Some(12)),
            }
        ))
    );
    let one = place("/repo/src/x.rs", (usize::MAX, None));
    let link = one.to_github_link("/repo", "o", "r", "abc").unwrap();
    let (_, back) =
        todo_finder_lib::parser::issue::todo_location_from_github_link(&link).unwrap();
    assert_eq!(back.src_span, (usize::MAX, None));
    assert_eq!(back.file, "src/x.rs");
}

#[test]
fn rendered_body_parses_back() {
    let body = IssueBody {
        descs_and_srcs: vec![
            (
                vec!["First line.".to_string(), "Second line.".to_string()],
                place("/repo/src/b.rs", (3, Some(5))),
            ),
            (vec![], place("/repo/src/a.rs", (7, None))),
        ],
    };
    let text = body.to_github_string("/repo", "o", "r", "abc").unwrap();
    assert_eq!(
        text,
        "First line.\nSecond line.\nhttps://github.com/o/r/blob/abc/src/b.rs#L3-L5\n\n\
         https://github.com/o/r/blob/abc/src/a.rs#L7"
    );
    let (rest, parsed) = todo_finder_lib::parser::issue::issue_body(&text).unwrap();
    assert_eq!(rest, "");
    assert_eq!(parsed.descs_and_srcs.len(), 2);
    assert_eq!(parsed.descs_and_srcs[0].1.file, "src/a.rs");
    assert_eq!(parsed.descs_and_srcs[0].0, Vec::<String>::new());
    assert_eq!(parsed.descs_and_srcs[1].1.src_span, (3, Some(5)));
    assert_eq!(parsed.descs_and_srcs[1].0, vec!["First line.", "Second line."]);

    let stray = IssueBody {
        descs_and_srcs: vec![
            (vec![], place("/repo/a.rs", (1, None))),
            (vec![], place("/elsewhere/b.rs", (1, None))),
            (vec![], place("/nowhere/c.rs", (1, None))),
        ],
    };
    assert_eq!(
        stray.to_github_string("/repo", "o", "r", "abc"),
        Err(Error::Prefix {
            path: "/elsewhere/b.rs".into()
        })
    );
    let empty: IssueBody<FileTodoLocation> = IssueBody { descs_and_srcs: vec![] };
    assert_eq!(empty.to_github_string("/repo", "o", "r", "abc"), Ok(String::new()));
}

#[test]
fn relative_paths_agree_with_the_standard_library() {
    for (file, root) in [
        ("/total/path/src/file.rs", "/total/path"),
        ("/total/path/src/file.rs", "/total/path/"),
        ("/total/path/src/file.rs", "/total/pa"),
        ("/total/path", "/total/path"),
        ("/a//b", "/a"),
        ("src/x.rs", "src"),
        ("src/x.rs", "lib"),
        ("/a/b", "/"),
        ("a/b", ""),
        ("/a/b", "/a/b/c"),
    ] {
        let by_std = Path::new(file)
            .strip_prefix(root)
            .ok()
            .map(|p| p.display().to_string());
        assert_eq!(relative_to(file, root).map(|p| p.to_string()), by_std, "{file} {root}");
    }
}

#[test]
fn report_in_markdown() {
    let mut map = IssueMap::new_source_todos();
    map.add_parsed_todo(
        &ParsedTodo {
            title: "b title",
            assignee: Some("ann"),
            desc_lines: vec!["one", "two"],
        },
        place("/repo/b.rs", (3, Some(5))),
    );
    map.add_parsed_todo(&ParsedTodo::from_title("a title"), place("/repo/a.rs", (12, None)));
    map.add_parsed_todo(
        &ParsedTodo {
            title: "b title",
            assignee: Some("bob"),
            desc_lines: vec![],
        },
        place("/repo/c.rs", (1, None)),
    );
    assert_eq!(
        map.as_markdown(),
        "# TODOs\n\
         Found 2 distinct TODOs in 3 file locations.\n\n\
         1. a title\n  \
         file:///repo/a.rs (line 12)\n\n\
         2. b title\n  one\n  two\n  \
         file:///repo/b.rs (lines 3 - 5)\n\n  \
         file:///repo/c.rs (line 1)\n\n  \
         assignees: ann, bob\n"
    );
    assert_eq!(
        IssueMap::new_source_todos().as_markdown(),
        "# TODOs\nFound 0 distinct TODOs in 0 file locations.\n"
    );
}

#[test]
fn report_is_sorted_as_the_standard_library_sorts() {
    let titles = ["b", "a", "", "ab", "B", "\u{e9}", "z", "\u{10000}", "\u{ffff}", "aa"];
    let mut map = IssueMap::new_source_todos();
    for t in titles {
        map.add_parsed_todo(&ParsedTodo::from_title(t), place("/repo/a.rs", (1, None)));
    }
    let sorted: Vec<&str> = map
        .sorted_by_title()
        .iter()
        .map(|t| t.head.title.as_str())
        .collect();
    let mut by_std = titles.to_vec();
    by_std.sort();
    assert_eq!(sorted, by_std);
}

#[test]
fn new_issue_is_empty() {
    let issue: Issue<u64, FileTodoLocation> = Issue::new(5, "T".into());
    assert_eq!(issue.head.external_id, 5);
    assert_eq!(issue.head.title, "T");
    assert!(issue.head.assignees.is_empty());
    assert!(issue.body.descs_and_srcs.is_empty());
    let map: IssueMap<u64, FileTodoLocation> = IssueMap::new(ParsingSource::MarkdownFile);
    assert!(map.is_empty());
    assert!(matches!(map.parsed_from, ParsingSource::MarkdownFile));
}

#[test]
fn addresses_of_the_tracker() {
    assert_eq!(
        github_issues_url("schell", "todo_finder"),
        "https://api.github.com/repos/schell/todo_finder/issues"
    );
    assert_eq!(
        github_issues_update_url("schell", "todo_finder", 42),
        "https://api.github.com/repos/schell/todo_finder/issues/42"
    );
    assert_eq!(
        github_issues_update_url("a", "b", u64::MAX),
        "https://api.github.com/repos/a/b/issues/18446744073709551615"
    );
    assert_eq!(github_issues_update_url("a", "b", 0), "https://api.github.com/repos/a/b/issues/0");
}

#[test]
fn label_is_added_once() {
    assert_eq!(with_label(vec![], "todo"), vec!["todo"]);
    assert_eq!(
        with_label(vec!["bug".into(), "todo".into()], "todo"),
        vec!["bug", "todo"]
    );
    assert_eq!(with_label(vec!["bug".into()], "todo"), vec!["bug", "todo"]);
}
