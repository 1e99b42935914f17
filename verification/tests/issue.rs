use todo_finder_lib::parser::issue::{
    issue_body, issue_todo, repo_from_github_link, span_from_github_link, src_location0,
    todo_location_from_github_link, todo_location_from_github_markdown_link, GitHubTodoLocation,
};
use todo_finder_lib::parser::{IssueBody, ParseError};

#[test]
fn issue_can_parse_todo_location_from_github_link() {
    let bytes: &str = "\
https://github.com/schell/src-of-truth/blob/\
b18659e607c3673b883b4caa07a1e850e0a6121c/src/SrcOfTruth.hs#L258";
    assert_eq!(
        todo_location_from_github_link(bytes),
        Ok((
            "",
            GitHubTodoLocation {
                repo: ("schell".into(), "src-of-truth".into()),
                checkout: "b18659e607c3673b883b4caa07a1e850e0a6121c".into(),
                file: "src/SrcOfTruth.hs".into(),
                src_span: (258, None)
            }
        ))
    );

    let bytes = "\
https://github.com/schell/src-of-truth/blob/\
a1eb484c90f9e0b85ab5066b8950750a5bd4ab95/app/Main.hs#L3-L7";

    assert_eq!(
        todo_location_from_github_link(bytes),
        Ok((
            "",
            GitHubTodoLocation {
                repo: ("schell".into(), "src-of-truth".into()),
                checkout: "a1eb484c90f9e0b85ab5066b8950750a5bd4ab95".into(),
                file: "app/Main.hs".into(),
                src_span: (3, Some(7))
            }
        ))
    )
}

#[test]
fn issue_can_parse_todo_location_with_range_from_github_link() {
    let bytes = "\
https://github.com/schell/src-of-truth/blob/\
6e2f663102a282027f1fb0cdf0f0c4e203a118f1/src/SrcOfTruth/Issues.hs#L254-L256\n\n";
    assert_eq!(
        todo_location_from_github_link(bytes),
        Ok((
            "\n\n",
            GitHubTodoLocation {
                repo: ("schell".into(), "src-of-truth".into()),
                checkout: "6e2f663102a282027f1fb0cdf0f0c4e203a118f1".into(),
                file: "src/SrcOfTruth/Issues.hs".into(),
                src_span: (254, Some(256))
            }
        ))
    );
}

#[test]
fn issue_can_parse_issue_todo() {
    let bytes = "\
This is the description.
[stuff](https://github.com/schell/repo/blob/abighash/src/File.hs#L666 \
                     \"title\")
";
    let may_desc_and_loc = issue_todo(bytes);
    assert!(may_desc_and_loc.is_ok());

    let (left, (desc, loc)) = may_desc_and_loc.unwrap();
    assert_eq!("\n", left, "leftover");
    assert_eq!(vec!["This is the description."], desc, "description");
    assert_eq!(
        GitHubTodoLocation {
            repo: ("schell".into(), "repo".into()),
            checkout: "abighash".into(),
            file: "src/File.hs".into(),
            src_span: (666, None)
        },
        loc,
        "location"
    );
}

#[test]
fn issue_will_not_parse_newline_as_space() {
    // Blanks are spaces and tabs: a line feed is none, and stays.
    let bytes = "   \n   ";
    assert_eq!(
        todo_finder_lib::parser::source::comment_start(&[], "", bytes),
        Ok(("\n   ", ()))
    );
}

#[test]
fn issue_can_parse_issue_body() {
    let bytes = "\
This is the description.
[stuff](https://github.com/schell/repo/blob/abighash/src/File.hs#L666 \
                     \"title\")

This is another description.
[stuff](https://github.com/schell/repo/blob/abighash/src/Other.hs#L23 \
                     \"title\")

";

    assert_eq!(
        issue_body(bytes),
        Ok((
            "",
            IssueBody {
                descs_and_srcs: vec![
                    (
                        vec!["This is the description.".into()],
                        GitHubTodoLocation {
                            repo: ("schell".into(), "repo".into()),
                            checkout: "abighash".into(),
                            file: "src/File.hs".into(),
                            src_span: (666, None)
                        }
                    ),
                    (
                        vec!["This is another description.".into()],
                        GitHubTodoLocation {
                            repo: ("schell".into(), "repo".into()),
                            checkout: "abighash".into(),
                            file: "src/Other.hs".into(),
                            src_span: (23, None)
                        }
                    ),
                ],
            }
        ))
    );
}

fn location(owner: &str, file: &str, span: (usize, Option<usize>)) -> GitHubTodoLocation {
    GitHubTodoLocation {
        repo: (owner.into(), "r".into()),
        checkout: "c".into(),
        file: file.into(),
        src_span: span,
    }
}

#[test]
fn issue_body_sorts_by_place() {
    let bytes = "\
second
https://github.com/o/r/blob/c/b.rs#L9
first
https://github.com/o/r/blob/c/a.rs#L10-L12
third
https://github.com/o/r/blob/c/b.rs#L9-L10
zeroth
https://github.com/a/r/blob/c/z.rs#L100
";
    let (rest, body) = issue_body(bytes).unwrap();
    assert_eq!(rest, "");
    let places: Vec<&GitHubTodoLocation> = body.descs_and_srcs.iter().map(|o| &o.1).collect();
    assert_eq!(
        places,
        vec![
            &location("a", "z.rs", (100, None)),
            &location("o", "a.rs", (10, Some(12))),
            &location("o", "b.rs", (9, None)),
            &location("o", "b.rs", (9, Some(10))),
        ]
    );
    let mut by_std: Vec<&GitHubTodoLocation> = places.clone();
    by_std.sort();
    assert_eq!(places, by_std);
    assert_eq!(body.descs_and_srcs[0].0, vec!["zeroth".to_string()]);
}

#[test]
fn place_order_agrees_with_the_derived_order() {
    let places = vec![
        location("o", "a.rs", (1, None)),
        location("o", "a.rs", (1, Some(2))),
        location("o", "a.rs", (2, None)),
        location("o", "a", (2, None)),
        location("o", "b.rs", (0, Some(0))),
        location("", "b.rs", (0, Some(0))),
        location("é", "b.rs", (0, Some(0))),
        location("z", "b.rs", (0, Some(0))),
        location("\u{10000}", "b.rs", (0, Some(0))),
        location("\u{ffff}", "b.rs", (0, Some(0))),
    ];
    for a in places.iter() {
        for b in places.iter() {
            assert_eq!(a.is_le(b), a <= b, "{a:?} {b:?}");
        }
    }
}

#[test]
fn issue_body_fails_without_a_link() {
    assert_eq!(issue_body(""), Err(ParseError));
    assert_eq!(issue_body("just text\n"), Err(ParseError));
    assert_eq!(
        issue_body("https://github.com/o/r/blob/c/a.rs#L1\ntrailing text"),
        Err(ParseError)
    );
    assert!(issue_body("https://github.com/o/r/blob/c/a.rs#L1\n\n\n").is_ok());
}

#[test]
fn span_names_one_line_or_a_range() {
    assert_eq!(span_from_github_link("#L7-L9"), Ok(("", (7, Some(9)))));
    assert_eq!(span_from_github_link("#L7"), Ok(("", (7, None))));
    assert_eq!(span_from_github_link("#L7-Lx"), Ok(("-Lx", (7, None))));
    assert_eq!(span_from_github_link("#L"), Err(ParseError));
    assert_eq!(span_from_github_link("L7"), Err(ParseError));
    assert_eq!(
        span_from_github_link("#L99999999999999999999999999999999999999"),
        Err(ParseError)
    );
    assert_eq!(
        span_from_github_link("#L18446744073709551615"),
        Ok(("", (usize::MAX, None)))
    );
    assert_eq!(span_from_github_link("#L007"), Ok(("", (7, None))));
}

#[test]
fn plain_and_markdown_links_name_the_same_place() {
    let place = GitHubTodoLocation {
        repo: ("schell".into(), "repo".into()),
        checkout: "yar".into(),
        file: "File.hs".into(),
        src_span: (666, None),
    };
    let copy = GitHubTodoLocation {
        repo: ("schell".into(), "repo".into()),
        checkout: "yar".into(),
        file: "File.hs".into(),
        src_span: (666, None),
    };
    let bytes = "https://github.com/schell/repo/blob/yar/File.hs#L666 ";
    assert_eq!(todo_location_from_github_link(bytes), Ok((" ", copy)));
    let bytes = "[stuff](https://github.com/schell/repo/blob/yar/File.hs#L666 \"aoeu\")\n";
    assert_eq!(
        todo_location_from_github_markdown_link(bytes),
        Ok(("\n", place))
    );
    assert_eq!(
        todo_location_from_github_markdown_link("[stuff](nothing)"),
        Err(ParseError)
    );
    assert_eq!(
        todo_location_from_github_link("https://github.com/schell/repo/tree/yar/File.hs#L1"),
        Err(ParseError)
    );
}

#[test]
fn repo_is_owner_and_name() {
    assert_eq!(
        repo_from_github_link("schell/repo/blob"),
        Ok(("/blob", ("schell", "repo")))
    );
    assert_eq!(repo_from_github_link("schell"), Err(ParseError));
}

#[test]
fn oldest_location_line() {
    assert_eq!(
        src_location0("Located in \"src/Main.hs\" on line 12\n"),
        Ok(("\n", ("src/Main.hs", 12)))
    );
    assert_eq!(src_location0("Located in src/Main.hs on line 12"), Err(ParseError));
}
