use todo_finder_lib::parser::issue::{
    branches_todo_is_found_on, todo_stories, todo_story, TodoStory,
};
use todo_finder_lib::parser::ParseError;

#[test]
fn can_parse_todo_stories() {
    let bytes = "\
* Opened on mitchell-diagram
* Found on master
* Found on module-headers
* Found on mitchell-resourcet
* Closed on module-headers
* Found on move-stylish
* Closed on mitchell-resourcet
* Found on pretty-gh-links
* Found on mitchell-gh
* Found on mitchell-pemfile-arg
* Closed on mitchell-pemfile-arg
* Found on feature-wip
* Found on mitchell-190
* Found on mitchell-191
* Found on mitchell-236
* Closed on mitchell-190
* Closed on mitchell-191
* Closed on mitchell-236
* Found on mitchell-241
* Found on restart-services
* Closed on feature-wip
* Closed on mitchell-241
* Closed on mitchell-256
* Closed on restart-services
* Closed on feature-pretty-gh-links
* Closed on feature-gh-pretty-links-2
* Closed on specific-runner-hack
* Closed on mitchell-gh
* Closed on feature-purescript-flavor
* Closed on metrics-class
* Closed on error-260
* Closed on feature-job-metrics
* Closed on master
* Closed on storyline-tests
* Closed on mitchell-gh-auth
* Closed on manager-retries
* Closed on revert-263-feature-pretty-gh-links
* Closed on pretty-gh-links
* Closed on mitchell-diagram
* Closed on comment-branches
* Closed on feature-mitchell-fetch-issues
";
    let may_stories = todo_stories(bytes);
    assert!(may_stories.is_ok());

    let (_, stories) = may_stories.unwrap();
    let branches = branches_todo_is_found_on(stories);
    assert_eq!(branches, vec!["move-stylish"]);
}

#[test]
fn stories_one_by_one() {
    let bytes = "\
* Opened on master
* Found on develop
* Closed on develop
* Closed on master
rest";
    assert_eq!(
        todo_stories(bytes),
        Ok((
            "rest",
            vec![
                TodoStory {
                    branch: "master",
                    is_closed: false
                },
                TodoStory {
                    branch: "develop",
                    is_closed: false
                },
                TodoStory {
                    branch: "develop",
                    is_closed: true
                },
                TodoStory {
                    branch: "master",
                    is_closed: true
                },
            ]
        ))
    );
    assert_eq!(
        todo_story("* odd\n"),
        Ok((
            "",
            TodoStory {
                branch: " odd",
                is_closed: true
            }
        ))
    );
    assert_eq!(todo_story("Opened on master"), Err(ParseError));
    assert_eq!(todo_stories("no story"), Err(ParseError));
    assert!(TodoStory { branch: "b", is_closed: false }.is_open());
    assert!(!TodoStory { branch: "b", is_closed: true }.is_open());
}

#[test]
fn open_branches_are_sorted_and_unique() {
    let story = |branch, is_closed| TodoStory { branch, is_closed };
    assert_eq!(
        branches_todo_is_found_on(vec![
            story("b", false),
            story("a", false),
            story("c", false),
            story("b", true),
            story("a", false),
            story("d", true),
            story("b", false),
            story("c", true),
        ]),
        vec!["a", "b"]
    );
    assert_eq!(branches_todo_is_found_on(vec![]), Vec::<&str>::new());
}
