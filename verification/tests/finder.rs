use todo_finder_lib::finder::parse::{
    parse_owner_and_repo_from_config, parse_owner_and_repo_from_config_git,
    parse_owner_and_repo_from_config_http, parse_rg, parse_rg_file, parse_rg_line,
};
use todo_finder_lib::finder::rg::{parse_rg_output, rg_arguments};
use todo_finder_lib::finder::{FileSearcher, PossibleTodosInFile};
use todo_finder_lib::github::owner_and_repo;
use todo_finder_lib::parser::ParseError;
use todo_finder_lib::Error;

const OUTPUT: &[u8] = b"\
test_data/two.rs
1:This is another test file. The following is some garbage from my dayjob, with TODO tags sprinkled in.
13:// TODO: Here is an actual todo.
15:// TODO: Here is an actual todo.
32:/// TODO: Last line todo title.

test_data/one.rs
1:This is a test file. The following is some garbage from my dayjob, with TODO tags sprinkled in.
13:// TODO: Here is an actual todo.
30:/// TODO: Another todo.
";

#[test]
fn can_parse_rg_output() {
    let rg_output = std::str::from_utf8(OUTPUT).expect("Could not convert output");
    let res = parse_rg(rg_output);
    assert!(res.is_ok());
    let (_, files) = res.unwrap();
    assert_eq!(
        files,
        vec![
            ("test_data/two.rs", vec![1, 13, 15, 32]),
            ("test_data/one.rs", vec![1, 13, 30])
        ]
    );
}

#[test]
fn can_parse_git_config_owner_repo() {
    assert_eq!(
        parse_owner_and_repo_from_config("git@github.com:schell/todo_sync.git"),
        Ok((".git", ("schell", "todo_sync")))
    );

    assert_eq!(
        parse_owner_and_repo_from_config("https://github.com/schell/todo_sync"),
        Ok(("", ("schell", "todo_sync")))
    );
}

#[test]
fn origin_forms() {
    assert_eq!(
        parse_owner_and_repo_from_config_git("git@github.com:schell/todo_sync.git"),
        Ok((".git", ("schell", "todo_sync")))
    );
    assert_eq!(
        parse_owner_and_repo_from_config_git("https://github.com/schell/todo_sync"),
        Err(ParseError)
    );
    assert_eq!(
        parse_owner_and_repo_from_config_http("http://example.org/a/b.git\n"),
        Ok((".git\n", ("a", "b")))
    );
    assert_eq!(
        parse_owner_and_repo_from_config_http("https://github.com/schell"),
        Err(ParseError)
    );
    assert_eq!(
        parse_owner_and_repo_from_config("https://github.com/ schell /todo_sync\n"),
        Ok(("", ("schell", "todo_sync")))
    );
    assert_eq!(parse_owner_and_repo_from_config("ftp://x/a/b"), Err(ParseError));
}

#[test]
fn owner_and_repo_of_an_origin() {
    assert_eq!(
        owner_and_repo("git@github.com:schell/todo_sync.git"),
        Ok(("schell".to_string(), "todo_sync".to_string()))
    );
    assert_eq!(owner_and_repo("nowhere"), Err(Error::ParseOwnerRepo));
}

#[test]
fn rg_lines_and_files() {
    assert_eq!(parse_rg_line("13:// TODO: x\n14:y"), Ok(("14:y", 13)));
    assert_eq!(parse_rg_line("13 // TODO"), Err(ParseError));
    assert_eq!(parse_rg_line("x:1"), Err(ParseError));
    assert_eq!(
        parse_rg_line("99999999999999999999999999:// TODO"),
        Err(ParseError)
    );
    assert_eq!(
        parse_rg_file("a.rs\n1:x\n2:y\n\nb.rs\n"),
        Ok(("b.rs\n", ("a.rs", vec![1, 2])))
    );
    assert_eq!(parse_rg_file("a.rs\nno line\n"), Err(ParseError));
    assert_eq!(parse_rg(""), Err(ParseError));
}

#[test]
fn output_is_sorted_by_file() {
    assert_eq!(
        parse_rg_output(OUTPUT),
        Ok(vec![
            PossibleTodosInFile {
                file: "test_data/one.rs".into(),
                lines_to_search: vec![1, 13, 30],
            },
            PossibleTodosInFile {
                file: "test_data/two.rs".into(),
                lines_to_search: vec![1, 13, 15, 32],
            },
        ])
    );
}

#[test]
fn outputs_of_several_patterns_are_merged() {
    let todo: Vec<u8> = b"b.rs\n3:// TODO: x\n9:// TODO FIXME\n\na.rs\n7:// TODO: y\n".to_vec();
    let fixme: Vec<u8> = b"b.rs\n1:// FIXME: z\n9:// TODO FIXME\n".to_vec();
    let none: Vec<u8> = vec![];
    assert_eq!(
        FileSearcher::find(&[todo, none, fixme]),
        Ok(vec![
            PossibleTodosInFile::new("a.rs", vec![7]),
            PossibleTodosInFile::new("b.rs", vec![1, 3, 9]),
        ])
    );
}

#[test]
fn output_that_is_no_list_of_files_is_an_error() {
    assert_eq!(parse_rg_output(b""), Err(Error::ParseRg));
    assert_eq!(parse_rg_output(b"only a heading\n"), Err(Error::ParseRg));
    assert_eq!(parse_rg_output(&[0x61, 0xff, 0x0a]), Err(Error::RgUtf8));
    assert_eq!(FileSearcher::find(&[]), Err(Error::ParseRg));
}

#[test]
fn output_in_utf8_is_read_as_text() {
    let bytes = "d\u{e9}j\u{e0}/\u{4e16}.rs\n2:// TODO: \u{1f600}\n".as_bytes();
    assert_eq!(
        parse_rg_output(bytes),
        Ok(vec![PossibleTodosInFile::new("d\u{e9}j\u{e0}/\u{4e16}.rs", vec![2])])
    );
}

#[test]
fn arguments_of_the_line_search() {
    let excludes = vec!["target".to_string(), "*.md".to_string()];
    assert_eq!(
        rg_arguments("/repo", "TODO", &excludes),
        vec!["--heading", "--line-number", "-g", "!target", "-g", "!*.md", "TODO", "/repo"]
    );
    assert_eq!(
        rg_arguments(".", "todo!", &[]),
        vec!["--heading", "--line-number", "todo!", "."]
    );
}
