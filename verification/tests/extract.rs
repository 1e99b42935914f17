use std::path::Path;

use todo_finder_lib::finder::PossibleTodosInFile;
use todo_finder_lib::parser::extract::{
    file_extension, plan_file, unsupported_file, FilePlan, SourceFile, UnsupportedFile,
};
use todo_finder_lib::parser::langs::{c_style, haskell_style, lang, language_map, objc_style};
use todo_finder_lib::parser::{FileTodoLocation, IssueMap};

fn place(file: &str, span: (usize, Option<usize>)) -> FileTodoLocation {
    FileTodoLocation {
        file: file.into(),
        src_span: span,
    }
}

fn spans(map: &IssueMap<(), FileTodoLocation>) -> Vec<(String, Vec<FileTodoLocation>)> {
    map.todos
        .iter()
        .map(|t| {
            (
                t.head.title.clone(),
                t.body.descs_and_srcs.iter().map(|o| o.1.clone()).collect(),
            )
        })
        .collect()
}

const CONTENTS: &str = "\
fn main() {
    // TODO: First thing.
    // It has a description.
    let todo = \"TODO\";
    /* FIXME (ann): Second thing.
       over
       three lines
    */
    todo!(\"Third thing\");
}
// TODO: First thing.
";

#[test]
fn todos_on_candidate_lines() {
    let mut map = IssueMap::new_source_todos();
    let rust = vec![lang("Rust", c_style(), vec!["rs"])];
    let possible = PossibleTodosInFile::new("/repo/main.rs", vec![2, 4, 5, 9, 11]);
    map.add_todos_in_file(&possible, CONTENTS, &rust);
    assert_eq!(
        spans(&map),
        vec![
            (
                "First thing.".to_string(),
                vec![
                    place("/repo/main.rs", (2, Some(3))),
                    place("/repo/main.rs", (11, None))
                ]
            ),
            (
                "Second thing.".to_string(),
                vec![place("/repo/main.rs", (5, Some(8)))]
            ),
            (
                "Third thing".to_string(),
                vec![place("/repo/main.rs", (9, None))]
            ),
        ]
    );
    assert_eq!(map.todos[0].body.descs_and_srcs[0].0, vec!["It has a description."]);
    assert_eq!(map.todos[1].head.assignees, vec!["ann"]);
    assert_eq!(map.todos[1].body.descs_and_srcs[0].0, vec!["over", "three lines"]);
    assert_eq!(map.total_len(), 4);
}

#[test]
fn candidate_lines_in_any_order() {
    let rust = vec![lang("Rust", c_style(), vec!["rs"])];
    let mut map = IssueMap::new_source_todos();
    let possible = PossibleTodosInFile::new("m.rs", vec![11, 2, 0, 400, usize::MAX, 9]);
    map.add_todos_in_file(&possible, CONTENTS, &rust);
    assert_eq!(
        spans(&map),
        vec![
            (
                "First thing.".to_string(),
                vec![place("m.rs", (11, None)), place("m.rs", (2, Some(3)))]
            ),
            ("Third thing".to_string(), vec![place("m.rs", (9, None))]),
        ]
    );
}

#[test]
fn line_one_and_line_zero_are_the_start() {
    let rust = vec![lang("Rust", c_style(), vec!["rs"])];
    let mut map = IssueMap::new_source_todos();
    map.add_todos_in_file(
        &PossibleTodosInFile::new("a.rs", vec![0, 1]),
        "// TODO: Top.\n",
        &rust,
    );
    assert_eq!(
        spans(&map),
        vec![(
            "Top.".to_string(),
            vec![place("a.rs", (0, None)), place("a.rs", (1, None))]
        )]
    );
}

#[test]
fn first_language_that_finds_a_todo_decides() {
    let both = vec![
        lang("Haskell", haskell_style(), vec!["x"]),
        lang("C", c_style(), vec!["x"]),
        lang("Objective-C", objc_style(), vec!["x"]),
    ];
    let mut map = IssueMap::new_source_todos();
    map.add_todos_in_file(
        &PossibleTodosInFile::new("a.x", vec![1, 2]),
        "// TODO: In C.\n-- TODO: In Haskell.\n",
        &both,
    );
    assert_eq!(
        spans(&map),
        vec![
            ("In C.".to_string(), vec![place("a.x", (1, None))]),
            ("In Haskell.".to_string(), vec![place("a.x", (2, None))]),
        ]
    );
    assert_eq!(map.total_len(), 2);
}

#[test]
fn lone_carriage_return_ends_the_reachable_lines() {
    let rust = vec![lang("Rust", c_style(), vec!["rs"])];
    let mut map = IssueMap::new_source_todos();
    map.add_todos_in_file(
        &PossibleTodosInFile::new("a.rs", vec![2, 3]),
        "x\ry\n// TODO: Hidden.\n",
        &rust,
    );
    assert!(map.is_empty());
}

#[test]
fn extensions_agree_with_the_standard_library() {
    for path in [
        "src/main.rs",
        "main.rs",
        "a/b.tar.gz",
        "Makefile",
        ".bashrc",
        "dir/.bashrc",
        ".config.yml",
        "a.",
        "a.b/c",
        "a.b/c.d",
        "..",
        "a/..",
        "/",
        "",
        "x.RS",
        "..a",
        "...",
    ] {
        let by_std = Path::new(path)
            .extension()
            .map(|e| e.to_str().unwrap().to_string());
        assert_eq!(file_extension(path).map(|e| e.to_string()), by_std, "{path}");
    }
}

#[test]
fn plan_reads_supported_files_only() {
    let map = language_map();
    match plan_file(&PossibleTodosInFile::new("src/a.h", vec![1]), &map) {
        FilePlan::Read(langs) => assert_eq!(langs.len(), 2),
        FilePlan::Unsupported(_) => panic!("a header is supported"),
    }
    match plan_file(&PossibleTodosInFile::new("notes.docx", vec![3]), &map) {
        FilePlan::Unsupported(notice) => assert_eq!(
            notice,
            UnsupportedFile {
                path: "notes.docx".into(),
                todo: "line 3".into()
            }
        ),
        FilePlan::Read(_) => panic!("no language claims docx"),
    }
    match plan_file(&PossibleTodosInFile::new("Makefile", vec![3, 14, 15]), &map) {
        FilePlan::Unsupported(notice) => assert_eq!(notice.todo, "lines 3, 14, 15"),
        FilePlan::Read(_) => panic!("no language claims a file without extension"),
    }
    assert_eq!(unsupported_file(&PossibleTodosInFile::new("x", vec![])).todo, "lines ");
}

#[test]
fn unsupported_file_is_reported_and_skipped() {
    let map = language_map();
    let one = SourceFile {
        possible: PossibleTodosInFile::new("/repo/one.rs", vec![1]),
        contents: "// TODO: Shared title.\n".into(),
    };
    let odd = SourceFile {
        possible: PossibleTodosInFile::new("/repo/notes.docx", vec![1]),
        contents: "// TODO: Never read.\n".into(),
    };
    let two = SourceFile {
        possible: PossibleTodosInFile::new("/repo/two.hs", vec![2]),
        contents: "module Two where\n-- TODO: Shared title.\n--   With more.\n".into(),
    };
    let with = IssueMap::from_files(&[one.clone(), odd, two.clone()], &map);
    let without = IssueMap::from_files(&[one, two], &map);
    assert_eq!(
        with.unsupported,
        vec![UnsupportedFile {
            path: "/repo/notes.docx".into(),
            todo: "line 1".into()
        }]
    );
    assert!(without.unsupported.is_empty());
    assert_eq!(spans(&with.todos), spans(&without.todos));
    assert_eq!(
        spans(&with.todos),
        vec![(
            "Shared title.".to_string(),
            vec![
                place("/repo/one.rs", (1, None)),
                place("/repo/two.hs", (2, Some(3)))
            ]
        )]
    );
    assert_eq!(with.todos.distinct_len(), 1);
    assert_eq!(with.todos.total_len(), 2);
}
