use todo_finder_lib::parser::source::{
    assignee, comment_start, multi_line_todo, parse_todo, parse_todos, rust_todo_content,
    sentence_and_terminator, single_line_comment, single_line_todo, title_and_rest_till_eol,
    todo_tag, trim_borders, ParsedTodo, TodoParserConfig, TodoTag,
};
use todo_finder_lib::parser::{take_to_eol, ParseError};
use todo_finder_lib::text::{trimmed, without_prefixes, without_suffixes};

fn strings(items: &[&str]) -> Vec<String> {
    items.iter().map(|s| s.to_string()).collect()
}

#[test]
fn source_trim_removes_lines() {
    let to_trim = "* Hello *\n";
    let trimmed_text = trimmed(to_trim);
    assert_eq!("* Hello *", trimmed_text);
    assert_eq!(to_trim.trim(), trimmed_text);
}

#[test]
fn source_trim_start_does_nothing_if_no_match() {
    let to_trim = "* Hello *\n";
    let trimmed_text = without_prefixes(to_trim, "!!");
    assert_eq!("* Hello *\n", trimmed_text);
    assert_eq!(to_trim.trim_start_matches("!!"), trimmed_text);
}

#[test]
fn source_not_eating_what_it_do() {
    let i = "blah1 blah2";
    assert_eq!(todo_tag(i), Err(ParseError));
    assert_eq!(single_line_comment(&[], "", i), Ok(("", "blah1 blah2")));

    let i = "TODO: blah1 blah2";
    assert!(todo_tag(i).is_ok());
    assert_eq!(single_line_comment(&[], "", i), Err(ParseError));
}

#[test]
fn source_title_and_rest() {
    let bytes = "uuid onSend/onReceive\n-- blah blah\n";
    assert_eq!(
        title_and_rest_till_eol(&[], bytes),
        Ok(("-- blah blah\n", ("uuid onSend/onReceive", "")))
    );

    let bytes = "This is the title! The description is less angry.\n";
    assert_eq!(
        title_and_rest_till_eol(&[], bytes),
        Ok(("", ("This is the title!", "The description is less angry.")))
    );

    let bytes = "This is the title?! The description is less angry.\n";
    assert_eq!(
        title_and_rest_till_eol(&[], bytes),
        Ok((
            "",
            ("This is the title?!", "The description is less angry.")
        ))
    );

    let bytes = "Decoder.rowVector uses '.' as an operator. So don't make a title of that.\n";
    assert_eq!(
        title_and_rest_till_eol(&[], bytes),
        Ok((
            "",
            (
                "Decoder.rowVector uses '.' as an operator.",
                "So don't make a title of that."
            )
        ))
    );
}

fn many_single_line_todos<'a>(prefix: &str, input: &'a str) -> (&'a str, Vec<ParsedTodo<'a>>) {
    let mut rest = input;
    let mut found = vec![];
    while let Ok((next, todo)) = single_line_todo(&[], prefix, rest) {
        found.push(todo);
        rest = next;
    }
    (rest, found)
}

#[test]
fn source_parse_single_line_todos() {
    let bytes = "-- TODO: This is a todo.\n\n\n-------------\n";
    assert_eq!(
        single_line_todo(&[], "--", bytes),
        Ok((
            "\n\n-------------\n",
            ParsedTodo::from_title("This is a todo.")
        ))
    );

    let bytes = "    # TODO: Let's have a byte to eat. Ok.\n    # TODO(): Nah, let's just \
                 have a nibble.\n    \n";
    assert_eq!(
        many_single_line_todos("#", bytes),
        (
            "    \n",
            vec![
                ParsedTodo::from_title("Let's have a byte to eat.").with_desc("Ok."),
                ParsedTodo::from_title("Nah, let's just have a nibble.")
            ]
        )
    );

    let bytes = "    # TODO: Do A.\n    # TODO: Do B.\n";
    assert_eq!(
        single_line_todo(&[], "#", bytes),
        Ok(("    # TODO: Do B.\n", ParsedTodo::from_title("Do A.")))
    );

    let bytes = "    # TODO: aborted evaluations\n    # TODO: dependency failed without \
                 propagated builds
   for tr in d('img[alt=\"Failed\"]').parents('tr'):\n";
    assert_eq!(
        single_line_todo(&[], "#", bytes),
        Ok((
            "    # TODO: dependency failed without propagated builds
   for tr in d('img[alt=\"Failed\"]').parents('tr'):\n",
            ParsedTodo::from_title("aborted evaluations")
        ))
    );
}

#[test]
fn source_parse_multi_line_todos() {
    let borders = strings(&["|"]);
    let haskell_parser = |i| multi_line_todo(&borders, "{-", "-}", i);

    let bytes = "   TODO: Make sure this comment gets turned
                          into a todo.
    -}\n";
    assert_eq!(
        haskell_parser(bytes),
        Ok((
            "\n",
            ParsedTodo {
                assignee: None,
                title: "Make sure this comment gets turned",
                desc_lines: vec!["into a todo.",]
            }
        ))
    );

    let bytes = "{- | TODO: List the steps to draw an owl. -}\n";
    assert_eq!(
        haskell_parser(bytes),
        Ok((
            "",
            ParsedTodo {
                assignee: None,
                title: "List the steps to draw an owl.",
                desc_lines: vec![]
            }
        ))
    );

    let bytes = "{- TODO: Figure out why duplicate tickets are being made.
          The todo above \"Add log levels\" is getting re-created on each check-in.

          Fix dis shizz!
       -}\n";

    assert_eq!(
        haskell_parser(bytes),
        Ok((
            "\n",
            ParsedTodo {
                assignee: None,
                title: "Figure out why duplicate tickets are being made.",
                desc_lines: vec![
                    "The todo above \"Add log levels\" is getting re-created on each check-in.",
                    "Fix dis shizz!"
                ]
            }
        ))
    );
}

#[test]
fn source_parse_todos() {
    let c_config = TodoParserConfig {
        singles: strings(&["//"]),
        multis: vec![("/*".into(), "*/".into())],
        borders: strings(&["*"]),
    };

    let bytes = "/** FIXME: C++ doc title.
        * C++ doc body. Here is some detail
        * that is really interesting.
        */\n";
    assert_eq!(
        parse_todo(&c_config, bytes),
        Ok((
            "\n",
            ParsedTodo {
                title: "C++ doc title.",
                assignee: None,
                desc_lines: vec![
                    "C++ doc body. Here is some detail",
                    "that is really interesting."
                ]
            }
        ))
    );

    let nix_config = TodoParserConfig {
        singles: strings(&["#"]),
        multis: vec![],
        borders: vec![],
    };

    let bytes = "    # TODO: aborted evaluations\n    # TODO: dependency failed without \
                 propagated builds\n    for tr in d('img[alt=\"Failed\"]').parents('tr'):\n";
    assert_eq!(
        parse_todo(&nix_config, bytes),
        Ok((
            "    # TODO: dependency failed without propagated builds\n    for tr in \
             d('img[alt=\"Failed\"]').parents('tr'):\n",
            ParsedTodo {
                title: "aborted evaluations",
                assignee: None,
                desc_lines: vec![]
            }
        ))
    );
}

#[test]
fn comment_start_eats_prefix_and_one_border() {
    let borders = strings(&["|"]);
    assert_eq!(
        comment_start(&borders, "--", " -- Here is a comment."),
        Ok(("Here is a comment.", ()))
    );
    assert_eq!(
        comment_start(&borders, "--", "-- | | twice"),
        Ok(("| twice", ()))
    );
    assert_eq!(comment_start(&borders, "--", "// no"), Err(ParseError));
    let two = strings(&["*", "|"]);
    assert_eq!(comment_start(&two, "{-", "{- |* x"), Ok(("* x", ())));
}

#[test]
fn assignee_eats_a_name_in_parentheses() {
    assert_eq!(assignee("(mitchellwrosen)"), Ok(("", "mitchellwrosen")));
    assert_eq!(assignee("(  schell) rest"), Ok((" rest", "schell")));
    assert_eq!(assignee("()"), Ok(("", "")));
    assert_eq!(assignee("(two words)"), Err(ParseError));
    assert_eq!(assignee("(open"), Err(ParseError));
    assert_eq!(assignee("name)"), Err(ParseError));
}

#[test]
fn todo_tag_eats_every_tag() {
    assert_eq!(todo_tag("@todo "), Ok(("", None)));
    assert_eq!(todo_tag("TODO "), Ok(("", None)));
    assert_eq!(todo_tag("TODO"), Ok(("", None)));
    assert_eq!(todo_tag("FIXME"), Ok(("", None)));
    assert_eq!(todo_tag("todo!"), Ok(("", Some(TodoTag::RustMacro))));
    assert_eq!(todo_tag("TODO(): x"), Ok(("x", None)));
    assert_eq!(todo_tag("todo"), Err(ParseError));

    let all_text = r#"TODO(schell) FIXME (mitchellwrosen) @todo(imalsogreg) todo!("blah")"#;
    let mut rest = all_text;
    let mut tags = vec![];
    while let Ok((next, tag)) = todo_tag(rest) {
        tags.push(tag);
        rest = next;
    }
    assert_eq!(rest, r#"("blah")"#);
    assert_eq!(
        tags,
        vec![
            Some(TodoTag::Standard("schell")),
            Some(TodoTag::Standard("mitchellwrosen")),
            Some(TodoTag::Standard("imalsogreg")),
            Some(TodoTag::RustMacro)
        ]
    );
}

#[test]
fn sentence_ends_at_a_terminator_before_a_space() {
    assert_eq!(sentence_and_terminator("A. B."), Ok(("B.", "A.")));
    assert_eq!(
        sentence_and_terminator("fmap.fmap is weird. ok."),
        Ok(("ok.", "fmap.fmap is weird."))
    );
    let bytes = "Sandy doesn't like fmap.fmap for some reason. Other sentence.\n";
    assert_eq!(
        sentence_and_terminator(bytes),
        Ok((
            "Other sentence.\n",
            "Sandy doesn't like fmap.fmap for some reason."
        ))
    );
    let bytes = "Hey you, I bet you allocate\na lot of resources. Maybe not.";
    assert_eq!(
        sentence_and_terminator(bytes),
        Ok(("Maybe not.", "Hey you, I bet you allocate\na lot of resources."))
    );
    assert_eq!(sentence_and_terminator(""), Ok(("", "")));
    assert_eq!(sentence_and_terminator("no end"), Ok(("", "no end")));
    assert_eq!(sentence_and_terminator("What?!  Two"), Ok(("Two", "What?!")));
}

#[test]
fn trim_borders_strips_both_ends() {
    let star = strings(&["*"]);
    assert_eq!(trim_borders(&star, " * I like veggies *\n"), "I like veggies");
    assert_eq!(trim_borders(&star, " * hello *\n"), "hello");
    assert_eq!(trim_borders(&star, trim_borders(&star, " * hello *\n")), "hello");
    assert_eq!(trim_borders(&star, "** a * b **"), "a * b");
    assert_eq!(trim_borders(&[], "  plain\t"), "plain");
    assert_eq!(trim_borders(&strings(&[""]), " x "), "x");
}

#[test]
fn trim_borders_twice_may_strip_more() {
    let star = strings(&["*"]);
    let once = trim_borders(&star, "* * hello");
    assert_eq!(once, "* hello");
    assert_eq!(trim_borders(&star, once), "hello");
}

#[test]
fn trimming_agrees_with_the_standard_library() {
    for text in [
        "",
        " ",
        "\u{a0}x\u{3000}",
        "\t\r\n a b \u{2028}\u{85}",
        "\u{1680}\u{2000}\u{200a}\u{202f}\u{205f}y\u{2029}",
        "\u{200b}z\u{180e}",
        "\u{b}\u{c}q\u{1c}",
    ] {
        assert_eq!(trimmed(text), text.trim());
    }
    for (text, token) in [("ababx", "ab"), ("aaa", "aa"), ("x", ""), ("", "a"), ("abab", "ab")] {
        assert_eq!(without_prefixes(text, token), text.trim_start_matches(token));
        assert_eq!(without_suffixes(text, token), text.trim_end_matches(token));
    }
}

#[test]
fn take_to_eol_eats_one_line_ending() {
    assert_eq!(take_to_eol("one\ntwo\n"), Ok(("two\n", "one")));
    assert_eq!(take_to_eol("one\r\ntwo"), Ok(("two", "one")));
    assert_eq!(take_to_eol("one\rtwo"), Ok(("\rtwo", "one")));
    assert_eq!(take_to_eol("\n\n"), Ok(("\n", "")));
    assert_eq!(take_to_eol(""), Ok(("", "")));
}

#[test]
fn single_line_comment_stops_at_a_todo() {
    let bytes = "// Here is a whole single line comment.\n";
    assert_eq!(
        single_line_comment(&[], "//", bytes),
        Ok(("", "Here is a whole single line comment."))
    );
    let bytes = "// TODO: Here is a whole single line comment.\n";
    assert!(single_line_comment(&[], "//", bytes).is_err());
}

#[test]
fn single_line_todo_gathers_description() {
    let bytes = "-- TODO: Hey there.\n--    Description.\n";
    assert_eq!(
        single_line_todo(&[], "--", bytes),
        Ok(("", ParsedTodo::from_title("Hey there.").with_desc("Description.")))
    );
    let bytes = "// FIXME (ann): Do it. Now.\n//\n// And then.\nlet x = 1;\n";
    assert_eq!(
        single_line_todo(&[], "//", bytes),
        Ok((
            "let x = 1;\n",
            ParsedTodo {
                title: "Do it.",
                assignee: Some("ann"),
                desc_lines: vec!["Now.", "And then."],
            }
        ))
    );
}

#[test]
fn single_line_todo_with_an_empty_prefix_fails_at_the_end() {
    assert_eq!(single_line_todo(&[], "", "TODO: x"), Err(ParseError));
    assert_eq!(
        single_line_todo(&[], "", "TODO: x\nTODO: y"),
        Ok(("TODO: y", ParsedTodo::from_title("x")))
    );
}

#[test]
fn multi_line_todo_gathers_description() {
    let borders = strings(&["|"]);
    let bytes = "{- | TODO: My todo title.
                  Description too. With more
                  sentences over more lines.
             -}\n";
    assert_eq!(
        multi_line_todo(&borders, "{-", "-}", bytes),
        Ok((
            "\n",
            ParsedTodo::from_title("My todo title.")
                .with_desc("Description too. With more")
                .with_desc("sentences over more lines.")
        ))
    );
    assert_eq!(
        multi_line_todo(&borders, "{-", "-}", "{- TODO: Never closed.\n more\n"),
        Err(ParseError)
    );
    assert_eq!(
        multi_line_todo(&borders, "{-", "-}", "{- TODO(): Empty name. -}\n"),
        Ok(("", ParsedTodo::from_title("Empty name.")))
    );
}

#[test]
fn parse_todo_reads_the_assignee() {
    let haskell = TodoParserConfig {
        singles: strings(&["--"]),
        multis: vec![("{-".into(), "-}".into())],
        borders: strings(&["|"]),
    };
    let bytes = "{- | TODO (soundwave) List the steps to draw an owl. -}\n";
    assert_eq!(
        parse_todo(&haskell, bytes),
        Ok((
            "",
            ParsedTodo {
                title: "List the steps to draw an owl.",
                assignee: Some("soundwave"),
                desc_lines: vec![]
            }
        ))
    );
    assert_eq!(parse_todo(&haskell, "let todo = \"TODO\";\n"), Err(ParseError));
    assert_eq!(parse_todo(&TodoParserConfig::new(), "// TODO: x\n"), Err(ParseError));
}

#[test]
fn parse_todos_finds_every_todo() {
    let rust = TodoParserConfig {
        singles: strings(&["//", "///"]),
        multis: vec![("/*".into(), "*/".into())],
        borders: strings(&["*"]),
    };
    let bytes = "fn main() {}\n// TODO: One.\n// more\nlet x = 1;\n/* FIXME: Two.\n */\n\n/// @todo Three\n";
    assert_eq!(
        parse_todos(&rust, bytes),
        vec![
            ParsedTodo::from_title("One.").with_desc("more"),
            ParsedTodo::from_title("Two."),
            ParsedTodo::from_title("Three"),
        ]
    );
    assert_eq!(parse_todos(&rust, ""), vec![]);
    assert_eq!(parse_todos(&rust, "a\rb\n// TODO: Hidden.\n"), vec![]);
}

#[test]
fn macro_call_holds_the_title() {
    assert_eq!(
        rust_todo_content("(\"A special todo\");"),
        Ok((";", ParsedTodo::from_title("A special todo")))
    );
    assert_eq!(rust_todo_content("()"), Err(ParseError));
    assert_eq!(rust_todo_content("(never closed"), Err(ParseError));
    assert_eq!(rust_todo_content("no parenthesis"), Err(ParseError));
    assert_eq!(rust_todo_content("(\"a\rb\")"), Err(ParseError));
    assert_eq!(
        rust_todo_content("(\"Title. And more.\")"),
        Ok(("", ParsedTodo::from_title("Title.").with_desc("And more.")))
    );
}

#[test]
fn one_line_block_with_a_border_at_its_end_is_no_todo() {
    let c = TodoParserConfig {
        singles: strings(&["//"]),
        multis: vec![("/*".into(), "*/".into())],
        borders: strings(&["*"]),
    };
    assert_eq!(parse_todo(&c, "/* FIXME: Two. */\n"), Err(ParseError));
    let no_border = TodoParserConfig {
        singles: vec![],
        multis: vec![("/*".into(), "*/".into())],
        borders: vec![],
    };
    assert_eq!(
        parse_todo(&no_border, "/* FIXME: Two. */\n"),
        Ok(("", ParsedTodo::from_title("Two.")))
    );
}

#[test]
fn macro_call_loses_one_quote_at_each_end() {
    assert_eq!(
        rust_todo_content("(\"\"twice\"\")"),
        Ok(("", ParsedTodo::from_title("\"twice\"")))
    );
    assert_eq!(
        rust_todo_content("(  no quotes  )"),
        Ok(("", ParsedTodo::from_title("no quotes")))
    );
    assert_eq!(
        rust_todo_content("(\"open only)"),
        Ok(("", ParsedTodo::from_title("open only")))
    );
    assert_eq!(rust_todo_content("(\")"), Ok(("", ParsedTodo::from_title(""))));
    assert_eq!(
        rust_todo_content("(\"One. two\nthree \\\n   \n four\")"),
        Ok((
            "",
            ParsedTodo::from_title("One.")
                .with_desc("two")
                .with_desc("three")
                .with_desc("")
                .with_desc("four")
        ))
    );
}
