use todo_finder_lib::parser::langs::{
    all_supported_langs, c_style, coffee_style, delphi_style, from_border, from_multi,
    from_single, haskell_style, lang, language_map, lisp_style, nix_style, objc_style, php_style,
    python_style, rust_style, swift_style, yml_style, CommentStyle, LanguageMap,
};
use todo_finder_lib::parser::source::{ParserConfigLookup, TodoParserConfig};

fn s(text: &str) -> String {
    text.to_string()
}

#[test]
fn styles_of_the_language_families() {
    assert_eq!(
        haskell_style(),
        vec![
            CommentStyle::Single(s("--")),
            CommentStyle::Multi(s("{-"), s("-}")),
            CommentStyle::Border(s("|"))
        ]
    );
    assert_eq!(nix_style(), vec![from_single("#")]);
    assert_eq!(yml_style(), vec![from_single("#")]);
    assert_eq!(
        c_style(),
        vec![
            from_single("//"),
            from_single("///"),
            from_multi("/*", "*/"),
            from_border("*")
        ]
    );
    assert_eq!(rust_style(), c_style());
    assert_eq!(objc_style().len(), 5);
    assert_eq!(objc_style()[4], from_border("!"));
    assert_eq!(swift_style().len(), 6);
    assert_eq!(swift_style()[5], from_border(":"));
    assert_eq!(lisp_style(), vec![from_single(";"), from_border(";")]);
    assert_eq!(coffee_style(), vec![from_single("#"), from_multi("###", "###")]);
    assert_eq!(
        delphi_style(),
        vec![from_single("//"), from_multi("{", "}"), from_multi("{*", "*}")]
    );
    assert_eq!(
        php_style(),
        vec![from_single("//"), from_single("#"), from_multi("/*", "*/")]
    );
    assert_eq!(
        python_style(),
        vec![from_single("#"), from_multi("\"\"\"", "\"\"\"")]
    );
}

#[test]
fn registry_holds_every_language() {
    let all = all_supported_langs();
    assert_eq!(all.len(), 68);
    assert_eq!(all[0], lang("Actionscript", c_style(), vec!["as"]));
    assert_eq!(all[67], lang("Yarn lock", vec![from_single("#")], vec!["lock"]));
    let rust = all.iter().find(|l| l.name == "Rust").unwrap();
    assert_eq!(rust.file_extensions, vec!["rs", "rc"]);
    assert_eq!(rust.comment_styles, rust_style());
    for (i, a) in all.iter().enumerate() {
        assert!(!a.file_extensions.is_empty());
        assert!(!a.comment_styles.is_empty());
        for b in all.iter().skip(i + 1) {
            assert_ne!(a, b);
        }
    }
}

#[test]
fn one_extension_may_have_several_languages() {
    let map = language_map();
    let names = |ext: &str| -> Vec<String> {
        map.get(ext)
            .map(|langs| langs.iter().map(|l| l.name.clone()).collect())
            .unwrap_or_default()
    };
    assert_eq!(names("h"), vec!["C, C++, C#", "Objective-C"]);
    assert_eq!(names("m"), vec!["Matlab", "Objective-C"]);
    assert_eq!(names("cs"), vec!["C, C++, C#", "Cs"]);
    assert_eq!(names("rs"), vec!["Rust"]);
    assert_eq!(names("hs"), vec!["Haskell, Idris, Purescript, Elm"]);
    assert!(map.get("RS").is_none());
    assert!(map.get("").is_none());
    assert!(map.get("docx").is_none());
    assert_eq!(map.entries[0].0, "as");
}

#[test]
fn language_map_files_each_language_under_each_extension() {
    let mut map = LanguageMap::new();
    map.add_language(&lang("A", nix_style(), vec!["x", "y"]));
    map.add_language(&lang("B", c_style(), vec!["y", "z", "y"]));
    let names = |ext: &str| -> Vec<String> {
        map.get(ext)
            .map(|langs| langs.iter().map(|l| l.name.clone()).collect())
            .unwrap_or_default()
    };
    assert_eq!(names("x"), vec!["A"]);
    assert_eq!(names("y"), vec!["A", "B", "B"]);
    assert_eq!(names("z"), vec!["B"]);
    let keys: Vec<&str> = map.entries.iter().map(|e| e.0.as_str()).collect();
    assert_eq!(keys, vec!["x", "y", "z"]);
}

#[test]
fn as_todo_parser_config_sorts_styles_by_kind() {
    let haskell = lang("Haskell", haskell_style(), vec!["hs"]);
    assert_eq!(
        haskell.as_todo_parser_config(),
        TodoParserConfig {
            singles: vec![s("--")],
            multis: vec![(s("{-"), s("-}"))],
            borders: vec![s("|")],
        }
    );
    assert_eq!(
        TodoParserConfig::from_comment_styles(swift_style()),
        TodoParserConfig {
            singles: vec![s("//"), s("///")],
            multis: vec![(s("/*"), s("*/"))],
            borders: vec![s("*"), s("!"), s(":")],
        }
    );
    assert_eq!(TodoParserConfig::from_comment_styles(vec![]), TodoParserConfig::new());
    assert_eq!(TodoParserConfig::default(), TodoParserConfig::new());
}

#[test]
fn parser_configs_are_merged_by_extension() {
    let mut lookup = ParserConfigLookup::new();
    lookup.add_lang(lang("C", c_style(), vec!["h", "c"]));
    lookup.add_lang(lang("Objective-C", objc_style(), vec!["h", "m"]));
    let c = TodoParserConfig::from_comment_styles(c_style());
    let objc = TodoParserConfig::from_comment_styles(objc_style());
    let mut both = c.clone();
    both.add_parser_config(objc.clone());
    assert_eq!(lookup.find_parser_config(s("c")), Some(&c));
    assert_eq!(lookup.find_parser_config(s("m")), Some(&objc));
    assert_eq!(lookup.find_parser_config(s("h")), Some(&both));
    assert_eq!(both.singles, vec!["//", "///", "//", "///"]);
    assert_eq!(lookup.find_parser_config(s("rs")), None);
}

#[test]
fn parser_config_is_found_in_any_case() {
    let mut lookup = ParserConfigLookup::default();
    lookup.add_lang(lang("Rust", rust_style(), vec!["rs"]));
    assert!(lookup.find_parser_config(s("RS")).is_some());
    assert!(lookup.find_parser_config(s("Rs")).is_some());
    assert!(lookup.find_exact("RS").is_none());
    assert!(lookup.find_exact("rs").is_some());
}

#[test]
fn add_comment_style_appends() {
    let mut cfg = TodoParserConfig::new();
    cfg.add_comment_style(from_border("*"));
    cfg.add_comment_style(from_single("#"));
    cfg.add_comment_style(from_multi("<!--", "-->"));
    cfg.add_comment_style(from_single(";"));
    assert_eq!(
        cfg,
        TodoParserConfig {
            singles: vec![s("#"), s(";")],
            multis: vec![(s("<!--"), s("-->"))],
            borders: vec![s("*")],
        }
    );
}
