//! The comment styles of the supported languages.

use vstd::prelude::*;
use vstd::string::*;

use crate::parser::source::{ConfigModel, TodoParserConfig};
use crate::text::{slices, texts};
use crate::text::keyed::{
    distinct, find_key, keys_of, lemma_distinct_push, lemma_position_is_first,
    lemma_position_none, lemma_position_some, position,
};

verus! {

/// One way in which a language marks a comment.
#[derive(Clone, Debug, PartialEq, Eq, Hash)]
pub enum CommentStyle {
    /// A comment that runs from the prefix to the end of the line.
    Single(String),
    /// A comment that runs from the prefix to the suffix, over any number of
    /// lines.
    Multi(String, String),
    /// A decoration that may stand at the start and the end of the lines of
    /// a comment, and is no part of its text.
    Border(String),
}

/// A comment style, as a value of specifications.
pub enum StyleModel {
    Single(Seq<char>),
    Multi(Seq<char>, Seq<char>),
    Border(Seq<char>),
}

impl View for CommentStyle {
    type V = StyleModel;

    open spec fn view(&self) -> StyleModel {
        match self {
            CommentStyle::Single(prefix) => StyleModel::Single(prefix@),
            CommentStyle::Multi(prefix, suffix) => StyleModel::Multi(prefix@, suffix@),
            CommentStyle::Border(border) => StyleModel::Border(border@),
        }
    }
}

/// The comment styles that a list holds, as values of specifications.
pub open spec fn styles(v: Seq<CommentStyle>) -> Seq<StyleModel> {
    v.map_values(|c: CommentStyle| c@)
}

impl CommentStyle {
    /// A copy of the style.
    pub fn duplicate(&self) -> (r: Self)
        ensures
            r@ == self@,
    {
        match self {
            CommentStyle::Single(prefix) => CommentStyle::Single(prefix.clone()),
            CommentStyle::Multi(prefix, suffix) => CommentStyle::Multi(
                prefix.clone(),
                suffix.clone(),
            ),
            CommentStyle::Border(border) => CommentStyle::Border(border.clone()),
        }
    }
}

/// The style of comments that run from `s` to the end of the line.
pub fn from_single(s: &str) -> (r: CommentStyle)
    ensures
        r@ == StyleModel::Single(s@),
{
    CommentStyle::Single(String::from_str(s))
}

/// The style of comments that run from `prefix` to `suffix`.
pub fn from_multi(prefix: &str, suffix: &str) -> (r: CommentStyle)
    ensures
        r@ == StyleModel::Multi(prefix@, suffix@),
{
    CommentStyle::Multi(String::from_str(prefix), String::from_str(suffix))
}

/// The border `border`.
pub fn from_border(border: &str) -> (r: CommentStyle)
    ensures
        r@ == StyleModel::Border(border@),
{
    CommentStyle::Border(String::from_str(border))
}

/// A language whose comments this crate can read.
#[derive(Clone, Debug, PartialEq, Eq, Hash)]
pub struct SupportedLanguage {
    pub name: String,
    /// The comment styles of the language, in the order in which they are tried.
    pub comment_styles: Vec<CommentStyle>,
    /// The extensions of the files that hold the language: lower case,
    /// without the dot.
    pub file_extensions: Vec<String>,
}

/// A supported language, as a value of specifications.
pub struct LanguageModel {
    pub name: Seq<char>,
    pub comment_styles: Seq<StyleModel>,
    pub file_extensions: Seq<Seq<char>>,
}

impl View for SupportedLanguage {
    type V = LanguageModel;

    open spec fn view(&self) -> LanguageModel {
        LanguageModel {
            name: self.name@,
            comment_styles: styles(self.comment_styles@),
            file_extensions: texts(self.file_extensions@),
        }
    }
}

/// The languages that a list holds, as values of specifications.
pub open spec fn languages(v: Seq<SupportedLanguage>) -> Seq<LanguageModel> {
    v.map_values(|l: SupportedLanguage| l@)
}

/// Copies a list of comment styles.
pub fn duplicate_styles(v: &[CommentStyle]) -> (r: Vec<CommentStyle>)
    ensures
        styles(r@) == styles(v@),
{
    let mut r: Vec<CommentStyle> = Vec::new();
    let mut k: usize = 0;
    while k < v.len()
        invariant
            k <= v@.len(),
            r@.len() == k,
            forall|j: int| 0 <= j < k ==> (#[trigger] r@[j])@ == v@[j]@,
        decreases v@.len() - k,
    {
        r.push(v[k].duplicate());
        k += 1;
    }
    assert(styles(r@) =~= styles(v@));
    r
}

impl SupportedLanguage {
    /// The parser configuration that holds the comment styles of the language.
    pub fn as_todo_parser_config(&self) -> (r: TodoParserConfig)
        ensures
            r@ == ConfigModel::from_styles(self@.comment_styles),
    {
        TodoParserConfig::from_style_list(self.comment_styles.as_slice())
    }

    /// A copy of the language.
    pub fn duplicate(&self) -> (r: Self)
        ensures
            r@ == self@,
    {
        let file_extensions = self.file_extensions.clone();
        assert(texts(file_extensions@) =~= texts(self.file_extensions@));
        SupportedLanguage {
            name: self.name.clone(),
            comment_styles: duplicate_styles(self.comment_styles.as_slice()),
            file_extensions,
        }
    }
}

/// The language of the given name, comment styles and file extensions.
pub fn lang(name: &str, comment_styles: Vec<CommentStyle>, exts: Vec<&str>) -> (r:
    SupportedLanguage)
    ensures
        r@ == (LanguageModel {
            name: name@,
            comment_styles: styles(comment_styles@),
            file_extensions: slices(exts@),
        }),
{
    let mut file_extensions: Vec<String> = Vec::new();
    let mut k: usize = 0;
    while k < exts.len()
        invariant
            k <= exts@.len(),
            file_extensions@.len() == k,
            forall|j: int| 0 <= j < k ==> (#[trigger] file_extensions@[j])@ == exts@[j]@,
        decreases exts@.len() - k,
    {
        file_extensions.push(String::from_str(exts[k]));
        k += 1;
    }
    assert(texts(file_extensions@) =~= slices(exts@));
    SupportedLanguage { name: String::from_str(name), comment_styles, file_extensions }
}

/// The comment styles of Haskell and its relatives.
pub open spec fn spec_haskell_style() -> Seq<StyleModel> {
    seq![
        StyleModel::Single("--"@),
        StyleModel::Multi("{-"@, "-}"@),
        StyleModel::Border("|"@),
    ]
}

/// The comment styles of Haskell and its relatives.
pub fn haskell_style() -> (r: Vec<CommentStyle>)
    ensures
        styles(r@) == spec_haskell_style(),
{
    let r = vec![from_single("--"), from_multi("{-", "-}"), from_border("|")];
    assert(styles(r@) =~= spec_haskell_style());
    r
}

/// The comment styles of Nix.
pub open spec fn spec_nix_style() -> Seq<StyleModel> {
    seq![
        StyleModel::Single("#"@),
    ]
}

/// The comment styles of Nix.
pub fn nix_style() -> (r: Vec<CommentStyle>)
    ensures
        styles(r@) == spec_nix_style(),
{
    let r = vec![from_single("#")];
    assert(styles(r@) =~= spec_nix_style());
    r
}

/// The comment styles of YAML.
pub open spec fn spec_yml_style() -> Seq<StyleModel> {
    seq![
        StyleModel::Single("#"@),
    ]
}

/// The comment styles of YAML.
pub fn yml_style() -> (r: Vec<CommentStyle>)
    ensures
        styles(r@) == spec_yml_style(),
{
    let r = vec![from_single("#")];
    assert(styles(r@) =~= spec_yml_style());
    r
}

/// The comment styles of C and the many languages that comment as C does.
pub open spec fn spec_c_style() -> Seq<StyleModel> {
    seq![
        StyleModel::Single("//"@),
        StyleModel::Single("///"@),
        StyleModel::Multi("/*"@, "*/"@),
        StyleModel::Border("*"@),
    ]
}

/// The comment styles of C and the many languages that comment as C does.
pub fn c_style() -> (r: Vec<CommentStyle>)
    ensures
        styles(r@) == spec_c_style(),
{
    let r = vec![from_single("//"), from_single("///"), from_multi("/*", "*/"), from_border("*")];
    assert(styles(r@) =~= spec_c_style());
    r
}

/// The comment styles of the Lisps.
pub open spec fn spec_lisp_style() -> Seq<StyleModel> {
    seq![
        StyleModel::Single(";"@),
        StyleModel::Border(";"@),
    ]
}

/// The comment styles of the Lisps.
pub fn lisp_style() -> (r: Vec<CommentStyle>)
    ensures
        styles(r@) == spec_lisp_style(),
{
    let r = vec![from_single(";"), from_border(";")];
    assert(styles(r@) =~= spec_lisp_style());
    r
}

/// The comment styles of CoffeeScript.
pub open spec fn spec_coffee_style() -> Seq<StyleModel> {
    seq![
        StyleModel::Single("#"@),
        StyleModel::Multi("###"@, "###"@),
    ]
}

/// The comment styles of CoffeeScript.
pub fn coffee_style() -> (r: Vec<CommentStyle>)
    ensures
        styles(r@) == spec_coffee_style(),
{
    let r = vec![from_single("#"), from_multi("###", "###")];
    assert(styles(r@) =~= spec_coffee_style());
    r
}

/// The comment styles of Delphi and Object Pascal.
pub open spec fn spec_delphi_style() -> Seq<StyleModel> {
    seq![
        StyleModel::Single("//"@),
        StyleModel::Multi("{"@, "}"@),
        StyleModel::Multi("{*"@, "*}"@),
    ]
}

/// The comment styles of Delphi and Object Pascal.
pub fn delphi_style() -> (r: Vec<CommentStyle>)
    ensures
        styles(r@) == spec_delphi_style(),
{
    let r = vec![from_single("//"), from_multi("{", "}"), from_multi("{*", "*}")];
    assert(styles(r@) =~= spec_delphi_style());
    r
}

/// The comment styles of PHP.
pub open spec fn spec_php_style() -> Seq<StyleModel> {
    seq![
        StyleModel::Single("//"@),
        StyleModel::Single("#"@),
        StyleModel::Multi("/*"@, "*/"@),
    ]
}

/// The comment styles of PHP.
pub fn php_style() -> (r: Vec<CommentStyle>)
    ensures
        styles(r@) == spec_php_style(),
{
    let r = vec![from_single("//"), from_single("#"), from_multi("/*", "*/")];
    assert(styles(r@) =~= spec_php_style());
    r
}

/// The comment styles of Python.
pub open spec fn spec_python_style() -> Seq<StyleModel> {
    seq![
        StyleModel::Single("#"@),
        StyleModel::Multi("\"\"\""@, "\"\"\""@),
    ]
}

/// The comment styles of Python.
pub fn python_style() -> (r: Vec<CommentStyle>)
    ensures
        styles(r@) == spec_python_style(),
{
    let r = vec![from_single("#"), from_multi("\"\"\"", "\"\"\"")];
    assert(styles(r@) =~= spec_python_style());
    r
}

/// The comment styles of Rust: those of C.
pub open spec fn spec_rust_style() -> Seq<StyleModel> {
    spec_c_style()
}

/// The comment styles of Rust: those of C.
pub fn rust_style() -> (r: Vec<CommentStyle>)
    ensures
        styles(r@) == spec_rust_style(),
{
    c_style()
}

/// The comment styles of Objective-C: those of C, and the border `!`.
pub open spec fn spec_objc_style() -> Seq<StyleModel> {
    spec_c_style().push(StyleModel::Border("!"@))
}

/// The comment styles of Objective-C: those of C, and the border `!`.
pub fn objc_style() -> (r: Vec<CommentStyle>)
    ensures
        styles(r@) == spec_objc_style(),
{
    let mut c = c_style();
    c.push(from_border("!"));
    assert(styles(c@) =~= spec_objc_style());
    c
}

/// The comment styles of Swift: those of Objective-C, and the border `:`.
pub open spec fn spec_swift_style() -> Seq<StyleModel> {
    spec_objc_style().push(StyleModel::Border(":"@))
}

/// The comment styles of Swift: those of Objective-C, and the border `:`.
pub fn swift_style() -> (r: Vec<CommentStyle>)
    ensures
        styles(r@) == spec_swift_style(),
{
    let mut objc = objc_style();
    objc.push(from_border(":"));
    assert(styles(objc@) =~= spec_swift_style());
    objc
}

/// A language, as a value of specifications.
pub open spec fn language(
    name: Seq<char>,
    comment_styles: Seq<StyleModel>,
    file_extensions: Seq<Seq<char>>,
) -> LanguageModel {
    LanguageModel { name, comment_styles, file_extensions }
}

/// The supported languages whose names start with the letters A to C.
pub open spec fn registry_a_to_c() -> Seq<LanguageModel> {
    seq![
        language("Actionscript"@, spec_c_style(), seq!["as"@]),
        language("Apex class"@, spec_c_style(), seq!["cls"@]),
        language("Apex trigger"@, spec_c_style(), seq!["trigger"@]),
        language("Applescript"@, seq![StyleModel::Single("--"@)], seq!["scpt"@, "applescript"@]),
        language("Assembly"@, seq![StyleModel::Single(";"@)], seq!["asm"@]),
        language("Basic"@, seq![StyleModel::Single("REM"@)], seq!["bas"@]),
        language("Boot"@, seq![StyleModel::Single(";"@)], seq!["boot"@]),
        language("C, C++, C#"@, spec_c_style(), seq!["h"@, "c"@, "cpp"@, "cs"@, "cxx"@, "cc"@, "hpp"@, "hxx"@, "hh"@, "ino"@]),
        language("Clojure"@, spec_lisp_style(), seq!["clj"@, "cljs"@, "cljc"@, "edn"@]),
        language("Cmake"@, seq![StyleModel::Single("#"@)], seq!["cmake"@]),
        language("CoffeeScript"@, spec_coffee_style(), seq!["coffee"@, "litcoffee"@]),
        language("Cs"@, spec_c_style(), seq!["cs"@]),
        language("CSS"@, seq![StyleModel::Multi("/*"@, "*/"@)], seq!["css"@]),
    ]
}

/// Adds the supported languages whose names start with the letters A to C
/// at the end of a list.
fn add_a_to_c(all: &mut Vec<SupportedLanguage>)
    ensures
        languages(final(all)@) == languages(old(all)@) + registry_a_to_c(),
{
    let comment_styles = c_style();
    let exts = vec!["as"];
    assert(slices(exts@) =~= seq!["as"@]);
    add_language(all, "Actionscript", comment_styles, exts);
    let comment_styles = c_style();
    let exts = vec!["cls"];
    assert(slices(exts@) =~= seq!["cls"@]);
    add_language(all, "Apex class", comment_styles, exts);
    let comment_styles = c_style();
    let exts = vec!["trigger"];
    assert(slices(exts@) =~= seq!["trigger"@]);
    add_language(all, "Apex trigger", comment_styles, exts);
    let comment_styles = vec![from_single("--")];
    assert(styles(comment_styles@) =~= seq![StyleModel::Single("--"@)]);
    let exts = vec!["scpt", "applescript"];
    assert(slices(exts@) =~= seq!["scpt"@, "applescript"@]);
    add_language(all, "Applescript", comment_styles, exts);
    let comment_styles = vec![from_single(";")];
    assert(styles(comment_styles@) =~= seq![StyleModel::Single(";"@)]);
    let exts = vec!["asm"];
    assert(slices(exts@) =~= seq!["asm"@]);
    add_language(all, "Assembly", comment_styles, exts);
    let comment_styles = vec![from_single("REM")];
    assert(styles(comment_styles@) =~= seq![StyleModel::Single("REM"@)]);
    let exts = vec!["bas"];
    assert(slices(exts@) =~= seq!["bas"@]);
    add_language(all, "Basic", comment_styles, exts);
    let comment_styles = vec![from_single(";")];
    assert(styles(comment_styles@) =~= seq![StyleModel::Single(";"@)]);
    let exts = vec!["boot"];
    assert(slices(exts@) =~= seq!["boot"@]);
    add_language(all, "Boot", comment_styles, exts);
    let comment_styles = c_style();
    let exts = vec!["h", "c", "cpp", "cs", "cxx", "cc", "hpp", "hxx", "hh", "ino"];
    assert(slices(exts@) =~= seq!["h"@, "c"@, "cpp"@, "cs"@, "cxx"@, "cc"@, "hpp"@, "hxx"@, "hh"@, "ino"@]);
    add_language(all, "C, C++, C#", comment_styles, exts);
    let comment_styles = lisp_style();
    let exts = vec!["clj", "cljs", "cljc", "edn"];
    assert(slices(exts@) =~= seq!["clj"@, "cljs"@, "cljc"@, "edn"@]);
    add_language(all, "Clojure", comment_styles, exts);
    let comment_styles = vec![from_single("#")];
    assert(styles(comment_styles@) =~= seq![StyleModel::Single("#"@)]);
    let exts = vec!["cmake"];
    assert(slices(exts@) =~= seq!["cmake"@]);
    add_language(all, "Cmake", comment_styles, exts);
    let comment_styles = coffee_style();
    let exts = vec!["coffee", "litcoffee"];
    assert(slices(exts@) =~= seq!["coffee"@, "litcoffee"@]);
    add_language(all, "CoffeeScript", comment_styles, exts);
    let comment_styles = c_style();
    let exts = vec!["cs"];
    assert(slices(exts@) =~= seq!["cs"@]);
    add_language(all, "Cs", comment_styles, exts);
    let comment_styles = vec![from_multi("/*", "*/")];
    assert(styles(comment_styles@) =~= seq![StyleModel::Multi("/*"@, "*/"@)]);
    let exts = vec!["css"];
    assert(slices(exts@) =~= seq!["css"@]);
    add_language(all, "CSS", comment_styles, exts);
    assert(languages(all@) =~= languages(old(all)@) + registry_a_to_c());
}

/// The supported languages whose names start with the letters D to H.
pub open spec fn registry_d_to_h() -> Seq<LanguageModel> {
    seq![
        language("D"@, seq![StyleModel::Single("//"@)], seq!["d"@]),
        language("Delphi, Object Pascal"@, spec_delphi_style(), seq!["p"@, "pp"@, "pas"@]),
        language("Dos"@, seq![StyleModel::Single("@?rem"@)], seq!["bat"@, "btm"@, "cmd"@]),
        language("Earl-grey"@, seq![StyleModel::Single(";;"@)], seq!["eg"@]),
        language("Erlang"@, seq![StyleModel::Single("%"@)], seq!["erl"@, "hrl"@]),
        language("Gams"@, seq![StyleModel::Single("*"@), StyleModel::Multi("$ontext"@, "$offtext"@), StyleModel::Border("-"@)], seq!["gms"@]),
        language("Go"@, spec_c_style(), seq!["go"@]),
        language("Groovy"@, spec_c_style(), seq!["groovy"@]),
        language("Haml"@, seq![StyleModel::Single("-#"@)], seq!["haml"@]),
        language("Haskell, Idris, Purescript, Elm"@, spec_haskell_style(), seq!["hs"@, "purs"@, "elm"@, "idr"@]),
        language("Haxe"@, spec_c_style(), seq!["hx"@]),
        language("HTML"@, seq![StyleModel::Multi("<!--"@, "-->"@)], seq!["html"@]),
    ]
}

/// Adds the supported languages whose names start with the letters D to H
/// at the end of a list.
fn add_d_to_h(all: &mut Vec<SupportedLanguage>)
    ensures
        languages(final(all)@) == languages(old(all)@) + registry_d_to_h(),
{
    let comment_styles = vec![from_single("//")];
    assert(styles(comment_styles@) =~= seq![StyleModel::Single("//"@)]);
    let exts = vec!["d"];
    assert(slices(exts@) =~= seq!["d"@]);
    add_language(all, "D", comment_styles, exts);
    let comment_styles = delphi_style();
    let exts = vec!["p", "pp", "pas"];
    assert(slices(exts@) =~= seq!["p"@, "pp"@, "pas"@]);
    add_language(all, "Delphi, Object Pascal", comment_styles, exts);
    let comment_styles = vec![from_single("@?rem")];
    assert(styles(comment_styles@) =~= seq![StyleModel::Single("@?rem"@)]);
    let exts = vec!["bat", "btm", "cmd"];
    assert(slices(exts@) =~= seq!["bat"@, "btm"@, "cmd"@]);
    add_language(all, "Dos", comment_styles, exts);
    let comment_styles = vec![from_single(";;")];
    assert(styles(comment_styles@) =~= seq![StyleModel::Single(";;"@)]);
    let exts = vec!["eg"];
    assert(slices(exts@) =~= seq!["eg"@]);
    add_language(all, "Earl-grey", comment_styles, exts);
    let comment_styles = vec![from_single("%")];
    assert(styles(comment_styles@) =~= seq![StyleModel::Single("%"@)]);
    let exts = vec!["erl", "hrl"];
    assert(slices(exts@) =~= seq!["erl"@, "hrl"@]);
    add_language(all, "Erlang", comment_styles, exts);
    let comment_styles = vec![from_single("*"), from_multi("$ontext", "$offtext"), from_border("-")];
    assert(styles(comment_styles@) =~= seq![StyleModel::Single("*"@), StyleModel::Multi("$ontext"@, "$offtext"@), StyleModel::Border("-"@)]);
    let exts = vec!["gms"];
    assert(slices(exts@) =~= seq!["gms"@]);
    add_language(all, "Gams", comment_styles, exts);
    let comment_styles = c_style();
    let exts = vec!["go"];
    assert(slices(exts@) =~= seq!["go"@]);
    add_language(all, "Go", comment_styles, exts);
    let comment_styles = c_style();
    let exts = vec!["groovy"];
    assert(slices(exts@) =~= seq!["groovy"@]);
    add_language(all, "Groovy", comment_styles, exts);
    let comment_styles = vec![from_single("-#")];
    assert(styles(comment_styles@) =~= seq![StyleModel::Single("-#"@)]);
    let exts = vec!["haml"];
    assert(slices(exts@) =~= seq!["haml"@]);
    add_language(all, "Haml", comment_styles, exts);
    let comment_styles = haskell_style();
    let exts = vec!["hs", "purs", "elm", "idr"];
    assert(slices(exts@) =~= seq!["hs"@, "purs"@, "elm"@, "idr"@]);
    add_language(all, "Haskell, Idris, Purescript, Elm", comment_styles, exts);
    let comment_styles = c_style();
    let exts = vec!["hx"];
    assert(slices(exts@) =~= seq!["hx"@]);
    add_language(all, "Haxe", comment_styles, exts);
    let comment_styles = vec![from_multi("<!--", "-->")];
    assert(styles(comment_styles@) =~= seq![StyleModel::Multi("<!--"@, "-->"@)]);
    let exts = vec!["html"];
    assert(slices(exts@) =~= seq!["html"@]);
    add_language(all, "HTML", comment_styles, exts);
    assert(languages(all@) =~= languages(old(all)@) + registry_d_to_h());
}

/// The supported languages whose names start with the letters I to M.
pub open spec fn registry_i_to_m() -> Seq<LanguageModel> {
    seq![
        language("Ini"@, seq![StyleModel::Single(";"@)], seq!["ini"@]),
        language("Jade"@, seq![StyleModel::Single("//-"@)], seq!["jade"@]),
        language("Jade"@, seq![StyleModel::Single("//-"@)], seq!["pug"@]),
        language("Java"@, spec_c_style(), seq!["java"@]),
        language("JavaScript"@, spec_c_style(), seq!["js"@, "es6"@, "es"@, "jsx"@]),
        language("Julia"@, seq![StyleModel::Single("#"@), StyleModel::Multi("#="@, "=#"@), StyleModel::Border("#"@)], seq!["jl"@]),
        language("Less"@, spec_c_style(), seq!["less"@]),
        language("LISP"@, spec_lisp_style(), seq!["lisp"@]),
        language("Lua"@, seq![StyleModel::Single("--"@), StyleModel::Multi("--[["@, "]]"@)], seq!["lua"@]),
        language("M4"@, seq![StyleModel::Single("#"@)], seq!["m4"@]),
        language("Matlab"@, seq![StyleModel::Single("%"@), StyleModel::Multi("%{"@, "%}"@)], seq!["m"@]),
        language("Mel"@, seq![StyleModel::Single("//"@)], seq!["mel"@]),
    ]
}

/// Adds the supported languages whose names start with the letters I to M
/// at the end of a list.
fn add_i_to_m(all: &mut Vec<SupportedLanguage>)
    ensures
        languages(final(all)@) == languages(old(all)@) + registry_i_to_m(),
{
    let comment_styles = vec![from_single(";")];
    assert(styles(comment_styles@) =~= seq![StyleModel::Single(";"@)]);
    let exts = vec!["ini"];
    assert(slices(exts@) =~= seq!["ini"@]);
    add_language(all, "Ini", comment_styles, exts);
    let comment_styles = vec![from_single("//-")];
    assert(styles(comment_styles@) =~= seq![StyleModel::Single("//-"@)]);
    let exts = vec!["jade"];
    assert(slices(exts@) =~= seq!["jade"@]);
    add_language(all, "Jade", comment_styles, exts);
    let comment_styles = vec![from_single("//-")];
    assert(styles(comment_styles@) =~= seq![StyleModel::Single("//-"@)]);
    let exts = vec!["pug"];
    assert(slices(exts@) =~= seq!["pug"@]);
    add_language(all, "Jade", comment_styles, exts);
    let comment_styles = c_style();
    let exts = vec!["java"];
    assert(slices(exts@) =~= seq!["java"@]);
    add_language(all, "Java", comment_styles, exts);
    let comment_styles = c_style();
    let exts = vec!["js", "es6", "es", "jsx"];
    assert(slices(exts@) =~= seq!["js"@, "es6"@, "es"@, "jsx"@]);
    add_language(all, "JavaScript", comment_styles, exts);
    let comment_styles = vec![from_single("#"), from_multi("#=", "=#"), from_border("#")];
    assert(styles(comment_styles@) =~= seq![StyleModel::Single("#"@), StyleModel::Multi("#="@, "=#"@), StyleModel::Border("#"@)]);
    let exts = vec!["jl"];
    assert(slices(exts@) =~= seq!["jl"@]);
    add_language(all, "Julia", comment_styles, exts);
    let comment_styles = c_style();
    let exts = vec!["less"];
    assert(slices(exts@) =~= seq!["less"@]);
    add_language(all, "Less", comment_styles, exts);
    let comment_styles = lisp_style();
    let exts = vec!["lisp"];
    assert(slices(exts@) =~= seq!["lisp"@]);
    add_language(all, "LISP", comment_styles, exts);
    let comment_styles = vec![from_single("--"), from_multi("--[[", "]]")];
    assert(styles(comment_styles@) =~= seq![StyleModel::Single("--"@), StyleModel::Multi("--[["@, "]]"@)]);
    let exts = vec!["lua"];
    assert(slices(exts@) =~= seq!["lua"@]);
    add_language(all, "Lua", comment_styles, exts);
    let comment_styles = vec![from_single("#")];
    assert(styles(comment_styles@) =~= seq![StyleModel::Single("#"@)]);
    let exts = vec!["m4"];
    assert(slices(exts@) =~= seq!["m4"@]);
    add_language(all, "M4", comment_styles, exts);
    let comment_styles = vec![from_single("%"), from_multi("%{", "%}")];
    assert(styles(comment_styles@) =~= seq![StyleModel::Single("%"@), StyleModel::Multi("%{"@, "%}"@)]);
    let exts = vec!["m"];
    assert(slices(exts@) =~= seq!["m"@]);
    add_language(all, "Matlab", comment_styles, exts);
    let comment_styles = vec![from_single("//")];
    assert(styles(comment_styles@) =~= seq![StyleModel::Single("//"@)]);
    let exts = vec!["mel"];
    assert(slices(exts@) =~= seq!["mel"@]);
    add_language(all, "Mel", comment_styles, exts);
    assert(languages(all@) =~= languages(old(all)@) + registry_i_to_m());
}

/// The supported languages whose names start with the letters N to P.
pub open spec fn registry_n_to_p() -> Seq<LanguageModel> {
    seq![
        language("Nix"@, spec_nix_style(), seq!["nix"@]),
        language("Objective-C"@, spec_objc_style(), seq!["h"@, "m"@, "mm"@]),
        language("Perl"@, seq![StyleModel::Single("#"@)], seq!["pl"@, "pm"@, "t"@, "pod"@, "pl6"@, "pm6"@]),
        language("PHP"@, spec_php_style(), seq!["php"@, "phtml"@, "php3"@, "php4"@, "php5"@, "php7"@, "phps"@, "php-s"@]),
        language("Pkb"@, seq![StyleModel::Single("--"@), StyleModel::Multi("/*"@, "*/"@), StyleModel::Border("*"@)], seq!["pkb"@]),
        language("Pks"@, seq![StyleModel::Single("--"@), StyleModel::Multi("/*"@, "*/"@), StyleModel::Border("*"@)], seq!["pks"@]),
        language("Powershell"@, seq![StyleModel::Single("#"@), StyleModel::Multi("<#"@, "#>"@), StyleModel::Border("#"@)], seq!["ps1"@]),
        language("Properties"@, seq![StyleModel::Single("#"@)], seq!["properties"@]),
        language("Python"@, spec_python_style(), seq!["py"@]),
    ]
}

/// Adds the supported languages whose names start with the letters N to P
/// at the end of a list.
fn add_n_to_p(all: &mut Vec<SupportedLanguage>)
    ensures
        languages(final(all)@) == languages(old(all)@) + registry_n_to_p(),
{
    let comment_styles = nix_style();
    let exts = vec!["nix"];
    assert(slices(exts@) =~= seq!["nix"@]);
    add_language(all, "Nix", comment_styles, exts);
    let comment_styles = objc_style();
    let exts = vec!["h", "m", "mm"];
    assert(slices(exts@) =~= seq!["h"@, "m"@, "mm"@]);
    add_language(all, "Objective-C", comment_styles, exts);
    let comment_styles = vec![from_single("#")];
    assert(styles(comment_styles@) =~= seq![StyleModel::Single("#"@)]);
    let exts = vec!["pl", "pm", "t", "pod", "pl6", "pm6"];
    assert(slices(exts@) =~= seq!["pl"@, "pm"@, "t"@, "pod"@, "pl6"@, "pm6"@]);
    add_language(all, "Perl", comment_styles, exts);
    let comment_styles = php_style();
    let exts = vec!["php", "phtml", "php3", "php4", "php5", "php7", "phps", "php-s"];
    assert(slices(exts@) =~= seq!["php"@, "phtml"@, "php3"@, "php4"@, "php5"@, "php7"@, "phps"@, "php-s"@]);
    add_language(all, "PHP", comment_styles, exts);
    let comment_styles = vec![from_single("--"), from_multi("/*", "*/"), from_border("*")];
    assert(styles(comment_styles@) =~= seq![StyleModel::Single("--"@), StyleModel::Multi("/*"@, "*/"@), StyleModel::Border("*"@)]);
    let exts = vec!["pkb"];
    assert(slices(exts@) =~= seq!["pkb"@]);
    add_language(all, "Pkb", comment_styles, exts);
    let comment_styles = vec![from_single("--"), from_multi("/*", "*/"), from_border("*")];
    assert(styles(comment_styles@) =~= seq![StyleModel::Single("--"@), StyleModel::Multi("/*"@, "*/"@), StyleModel::Border("*"@)]);
    let exts = vec!["pks"];
    assert(slices(exts@) =~= seq!["pks"@]);
    add_language(all, "Pks", comment_styles, exts);
    let comment_styles = vec![from_single("#"), from_multi("<#", "#>"), from_border("#")];
    assert(styles(comment_styles@) =~= seq![StyleModel::Single("#"@), StyleModel::Multi("<#"@, "#>"@), StyleModel::Border("#"@)]);
    let exts = vec!["ps1"];
    assert(slices(exts@) =~= seq!["ps1"@]);
    add_language(all, "Powershell", comment_styles, exts);
    let comment_styles = vec![from_single("#")];
    assert(styles(comment_styles@) =~= seq![StyleModel::Single("#"@)]);
    let exts = vec!["properties"];
    assert(slices(exts@) =~= seq!["properties"@]);
    add_language(all, "Properties", comment_styles, exts);
    let comment_styles = python_style();
    let exts = vec!["py"];
    assert(slices(exts@) =~= seq!["py"@]);
    add_language(all, "Python", comment_styles, exts);
    assert(languages(all@) =~= languages(old(all)@) + registry_n_to_p());
}

/// The supported languages whose names start with the letters R to S.
pub open spec fn registry_r_to_s() -> Seq<LanguageModel> {
    seq![
        language("R"@, seq![StyleModel::Single("#"@)], seq!["r"@, "rdata"@, "rds"@, "rda"@]),
        language("Reasonml"@, spec_c_style(), seq!["re"@]),
        language("Ruby"@, seq![StyleModel::Single("#"@), StyleModel::Multi("=begin"@, "=end"@)], seq!["rb"@]),
        language("Rust"@, spec_c_style(), seq!["rs"@, "rc"@]),
        language("Sbt"@, spec_c_style(), seq!["sbt"@]),
        language("Scala"@, spec_c_style(), seq!["sc"@, "scala"@]),
        language("Scss"@, seq![StyleModel::Single("//"@)], seq!["scss"@]),
        language("Shell"@, seq![StyleModel::Single("#"@)], seq!["sh"@, "bash"@]),
        language("Sql"@, seq![StyleModel::Single("--"@)], seq!["sql"@]),
        language("Stylus"@, seq![StyleModel::Single("//"@)], seq!["styl"@]),
        language("Swift"@, spec_swift_style(), seq!["swift"@]),
    ]
}

/// Adds the supported languages whose names start with the letters R to S
/// at the end of a list.
fn add_r_to_s(all: &mut Vec<SupportedLanguage>)
    ensures
        languages(final(all)@) == languages(old(all)@) + registry_r_to_s(),
{
    let comment_styles = vec![from_single("#")];
    assert(styles(comment_styles@) =~= seq![StyleModel::Single("#"@)]);
    let exts = vec!["r", "rdata", "rds", "rda"];
    assert(slices(exts@) =~= seq!["r"@, "rdata"@, "rds"@, "rda"@]);
    add_language(all, "R", comment_styles, exts);
    let comment_styles = c_style();
    let exts = vec!["re"];
    assert(slices(exts@) =~= seq!["re"@]);
    add_language(all, "Reasonml", comment_styles, exts);
    let comment_styles = vec![from_single("#"), from_multi("=begin", "=end")];
    assert(styles(comment_styles@) =~= seq![StyleModel::Single("#"@), StyleModel::Multi("=begin"@, "=end"@)]);
    let exts = vec!["rb"];
    assert(slices(exts@) =~= seq!["rb"@]);
    add_language(all, "Ruby", comment_styles, exts);
    let comment_styles = c_style();
    let exts = vec!["rs", "rc"];
    assert(slices(exts@) =~= seq!["rs"@, "rc"@]);
    add_language(all, "Rust", comment_styles, exts);
    let comment_styles = c_style();
    let exts = vec!["sbt"];
    assert(slices(exts@) =~= seq!["sbt"@]);
    add_language(all, "Sbt", comment_styles, exts);
    let comment_styles = c_style();
    let exts = vec!["sc", "scala"];
    assert(slices(exts@) =~= seq!["sc"@, "scala"@]);
    add_language(all, "Scala", comment_styles, exts);
    let comment_styles = vec![from_single("//")];
    assert(styles(comment_styles@) =~= seq![StyleModel::Single("//"@)]);
    let exts = vec!["scss"];
    assert(slices(exts@) =~= seq!["scss"@]);
    add_language(all, "Scss", comment_styles, exts);
    let comment_styles = vec![from_single("#")];
    assert(styles(comment_styles@) =~= seq![StyleModel::Single("#"@)]);
    let exts = vec!["sh", "bash"];
    assert(slices(exts@) =~= seq!["sh"@, "bash"@]);
    add_language(all, "Shell", comment_styles, exts);
    let comment_styles = vec![from_single("--")];
    assert(styles(comment_styles@) =~= seq![StyleModel::Single("--"@)]);
    let exts = vec!["sql"];
    assert(slices(exts@) =~= seq!["sql"@]);
    add_language(all, "Sql", comment_styles, exts);
    let comment_styles = vec![from_single("//")];
    assert(styles(comment_styles@) =~= seq![StyleModel::Single("//"@)]);
    let exts = vec!["styl"];
    assert(slices(exts@) =~= seq!["styl"@]);
    add_language(all, "Stylus", comment_styles, exts);
    let comment_styles = swift_style();
    let exts = vec!["swift"];
    assert(slices(exts@) =~= seq!["swift"@]);
    add_language(all, "Swift", comment_styles, exts);
    assert(languages(all@) =~= languages(old(all)@) + registry_r_to_s());
}

/// The supported languages whose names start with the letters T to Y.
pub open spec fn registry_t_to_y() -> Seq<LanguageModel> {
    seq![
        language("Terraform"@, seq![StyleModel::Single("#"@)], seq!["tf"@]),
        language("TeX"@, seq![StyleModel::Single("%"@)], seq!["tex"@, "latex"@]),
        language("Typescript"@, spec_c_style(), seq!["ts"@]),
        language("Vala"@, seq![StyleModel::Single("//"@)], seq!["vala"@, "vapi"@]),
        language("Vbscript"@, seq![StyleModel::Single("'"@)], seq!["vbe"@, "vbs"@, "wsc"@, "wsf"@]),
        language("Velocity"@, seq![StyleModel::Single("##"@), StyleModel::Multi("#**"@, "*#"@), StyleModel::Border("*"@)], seq!["vm"@]),
        language("Vhdl"@, seq![StyleModel::Single("--"@)], seq!["vhdl"@]),
        language("Vim script"@, seq![StyleModel::Single("\""@)], seq!["vimrc"@, "vim"@]),
        language("Vue component"@, spec_c_style(), seq!["vue"@]),
        language("YAML"@, spec_yml_style(), seq!["yaml"@, "yml"@]),
        language("Yarn lock"@, seq![StyleModel::Single("#"@)], seq!["lock"@]),
    ]
}

/// Adds the supported languages whose names start with the letters T to Y
/// at the end of a list.
fn add_t_to_y(all: &mut Vec<SupportedLanguage>)
    ensures
        languages(final(all)@) == languages(old(all)@) + registry_t_to_y(),
{
    let comment_styles = vec![from_single("#")];
    assert(styles(comment_styles@) =~= seq![StyleModel::Single("#"@)]);
    let exts = vec!["tf"];
    assert(slices(exts@) =~= seq!["tf"@]);
    add_language(all, "Terraform", comment_styles, exts);
    let comment_styles = vec![from_single("%")];
    assert(styles(comment_styles@) =~= seq![StyleModel::Single("%"@)]);
    let exts = vec!["tex", "latex"];
    assert(slices(exts@) =~= seq!["tex"@, "latex"@]);
    add_language(all, "TeX", comment_styles, exts);
    let comment_styles = c_style();
    let exts = vec!["ts"];
    assert(slices(exts@) =~= seq!["ts"@]);
    add_language(all, "Typescript", comment_styles, exts);
    let comment_styles = vec![from_single("//")];
    assert(styles(comment_styles@) =~= seq![StyleModel::Single("//"@)]);
    let exts = vec!["vala", "vapi"];
    assert(slices(exts@) =~= seq!["vala"@, "vapi"@]);
    add_language(all, "Vala", comment_styles, exts);
    let comment_styles = vec![from_single("'")];
    assert(styles(comment_styles@) =~= seq![StyleModel::Single("'"@)]);
    let exts = vec!["vbe", "vbs", "wsc", "wsf"];
    assert(slices(exts@) =~= seq!["vbe"@, "vbs"@, "wsc"@, "wsf"@]);
    add_language(all, "Vbscript", comment_styles, exts);
    let comment_styles = vec![from_single("##"), from_multi("#**", "*#"), from_border("*")];
    assert(styles(comment_styles@) =~= seq![StyleModel::Single("##"@), StyleModel::Multi("#**"@, "*#"@), StyleModel::Border("*"@)]);
    let exts = vec!["vm"];
    assert(slices(exts@) =~= seq!["vm"@]);
    add_language(all, "Velocity", comment_styles, exts);
    let comment_styles = vec![from_single("--")];
    assert(styles(comment_styles@) =~= seq![StyleModel::Single("--"@)]);
    let exts = vec!["vhdl"];
    assert(slices(exts@) =~= seq!["vhdl"@]);
    add_language(all, "Vhdl", comment_styles, exts);
    let comment_styles = vec![from_single("\"")];
    assert(styles(comment_styles@) =~= seq![StyleModel::Single("\""@)]);
    let exts = vec!["vimrc", "vim"];
    assert(slices(exts@) =~= seq!["vimrc"@, "vim"@]);
    add_language(all, "Vim script", comment_styles, exts);
    let comment_styles = c_style();
    let exts = vec!["vue"];
    assert(slices(exts@) =~= seq!["vue"@]);
    add_language(all, "Vue component", comment_styles, exts);
    let comment_styles = yml_style();
    let exts = vec!["yaml", "yml"];
    assert(slices(exts@) =~= seq!["yaml"@, "yml"@]);
    add_language(all, "YAML", comment_styles, exts);
    let comment_styles = vec![from_single("#")];
    assert(styles(comment_styles@) =~= seq![StyleModel::Single("#"@)]);
    let exts = vec!["lock"];
    assert(slices(exts@) =~= seq!["lock"@]);
    add_language(all, "Yarn lock", comment_styles, exts);
    assert(languages(all@) =~= languages(old(all)@) + registry_t_to_y());
}

/// The supported languages, in the order in which they are tried on a file
/// whose extension several of them share.
pub open spec fn registry() -> Seq<LanguageModel> {
    registry_a_to_c()
        + registry_d_to_h()
        + registry_i_to_m()
        + registry_n_to_p()
        + registry_r_to_s()
        + registry_t_to_y()
}

/// Adds a language at the end of a list.
fn add_language(
    all: &mut Vec<SupportedLanguage>,
    name: &str,
    comment_styles: Vec<CommentStyle>,
    exts: Vec<&str>,
)
    ensures
        languages(final(all)@) == languages(old(all)@).push(
            language(name@, styles(comment_styles@), slices(exts@)),
        ),
{
    all.push(lang(name, comment_styles, exts));
    assert(languages(all@) =~= languages(old(all)@).push(
        language(name@, styles(comment_styles@), slices(exts@)),
    ));
}

/// All the supported languages.
pub fn all_supported_langs() -> (r: Vec<SupportedLanguage>)
    ensures
        languages(r@) == registry(),
{
    let mut all: Vec<SupportedLanguage> = Vec::new();
    assert(languages(all@) =~= Seq::<LanguageModel>::empty());
    add_a_to_c(&mut all);
    add_d_to_h(&mut all);
    add_i_to_m(&mut all);
    add_n_to_p(&mut all);
    add_r_to_s(&mut all);
    add_t_to_y(&mut all);
    assert(languages(all@) =~= registry());
    all
}

/// The supported languages by file extension: a list of extensions, each
/// with the languages whose files bear it, in the order of the registry.
pub struct LanguageMap {
    pub entries: Vec<(String, Vec<SupportedLanguage>)>,
}

/// A list of extensions with their languages, as a value of specifications.
pub type LanguageIndex = Seq<(Seq<char>, Seq<LanguageModel>)>;

/// The extensions of an index, in its order.
pub open spec fn extensions(index: LanguageIndex) -> Seq<Seq<char>> {
    index.map_values(|e: (Seq<char>, Seq<LanguageModel>)| e.0)
}

/// The languages that the index holds for the extension `ext`: those of the
/// first entry for it.
pub open spec fn languages_for(index: LanguageIndex, ext: Seq<char>) -> Option<
    Seq<LanguageModel>,
> {
    match position(extensions(index), ext) {
        Some(i) => Some(index[i].1),
        None => None,
    }
}

/// The index with the language `l` filed under the extension `ext`: at the end
/// of the languages of that extension, or, where the index has none for it,
/// in a new entry at its end.
pub open spec fn file_under(index: LanguageIndex, ext: Seq<char>, l: LanguageModel)
    -> LanguageIndex {
    match position(extensions(index), ext) {
        Some(i) => index.update(i, (ext, index[i].1.push(l))),
        None => index.push((ext, seq![l])),
    }
}

/// The index with the language `l` filed under each of the extensions `exts`,
/// one after the other.
pub open spec fn file_under_all(index: LanguageIndex, exts: Seq<Seq<char>>, l: LanguageModel)
    -> LanguageIndex
    decreases exts.len(),
{
    if exts.len() == 0 {
        index
    } else {
        file_under(file_under_all(index, exts.drop_last(), l), exts.last(), l)
    }
}

/// The index of the languages `all`: each language in turn is filed under
/// each of its extensions.
pub open spec fn index_by_extension(all: Seq<LanguageModel>) -> LanguageIndex
    decreases all.len(),
{
    if all.len() == 0 {
        Seq::empty()
    } else {
        file_under_all(index_by_extension(all.drop_last()), all.last().file_extensions, all.last())
    }
}

impl View for LanguageMap {
    type V = LanguageIndex;

    open spec fn view(&self) -> LanguageIndex {
        self.entries@.map_values(|e: (String, Vec<SupportedLanguage>)| (e.0@, languages(e.1@)))
    }
}

/// Filing a language under extensions leaves no extension with two entries.
pub proof fn lemma_file_under_all(index: LanguageIndex, exts: Seq<Seq<char>>, l: LanguageModel)
    requires
        distinct(extensions(index)),
    ensures
        distinct(extensions(file_under_all(index, exts, l))),
    decreases exts.len(),
{
    if exts.len() > 0 {
        lemma_file_under_all(index, exts.drop_last(), l);
        let before = file_under_all(index, exts.drop_last(), l);
        let ext = exts.last();
        let after = file_under(before, ext, l);
        lemma_position_is_first(extensions(before), ext);
        match position(extensions(before), ext) {
            Some(i) => {
                assert(extensions(after) =~= extensions(before));
            },
            None => {
                assert(extensions(after) =~= extensions(before).push(ext));
                lemma_distinct_push(extensions(before), ext);
            },
        }
    }
}

/// The index of any languages holds each extension once.
pub proof fn lemma_index_by_extension(all: Seq<LanguageModel>)
    ensures
        distinct(extensions(index_by_extension(all))),
    decreases all.len(),
{
    if all.len() > 0 {
        lemma_index_by_extension(all.drop_last());
        lemma_file_under_all(
            index_by_extension(all.drop_last()),
            all.last().file_extensions,
            all.last(),
        );
    }
}

/// The languages that the index holds for the extension `ext`; none where it
/// has no entry for it.
pub open spec fn held(index: LanguageIndex, ext: Seq<char>) -> Seq<LanguageModel> {
    match languages_for(index, ext) {
        Some(found) => found,
        None => Seq::empty(),
    }
}

/// How often the extension `ext` stands among `exts`.
pub open spec fn count_of(exts: Seq<Seq<char>>, ext: Seq<char>) -> nat
    decreases exts.len(),
{
    if exts.len() == 0 {
        0
    } else if exts.last() == ext {
        count_of(exts.drop_last(), ext) + 1
    } else {
        count_of(exts.drop_last(), ext)
    }
}

/// The languages among `all` whose files bear the extension `ext`, in the
/// order of `all`; a language that names the extension more than once stands
/// there as often.
pub open spec fn languages_bearing(all: Seq<LanguageModel>, ext: Seq<char>) -> Seq<LanguageModel>
    decreases all.len(),
{
    if all.len() == 0 {
        Seq::empty()
    } else {
        languages_bearing(all.drop_last(), ext) + Seq::new(
            count_of(all.last().file_extensions, ext),
            |k: int| all.last(),
        )
    }
}

/// No entry of the index is without a language.
pub open spec fn no_empty_entry(index: LanguageIndex) -> bool {
    forall|k: int| 0 <= k < index.len() ==> (#[trigger] index[k]).1.len() > 0
}

/// Filing a language under one extension adds it to the languages of that
/// extension and to no others.
proof fn lemma_file_under(index: LanguageIndex, ext: Seq<char>, l: LanguageModel, e: Seq<char>)
    requires
        distinct(extensions(index)),
        no_empty_entry(index),
    ensures
        distinct(extensions(file_under(index, ext, l))),
        no_empty_entry(file_under(index, ext, l)),
        held(file_under(index, ext, l), e) == if e == ext {
            held(index, e).push(l)
        } else {
            held(index, e)
        },
{
    let after = file_under(index, ext, l);
    lemma_position_is_first(extensions(index), ext);
    lemma_position_is_first(extensions(index), e);
    match position(extensions(index), ext) {
        Some(i) => {
            assert(extensions(after) =~= extensions(index));
            assert forall|k: int| 0 <= k < after.len() implies (#[trigger] after[k]).1.len()
                > 0 by {
                if k != i {
                    assert(after[k] == index[k]);
                }
            }
        },
        None => {
            assert(extensions(after) =~= extensions(index).push(ext));
            assert(extensions(after).drop_last() =~= extensions(index));
            lemma_distinct_push(extensions(index), ext);
            assert forall|k: int| 0 <= k < after.len() implies (#[trigger] after[k]).1.len()
                > 0 by {
                if k < index.len() {
                    assert(after[k] == index[k]);
                }
            }
            if e == ext {
                lemma_position_some(extensions(after), e, index.len() as int);
                assert(Seq::<LanguageModel>::empty().push(l) =~= seq![l]);
            } else {
                match position(extensions(index), e) {
                    Some(j) => {
                        lemma_position_some(extensions(after), e, j);
                    },
                    None => {
                        lemma_position_none(extensions(after), e);
                    },
                }
            }
        },
    }
}

/// Filing a language under its extensions adds it to the languages of each
/// extension as often as it names the extension.
proof fn lemma_file_under_all_held(
    index: LanguageIndex,
    exts: Seq<Seq<char>>,
    l: LanguageModel,
    e: Seq<char>,
)
    requires
        distinct(extensions(index)),
        no_empty_entry(index),
    ensures
        distinct(extensions(file_under_all(index, exts, l))),
        no_empty_entry(file_under_all(index, exts, l)),
        held(file_under_all(index, exts, l), e) == held(index, e) + Seq::new(
            count_of(exts, e),
            |k: int| l,
        ),
    decreases exts.len(),
{
    if exts.len() > 0 {
        let front = exts.drop_last();
        lemma_file_under_all_held(index, front, l, e);
        let before = file_under_all(index, front, l);
        lemma_file_under(before, exts.last(), l, e);
        let n = count_of(front, e);
        if e == exts.last() {
            assert((held(index, e) + Seq::new(n, |k: int| l)).push(l) =~= held(index, e)
                + Seq::new(n + 1, |k: int| l));
        }
    } else {
        assert(held(index, e) + Seq::new(0, |k: int| l) =~= held(index, e));
    }
}

/// What the index of languages holds for an extension: the languages whose
/// files bear the extension, in their order, and an entry at all only where
/// there is such a language.
pub proof fn lemma_index_holds_languages_bearing(all: Seq<LanguageModel>, ext: Seq<char>)
    ensures
        distinct(extensions(index_by_extension(all))),
        no_empty_entry(index_by_extension(all)),
        held(index_by_extension(all), ext) == languages_bearing(all, ext),
        languages_for(index_by_extension(all), ext) is Some <==> languages_bearing(all, ext).len()
            > 0,
    decreases all.len(),
{
    if all.len() > 0 {
        lemma_index_holds_languages_bearing(all.drop_last(), ext);
        lemma_file_under_all_held(
            index_by_extension(all.drop_last()),
            all.last().file_extensions,
            all.last(),
            ext,
        );
    }
    let index = index_by_extension(all);
    lemma_position_is_first(extensions(index), ext);
}

impl LanguageMap {
    /// The map is well formed: it holds each extension once.
    pub open spec fn wf(&self) -> bool {
        distinct(extensions(self@))
    }

    /// The map that holds no language.
    pub fn new() -> (r: Self)
        ensures
            r.wf(),
            r@ == Seq::<(Seq<char>, Seq<LanguageModel>)>::empty(),
    {
        let r = LanguageMap { entries: Vec::new() };
        assert(r@ =~= Seq::empty());
        r
    }

    /// Files the language under each of its extensions.
    pub fn add_language(&mut self, language: &SupportedLanguage)
        ensures
            final(self)@ == file_under_all(old(self)@, language@.file_extensions, language@),
            old(self).wf() ==> final(self).wf(),
    {
        proof {
            if old(self).wf() {
                lemma_file_under_all(old(self)@, language@.file_extensions, language@);
            }
        }
        let ghost exts = language@.file_extensions;
        let mut k: usize = 0;
        while k < language.file_extensions.len()
            invariant
                k <= language.file_extensions@.len(),
                exts == language@.file_extensions,
                self@ == file_under_all(old(self)@, exts.take(k as int), language@),
            decreases language.file_extensions@.len() - k,
        {
            let ext = &language.file_extensions[k];
            let ghost before = self@;
            assert(exts.take(k + 1).drop_last() =~= exts.take(k as int));
            assert(extensions(before) =~= keys_of(self.entries@));
            match find_key(self.entries.as_slice(), ext.as_str()) {
                Some(i) => {
                    proof {
                        lemma_position_is_first(extensions(before), ext@);
                    }
                    let ghost entries_before = self.entries@;
                    let mut entry = self.entries.remove(i);
                    assert(entry == entries_before[i as int]);
                    let ghost langs_before = languages(entry.1@);
                    assert(langs_before == before[i as int].1);
                    entry.1.push(language.duplicate());
                    assert(languages(entry.1@) =~= langs_before.push(language@));
                    self.entries.insert(i, entry);
                    assert(self.entries@ =~= entries_before.update(i as int, entry));
                    assert(self@ =~= before.update(
                        i as int,
                        (ext@, before[i as int].1.push(language@)),
                    ));
                },
                None => {
                    let mut langs: Vec<SupportedLanguage> = Vec::new();
                    langs.push(language.duplicate());
                    assert(languages(langs@) =~= seq![language@]);
                    self.entries.push((ext.clone(), langs));
                    assert(self@ =~= before.push((ext@, seq![language@])));
                },
            }
            k += 1;
        }
        assert(exts.take(k as int) =~= exts);
    }

    /// The languages whose files bear the extension `ext`.
    pub fn get(&self, ext: &str) -> (r: Option<&Vec<SupportedLanguage>>)
        ensures
            match r {
                Some(found) => languages_for(self@, ext@) == Some(languages(found@)),
                None => languages_for(self@, ext@) is None,
            },
    {
        assert(extensions(self@) =~= keys_of(self.entries@));
        match find_key(self.entries.as_slice(), ext) {
            Some(i) => Some(&self.entries[i].1),
            None => None,
        }
    }
}

/// The supported languages by file extension. One extension may belong to
/// several languages.
pub fn language_map() -> (r: LanguageMap)
    ensures
        r.wf(),
        r@ == index_by_extension(registry()),
{
    proof {
        lemma_index_by_extension(registry());
    }
    let all = all_supported_langs();
    let ghost reg = registry();
    let mut map = LanguageMap::new();
    let mut k: usize = 0;
    while k < all.len()
        invariant
            k <= all@.len(),
            reg == languages(all@),
            map@ == index_by_extension(reg.take(k as int)),
        decreases all@.len() - k,
    {
        assert(reg.take(k + 1).drop_last() =~= reg.take(k as int));
        map.add_language(&all[k]);
        k += 1;
    }
    assert(reg.take(k as int) =~= reg);
    map
}



} // verus!
