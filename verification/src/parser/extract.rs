//! The extraction of todos from the files that a line search named.
//!
//! Reading files is left to the caller. For each candidate file the caller
//! asks `plan_file` what to do: report the file as unsupported, or read it
//! and hand its contents to `IssueMap::add_todos_in_file`. A caller that holds
//! the contents of all the files already can use `IssueMap::from_files`.

use vstd::prelude::*;
use vstd::string::*;

use crate::finder::rg::{CandidateModel, PossibleTodosInFile};
use crate::parser::{
    FileLocationModel, FileTodoLocation, IssueMap, IssueModel, after_first_line, line_at, with_todo,
};
use crate::parser::langs::{
    LanguageIndex, LanguageMap, LanguageModel, SupportedLanguage, languages, languages_for,
};
use crate::parser::source::{
    ConfigChars, ConfigModel, TodoAt, TodoModel, parse_todo_at, spec_parse_todo,
};
use crate::text::{CharClass, join, lemma_whole, run_len_back, scan_run_back, str_to_chars};
use crate::text::number::{decimal, push_decimal};

verus! {

/// The name of the file at the end of a path: all behind the last slash.
pub open spec fn file_name(path: Seq<char>) -> Seq<char> {
    path.skip(path.len() - run_len_back(path, CharClass::Only('/'), false))
}

/// The extension of the file at the end of a path: all behind the last dot
/// of its name. `None` where the name holds no dot, where its only dot is its
/// first character, and for the name `..`.
pub open spec fn spec_file_extension(path: Seq<char>) -> Option<Seq<char>> {
    let name = file_name(path);
    let n = run_len_back(name, CharClass::Only('.'), false);
    if n == name.len() || n + 1 == name.len() || name == seq!['.', '.'] {
        None
    } else {
        Some(name.skip(name.len() - n))
    }
}

/// The extension of the file at the end of a path.
pub fn file_extension(path: &str) -> (r: Option<&str>)
    ensures
        match r {
            Some(ext) => spec_file_extension(path@) == Some(ext@),
            None => spec_file_extension(path@) is None,
        },
{
    let s = str_to_chars(path);
    let n = s.len();
    proof {
        lemma_whole(s@);
    }
    let start = scan_run_back(s.as_slice(), 0, n, CharClass::Only('/'), false);
    let ghost name = s@.subrange(start as int, n as int);
    assert(name =~= file_name(path@));
    let dot = scan_run_back(s.as_slice(), start, n, CharClass::Only('.'), false);
    if dot == start || dot == start + 1 {
        return None;
    }
    if n - start == 2 && s[start] == '.' && s[start + 1] == '.' {
        assert(name =~= seq!['.', '.']);
        return None;
    }
    assert(name != seq!['.', '.']) by {
        if name == seq!['.', '.'] {
            assert(name[0] == '.' && name[1] == '.');
        }
    }
    assert(name.skip(name.len() - (n - dot)) =~= s@.subrange(dot as int, n as int));
    Some(path.substring_char(dot, n))
}

/// What is left of `contents` from the start of the line with the number
/// `line` on; lines are counted from 1. Behind the last line nothing is
/// left. A carriage return that no line feed follows ends no line: nothing
/// behind it is ever reached.
pub open spec fn seek_line(contents: Seq<char>, line: nat) -> Seq<char>
    decreases line,
{
    if line <= 1 {
        contents
    } else {
        after_first_line(seek_line(contents, (line - 1) as nat))
    }
}

/// The number of line feeds in `s`.
pub open spec fn newlines(s: Seq<char>) -> nat
    decreases s.len(),
{
    if s.len() == 0 {
        0
    } else if s.last() == '\n' {
        newlines(s.drop_last()) + 1
    } else {
        newlines(s.drop_last())
    }
}

/// The number of lines of `s`: each line feed ends one, and what stands
/// behind the last line feed is one more.
pub open spec fn line_count(s: Seq<char>) -> nat {
    if s.len() > 0 && s.last() != '\n' {
        newlines(s) + 1
    } else {
        newlines(s)
    }
}

/// The lines that a todo covers that starts on the line `line` and consists
/// of the text `consumed`: the first line and, for more than one line, the
/// last. A last line beyond the largest number of the machine is given as
/// that number.
pub open spec fn todo_span(line: usize, consumed: Seq<char>) -> (usize, Option<usize>) {
    if line_count(consumed) > 1 {
        if line + line_count(consumed) - 1 <= usize::MAX {
            (line, Some((line + line_count(consumed) - 1) as usize))
        } else {
            (line, Some(usize::MAX))
        }
    } else {
        (line, None)
    }
}

/// The parser configurations of the languages `langs`, in their order.
pub open spec fn configs_of(langs: Seq<LanguageModel>) -> Seq<ConfigModel> {
    langs.map_values(|l: LanguageModel| ConfigModel::from_styles(l.comment_styles))
}

/// What the first of the configurations `configs` that finds a todo at the
/// start of `i` finds there.
pub open spec fn first_parse(configs: Seq<ConfigModel>, i: Seq<char>) -> Option<
    (Seq<char>, TodoModel),
>
    decreases configs.len(),
{
    if configs.len() == 0 {
        None
    } else {
        match spec_parse_todo(configs[0], i) {
            Some(found) => Some(found),
            None => first_parse(configs.skip(1), i),
        }
    }
}

/// The issues `all` with the todo that starts on the line `line` of the file
/// `file`, if one starts there.
pub open spec fn with_todo_at_line(
    all: Seq<IssueModel<(), FileLocationModel>>,
    file: Seq<char>,
    contents: Seq<char>,
    line: usize,
    langs: Seq<LanguageModel>,
) -> Seq<IssueModel<(), FileLocationModel>> {
    let i = seek_line(contents, line as nat);
    match first_parse(configs_of(langs), i) {
        Some((rest, todo)) => with_todo(
            all,
            todo,
            FileLocationModel { file, src_span: todo_span(line, i.take(i.len() - rest.len())) },
        ),
        None => all,
    }
}

/// The issues `all` with the todos that start on the lines `lines` of the
/// file `file`, taken in the order of `lines`.
pub open spec fn with_todos_in_file(
    all: Seq<IssueModel<(), FileLocationModel>>,
    file: Seq<char>,
    contents: Seq<char>,
    lines: Seq<usize>,
    langs: Seq<LanguageModel>,
) -> Seq<IssueModel<(), FileLocationModel>>
    decreases lines.len(),
{
    if lines.len() == 0 {
        all
    } else {
        with_todo_at_line(
            with_todos_in_file(all, file, contents, lines.drop_last(), langs),
            file,
            contents,
            lines.last(),
            langs,
        )
    }
}

/// Where a line ends nothing, no later line is ever reached.
pub proof fn lemma_seek_stuck(contents: Seq<char>, at: nat, line: nat)
    requires
        1 <= at <= line,
        after_first_line(seek_line(contents, at)) == seek_line(contents, at),
    ensures
        seek_line(contents, line) == seek_line(contents, at),
    decreases line - at,
{
    if at < line {
        lemma_seek_stuck(contents, at, (line - 1) as nat);
    }
}

/// Counts the lines of the window `[lo, hi)` of `s`.
pub fn count_lines_at(s: &[char], lo: usize, hi: usize) -> (r: usize)
    requires
        lo <= hi <= s@.len(),
    ensures
        r == line_count(s@.subrange(lo as int, hi as int)),
        r <= hi - lo,
{
    let ghost w = s@.subrange(lo as int, hi as int);
    let mut count: usize = 0;
    let mut k: usize = lo;
    assert(w.take(0) =~= Seq::<char>::empty());
    while k < hi
        invariant
            lo <= k <= hi <= s@.len(),
            w == s@.subrange(lo as int, hi as int),
            count == newlines(w.take(k - lo)),
            count <= k - lo,
            k > lo && s@[k - 1] != '\n' ==> count < k - lo,
        decreases hi - k,
    {
        assert(w.take(k + 1 - lo).drop_last() =~= w.take(k - lo));
        assert(w.take(k + 1 - lo).last() == s@[k as int]);
        if s[k] == '\n' {
            count += 1;
        }
        k += 1;
    }
    assert(w.take(hi - lo) =~= w);
    if hi > lo && s[hi - 1] != '\n' {
        count + 1
    } else {
        count
    }
}

/// The parser configurations that a list holds, as values of specifications.
pub open spec fn config_models(v: Seq<ConfigChars>) -> Seq<ConfigModel> {
    v.map_values(|c: ConfigChars| c@)
}

/// Runs `first_parse` on the window `[lo, hi)` of `s`.
pub fn first_parse_at(s: &[char], lo: usize, hi: usize, configs: &[ConfigChars]) -> (r: Option<
    (usize, TodoAt),
>)
    requires
        lo <= hi <= s@.len(),
    ensures
        match r {
            Some((p, todo)) => lo < p <= hi && todo.fits(p as nat) && first_parse(
                config_models(configs@),
                s@.subrange(lo as int, hi as int),
            ) == Some((s@.subrange(p as int, hi as int), todo.of(s@))),
            None => first_parse(config_models(configs@), s@.subrange(lo as int, hi as int))
                is None,
        },
{
    let ghost w = s@.subrange(lo as int, hi as int);
    let ghost all = config_models(configs@);
    let mut k: usize = 0;
    assert(all.skip(0) =~= all);
    while k < configs.len()
        invariant
            lo <= hi <= s@.len(),
            w == s@.subrange(lo as int, hi as int),
            k <= configs@.len(),
            all == config_models(configs@),
            first_parse(all, w) == first_parse(all.skip(k as int), w),
        decreases configs@.len() - k,
    {
        let ghost rest = all.skip(k as int);
        assert(rest[0] == configs@[k as int]@);
        assert(rest.skip(1) =~= all.skip(k + 1));
        let found = parse_todo_at(s, lo, hi, &configs[k]);
        if found.is_some() {
            return found;
        }
        k += 1;
    }
    None
}

impl IssueMap<(), FileTodoLocation> {
    /// Adds the todos of one file: for each candidate line, in the order
    /// given, the todo that starts on that line, as the first of the
    /// languages that finds one reads it. A candidate line on which no todo
    /// starts adds nothing.
    pub fn add_todos_in_file(
        &mut self,
        possible: &PossibleTodosInFile,
        contents: &str,
        languages: &[SupportedLanguage],
    )
        requires
            old(self).wf(),
        ensures
            final(self).wf(),
            final(self)@ == with_todos_in_file(
                old(self)@,
                possible@.0,
                contents@,
                possible@.1,
                super::langs::languages(languages@),
            ),
            final(self).parsed_from == old(self).parsed_from,
    {
        let ghost langs = super::langs::languages(languages@);
        let mut configs: Vec<ConfigChars> = Vec::new();
        let mut c: usize = 0;
        while c < languages.len()
            invariant
                c <= languages@.len(),
                langs == super::langs::languages(languages@),
                configs@.len() == c,
                forall|j: int|
                    0 <= j < c ==> (#[trigger] configs@[j])@ == ConfigModel::from_styles(
                        langs[j].comment_styles,
                    ),
            decreases languages@.len() - c,
        {
            configs.push(languages[c].as_todo_parser_config().to_chars());
            c += 1;
        }
        assert(config_models(configs@) =~= configs_of(langs));
        let s = str_to_chars(contents);
        let n = s.len();
        let ghost text = contents@;
        let ghost lines = possible@.1;
        let ghost file = possible@.0;
        proof {
            lemma_whole(s@);
        }
        let mut cur_line: usize = 1;
        let mut cur: usize = 0;
        let mut stuck = false;
        let mut k: usize = 0;
        while k < possible.lines_to_search.len()
            invariant
                k <= possible.lines_to_search@.len(),
                lines == possible.lines_to_search@,
                file == possible.file@,
                text == contents@,
                s@ == text,
                n == s@.len(),
                config_models(configs@) == configs_of(langs),
                cur <= n,
                cur_line >= 1,
                s@.subrange(cur as int, n as int) == seek_line(text, cur_line as nat),
                stuck ==> after_first_line(seek_line(text, cur_line as nat)) == seek_line(
                    text,
                    cur_line as nat,
                ),
                self.wf(),
                self.parsed_from == old(self).parsed_from,
                self@ == with_todos_in_file(old(self)@, file, text, lines.take(k as int), langs),
            decreases possible.lines_to_search@.len() - k,
        {
            let line = possible.lines_to_search[k];
            assert(lines.take(k + 1).drop_last() =~= lines.take(k as int));
            assert(lines.take(k + 1).last() == line);
            let target = if line == 0 {
                1
            } else {
                line
            };
            if target < cur_line {
                cur_line = 1;
                cur = 0;
                stuck = false;
            }
            while cur_line < target && !stuck
                invariant
                    1 <= cur_line <= target,
                    cur <= n == s@.len(),
                    s@ == text,
                    s@.subrange(cur as int, n as int) == seek_line(text, cur_line as nat),
                    stuck ==> after_first_line(seek_line(text, cur_line as nat)) == seek_line(
                        text,
                        cur_line as nat,
                    ),
                decreases target - cur_line, if stuck { 0int } else { 1int },
            {
                let (_, next) = line_at(s.as_slice(), cur, n);
                if next == cur {
                    stuck = true;
                } else {
                    cur = next;
                    cur_line += 1;
                }
            }
            proof {
                if stuck {
                    lemma_seek_stuck(text, cur_line as nat, target as nat);
                }
                assert(seek_line(text, target as nat) == seek_line(text, line as nat));
            }
            assert(s@.subrange(cur as int, n as int) == seek_line(text, line as nat));
            match first_parse_at(s.as_slice(), cur, n, configs.as_slice()) {
                Some((p, todo)) => {
                    let ghost i = s@.subrange(cur as int, n as int);
                    assert(i.take(i.len() - (n - p)) =~= s@.subrange(cur as int, p as int));
                    let count = count_lines_at(s.as_slice(), cur, p);
                    let end = if count > 1 {
                        if count - 1 > usize::MAX - line {
                            Some(usize::MAX)
                        } else {
                            Some(line + (count - 1))
                        }
                    } else {
                        None
                    };
                    let loc = FileTodoLocation {
                        file: possible.file.clone(),
                        src_span: (line, end),
                    };
                    let parsed = todo.cut(contents);
                    self.add_parsed_todo(&parsed, loc);
                },
                None => {},
            }
            k += 1;
        }
        assert(lines.take(k as int) =~= lines);
    }
}

/// A notice about a candidate file that no supported language claims.
#[derive(Clone, Debug, PartialEq, Eq)]
pub struct UnsupportedFile {
    pub path: String,
    /// The candidate lines of the file, in words: `line 3`, or `lines 1, 2`.
    pub todo: String,
}

/// A notice, as a value of specifications: the path and the lines in words.
pub type NoticeModel = (Seq<char>, Seq<char>);

impl View for UnsupportedFile {
    type V = NoticeModel;

    open spec fn view(&self) -> NoticeModel {
        (self.path@, self.todo@)
    }
}

/// The numbers `lines`, each in decimal digits.
pub open spec fn decimals(lines: Seq<usize>) -> Seq<Seq<char>> {
    lines.map_values(|l: usize| decimal(l as nat))
}

/// The candidate lines of a file in words: `line` and the number for one
/// line, and else `lines` and the numbers with commas between them.
pub open spec fn notice_lines(lines: Seq<usize>) -> Seq<char> {
    if lines.len() == 1 {
        "line"@ + " "@ + decimal(lines[0] as nat)
    } else {
        "line"@ + "s "@ + join(decimals(lines), ", "@)
    }
}

/// The languages that may have written the file at `path`: those that the
/// index holds for the extension of the file.
pub open spec fn languages_of(index: LanguageIndex, path: Seq<char>) -> Option<
    Seq<LanguageModel>,
> {
    match spec_file_extension(path) {
        Some(ext) => languages_for(index, ext),
        None => None,
    }
}

/// What to do with a candidate file.
pub enum FilePlan<'a> {
    /// No supported language claims the file: report it and go on.
    Unsupported(UnsupportedFile),
    /// Read the file, and look for todos of these languages in it.
    Read(&'a Vec<SupportedLanguage>),
}

/// The notice about a candidate file that no supported language claims.
pub fn unsupported_file(possible: &PossibleTodosInFile) -> (r: UnsupportedFile)
    ensures
        r@ == (possible@.0, notice_lines(possible@.1)),
{
    let lines = &possible.lines_to_search;
    let mut todo = String::from_str("line");
    if lines.len() == 1 {
        todo.append(" ");
        push_decimal(&mut todo, lines[0]);
    } else {
        todo.append("s ");
        let ghost head = todo@;
        let ghost all = decimals(lines@);
        let mut k: usize = 0;
        assert(todo@ =~= head + join(all.take(0), ", "@));
        while k < lines.len()
            invariant
                k <= lines@.len(),
                all == decimals(lines@),
                todo@ == head + join(all.take(k as int), ", "@),
            decreases lines@.len() - k,
        {
            assert(all.take(k + 1).drop_last() =~= all.take(k as int));
            assert(all.take(k + 1).last() == decimal(lines@[k as int] as nat));
            if k > 0 {
                todo.append(", ");
            }
            push_decimal(&mut todo, lines[k]);
            assert(todo@ =~= head + join(all.take(k + 1), ", "@));
            k += 1;
        }
        assert(all.take(k as int) =~= all);
    }
    UnsupportedFile { path: possible.file.clone(), todo }
}

/// Decides what to do with a candidate file: a file whose name has no
/// extension, or one that no supported language bears, is reported; any
/// other is to be read.
pub fn plan_file<'a>(possible: &PossibleTodosInFile, language_map: &'a LanguageMap) -> (r:
    FilePlan<'a>)
    ensures
        match r {
            FilePlan::Unsupported(notice) => languages_of(language_map@, possible@.0) is None
                && notice@ == (possible@.0, notice_lines(possible@.1)),
            FilePlan::Read(langs) => languages_of(language_map@, possible@.0) == Some(
                languages(langs@),
            ),
        },
{
    let found = match file_extension(possible.file.as_str()) {
        Some(ext) => language_map.get(ext),
        None => None,
    };
    match found {
        Some(langs) => FilePlan::Read(langs),
        None => FilePlan::Unsupported(unsupported_file(possible)),
    }
}

/// A candidate file and its contents.
#[derive(Clone, Debug)]
pub struct SourceFile {
    pub possible: PossibleTodosInFile,
    pub contents: String,
}

/// A candidate file with its contents, as a value of specifications.
pub type SourceModel = (CandidateModel, Seq<char>);

impl View for SourceFile {
    type V = SourceModel;

    open spec fn view(&self) -> SourceModel {
        (self.possible@, self.contents@)
    }
}

/// The files that a list holds, as values of specifications.
pub open spec fn source_models(v: Seq<SourceFile>) -> Seq<SourceModel> {
    v.map_values(|f: SourceFile| f@)
}

/// The notices that a list holds, as values of specifications.
pub open spec fn notice_models(v: Seq<UnsupportedFile>) -> Seq<NoticeModel> {
    v.map_values(|f: UnsupportedFile| f@)
}

/// What the extraction yields: the todos of the files that could be read,
/// and a notice for each file that could not.
pub struct Extraction {
    pub todos: IssueMap<(), FileTodoLocation>,
    pub unsupported: Vec<UnsupportedFile>,
}

/// What the extraction yields, as a value of specifications.
pub struct ExtractionModel {
    pub todos: Seq<IssueModel<(), FileLocationModel>>,
    pub unsupported: Seq<NoticeModel>,
}

/// What is extracted after one more file: a file that a supported language
/// claims adds its todos, any other adds a notice.
pub open spec fn extract_file(so_far: ExtractionModel, file: SourceModel, index: LanguageIndex)
    -> ExtractionModel {
    match languages_of(index, file.0.0) {
        Some(langs) => ExtractionModel {
            todos: with_todos_in_file(so_far.todos, file.0.0, file.1, file.0.1, langs),
            ..so_far
        },
        None => ExtractionModel {
            unsupported: so_far.unsupported.push((file.0.0, notice_lines(file.0.1))),
            ..so_far
        },
    }
}

/// What is extracted from the files `files`, taken one after the other.
pub open spec fn extract(files: Seq<SourceModel>, index: LanguageIndex) -> ExtractionModel
    decreases files.len(),
{
    if files.len() == 0 {
        ExtractionModel { todos: Seq::empty(), unsupported: Seq::empty() }
    } else {
        extract_file(extract(files.drop_last(), index), files.last(), index)
    }
}

impl IssueMap<(), FileTodoLocation> {
    /// Extracts the todos from candidate files whose contents are at hand:
    /// each file that a supported language claims adds the todos on its
    /// candidate lines, and each other file adds a notice and nothing else.
    pub fn from_files(files: &[SourceFile], language_map: &LanguageMap) -> (r: Extraction)
        ensures
            r.todos.wf(),
            r.todos.parsed_from == super::ParsingSource::SourceCode,
            (ExtractionModel { todos: r.todos@, unsupported: notice_models(r.unsupported@) })
                == extract(source_models(files@), language_map@),
    {
        let ghost all = source_models(files@);
        let mut todos = IssueMap::new_source_todos();
        let mut unsupported: Vec<UnsupportedFile> = Vec::new();
        let mut k: usize = 0;
        assert(notice_models(unsupported@) =~= Seq::<NoticeModel>::empty());
        assert(all.take(0) =~= Seq::<SourceModel>::empty());
        while k < files.len()
            invariant
                k <= files@.len(),
                all == source_models(files@),
                todos.wf(),
                todos.parsed_from == super::ParsingSource::SourceCode,
                (ExtractionModel { todos: todos@, unsupported: notice_models(unsupported@) })
                    == extract(all.take(k as int), language_map@),
            decreases files@.len() - k,
        {
            assert(all.take(k + 1).drop_last() =~= all.take(k as int));
            assert(all.take(k + 1).last() == files@[k as int]@);
            match plan_file(&files[k].possible, language_map) {
                FilePlan::Read(langs) => {
                    todos.add_todos_in_file(
                        &files[k].possible,
                        files[k].contents.as_str(),
                        langs.as_slice(),
                    );
                },
                FilePlan::Unsupported(notice) => {
                    let ghost before = notice_models(unsupported@);
                    unsupported.push(notice);
                    assert(notice_models(unsupported@) =~= before.push(notice@));
                },
            }
            k += 1;
        }
        assert(all.take(k as int) =~= all);
        Extraction { todos, unsupported }
    }
}

/// A candidate file that no supported language claims yields no todo and one
/// notice, and leaves what the other files yield as it is: the todos
/// extracted are those extracted without the file, and the notices are those
/// given without the file and one more.
pub proof fn lemma_unsupported_file_is_skipped(
    files: Seq<SourceModel>,
    k: int,
    index: LanguageIndex,
)
    requires
        0 <= k < files.len(),
        languages_of(index, files[k].0.0) is None,
    ensures
        extract(files, index).todos == extract(files.remove(k), index).todos,
        extract(files, index).unsupported.len() == extract(files.remove(k), index).unsupported.len()
            + 1,
        extract(files, index).unsupported.contains((files[k].0.0, notice_lines(files[k].0.1))),
    decreases files.len(),
{
    let front = files.drop_last();
    if k == files.len() - 1 {
        assert(files.remove(k) =~= front);
        let notices = extract(front, index).unsupported;
        let notice = (files[k].0.0, notice_lines(files[k].0.1));
        assert(notices.push(notice)[notices.len() as int] == notice);
    } else {
        lemma_unsupported_file_is_skipped(front, k, index);
        assert(files.remove(k).drop_last() =~= front.remove(k));
        assert(files.remove(k).last() == files.last());
        let notice = (files[k].0.0, notice_lines(files[k].0.1));
        let before = extract(front, index).unsupported;
        let j = choose|j: int| 0 <= j < before.len() && before[j] == notice;
        let after = extract(files, index).unsupported;
        assert(after[j] == notice);
    }
}



} // verus!
