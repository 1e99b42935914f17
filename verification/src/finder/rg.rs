//! Candidate lines by file.

use vstd::prelude::*;
use vstd::string::*;
use vstd::utf8::{decode_utf8, encode_utf8_decode_utf8, valid_utf8};

use crate::Error;
use crate::finder::parse::{RgFileAt, rg_at, rg_files_of, spec_rg};
use crate::text::{lemma_whole, str_eq, str_to_chars, utf8_text};
use crate::text::keyed::{
    distinct, lemma_position_is_first, lemma_position_none, lemma_position_some, position,
};
use crate::text::order::{
    insert_position, lemma_insert_by, lemma_sort_by, lemma_text_le_total, lemma_text_le_transitive,
    sort_by, sorted_by, str_le, text_le,
};

verus! {

/// A file that may hold todos, and the numbers of the lines on which they
/// may start.
#[derive(Clone, Debug, PartialEq, Eq, PartialOrd, Ord)]
pub struct PossibleTodosInFile {
    pub file: String,
    pub lines_to_search: Vec<usize>,
}

/// A file with candidate lines, as a value of specifications.
pub type CandidateModel = (Seq<char>, Seq<usize>);

impl View for PossibleTodosInFile {
    type V = CandidateModel;

    open spec fn view(&self) -> CandidateModel {
        (self.file@, self.lines_to_search@)
    }
}

impl PossibleTodosInFile {
    /// The file `file` with the candidate lines `lines_to_search`.
    pub fn new(file: &str, lines_to_search: Vec<usize>) -> (r: Self)
        ensures
            r@ == (file@, lines_to_search@),
    {
        PossibleTodosInFile { file: String::from_str(file), lines_to_search }
    }
}

/// The ascending list `lines` with the number `n` in its place, unless the
/// list holds it already.
pub open spec fn insert_line(lines: Seq<usize>, n: usize) -> Seq<usize>
    decreases lines.len(),
{
    if lines.len() == 0 || lines.last() < n {
        lines.push(n)
    } else if lines.last() == n {
        lines
    } else {
        insert_line(lines.drop_last(), n).push(lines.last())
    }
}

/// The ascending list `lines` with each of the numbers `more` in its place.
pub open spec fn add_lines(lines: Seq<usize>, more: Seq<usize>) -> Seq<usize>
    decreases more.len(),
{
    if more.len() == 0 {
        lines
    } else {
        insert_line(add_lines(lines, more.drop_last()), more.last())
    }
}

/// The numbers `lines` ascend: each is larger than those before it.
pub open spec fn ascending(lines: Seq<usize>) -> bool {
    forall|i: int, j: int| 0 <= i < j < lines.len() ==> lines[i] < lines[j]
}

/// Putting a number in its place keeps a list ascending, and adds that
/// number to it and no other.
pub proof fn lemma_insert_line_ascending(lines: Seq<usize>, n: usize)
    requires
        ascending(lines),
    ensures
        ascending(insert_line(lines, n)),
        forall|m: usize| #[trigger]
            insert_line(lines, n).contains(m) <==> m == n || lines.contains(m),
    decreases lines.len(),
{
    let after = insert_line(lines, n);
    if lines.len() == 0 || lines.last() < n {
        assert forall|m: usize| after.contains(m) <==> m == n || lines.contains(m) by {
            if after.contains(m) {
                let i = choose|i: int| 0 <= i < after.len() && after[i] == m;
                if i < lines.len() {
                    assert(lines[i] == m);
                }
            }
            if lines.contains(m) {
                let i = choose|i: int| 0 <= i < lines.len() && lines[i] == m;
                assert(after[i] == m);
            }
            if m == n {
                assert(after[lines.len() as int] == n);
            }
        }
    } else if lines.last() == n {
        assert(lines[lines.len() - 1] == n);
    } else {
        let front = lines.drop_last();
        let last = lines.last();
        assert forall|i: int, j: int| 0 <= i < j < front.len() implies front[i] < front[j] by {
            assert(lines[i] < lines[j]);
        }
        lemma_insert_line_ascending(front, n);
        let mid = insert_line(front, n);
        assert forall|i: int, j: int| 0 <= i < j < after.len() implies after[i] < after[j] by {
            if j < mid.len() {
                assert(after[i] == mid[i] && after[j] == mid[j]);
            } else {
                let m = mid[i];
                assert(after[i] == m);
                assert(after[j] == last);
                assert(mid.contains(m));
                assert(m == n || front.contains(m));
                if m != n {
                    let k = choose|k: int| 0 <= k < front.len() && front[k] == m;
                    assert(lines[k] == m);
                    assert(lines[k] < lines[lines.len() - 1]);
                } else {
                    assert(n < last);
                }
            }
        }
        assert forall|m: usize| after.contains(m) <==> m == n || lines.contains(m) by {
            if after.contains(m) {
                let i = choose|i: int| 0 <= i < after.len() && after[i] == m;
                if i < mid.len() {
                    assert(mid[i] == m);
                    assert(mid.contains(m));
                    assert(m == n || front.contains(m));
                    if m != n {
                        let k = choose|k: int| 0 <= k < front.len() && front[k] == m;
                        assert(lines[k] == m);
                    }
                } else {
                    assert(lines[lines.len() - 1] == m);
                }
            }
            if m == n || lines.contains(m) {
                if m == last {
                    assert(after[after.len() - 1] == m);
                } else {
                    if m != n {
                        let k = choose|k: int| 0 <= k < lines.len() && lines[k] == m;
                        assert(front[k] == m);
                        assert(front.contains(m));
                    }
                    assert(m == n || front.contains(m));
                    assert(mid.contains(m));
                    let i = choose|i: int| 0 <= i < mid.len() && mid[i] == m;
                    assert(after[i] == m);
                }
            }
        }
    }
}

/// Adding numbers keeps a list ascending.
pub proof fn lemma_add_lines_ascending(lines: Seq<usize>, more: Seq<usize>)
    requires
        ascending(lines),
    ensures
        ascending(add_lines(lines, more)),
    decreases more.len(),
{
    if more.len() > 0 {
        lemma_add_lines_ascending(lines, more.drop_last());
        lemma_insert_line_ascending(add_lines(lines, more.drop_last()), more.last());
    }
}

/// The files of a list of candidates, in its order.
pub open spec fn files_of(all: Seq<CandidateModel>) -> Seq<Seq<char>> {
    all.map_values(|c: CandidateModel| c.0)
}

/// The candidates `all` with the lines `lines` added to those of the file
/// `file`; where `all` does not hold the file yet, a new entry at the end
/// holds it.
pub open spec fn with_candidates(all: Seq<CandidateModel>, file: Seq<char>, lines: Seq<usize>)
    -> Seq<CandidateModel> {
    match position(files_of(all), file) {
        Some(i) => all.update(i, (file, add_lines(all[i].1, lines))),
        None => all.push((file, add_lines(Seq::empty(), lines))),
    }
}

/// The files of `blocks`, each once, with all the lines that `blocks` give
/// for it, ascending and each once.
pub open spec fn merge_candidates(blocks: Seq<CandidateModel>) -> Seq<CandidateModel>
    decreases blocks.len(),
{
    if blocks.len() == 0 {
        Seq::empty()
    } else {
        with_candidates(merge_candidates(blocks.drop_last()), blocks.last().0, blocks.last().1)
    }
}

/// Gathering blocks by file names each file once, and gives each file lines
/// that ascend.
pub proof fn lemma_merge_candidates(blocks: Seq<CandidateModel>)
    ensures
        distinct(files_of(merge_candidates(blocks))),
        forall|k: int|
            0 <= k < merge_candidates(blocks).len() ==> ascending(
                (#[trigger] merge_candidates(blocks)[k]).1,
            ),
    decreases blocks.len(),
{
    if blocks.len() > 0 {
        let before = merge_candidates(blocks.drop_last());
        let (file, lines) = blocks.last();
        let after = merge_candidates(blocks);
        lemma_merge_candidates(blocks.drop_last());
        lemma_position_is_first(files_of(before), file);
        match position(files_of(before), file) {
            Some(i) => {
                lemma_add_lines_ascending(before[i].1, lines);
                assert(files_of(after) =~= files_of(before));
                assert forall|k: int| 0 <= k < after.len() implies ascending(
                    (#[trigger] after[k]).1,
                ) by {
                    if k != i {
                        assert(after[k] == before[k]);
                    }
                }
            },
            None => {
                lemma_add_lines_ascending(Seq::empty(), lines);
                assert(files_of(after) =~= files_of(before).push(file));
                assert forall|k: int| 0 <= k < after.len() implies ascending(
                    (#[trigger] after[k]).1,
                ) by {
                    if k < before.len() {
                        assert(after[k] == before[k]);
                    }
                }
            },
        }
    }
}

/// The order of candidates: that of the paths of their files.
pub open spec fn by_file() -> spec_fn(CandidateModel, CandidateModel) -> bool {
    |a: CandidateModel, b: CandidateModel| text_le(a.0, b.0)
}

/// The candidates that the blocks of a line search's output give: one entry
/// for each file, sorted by path, with the lines of all the blocks of the
/// file, ascending and each once.
pub open spec fn candidates(blocks: Seq<CandidateModel>) -> Seq<CandidateModel> {
    sort_by(merge_candidates(blocks), by_file())
}

/// The candidates that a list holds, as values of specifications.
pub open spec fn candidate_models(v: Seq<PossibleTodosInFile>) -> Seq<CandidateModel> {
    v.map_values(|c: PossibleTodosInFile| c@)
}

/// Where `n` goes into an ascending list: behind the numbers up to `p`, which
/// are no larger, and before the rest, which are larger.
proof fn lemma_insert_line(lines: Seq<usize>, n: usize, p: int)
    requires
        0 <= p <= lines.len(),
        forall|j: int| p <= j < lines.len() ==> lines[j] > n,
        p == 0 || lines[p - 1] <= n,
    ensures
        insert_line(lines, n) == if p > 0 && lines[p - 1] == n {
            lines
        } else {
            lines.insert(p, n)
        },
    decreases lines.len() - p,
{
    if p == lines.len() {
        if !(p > 0 && lines[p - 1] == n) {
            assert(lines.push(n) =~= lines.insert(p, n));
        }
    } else {
        let front = lines.drop_last();
        lemma_insert_line(front, n, p);
        if p > 0 && lines[p - 1] == n {
            assert(front.push(lines.last()) =~= lines);
        } else {
            assert(front.insert(p, n).push(lines.last()) =~= lines.insert(p, n));
        }
    }
}

/// Puts the number `n` in its place in an ascending list, unless the list
/// holds it already.
fn insert_line_into(lines: &mut Vec<usize>, n: usize)
    ensures
        final(lines)@ == insert_line(old(lines)@, n),
{
    let mut p: usize = lines.len();
    while p > 0 && lines[p - 1] > n
        invariant
            p <= lines@.len(),
            lines@ == old(lines)@,
            forall|j: int| p <= j < lines@.len() ==> lines@[j] > n,
        decreases p,
    {
        p -= 1;
    }
    proof {
        lemma_insert_line(lines@, n, p as int);
    }
    if !(p > 0 && lines[p - 1] == n) {
        lines.insert(p, n);
    }
}

/// Puts each of the numbers `more` in its place in an ascending list.
fn add_lines_into(lines: &mut Vec<usize>, more: &[usize])
    ensures
        final(lines)@ == add_lines(old(lines)@, more@),
{
    let mut k: usize = 0;
    while k < more.len()
        invariant
            k <= more@.len(),
            lines@ == add_lines(old(lines)@, more@.take(k as int)),
        decreases more@.len() - k,
    {
        assert(more@.take(k + 1).drop_last() =~= more@.take(k as int));
        insert_line_into(lines, more[k]);
        k += 1;
    }
    assert(more@.take(k as int) =~= more@);
}

/// Finds the first candidate of a list that is for the file `file`.
fn find_file(all: &[PossibleTodosInFile], file: &str) -> (r: Option<usize>)
    ensures
        match r {
            Some(i) => i < all@.len() && position(files_of(candidate_models(all@)), file@)
                == Some(i as int),
            None => position(files_of(candidate_models(all@)), file@) is None,
        },
{
    let ghost keys = files_of(candidate_models(all@));
    let mut i: usize = 0;
    while i < all.len()
        invariant
            i <= all@.len(),
            keys == files_of(candidate_models(all@)),
            forall|j: int| 0 <= j < i ==> keys[j] != file@,
        decreases all@.len() - i,
    {
        if str_eq(all[i].file.as_str(), file) {
            proof {
                lemma_position_some(keys, file@, i as int);
            }
            return Some(i);
        }
        i += 1;
    }
    proof {
        lemma_position_none(keys, file@);
    }
    None
}

/// Sorts candidates by the paths of their files; candidates of one file keep
/// their order.
pub fn sort_candidates(v: Vec<PossibleTodosInFile>) -> (r: Vec<PossibleTodosInFile>)
    ensures
        candidate_models(r@) == sort_by(candidate_models(v@), by_file()),
{
    let ghost all = candidate_models(v@);
    let ghost n = v@.len();
    let mut sorted: Vec<PossibleTodosInFile> = Vec::new();
    assert(candidate_models(sorted@) =~= Seq::<CandidateModel>::empty());
    assert(all.take(0) =~= Seq::<CandidateModel>::empty());
    for c in it: v
        invariant
            all == candidate_models(it.seq()),
            n == it.seq().len(),
            candidate_models(sorted@) == sort_by(all.take(it.index() as int), by_file()),
    {
        let ghost k = it.index() as int;
        let ghost before = candidate_models(sorted@);
        let ghost x: CandidateModel = c@;
        assert(all.take(k + 1).drop_last() =~= all.take(k));
        assert(all.take(k + 1).last() == x);
        let mut p: usize = sorted.len();
        assert(before.take(p as int) =~= before);
        while p > 0 && !str_le(sorted[p - 1].file.as_str(), c.file.as_str())
            invariant
                p <= sorted@.len(),
                before == candidate_models(sorted@),
                x == c@,
                insert_position(before, x, by_file()) == insert_position(
                    before.take(p as int),
                    x,
                    by_file(),
                ),
            decreases p,
        {
            assert(before.take(p as int).drop_last() =~= before.take(p - 1));
            assert(before.take(p as int).last() == before[p - 1]);
            p -= 1;
        }
        proof {
            if p > 0 {
                assert(before.take(p as int).last() == before[p - 1]);
            }
            assert(insert_position(before, x, by_file()) == p);
            lemma_insert_by(before, x, by_file());
        }
        sorted.insert(p, c);
        assert(candidate_models(sorted@) =~= before.insert(p as int, x));
    }
    assert(all.take(n as int) =~= all);
    sorted
}

/// Gathers the blocks of a line search's output by file.
fn merge_blocks(blocks: &[RgFileAt], text: &str) -> (r: Vec<PossibleTodosInFile>)
    requires
        forall|k: int| 0 <= k < blocks@.len() ==> (#[trigger] blocks@[k]).file.fits(text@.len()),
    ensures
        candidate_models(r@) == merge_candidates(rg_files_of(blocks@, text@)),
{
    let ghost all = rg_files_of(blocks@, text@);
    let mut merged: Vec<PossibleTodosInFile> = Vec::new();
    let mut k: usize = 0;
    assert(candidate_models(merged@) =~= Seq::<CandidateModel>::empty());
    assert(all.take(0) =~= Seq::<CandidateModel>::empty());
    while k < blocks.len()
        invariant
            k <= blocks@.len(),
            all == rg_files_of(blocks@, text@),
            forall|k: int|
                0 <= k < blocks@.len() ==> (#[trigger] blocks@[k]).file.fits(text@.len()),
            candidate_models(merged@) == merge_candidates(all.take(k as int)),
        decreases blocks@.len() - k,
    {
        let block = &blocks[k];
        let file = text.substring_char(block.file.start, block.file.end);
        let ghost before = candidate_models(merged@);
        assert(all.take(k + 1).drop_last() =~= all.take(k as int));
        assert(all.take(k + 1).last() == (file@, block.lines@));
        match find_file(merged.as_slice(), file) {
            Some(i) => {
                proof {
                    lemma_position_is_first(files_of(before), file@);
                }
                let ghost merged_before = merged@;
                let mut entry = merged.remove(i);
                add_lines_into(&mut entry.lines_to_search, block.lines.as_slice());
                merged.insert(i, entry);
                assert(merged@ =~= merged_before.update(i as int, entry));
                assert(candidate_models(merged@) =~= before.update(
                    i as int,
                    (file@, add_lines(before[i as int].1, block.lines@)),
                ));
            },
            None => {
                let mut lines: Vec<usize> = Vec::new();
                add_lines_into(&mut lines, block.lines.as_slice());
                merged.push(PossibleTodosInFile::new(file, lines));
                assert(candidate_models(merged@) =~= before.push(
                    (file@, add_lines(Seq::empty(), block.lines@)),
                ));
            },
        }
        k += 1;
    }
    assert(all.take(k as int) =~= all);
    merged
}

/// What the parse of the output `output` of a line search is: the candidates
/// that its blocks give, or the reason why there are none. The output is at
/// fault where it is not UTF-8, and where it does not start with a file and a
/// numbered line.
pub open spec fn parsed_as(output: Seq<u8>, r: Result<Vec<PossibleTodosInFile>, Error>) -> bool {
    match r {
        Ok(found) => valid_utf8(output) && match spec_rg(decode_utf8(output)) {
            Some((_, blocks)) => candidate_models(found@) == candidates(blocks),
            None => false,
        },
        Err(Error::RgUtf8) => !valid_utf8(output),
        Err(Error::ParseRg) => valid_utf8(output) && spec_rg(decode_utf8(output)) is None,
        Err(_) => false,
    }
}

/// Parses the output of a line search into the files that may hold todos,
/// sorted by path, each once and with its candidate lines ascending. Fails
/// where the output is not UTF-8, and where it does not start with a file
/// and a numbered line; what stands behind the last file that can be read is
/// not looked at.
pub fn parse_rg_output(output: &[u8]) -> (r: Result<Vec<PossibleTodosInFile>, Error>)
    ensures
        parsed_as(output@, r),
{
    let text = match utf8_text(output) {
        Some(text) => text,
        None => {
            return Err(Error::RgUtf8);
        },
    };
    proof {
        encode_utf8_decode_utf8(text@);
    }
    let s = str_to_chars(text);
    let n = s.len();
    proof {
        lemma_whole(s@);
    }
    match rg_at(s.as_slice(), 0, n) {
        Some((_, blocks)) => {
            let merged = merge_blocks(blocks.as_slice(), text);
            Ok(sort_candidates(merged))
        },
        None => Err(Error::ParseRg),
    }
}

/// The candidates that a line search gives stand in the order of their
/// paths, and the lines of each ascend. They are the files gathered from
/// the blocks, of which no two bear the same path.
pub proof fn lemma_candidates_are_sorted(blocks: Seq<CandidateModel>)
    ensures
        sorted_by(candidates(blocks), by_file()),
        candidates(blocks).to_multiset() == merge_candidates(blocks).to_multiset(),
        distinct(files_of(merge_candidates(blocks))),
        forall|k: int|
            0 <= k < candidates(blocks).len() ==> ascending((#[trigger] candidates(blocks)[k]).1),
{
    broadcast use vstd::seq_lib::to_multiset_contains;

    let le = by_file();
    let merged = merge_candidates(blocks);
    assert forall|a: CandidateModel, b: CandidateModel| #[trigger] le(a, b) || le(b, a) by {
        lemma_text_le_total(a.0, b.0);
    }
    assert forall|a: CandidateModel, b: CandidateModel, c: CandidateModel|
        #[trigger] le(a, b) && #[trigger] le(b, c) implies le(a, c) by {
        lemma_text_le_transitive(a.0, b.0, c.0);
    }
    lemma_sort_by(merged, le);
    lemma_merge_candidates(blocks);
    let sorted = candidates(blocks);
    assert forall|k: int| 0 <= k < sorted.len() implies ascending((#[trigger] sorted[k]).1) by {
        assert(sorted.contains(sorted[k]));
        assert(sorted.to_multiset().contains(sorted[k]));
        assert(merged.contains(sorted[k]));
        let j = choose|j: int| 0 <= j < merged.len() && merged[j] == sorted[k];
        assert(ascending(merged[j].1));
    }
}





/// The arguments of a line search for `pattern` under `path` that prints
/// each file as a heading over its numbered lines, once for each `-g`
/// exclusion.
pub open spec fn spec_rg_arguments(path: Seq<char>, pattern: Seq<char>, excludes: Seq<Seq<char>>)
    -> Seq<Seq<char>> {
    seq!["--heading"@, "--line-number"@] + exclusions(excludes) + seq![pattern, path]
}

/// The arguments that exclude the files matching `excludes`: for each
/// pattern, `-g` and the pattern behind an exclamation mark.
pub open spec fn exclusions(excludes: Seq<Seq<char>>) -> Seq<Seq<char>>
    decreases excludes.len(),
{
    if excludes.len() == 0 {
        Seq::empty()
    } else {
        exclusions(excludes.drop_last()) + seq!["-g"@, "!"@ + excludes.last()]
    }
}

/// The arguments with which to run the line search `rg` for `pattern` under
/// `path`, leaving out the files that match `excludes`.
pub fn rg_arguments(path: &str, pattern: &str, excludes: &[String]) -> (r: Vec<String>)
    ensures
        crate::text::texts(r@) == spec_rg_arguments(
            path@,
            pattern@,
            crate::text::texts(excludes@),
        ),
{
    let ghost ex = crate::text::texts(excludes@);
    let mut args: Vec<String> = Vec::new();
    args.push(String::from_str("--heading"));
    args.push(String::from_str("--line-number"));
    let ghost head = seq!["--heading"@, "--line-number"@];
    assert(crate::text::texts(args@) =~= head + exclusions(ex.take(0)));
    let mut k: usize = 0;
    while k < excludes.len()
        invariant
            k <= excludes@.len(),
            ex == crate::text::texts(excludes@),
            crate::text::texts(args@) == head + exclusions(ex.take(k as int)),
        decreases excludes@.len() - k,
    {
        assert(ex.take(k + 1).drop_last() =~= ex.take(k as int));
        let ghost before = crate::text::texts(args@);
        let mut not = String::from_str("!");
        not.append(excludes[k].as_str());
        args.push(String::from_str("-g"));
        args.push(not);
        assert(crate::text::texts(args@) =~= before + seq!["-g"@, "!"@ + ex[k as int]]);
        assert(crate::text::texts(args@) =~= head + exclusions(ex.take(k + 1)));
        k += 1;
    }
    assert(ex.take(k as int) =~= ex);
    let ghost before = crate::text::texts(args@);
    args.push(String::from_str(pattern));
    args.push(String::from_str(path));
    assert(crate::text::texts(args@) =~= before + seq![pattern@, path@]);
    args
}

} // verus!
