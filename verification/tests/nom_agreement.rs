use nom::bytes::complete::{is_not, tag, take_till};
use nom::character::complete::{char, digit1, line_ending, space0};
use nom::combinator::opt;
use nom::sequence::delimited;
use nom::{IResult, Parser};

use todo_finder_lib::finder::parse::parse_rg_line;
use todo_finder_lib::parser::issue::repo_from_github_link;
use todo_finder_lib::parser::source::{comment_start, rust_todo_content};
use todo_finder_lib::parser::take_to_eol;

const INPUTS: [&str; 14] = [
    "",
    "one line",
    "one\ntwo\n",
    "one\r\ntwo",
    "one\rtwo",
    "\r\n",
    "\n\r\n",
    "\r",
    "  \t indented\n",
    " \u{a0}no-break space",
    "12:text\n13:more",
    "a/b/c",
    "(arguments) rest",
    "caf\u{e9}\n\u{4e16}\u{754c}\n",
];

fn line_by_nom(i: &str) -> IResult<&str, &str> {
    let (i, ln) = take_till(|c| c == '\r' || c == '\n')(i)?;
    let (i, _) = opt(line_ending).parse(i)?;
    Ok((i, ln))
}

#[test]
fn lines_end_where_nom_ends_them() {
    for input in INPUTS {
        let (rest, line) = line_by_nom(input).unwrap();
        assert_eq!(take_to_eol(input), Ok((rest, line)), "{input:?}");
    }
}

#[test]
fn blanks_are_what_nom_calls_spaces() {
    for input in INPUTS {
        let by_nom: IResult<&str, &str> = space0(input);
        let (rest, _) = by_nom.unwrap();
        assert_eq!(comment_start(&[], "", input), Ok((rest, ())), "{input:?}");
    }
}

fn numbered_line_by_nom(i: &str) -> IResult<&str, &str> {
    let (i, digits) = digit1(i)?;
    let (i, _) = char(':')(i)?;
    let (i, _) = line_by_nom(i)?;
    Ok((i, digits))
}

#[test]
fn numbered_lines_are_read_as_nom_reads_them() {
    for input in INPUTS.iter().chain(["7:", "007:x", ":x", "7 :x", "\u{664}:x"].iter()) {
        let by_nom = numbered_line_by_nom(input)
            .ok()
            .map(|(rest, digits)| (rest, digits.parse::<usize>().unwrap()));
        assert_eq!(parse_rg_line(input).ok(), by_nom, "{input:?}");
    }
}

fn owner_and_name_by_nom(i: &str) -> IResult<&str, (&str, &str)> {
    let (i, user) = take_till(|c| c == '/')(i)?;
    let (i, _) = char('/')(i)?;
    let (i, repo) = take_till(|c| c == '/')(i)?;
    Ok((i, (user, repo)))
}

#[test]
fn repositories_are_read_as_nom_reads_them() {
    for input in INPUTS.iter().chain(["/", "//", "a/", "/b", "a/b/"].iter()) {
        assert_eq!(
            repo_from_github_link(input).ok(),
            owner_and_name_by_nom(input).ok(),
            "{input:?}"
        );
    }
}

fn argument_by_nom(i: &str) -> IResult<&str, &str> {
    delimited(char('('), is_not(")"), char(')')).parse(i)
}

#[test]
fn macro_arguments_end_where_nom_ends_them() {
    for input in INPUTS
        .iter()
        .chain(["()", "(a)", "(a", "(a)b)", "((a))", "( )", "x(a)"].iter())
    {
        let by_nom = argument_by_nom(input).ok().map(|(rest, _)| rest);
        assert_eq!(
            rust_todo_content(input).ok().map(|(rest, _)| rest),
            by_nom,
            "{input:?}"
        );
    }
}

#[test]
fn prefixes_are_matched_as_nom_matches_tags() {
    for input in INPUTS {
        for prefix in ["", "one", "12", "(", "\u{a0}", "a/"] {
            let by_nom: IResult<&str, &str> = tag(prefix)(input.trim_start_matches([' ', '\t']));
            assert_eq!(
                comment_start(&[], prefix, input).is_ok(),
                by_nom.is_ok(),
                "{input:?} {prefix:?}"
            );
        }
    }
}
