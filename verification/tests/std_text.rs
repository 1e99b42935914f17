use todo_finder_lib::text::{trimmed, without_prefixes};

#[test]
fn trim_removes_lines() {
    let to_trim = "* Hello *\n";
    let trimmed_text = to_trim.trim();
    assert_eq!("* Hello *", trimmed_text);
    assert_eq!(trimmed(to_trim), trimmed_text);
}

#[test]
fn trim_start_does_nothing_if_no_match() {
    let to_trim = "* Hello *\n";
    let trimmed_text = to_trim.trim_start_matches("!!");
    assert_eq!("* Hello *\n", trimmed_text);
    assert_eq!(without_prefixes(to_trim, "!!"), trimmed_text);
}
