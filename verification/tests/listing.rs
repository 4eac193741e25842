use ere::{listing, parse_file_names, unescape_all, EscapeNewlines, NewlineEscaped};

fn names(names: &[&str]) -> Vec<String> {
    names.iter().map(|name| name.to_string()).collect()
}

fn lines(text: &str) -> Vec<String> {
    parse_file_names(text).iter().map(|line| line.to_string()).collect()
}

#[test]
fn listing_is_the_header_and_one_line_for_each_name() {
    assert_eq!(
        listing(&names(&["a", "b c", "d\ne", "f\\ng"])),
        "# Rename the files below.\n\
         # Do not delete or move lines as the order is used for the rename.\n\
         \n\
         a\n\
         b c\n\
         d\\ne\n\
         f\\\\ng\n"
    );
}

#[test]
fn listing_of_nothing_is_the_header() {
    assert_eq!(
        listing(&Vec::new()),
        "# Rename the files below.\n# Do not delete or move lines as the order is used for the rename.\n\n"
    );
}

#[test]
fn parsing_skips_comments_and_empty_lines() {
    assert_eq!(lines("# comment\n\na\n#b\n\nc\n"), names(&["a", "c"]));
    assert_eq!(lines(""), Vec::<String>::new());
    assert_eq!(lines("\n\n\n"), Vec::<String>::new());
    assert_eq!(lines("#"), Vec::<String>::new());
}

#[test]
fn parsing_keeps_the_order_and_the_spaces() {
    assert_eq!(lines("b\na\n a \n\t#\n"), names(&["b", "a", " a ", "\t#"]));
}

#[test]
fn parsing_reads_a_last_line_without_a_newline() {
    assert_eq!(lines("a\nb"), names(&["a", "b"]));
    assert_eq!(lines("a"), names(&["a"]));
}

#[test]
fn parsing_drops_a_carriage_return_before_a_newline() {
    assert_eq!(lines("a\r\nb\r\n"), names(&["a", "b"]));
    assert_eq!(lines("a\r\r\n"), names(&["a\r"]));
    assert_eq!(lines("\r\n"), Vec::<String>::new());
    assert_eq!(lines("a\rb\n"), names(&["a\rb"]));
    assert_eq!(lines("a\r"), names(&["a\r"]));
}

#[test]
fn parsing_leaves_the_lines_escaped() {
    assert_eq!(
        parse_file_names("a\\nb\n"),
        vec![NewlineEscaped::new("a\\nb".to_string())]
    );
    assert_eq!(parse_file_names("a\\nb\n"), vec!["a\nb".escape_newlines()]);
}

#[test]
fn unescape_all_reads_every_line() {
    let lines = vec![
        "a\nb".escape_newlines(),
        "c".escape_newlines(),
        NewlineEscaped::new("\\\\n".to_string()),
    ];
    assert_eq!(unescape_all(lines), names(&["a\nb", "c", "\\n"]));
    assert_eq!(unescape_all(Vec::new()), Vec::<String>::new());
}

#[test]
fn names_come_back_from_their_listing() {
    let written = names(&["a", "b\nc", "d\\ne", " e", "f#", "g\r\nh", "é"]);
    let read = unescape_all(parse_file_names(&listing(&written)));
    assert_eq!(read, written);
}

#[test]
fn names_that_read_as_comments_are_lost() {
    let read = unescape_all(parse_file_names(&listing(&names(&["#a", "b", ""]))));
    assert_eq!(read, names(&["b"]));
}
