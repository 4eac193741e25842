use ere::escape_newlines::{escaped, unescaped};
use ere::{EscapeNewlines, NewlineEscaped};

#[test]
fn escapes_newline() {
    assert_eq!("a\nb".escape_newlines().to_string(), r"a\nb");
}

#[test]
fn unescapes_newline() {
    assert_eq!(NewlineEscaped::new(r"a\nb".to_string()).unescape(), "a\nb");
}

#[test]
fn roundtrips_newline() {
    assert_eq!("a\nb".escape_newlines().unescape(), "a\nb");
}

#[test]
fn escapes_newline_literal() {
    assert_eq!(r"a\nb".escape_newlines().to_string(), r"a\\nb");
}

#[test]
fn unescapes_newline_literal() {
    assert_eq!(NewlineEscaped::new(r"a\\nb".to_string()).unescape(), r"a\nb");
}

#[test]
fn roundtrips_newline_literal() {
    assert_eq!(r"a\nb".escape_newlines().unescape(), r"a\nb");
}

#[test]
fn escapes_extra_backslashs() {
    assert_eq!(r"n\\n".escape_newlines().to_string(), r"n\\\n");
}

#[test]
fn unescapes_extra_backslashes() {
    assert_eq!(NewlineEscaped::new(r"n\\\n".to_string()).unescape(), r"n\\n");
}

#[test]
fn escapes_a_string_as_a_str() {
    assert_eq!(
        String::from("a\nb\\n").escape_newlines(),
        "a\nb\\n".escape_newlines()
    );
    assert_eq!(String::from("a\nb\\n").escape_newlines().as_str(), "a\\nb\\\\n");
}

#[test]
fn escapes_nothing_in_plain_text() {
    assert_eq!("plain name.txt".escape_newlines().to_string(), "plain name.txt");
    assert_eq!("".escape_newlines().to_string(), "");
    assert_eq!("n".escape_newlines().to_string(), "n");
    assert_eq!("\\".escape_newlines().to_string(), "\\");
    assert_eq!("\\\\x".escape_newlines().to_string(), "\\\\x");
}

#[test]
fn doubles_only_the_backslash_before_n() {
    assert_eq!("\\\\\\n".escape_newlines().to_string(), "\\\\\\\\n");
    assert_eq!("\\n\\n".escape_newlines().to_string(), "\\\\n\\\\n");
}

#[test]
fn escaped_lines_hold_no_newline() {
    for name in ["\n", "\n\n", "a\nb\nc", "\\\n", "x\\n\ny", "\r\n", "é\nü"] {
        let line = name.escape_newlines().to_string();
        assert!(!line.contains('\n'), "{:?}", line);
    }
}

#[test]
fn unescape_flushes_backslashes_before_other_characters() {
    assert_eq!(NewlineEscaped::new("\\nx\\y".to_string()).unescape(), "\nx\\y");
    assert_eq!(NewlineEscaped::new("a\\\\b".to_string()).unescape(), "a\\\\b");
}

#[test]
fn unescape_flushes_backslashes_at_the_end() {
    assert_eq!(NewlineEscaped::new("\\na\\".to_string()).unescape(), "\na\\");
    assert_eq!(NewlineEscaped::new("\\\\".to_string()).unescape(), "\\\\");
}

#[test]
fn unescape_reads_n_after_a_run_of_backslashes() {
    assert_eq!(NewlineEscaped::new("n".to_string()).unescape(), "n");
    assert_eq!(NewlineEscaped::new("\\n".to_string()).unescape(), "\n");
    assert_eq!(NewlineEscaped::new("\\\\n".to_string()).unescape(), "\\n");
    assert_eq!(NewlineEscaped::new("\\\\\\\\n".to_string()).unescape(), "\\\\\\n");
}

#[test]
fn round_trip_holds_without_a_newline_after_a_backslash() {
    for name in [
        "",
        "a",
        "\n",
        "\n\n",
        "a\nb",
        "\\n",
        "\\\\n",
        "\\\\\\n\n",
        "n\\",
        "\\x\n",
        "é\nü\\n",
        "\\n\\n\n\\nn",
    ] {
        assert_eq!(name.escape_newlines().unescape(), name, "{:?}", name);
    }
}

#[test]
fn newline_after_a_backslash_comes_back_as_n() {
    assert_eq!("\\\n".escape_newlines().to_string(), "\\\\n");
    assert_eq!("\\\n".escape_newlines().unescape(), "\\n");
    assert_eq!("a\\\\\nb".escape_newlines().unescape(), "a\\\\nb");
}

#[test]
fn lines_compare_by_their_text() {
    let line = NewlineEscaped::new("a\\nb".to_string());
    assert_eq!(line.clone(), line);
    assert_eq!(line, "a\nb".escape_newlines());
    assert_ne!(line, "a\\nb".escape_newlines());
}

#[test]
fn text_is_escaped_and_read_back_as_lines_are() {
    assert_eq!(escaped("a\nb\\n"), "a\\nb\\\\n");
    assert_eq!(unescaped("a\\nb\\\\n"), "a\nb\\n");
    assert_eq!(unescaped(&escaped("x\n\\ny")), "x\n\\ny");
}
