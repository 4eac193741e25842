use ere::{EncodeNewlines, NewlineEncoded};

fn encoded(text: &str) -> NewlineEncoded {
    text.encode_newlines()
}

#[test]
fn encodes_newlines() {
    assert_eq!(encoded("a\nb").to_string(), "a\\nb");
    assert_eq!(encoded("\n\n").to_string(), "\\n\\n");
    assert_eq!(String::from("a\nb").encode_newlines().to_string(), "a\\nb");
}

#[test]
fn encodes_nothing_else() {
    assert_eq!(encoded("a\\nb").to_string(), "a\\nb");
    assert_eq!(encoded("").to_string(), "");
    assert_eq!(encoded("plain").to_string(), "plain");
}

#[test]
fn decodes_newlines() {
    assert_eq!(encoded("a\nb").decode_newlines(), "a\nb");
    assert_eq!(encoded("\n").decode_newlines(), "\n");
    assert_eq!(encoded("x\\").decode_newlines(), "x\\");
}

#[test]
fn decodes_a_written_pair_as_a_newline() {
    assert_eq!(encoded("a\\nb").decode_newlines(), "a\nb");
    assert_eq!(encoded("\\\\n").decode_newlines(), "\\\n");
}
