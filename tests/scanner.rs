use linked::scanner::scan;

fn toks(v: &[&str]) -> Vec<String> {
    v.iter().map(|s| s.to_string()).collect()
}

#[test]
fn scans_a_simple_form() {
    assert_eq!(scan("(+ 1 2)"), toks(&["(", "+", "1", "2", ")"]));
}

#[test]
fn scans_empty_input() {
    assert_eq!(scan(""), Vec::<String>::new());
}

#[test]
fn single_char_lexemes_split_words() {
    assert_eq!(scan("a*b=c"), toks(&["a", "*", "b", "=", "c"]));
}

#[test]
fn prefix_chars_start_words_only() {
    assert_eq!(scan("-5 a-b +x"), toks(&["-5", "a-b", "+x"]));
}

#[test]
fn strings_keep_quotes_and_decode_escapes() {
    assert_eq!(scan("\"a\\nb\" x"), toks(&["\"a\nb\"", "x"]));
    assert_eq!(scan("\"q\\\"z\""), toks(&["\"q\"z\""]));
    assert_eq!(scan("\"a\\qb\""), toks(&["\"a\\qb\""]));
}

#[test]
fn strings_keep_spaces() {
    assert_eq!(scan("(\"a b\")"), toks(&["(", "\"a b\"", ")"]));
}

#[test]
fn comments_run_to_end_of_line() {
    assert_eq!(scan("x ; a comment (\ny"), toks(&["x", "y"]));
}

#[test]
fn whitespace_kinds_separate() {
    assert_eq!(scan("a\tb\r\nc"), toks(&["a", "b", "c"]));
}

#[test]
fn unfinished_token_is_flushed() {
    assert_eq!(scan("(define x"), toks(&["(", "define", "x"]));
}
