use tinylisp::lex::{
    expect, first_char, is_ascii_space, same_text, skip_space, take_while, ParseErrorKind,
};

#[test]
fn skip_space_removes_leading_whitespace() {
    assert_eq!(skip_space("  \t\n\r\x0C a b "), "a b ");
    assert_eq!(skip_space("abc"), "abc");
    assert_eq!(skip_space(""), "");
    assert_eq!(skip_space("   "), "");
}

#[test]
fn skip_space_keeps_other_blank_characters() {
    // A vertical tab and a no-break space are not ASCII whitespace.
    assert_eq!(skip_space(" \x0Ba"), "\x0Ba");
    assert_eq!(skip_space(" \u{a0}a"), "\u{a0}a");
}

#[test]
fn skip_space_twice_is_skip_space_once() {
    let once = skip_space(" \t (a) ");
    assert_eq!(skip_space(once), once);
}

#[test]
fn whitespace_is_five_characters() {
    for c in [' ', '\t', '\n', '\x0C', '\r'] {
        assert!(is_ascii_space(&c));
    }
    for c in ['\x0B', 'a', '0', '(', '\u{a0}', '\0'] {
        assert!(!is_ascii_space(&c));
    }
}

#[test]
fn expect_consumes_the_literal() {
    assert_eq!(expect("(", "(a)"), Ok("a)"));
    assert_eq!(expect("def!", "def! a"), Ok(" a"));
    assert_eq!(expect("", "a"), Ok("a"));
    assert_eq!(expect("", ""), Ok(""));
    assert_eq!(expect("é", "éa"), Ok("a"));
}

#[test]
fn expect_reports_the_literal_it_missed() {
    assert_eq!(expect("(", "a)"), Err(ParseErrorKind::Expected("(")));
    assert_eq!(expect("(", " ("), Err(ParseErrorKind::Expected("(")));
    assert_eq!(expect("ab", "a"), Err(ParseErrorKind::Expected("ab")));
    assert_eq!(expect("ab", "ac"), Err(ParseErrorKind::Expected("ab")));
    assert_eq!(expect(")", ""), Err(ParseErrorKind::Expected(")")));
}

#[test]
fn take_while_takes_the_longest_run() {
    assert_eq!(
        take_while("123abc", "number", |c| c.is_ascii_digit()),
        Ok(("123", "abc"))
    );
    assert_eq!(
        take_while("123", "number", |c| c.is_ascii_digit()),
        Ok(("123", ""))
    );
    assert_eq!(
        take_while("1a2", "number", |c| c.is_ascii_digit()),
        Ok(("1", "a2"))
    );
}

#[test]
fn take_while_counts_characters_not_bytes() {
    assert_eq!(take_while("ééa", "e", |c| *c == 'é'), Ok(("éé", "a")));
    assert_eq!(take_while("aé", "a", |c| *c == 'a'), Ok(("a", "é")));
}

#[test]
fn take_while_needs_one_character() {
    assert_eq!(
        take_while("abc", "number", |c| c.is_ascii_digit()),
        Err(ParseErrorKind::Expected("number"))
    );
    assert_eq!(
        take_while("", "symbol", |_| true),
        Err(ParseErrorKind::Expected("symbol"))
    );
}

#[test]
fn same_text_compares_characters() {
    assert!(same_text("def!", "def!"));
    assert!(same_text("", ""));
    assert!(!same_text("+", "-"));
    assert!(!same_text("a", "ab"));
    assert!(!same_text("ab", "a"));
}

#[test]
fn first_char_peeks() {
    assert_eq!(first_char("(a)"), Some('('));
    assert_eq!(first_char("é"), Some('é'));
    assert_eq!(first_char(""), None);
}
