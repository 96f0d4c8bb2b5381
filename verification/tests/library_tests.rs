use netrc::lex::Lex;
use netrc::{Authenticator, Error, Netrc};

#[test]
fn lex_tokens_quotes_and_escapes() {
    let mut lex = Lex::new("plain \"quo ted\" a\\\"b \"x\\\"y\" tail");
    assert_eq!(lex.get_token(), "plain");
    assert_eq!(lex.get_token(), "quo ted");
    assert_eq!(lex.get_token(), "a\"b");
    assert_eq!(lex.get_token(), "x\"y");
    assert_eq!(lex.get_token(), "tail");
    assert_eq!(lex.get_token(), "");
}

#[test]
fn lex_trailing_backslash_yields_space() {
    let mut lex = Lex::new("abc\\");
    assert_eq!(lex.get_token(), "abc ");
    let mut lex2 = Lex::new("\"abc\\");
    assert_eq!(lex2.get_token(), "abc ");
}

#[test]
fn lex_unterminated_quote_returns_accumulated() {
    let mut lex = Lex::new("\"never closed");
    assert_eq!(lex.get_token(), "never closed");
    assert_eq!(lex.get_token(), "");
}

#[test]
fn lex_empty_quoted_token() {
    let mut lex = Lex::new("\"\" after");
    assert_eq!(lex.get_token(), "");
    assert_eq!(lex.get_token(), "after");
}

#[test]
fn lex_pushback_is_replayed_first() {
    let mut lex = Lex::new("one two");
    let t = lex.get_token();
    assert_eq!(t, "one");
    lex.push_token(&t);
    assert_eq!(lex.get_token(), "one");
    assert_eq!(lex.get_token(), "two");
}

#[test]
fn lex_read_char_and_lines() {
    let mut lex = Lex::new("ab\ncd\nef");
    assert_eq!(lex.read_char(), Some('a'));
    assert_eq!(lex.lineno(), 1);
    assert_eq!(lex.read_line(), "b");
    assert_eq!(lex.read_line(), "cd");
    assert_eq!(lex.read_line(), "ef");
    assert_eq!(lex.read_line(), "");
}

#[test]
fn lex_counts_lines_across_tokens() {
    let mut lex = Lex::new("a\nb\n\nc");
    assert_eq!(lex.get_token(), "a");
    assert_eq!(lex.lineno(), 2);
    assert_eq!(lex.get_token(), "b");
    assert_eq!(lex.get_token(), "c");
    assert_eq!(lex.lineno(), 4);
}

#[test]
fn error_line_number_counts_newlines() {
    let err = Netrc::from_str("machine h login l\npassword p\nbogus t\n").unwrap_err();
    assert_eq!(err.to_text(), "parsing error: bad follower token 'bogus' (line 3)");
}

#[test]
fn missing_machine_name_is_an_error() {
    let err = Netrc::from_str("machine").unwrap_err();
    assert_eq!(err.to_text(), "parsing error: missing 'machine' name (line 1)");
}

#[test]
fn duplicate_machine_last_entry_wins() {
    let nrc = Netrc::from_str("machine h login a password x\nmachine h login b password y\n")
        .unwrap();
    assert_eq!(nrc.hosts.get("h").unwrap(), &Authenticator::new("b", "", "y"));
}

#[test]
fn absent_host_and_macro_lookups() {
    let nrc = Netrc::from_str("machine h login a password x\n").unwrap();
    assert!(nrc.hosts.get("other").is_none());
    assert!(nrc.macros.get("any").is_none());
}

#[test]
fn macro_lines_are_trimmed_and_stop_at_blank() {
    let nrc = Netrc::from_str("macdef m\n  one  \n\ttwo\n   \nmachine h login l password p\n")
        .unwrap();
    assert_eq!(nrc.macros.get("m").unwrap(), &vec!["one".to_string(), "two".to_string()]);
    assert_eq!(nrc.hosts.get("h").unwrap(), &Authenticator::new("l", "", "p"));
}

#[test]
fn serializer_renders_entries_and_macros() {
    let nrc = Netrc::from_str("machine h login l account a password p\nmacdef m\nx\ny\n\n")
        .unwrap();
    assert_eq!(
        nrc.to_text(),
        "machine h\n\tlogin l\n\taccount  a\n\tpassword  p\nmacdef m\nx\ny\n\n"
    );
}

#[test]
fn serializer_omits_empty_account() {
    let nrc = Netrc::from_str("machine h login l password p\n").unwrap();
    assert_eq!(nrc.to_text(), "machine h\n\tlogin l\n\tpassword  p\n");
}

#[test]
fn round_trip_preserves_tables() {
    let text = "machine h1 login l1 password p1 account a1\nmachine h2 login l2 password p2\nmacdef m\nrun this\nthen that\n\n";
    let first = Netrc::from_str(text).unwrap();
    let second = Netrc::from_str(&first.to_text()).unwrap();
    assert_eq!(
        second.hosts.get("h1").unwrap(),
        first.hosts.get("h1").unwrap()
    );
    assert_eq!(
        second.hosts.get("h2").unwrap(),
        first.hosts.get("h2").unwrap()
    );
    assert_eq!(second.macros.get("m").unwrap(), first.macros.get("m").unwrap());
}

#[test]
fn error_wrapper_renders_both_variants() {
    let io = Error::Io("No such file or directory (os error 2)".to_string());
    assert_eq!(io.to_text(), "I/O error: No such file or directory (os error 2)");
    let parser = Netrc::from_str("oops").unwrap_err();
    let wrapped = Error::Parsing { parser, filename: "/tmp/netrc".to_string() };
    assert_eq!(
        wrapped.to_text(),
        "parsing error: bad toplevel token 'oops' (line 1) in the file '/tmp/netrc'"
    );
}

#[test]
fn quoted_empty_field_is_empty_string() {
    let nrc = Netrc::from_str("machine h login \"\" password p\n").unwrap();
    assert_eq!(nrc.hosts.get("h").unwrap(), &Authenticator::new("", "", "p"));
}

#[test]
fn attribute_order_does_not_matter() {
    let a = Netrc::from_str("machine h login l account a password p\n").unwrap();
    let b = Netrc::from_str("machine h password p account a login l\n").unwrap();
    let c = Netrc::from_str("machine h account a password p login l\n").unwrap();
    assert_eq!(a.hosts.get("h").unwrap(), b.hosts.get("h").unwrap());
    assert_eq!(b.hosts.get("h").unwrap(), c.hosts.get("h").unwrap());
}

#[test]
fn user_is_a_synonym_for_login() {
    let nrc = Netrc::from_str("machine h user u password p\n").unwrap();
    assert_eq!(nrc.hosts.get("h").unwrap(), &Authenticator::new("u", "", "p"));
}
