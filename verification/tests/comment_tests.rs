use netrc::{Authenticator, Netrc};

fn test_comment(data: &str) {
    let nrc = Netrc::from_str(data).unwrap();
    assert_eq!(
        nrc.hosts.get("foo.domain.com").unwrap(),
        &Authenticator::new("bar", "", "pass")
    );
    assert_eq!(
        nrc.hosts.get("bar.domain.com").unwrap(),
        &Authenticator::new("foo", "", "pass")
    );
}

#[test]
fn test_comment_before_machine_line() {
    test_comment(
        r#"# comment
            machine foo.domain.com login bar password pass
            machine bar.domain.com login foo password pass
            "#,
    );
}

#[test]
fn test_comment_before_machine_line_no_space() {
    test_comment(
        r#"#comment
            machine foo.domain.com login bar password pass
            machine bar.domain.com login foo password pass
            "#,
    );
}

#[test]
fn test_comment_before_machine_line_hash_only() {
    test_comment(
        r#"#
            machine foo.domain.com login bar password pass
            machine bar.domain.com login foo password pass
            "#,
    );
}

#[test]
fn test_comment_after_machine_line() {
    test_comment(
        r#"machine foo.domain.com login bar password pass
            # comment
            machine bar.domain.com login foo password pass
            "#,
    );
    test_comment(
        r#"machine foo.domain.com login bar password pass
            machine bar.domain.com login foo password pass
            # comment
            "#,
    );
}

#[test]
fn test_comment_after_machine_line_no_space() {
    test_comment(
        r#"machine foo.domain.com login bar password pass
            #comment
            machine bar.domain.com login foo password pass
            "#,
    );
    test_comment(
        r#"machine foo.domain.com login bar password pass
            machine bar.domain.com login foo password pass
            #comment
            "#,
    );
}

#[test]
fn test_comment_after_machine_line_hash_only() {
    test_comment(
        r#"machine foo.domain.com login bar password pass
            #
            machine bar.domain.com login foo password pass
            "#,
    );
    test_comment(
        r#"machine foo.domain.com login bar password pass
            machine bar.domain.com login foo password pass
            #
            "#,
    );
}

#[test]
fn test_comment_at_end_of_machine_line() {
    test_comment(
        r#"machine foo.domain.com login bar password pass # comment
            machine bar.domain.com login foo password pass
            "#,
    );
}

#[test]
fn test_comment_at_end_of_machine_line_no_space() {
    test_comment(
        r#"machine foo.domain.com login bar password pass #comment
            machine bar.domain.com login foo password pass
            "#,
    );
}

#[test]
fn test_comment_at_end_of_machine_line_pass_has_hash() {
    let nrc = Netrc::from_str(
        r#"machine foo.domain.com login bar password #pass #comment
            machine bar.domain.com login foo password pass
        "#,
    )
    .unwrap();
    assert_eq!(
        nrc.hosts.get("foo.domain.com").unwrap(),
        &Authenticator::new("bar", "", "#pass")
    );
    assert_eq!(
        nrc.hosts.get("bar.domain.com").unwrap(),
        &Authenticator::new("foo", "", "pass")
    );
}
