use netrc::{Authenticator, Netrc};

fn test_token_x(data: &str, token: &str, value: &str) {
    let nrc = Netrc::from_str(data).unwrap();
    match token {
        "login" => {
            assert_eq!(
                nrc.hosts.get("host.domain.com").unwrap(),
                &Authenticator::new(value, "acct", "pass")
            );
        }
        "account" => {
            assert_eq!(
                nrc.hosts.get("host.domain.com").unwrap(),
                &Authenticator::new("log", value, "pass")
            );
        }
        "password" => {
            assert_eq!(
                nrc.hosts.get("host.domain.com").unwrap(),
                &Authenticator::new("log", "acct", value)
            );
        }
        _ => {}
    };
}

#[test]
fn test_token_value_quotes() {
    test_token_x(
        "\
            machine host.domain.com login \"log\" password pass account acct
            ",
        "login",
        "log",
    );
    test_token_x(
        "\
            machine host.domain.com login log password pass account \"acct\"
            ",
        "account",
        "acct",
    );
    test_token_x(
        "\
            machine host.domain.com login log password \"pass\" account acct
            ",
        "password",
        "pass",
    );
}

#[test]
fn test_token_value_escape() {
    test_token_x(
        r#"machine host.domain.com login \"log password pass account acct"#,
        "login",
        "\"log",
    );
    test_token_x(
        "\
            machine host.domain.com login \"\\\"log\" password pass account acct
            ",
        "login",
        "\"log",
    );
    test_token_x(
        "\
            machine host.domain.com login log password pass account \\\"acct
            ",
        "account",
        "\"acct",
    );
    test_token_x(
        "\
            machine host.domain.com login log password pass account \"\\\"acct\"
            ",
        "account",
        "\"acct",
    );
    test_token_x(
        "\
            machine host.domain.com login log password \\\"pass account acct
            ",
        "password",
        "\"pass",
    );
    test_token_x(
        "\
            machine host.domain.com login log password \"\\\"pass\" account acct
            ",
        "password",
        "\"pass",
    );
}

#[test]
fn test_token_value_whitespace() {
    test_token_x(
        r#"machine host.domain.com login "lo g" password pass account acct"#,
        "login",
        "lo g",
    );
    test_token_x(
        r#"machine host.domain.com login log password "pas s" account acct"#,
        "password",
        "pas s",
    );
    test_token_x(
        r#"machine host.domain.com login log password pass account "acc t""#,
        "account",
        "acc t",
    );
}

#[test]
fn test_token_value_non_ascii() {
    test_token_x(
        r#"machine host.domain.com login ¡¢ password pass account acct"#,
        "login",
        "¡¢",
    );
    test_token_x(
        r#"machine host.domain.com login log password pass account ¡¢"#,
        "account",
        "¡¢",
    );
    test_token_x(
        r#"machine host.domain.com login log password ¡¢ account acct"#,
        "password",
        "¡¢",
    );
}

#[test]
fn test_token_value_leading_hash() {
    test_token_x(
        r#"machine host.domain.com login #log password pass account acct"#,
        "login",
        "#log",
    );
    test_token_x(
        r#"machine host.domain.com login log password pass account #acct"#,
        "account",
        "#acct",
    );
    test_token_x(
        r#"machine host.domain.com login log password #pass account acct"#,
        "password",
        "#pass",
    );
}

#[test]
fn test_token_value_trailing_hash() {
    test_token_x(
        r#"machine host.domain.com login log# password pass account acct"#,
        "login",
        "log#",
    );
    test_token_x(
        r#"machine host.domain.com login log password pass account acct#"#,
        "account",
        "acct#",
    );
    test_token_x(
        r#"machine host.domain.com login log password pass# account acct"#,
        "password",
        "pass#",
    );
}

#[test]
fn test_token_value_internal_hash() {
    test_token_x(
        r#"machine host.domain.com login lo#g password pass account acct"#,
        "login",
        "lo#g",
    );
    test_token_x(
        r#"machine host.domain.com login log password pass account ac#ct"#,
        "account",
        "ac#ct",
    );
    test_token_x(
        r#"machine host.domain.com login log password pa#ss account acct"#,
        "password",
        "pa#ss",
    );
}
